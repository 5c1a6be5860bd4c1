//! Decoded PCM audio and waveform generation from it.
use vstd::prelude::*;

use crate::error::{Error, is_invalid_argument};
use crate::scale::{ScaleSpec, scale_candidate, scale_error, scale_resolves};
use crate::waveform::{
    Waveform,
    WaveformPoint,
    WaveformView,
    flatten_points,
    max_i16,
    metadata_error,
    min_i16,
    valid_metadata,
};

verus! {

/// The mathematical content of a [`PcmAudio`] buffer.
pub struct PcmView {
    pub sample_rate: u32,
    pub channels: u16,
    /// Interleaved samples, frame by frame.
    pub samples: Seq<i16>,
}

impl PcmView {
    /// The invariant every PCM buffer keeps.
    pub open spec fn well_formed(self) -> bool {
        &&& self.sample_rate > 0
        &&& self.channels > 0
        &&& (self.samples.len() as int) % (self.channels as int) == 0
    }

    /// Number of audio frames.
    pub open spec fn frames(self) -> int {
        self.samples.len() as int / self.channels as int
    }
}

/// `PcmAudio::new` accepts exactly these arguments.
pub open spec fn valid_pcm(sample_rate: u32, channels: u16, len: int) -> bool {
    sample_rate > 0 && channels > 0 && len % (channels as int) == 0
}

/// `e` is the error `PcmAudio::new` reports for invalid arguments.
pub open spec fn pcm_error(e: Error, sample_rate: u32, channels: u16) -> bool {
    if sample_rate == 0 {
        is_invalid_argument(
            e,
            "sample rate"@,
            "Invalid input sample rate: must be greater than zero"@,
        )
    } else if channels == 0 {
        is_invalid_argument(
            e,
            "channels"@,
            "Invalid number of input channels: must be greater than zero"@,
        )
    } else {
        is_invalid_argument(
            e,
            "samples"@,
            "Interleaved PCM sample count must be divisible by the channel count"@,
        )
    }
}

/// A decoded interleaved PCM audio buffer.
#[derive(Debug)]
pub struct PcmAudio {
    sample_rate: u32,
    channels: u16,
    samples: Vec<i16>,
}

impl View for PcmAudio {
    type V = PcmView;

    closed spec fn view(&self) -> PcmView {
        PcmView { sample_rate: self.sample_rate, channels: self.channels, samples: self.samples@ }
    }
}

impl PcmAudio {
    /// The buffer invariant.
    pub open spec fn wf(&self) -> bool {
        self@.well_formed()
    }

    /// Creates a PCM buffer from interleaved 16-bit samples.
    pub fn new(sample_rate: u32, channels: u16, samples: Vec<i16>) -> (r: Result<PcmAudio, Error>)
        ensures
            r is Ok <==> valid_pcm(sample_rate, channels, samples@.len() as int),
            r matches Ok(p) ==> p.wf() && p@ == (PcmView { sample_rate, channels, samples: samples@ }),
            r matches Err(e) ==> pcm_error(e, sample_rate, channels),
    {
        if sample_rate == 0 {
            return Err(
                Error::invalid_argument(
                    "sample rate",
                    "Invalid input sample rate: must be greater than zero",
                ),
            );
        }
        if channels == 0 {
            return Err(
                Error::invalid_argument(
                    "channels",
                    "Invalid number of input channels: must be greater than zero",
                ),
            );
        }
        if samples.len() % (channels as usize) != 0 {
            return Err(
                Error::invalid_argument(
                    "samples",
                    "Interleaved PCM sample count must be divisible by the channel count",
                ),
            );
        }
        Ok(PcmAudio { sample_rate, channels, samples })
    }

    /// Returns the source sample rate in Hz.
    pub fn sample_rate(&self) -> (r: u32)
        ensures
            r == self@.sample_rate,
    {
        self.sample_rate
    }

    /// Returns the channel count.
    pub fn channels(&self) -> (r: u16)
        ensures
            r == self@.channels,
    {
        self.channels
    }

    /// Returns the interleaved PCM samples.
    pub fn samples(&self) -> (r: &[i16])
        ensures
            r@ == self@.samples,
    {
        self.samples.as_slice()
    }

    /// Returns the number of audio frames.
    pub fn frame_count(&self) -> (r: usize)
        requires
            self.wf(),
        ensures
            r == self@.frames(),
    {
        self.samples.len() / (self.channels as usize)
    }
}

/// Waveform generation settings.
///
/// Amplitude scaling, when wanted, is applied to the generated waveform with
/// [`Waveform::scale_amplitude`].
#[derive(Clone, Copy, Debug, PartialEq, Eq, Structural)]
pub struct GenerateOptions {
    /// Scale selection.
    pub scale: ScaleSpec,
    /// Whether to keep each source channel separate in the waveform output.
    pub split_channels: bool,
}

impl Default for GenerateOptions {
    fn default() -> (r: GenerateOptions)
        ensures
            r == (GenerateOptions { scale: ScaleSpec::SamplesPerPixel(256), split_channels: false }),
    {
        GenerateOptions { scale: ScaleSpec::SamplesPerPixel(256), split_channels: false }
    }
}

/// Sum of `n` consecutive samples starting at `base`.
pub open spec fn sample_sum(s: Seq<i16>, base: int, n: int) -> int
    decreases n,
{
    if n <= 0 {
        0
    } else {
        sample_sum(s, base, n - 1) + s[base + n - 1]
    }
}

/// Integer division rounding toward zero, as Rust's `/` on signed integers.
pub open spec fn trunc_div(x: int, d: int) -> int {
    if x >= 0 {
        x / d
    } else {
        -((-x) / d)
    }
}

/// The value frame `f` contributes to output channel `c`: the sample of
/// channel `c` when channels are split, otherwise the mean of the frame
/// rounded toward zero.
pub open spec fn frame_value(p: PcmView, split: bool, f: int, c: int) -> i16 {
    let ch = p.channels as int;
    if split {
        p.samples[f * ch + c]
    } else {
        trunc_div(sample_sum(p.samples, f * ch, ch), ch) as i16
    }
}

/// The number of channels a generated waveform has.
pub open spec fn output_channels(p: PcmView, split: bool) -> u16 {
    if split {
        p.channels
    } else {
        1
    }
}

/// The smallest value of output channel `c` over frames `lo..hi`.
pub open spec fn frames_min(p: PcmView, split: bool, c: int, lo: int, hi: int) -> i16
    decreases hi - lo,
{
    if hi <= lo {
        i16::MAX
    } else {
        min_i16(frames_min(p, split, c, lo, hi - 1), frame_value(p, split, hi - 1, c))
    }
}

/// The largest value of output channel `c` over frames `lo..hi`.
pub open spec fn frames_max(p: PcmView, split: bool, c: int, lo: int, hi: int) -> i16
    decreases hi - lo,
{
    if hi <= lo {
        i16::MIN
    } else {
        max_i16(frames_max(p, split, c, lo, hi - 1), frame_value(p, split, hi - 1, c))
    }
}

/// The waveform points, one per output channel, for frames `lo..hi`.
pub open spec fn frames_point_data(p: PcmView, split: bool, lo: int, hi: int) -> Seq<i16> {
    flatten_points(
        Seq::new(
            output_channels(p, split) as nat,
            |c: int| WaveformPoint { min: frames_min(p, split, c, lo, hi), max: frames_max(p, split, c, lo, hi) },
        ),
    )
}

/// The waveform data for buckets of `spp` frames starting at frame `start`.
pub open spec fn generated_from(p: PcmView, split: bool, spp: int, start: int) -> Seq<i16>
    decreases p.frames() - start,
{
    if spp <= 0 || start < 0 || start >= p.frames() {
        Seq::empty()
    } else {
        let end = if p.frames() - start <= spp { p.frames() } else { start + spp };
        frames_point_data(p, split, start, end) + generated_from(p, split, spp, end)
    }
}

/// The waveform generated from `p` with `spp` frames per point.
pub open spec fn generated_view(p: PcmView, split: bool, spp: u32) -> WaveformView {
    WaveformView {
        sample_rate: p.sample_rate,
        samples_per_pixel: spp,
        channels: output_channels(p, split),
        storage_bits: 16,
        data: generated_from(p, split, spp as int, 0),
    }
}

/// A frame's sample sum stays within the bounds of its sample count.
pub proof fn lemma_sample_sum_bounds(s: Seq<i16>, base: int, n: int)
    requires
        0 <= base,
        0 <= n,
        base + n <= s.len(),
    ensures
        -32768 * n <= sample_sum(s, base, n) <= 32767 * n,
    decreases n,
{
    if n > 0 {
        lemma_sample_sum_bounds(s, base, n - 1);
    }
}

/// Each bucket contributes one point per output channel.
pub proof fn lemma_generated_well_formed(p: PcmView, split: bool, spp: int, start: int)
    requires
        p.well_formed(),
    ensures
        (generated_from(p, split, spp, start).len() as int) % (2 * output_channels(p, split) as int)
            == 0,
    decreases p.frames() - start,
{
    let ch = 2 * output_channels(p, split) as int;
    if spp <= 0 || start < 0 || start >= p.frames() {
        assert(generated_from(p, split, spp, start).len() == 0);
    } else {
        let end = if p.frames() - start <= spp { p.frames() } else { start + spp };
        lemma_generated_well_formed(p, split, spp, end);
        let f = frames_point_data(p, split, start, end);
        let rest = generated_from(p, split, spp, end);
        assert(generated_from(p, split, spp, start) == f + rest);
        assert(f.len() == ch);
        assert((ch + rest.len() as int) % ch == 0) by (nonlinear_arith)
            requires
                (rest.len() as int) % ch == 0,
                ch > 0,
        ;
        assert(generated_from(p, split, spp, start).len() == ch + rest.len());
        assert((generated_from(p, split, spp, start).len() as int) % ch == 0);
    }
}

impl PcmAudio {
    /// The value of frame `f` for output channel `c`.
    fn frame_value(&self, split: bool, f: usize, c: usize) -> (r: i16)
        requires
            self.wf(),
            f < self@.frames(),
            c < output_channels(self@, split),
        ensures
            r == frame_value(self@, split, f as int, c as int),
    {
        let ch = self.channels as usize;
        let n = self.samples.len();
        let ghost p = self@;
        proof {
            let (fi, chi) = (f as int, ch as int);
            assert(fi * chi + chi <= p.samples.len()) by (nonlinear_arith)
                requires
                    fi < p.samples.len() as int / chi,
                    chi > 0,
                    fi >= 0,
            ;
        }
        let base = f * ch;
        if split {
            return self.samples[base + c];
        }
        let mut sum: i32 = 0;
        let mut i: usize = 0;
        while i < ch
            invariant
                self.wf(),
                p == self@,
                ch == p.channels,
                i <= ch,
                base + ch <= n,
                n == p.samples.len(),
                sum == sample_sum(p.samples, base as int, i as int),
            decreases ch - i,
        {
            proof {
                lemma_sample_sum_bounds(p.samples, base as int, i + 1);
                assert(ch <= 65535);
            }
            sum = sum + self.samples[base + i] as i32;
            i = i + 1;
        }
        proof {
            lemma_sample_sum_bounds(p.samples, base as int, ch as int);
        }
        let divisor = ch as i32;
        let mean: i32 = if sum >= 0 {
            sum / divisor
        } else {
            -((-sum) / divisor)
        };
        proof {
            let n = ch as int;
            let s = sum as int;
            assert(-32768 <= trunc_div(s, n) <= 32767) by (nonlinear_arith)
                requires
                    -32768 * n <= s <= 32767 * n,
                    n > 0,
            ;
        }
        mean as i16
    }
}

/// The outcome of generating a waveform: `r` is what
/// `generate_waveform_from_pcm` returns for `p` and `options`.
pub open spec fn generated_result(p: PcmView, options: GenerateOptions, r: Result<Waveform, Error>) -> bool {
    let spp = scale_candidate(options.scale, p.sample_rate, p.frames() as usize);
    let oc = output_channels(p, options.split_channels);
    &&& r is Ok <==> scale_resolves(options.scale, p.sample_rate, p.frames() as usize)
        && valid_metadata(p.sample_rate, spp as u32, oc)
    &&& r matches Ok(w) ==> w.wf() && w@ == generated_view(p, options.split_channels, spp as u32)
    &&& r matches Err(e) ==> if !scale_resolves(options.scale, p.sample_rate, p.frames() as usize) {
        scale_error(e, options.scale)
    } else {
        metadata_error(e, p.sample_rate, spp as u32, oc)
    }
}

/// Generates a waveform from in-memory PCM samples.
pub fn generate_waveform_from_pcm(pcm: &PcmAudio, options: &GenerateOptions) -> (r: Result<
    Waveform,
    Error,
>)
    requires
        pcm.wf(),
    ensures
        generated_result(pcm@, *options, r),
{
    let frames = pcm.frame_count();
    let spp = options.scale.resolve(pcm.sample_rate, frames)?;
    let split = options.split_channels;
    let out_channels: u16 = if split {
        pcm.channels
    } else {
        1
    };
    let empty = Waveform::new(pcm.sample_rate, spp, out_channels)?;
    let ghost p = pcm@;
    let oc = out_channels as usize;
    let step = spp as usize;
    let mut data: Vec<i16> = Vec::new();
    let mut start: usize = 0;
    while start < frames
        invariant
            pcm.wf(),
            p == pcm@,
            frames == p.frames(),
            oc == output_channels(p, split),
            step == spp,
            spp >= 2,
            start <= frames,
            data@ + generated_from(p, split, step as int, start as int) == generated_from(
                p,
                split,
                step as int,
                0,
            ),
        decreases frames - start,
    {
        let end = if frames - start <= step {
            frames
        } else {
            start + step
        };
        let mut mins: Vec<i16> = vec![i16::MAX; oc];
        let mut maxs: Vec<i16> = vec![i16::MIN; oc];
        let mut f = start;
        while f < end
            invariant
                pcm.wf(),
                p == pcm@,
                frames == p.frames(),
                oc == output_channels(p, split),
                start <= f <= end <= frames,
                mins@.len() == oc,
                maxs@.len() == oc,
                forall|c: int| 0 <= c < oc ==> #[trigger] mins@[c] == frames_min(p, split, c, start as int, f as int),
                forall|c: int| 0 <= c < oc ==> #[trigger] maxs@[c] == frames_max(p, split, c, start as int, f as int),
            decreases end - f,
        {
            let mut c: usize = 0;
            while c < oc
                invariant
                    pcm.wf(),
                    p == pcm@,
                    frames == p.frames(),
                    oc == output_channels(p, split),
                    start <= f < end <= frames,
                    c <= oc,
                    mins@.len() == oc,
                    maxs@.len() == oc,
                    forall|d: int| 0 <= d < c ==> #[trigger] mins@[d] == frames_min(p, split, d, start as int, f + 1),
                    forall|d: int| c <= d < oc ==> #[trigger] mins@[d] == frames_min(p, split, d, start as int, f as int),
                    forall|d: int| 0 <= d < c ==> #[trigger] maxs@[d] == frames_max(p, split, d, start as int, f + 1),
                    forall|d: int| c <= d < oc ==> #[trigger] maxs@[d] == frames_max(p, split, d, start as int, f as int),
                decreases oc - c,
            {
                let value = pcm.frame_value(split, f, c);
                if value < mins[c] {
                    mins.set(c, value);
                }
                if value > maxs[c] {
                    maxs.set(c, value);
                }
                assert(mins@[c as int] == frames_min(p, split, c as int, start as int, f + 1));
                assert(maxs@[c as int] == frames_max(p, split, c as int, start as int, f + 1));
                c = c + 1;
            }
            f = f + 1;
        }
        let ghost before = data@;
        let ghost pts = Seq::new(
            oc as nat,
            |c: int|
                WaveformPoint {
                    min: frames_min(p, split, c, start as int, end as int),
                    max: frames_max(p, split, c, start as int, end as int),
                },
        );
        let mut c: usize = 0;
        while c < oc
            invariant
                c <= oc,
                mins@.len() == oc,
                maxs@.len() == oc,
                pts.len() == oc,
                forall|d: int| 0 <= d < oc ==> #[trigger] pts[d] == (WaveformPoint {
                    min: frames_min(p, split, d, start as int, end as int),
                    max: frames_max(p, split, d, start as int, end as int),
                }),
                forall|d: int| 0 <= d < oc ==> #[trigger] mins@[d] == frames_min(p, split, d, start as int, end as int),
                forall|d: int| 0 <= d < oc ==> #[trigger] maxs@[d] == frames_max(p, split, d, start as int, end as int),
                data@ == before + flatten_points(pts.subrange(0, c as int)),
            decreases oc - c,
        {
            data.push(mins[c]);
            data.push(maxs[c]);
            c = c + 1;
            assert(data@ =~= before + flatten_points(pts.subrange(0, c as int)));
        }
        assert(pts.subrange(0, oc as int) =~= pts);
        assert(generated_from(p, split, step as int, start as int) == frames_point_data(
            p,
            split,
            start as int,
            end as int,
        ) + generated_from(p, split, step as int, end as int));
        assert(data@ + generated_from(p, split, step as int, end as int) =~= before
            + generated_from(p, split, step as int, start as int));
        start = end;
    }
    assert(generated_from(p, split, step as int, start as int) =~= Seq::<i16>::empty());
    assert(data@ =~= generated_from(p, split, step as int, 0));
    proof {
        lemma_generated_well_formed(p, split, step as int, 0);
    }
    let w = Waveform::from_interleaved_samples(pcm.sample_rate, spp, out_channels, data, 16);
    match w {
        Ok(w) => Ok(w),
        Err(e) => Err(e),
    }
}

} // verus!
