//! The waveform value: metadata plus interleaved min/max points.
use vstd::prelude::*;

use crate::bytes::{
    read_i16_le,
    read_i32_le,
    read_u32_le,
    seq_le_i16,
    seq_le_i32,
    seq_le_u32,
    u16_le_bytes,
    u32_le_bytes,
    write_i16_le,
    write_i32_le,
    write_u32_le,
};
use crate::error::{Error, is_invalid_argument, is_invalid_data};
use crate::scale::{ScaleSpec, scale_candidate, scale_error, scale_resolves};
use crate::format::WaveformFormat;
use crate::text::{
    decimal,
    decimal_string,
    decimal_string_unsigned,
    decimal_text,
    push_decimal,
    push_decimal_unsigned,
    push_str,
};
use vstd::string::StringSliceAdditionalSpecFns;

verus! {

/// The largest number of channels a waveform may hold.
pub const MAX_CHANNELS: u16 = 24;

/// A single waveform point containing the minimum and maximum sample value for a bucket.
#[derive(Clone, Copy, Debug, PartialEq, Eq, Structural)]
pub struct WaveformPoint {
    /// Minimum sample value for the bucket.
    pub min: i16,
    /// Maximum sample value for the bucket.
    pub max: i16,
}

/// The mathematical content of a [`Waveform`].
pub struct WaveformView {
    pub sample_rate: u32,
    pub samples_per_pixel: u32,
    pub channels: u16,
    pub storage_bits: u8,
    /// Interleaved `min, max` pairs, frame by frame, channel by channel.
    pub data: Seq<i16>,
}

/// Metadata that every waveform must satisfy.
pub open spec fn valid_metadata(sample_rate: u32, samples_per_pixel: u32, channels: u16) -> bool {
    &&& sample_rate != 0
    &&& samples_per_pixel >= 2
    &&& 1 <= channels <= MAX_CHANNELS
}

/// The storage depths a waveform may be serialized with.
pub open spec fn valid_bits(bits: u8) -> bool {
    bits == 8 || bits == 16
}

/// `e` is the error that metadata validation reports for invalid metadata.
pub open spec fn metadata_error(e: Error, sample_rate: u32, samples_per_pixel: u32, channels: u16) -> bool {
    if sample_rate == 0 {
        is_invalid_argument(e, "sample rate"@, "Invalid sample rate: minimum 1 Hz"@)
    } else if samples_per_pixel < 2 {
        is_invalid_argument(e, "samples per pixel"@, "Invalid samples per pixel: minimum 2"@)
    } else {
        is_invalid_argument(e, "channels"@, "Invalid channels: must be between 1 and 24"@)
    }
}

/// `e` is the error that storage depth validation reports.
pub open spec fn bits_error(e: Error) -> bool {
    is_invalid_argument(e, "bits"@, "Invalid bits: must be either 8 or 16"@)
}

/// Interleaves points into `min, max` pairs.
pub open spec fn flatten_points(points: Seq<WaveformPoint>) -> Seq<i16> {
    Seq::new(2 * points.len(), |j: int| if j % 2 == 0 { points[j / 2].min } else { points[j / 2].max })
}

impl WaveformView {
    /// The invariant every waveform value keeps.
    pub open spec fn well_formed(self) -> bool {
        &&& valid_metadata(self.sample_rate, self.samples_per_pixel, self.channels)
        &&& valid_bits(self.storage_bits)
        &&& (self.data.len() as int) % (2 * self.channels as int) == 0
    }

    /// Number of points per channel.
    pub open spec fn len(self) -> nat {
        ((self.data.len() as int) / (2 * self.channels as int)) as nat
    }

    /// Offset of the `min` value of point `index` of `channel` in `data`.
    pub open spec fn offset(self, channel: int, index: int) -> int {
        (index * self.channels + channel) * 2
    }

    /// The point at `index` of `channel`.
    pub open spec fn point(self, channel: int, index: int) -> WaveformPoint {
        WaveformPoint {
            min: self.data[self.offset(channel, index)],
            max: self.data[self.offset(channel, index) + 1],
        }
    }
}

/// Offsets of points in range stay inside the data.
pub proof fn lemma_offset_in_range(data_len: int, channels: int, channel: int, index: int)
    requires
        channels >= 1,
        data_len % (2 * channels) == 0,
        data_len >= 0,
        0 <= channel < channels,
        0 <= index < data_len / (2 * channels),
    ensures
        0 <= (index * channels + channel) * 2,
        0 <= index * channels <= index * channels + channel,
        (index * channels + channel) * 2 + 1 < data_len,
        (index * channels + channel) * 2 + 1 < (index + 1) * channels * 2,
{
    let l = data_len / (2 * channels);
    assert(data_len == l * (2 * channels)) by (nonlinear_arith)
        requires
            data_len % (2 * channels) == 0,
            l == data_len / (2 * channels),
            channels >= 1,
    ;
    assert((index * channels + channel) * 2 + 1 < (index + 1) * channels * 2) by (nonlinear_arith)
        requires
            0 <= channel < channels,
            index >= 0,
    ;
    assert((index + 1) * channels * 2 <= l * (2 * channels)) by (nonlinear_arith)
        requires
            index + 1 <= l,
            channels >= 1,
    ;
    assert(0 <= index * channels) by (nonlinear_arith)
        requires
            index >= 0,
            channels >= 1,
    ;
    assert(0 <= (index * channels + channel) * 2) by (nonlinear_arith)
        requires
            index >= 0,
            channel >= 0,
            channels >= 1,
    ;
}

/// The smaller of two samples.
pub open spec fn min_i16(a: i16, b: i16) -> i16 {
    if b < a { b } else { a }
}

/// The larger of two samples.
pub open spec fn max_i16(a: i16, b: i16) -> i16 {
    if b > a { b } else { a }
}

/// The smallest `min` of `channel` over points `lo..hi` (`i16::MAX` when empty).
pub open spec fn range_min(v: WaveformView, channel: int, lo: int, hi: int) -> i16
    decreases hi - lo,
{
    if hi <= lo {
        i16::MAX
    } else {
        min_i16(range_min(v, channel, lo, hi - 1), v.point(channel, hi - 1).min)
    }
}

/// The largest `max` of `channel` over points `lo..hi` (`i16::MIN` when empty).
pub open spec fn range_max(v: WaveformView, channel: int, lo: int, hi: int) -> i16
    decreases hi - lo,
{
    if hi <= lo {
        i16::MIN
    } else {
        max_i16(range_max(v, channel, lo, hi - 1), v.point(channel, hi - 1).max)
    }
}

/// The aggregate point of `channel` over points `lo..hi`.
pub open spec fn range_point(v: WaveformView, channel: int, lo: int, hi: int) -> WaveformPoint {
    WaveformPoint { min: range_min(v, channel, lo, hi), max: range_max(v, channel, lo, hi) }
}

/// The first input point of output bucket `k` when resampling from `a` to `b`
/// samples per pixel.
pub open spec fn bucket_start(k: int, a: int, b: int) -> int {
    (k * b) / a
}

/// One past the last input point of output bucket `k`.
pub open spec fn bucket_end(k: int, a: int, b: int, len: int) -> int {
    let e = ((k + 1) * b) / a;
    if e < len { e } else { len }
}

/// The interleaved aggregate points of every channel over points `lo..hi`.
pub open spec fn aggregate_frame(v: WaveformView, lo: int, hi: int) -> Seq<i16> {
    flatten_points(Seq::new(v.channels as nat, |c: int| range_point(v, c, lo, hi)))
}

/// The interleaved data of output bucket `k`: one aggregate point per channel.
pub open spec fn resampled_frame(v: WaveformView, b: int, k: int) -> Seq<i16> {
    let a = v.samples_per_pixel as int;
    aggregate_frame(v, bucket_start(k, a, b), bucket_end(k, a, b, v.len() as int))
}

/// The interleaved data of output buckets `k, k+1, ...` while they start inside the input.
pub open spec fn resampled_from(v: WaveformView, b: int, k: int) -> Seq<i16>
    decreases v.len() - k,
{
    let a = v.samples_per_pixel as int;
    if a <= 0 || b <= a || k < 0 || bucket_start(k, a, b) >= v.len() {
        Seq::empty()
    } else {
        proof {
            lemma_bucket_start_grows(k, a, b);
        }
        resampled_frame(v, b, k) + resampled_from(v, b, k + 1)
    }
}

/// A bucket never starts before its index.
pub proof fn lemma_bucket_start_grows(k: int, a: int, b: int)
    requires
        0 < a < b,
        k >= 0,
    ensures
        k <= bucket_start(k, a, b),
        bucket_start(k, a, b) < bucket_start(k + 1, a, b),
{
    assert(k * a <= k * b) by (nonlinear_arith)
        requires
            k >= 0,
            a < b,
    ;
    assert(k <= (k * b) / a) by (nonlinear_arith)
        requires
            k * a <= k * b,
            a > 0,
    ;
    assert((k * b) / a < ((k + 1) * b) / a) by (nonlinear_arith)
        requires
            0 < a < b,
            k >= 0,
    ;
}

/// Each output bucket contributes one point per channel.
pub proof fn lemma_resampled_well_formed(v: WaveformView, b: int, k: int)
    requires
        v.well_formed(),
    ensures
        (resampled_from(v, b, k).len() as int) % (2 * v.channels as int) == 0,
    decreases v.len() - k,
{
    let a = v.samples_per_pixel as int;
    if a <= 0 || b <= a || k < 0 || bucket_start(k, a, b) >= v.len() {
        assert(resampled_from(v, b, k).len() == 0);
    } else {
        lemma_bucket_start_grows(k, a, b);
        lemma_resampled_well_formed(v, b, k + 1);
        let f = resampled_frame(v, b, k);
        let rest = resampled_from(v, b, k + 1);
        let ch = 2 * v.channels as int;
        assert(resampled_from(v, b, k) == f + rest);
        assert(f.len() == ch);
        assert(resampled_from(v, b, k).len() == ch + rest.len());
        assert((ch + rest.len() as int) % ch == 0) by (nonlinear_arith)
            requires
                (rest.len() as int) % ch == 0,
                ch >= 2,
        ;
        assert((resampled_from(v, b, k).len() as int) % ch == 0);
    }
}

/// The waveform a resampling to `b` samples per pixel produces.
pub open spec fn resampled_view(v: WaveformView, b: int) -> WaveformView {
    WaveformView { samples_per_pixel: b as u32, data: resampled_from(v, b, 0), ..v }
}

/// The message of the error a truncated `.dat` header produces.
pub open spec fn eof_text() -> Seq<char> {
    "failed to fill whole buffer"@
}

/// `e` reports that the input ended inside the `.dat` header.
pub open spec fn is_eof_error(e: Error) -> bool {
    e matches Error::Io { message } && message@ == eof_text()
}

/// Size in bytes of a `.dat` header of the given version.
pub open spec fn dat_header_len(version: int) -> int {
    if version == 2 {
        24
    } else {
        20
    }
}

/// The signed value of a byte read as `i8`.
pub open spec fn signed8(b: u8) -> int {
    if b >= 128 {
        b - 256
    } else {
        b as int
    }
}

/// The channel count a `.dat` header declares, held in 16 bits: a version 2
/// channel field above 65535 counts as 65535, which like every count above
/// 24 is refused, so no field is read as a smaller count than it holds.
pub open spec fn dat_channels(b: Seq<u8>) -> u16 {
    if seq_le_i32(b, 0) == 2 {
        if seq_le_u32(b, 20) > 65535 {
            65535
        } else {
            seq_le_u32(b, 20) as u16
        }
    } else {
        1
    }
}

/// The storage depth a `.dat` header declares.
pub open spec fn dat_bits(b: Seq<u8>) -> u8 {
    if seq_le_u32(b, 4) % 2 == 1 {
        8
    } else {
        16
    }
}

/// The point data of a `.dat` file: as many whole values as the declared
/// length allows and the input holds.
pub open spec fn dat_data(b: Seq<u8>) -> Seq<i16> {
    let h = dat_header_len(seq_le_i32(b, 0));
    let avail = (b.len() - h) / 2;
    let declared = seq_le_u32(b, 16) * (dat_channels(b) as int);
    if dat_bits(b) == 8 {
        let pairs = if declared < avail { declared } else { avail };
        Seq::new((2 * pairs) as nat, |j: int| (signed8(b[h + j]) * 256) as i16)
    } else {
        let count = if 2 * declared < avail { 2 * declared } else { avail };
        Seq::new(count as nat, |j: int| seq_le_i16(b, h + 2 * j) as i16)
    }
}

/// The waveform a well-formed `.dat` file describes.
pub open spec fn dat_view(b: Seq<u8>) -> WaveformView {
    WaveformView {
        sample_rate: seq_le_u32(b, 8) as u32,
        samples_per_pixel: seq_le_u32(b, 12) as u32,
        channels: dat_channels(b),
        storage_bits: dat_bits(b),
        data: dat_data(b),
    }
}

/// The byte `write_dat` stores for a sample at 8-bit depth.
pub open spec fn dat_byte(v: i16) -> u8 {
    let q = crate::audio::trunc_div(v as int, 256);
    (if q < 0 {
        q + 256
    } else {
        q
    }) as u8
}

/// Two's-complement bits of a 16-bit value.
pub open spec fn unsigned16(v: i16) -> int {
    if v < 0 {
        v + 65536
    } else {
        v as int
    }
}

/// The `.dat` encoding of a waveform at the given storage depth.
pub open spec fn dat_bytes(v: WaveformView, bits: u8) -> Seq<u8> {
    let version: int = if v.channels == 1 { 1 } else { 2 };
    let header = u32_le_bytes(version) + u32_le_bytes(if bits == 8 { 1 } else { 0 })
        + u32_le_bytes(v.sample_rate as int) + u32_le_bytes(v.samples_per_pixel as int)
        + u32_le_bytes(v.len() as int % 0x1_0000_0000);
    let header = if version == 2 {
        header + u32_le_bytes(v.channels as int)
    } else {
        header
    };
    let body = if bits == 8 {
        Seq::new(v.data.len(), |j: int| dat_byte(v.data[j]))
    } else {
        Seq::new(2 * v.data.len(), |j: int| u16_le_bytes(unsigned16(v.data[j / 2]))[j % 2])
    };
    header + body
}

/// The value a text serializer prints for a sample at the given depth.
pub open spec fn printed_value(v: i16, bits: u8) -> int {
    if bits == 8 {
        crate::audio::trunc_div(v as int, 256)
    } else {
        v as int
    }
}

/// The text of channels `0..c` of one point row: `min,max` pairs joined by commas.
pub open spec fn txt_cells(w: WaveformView, bits: u8, index: int, c: int) -> Seq<u8>
    decreases c,
{
    if c <= 0 {
        Seq::empty()
    } else {
        let p = w.point(c - 1, index);
        let sep: Seq<u8> = if c - 1 > 0 { seq![44u8] } else { Seq::empty() };
        txt_cells(w, bits, index, c - 1) + sep + decimal(printed_value(p.min, bits)) + seq![44u8]
            + decimal(printed_value(p.max, bits))
    }
}

/// The text encoding of the first `n` point rows, one line each.
pub open spec fn txt_lines(w: WaveformView, bits: u8, n: int) -> Seq<u8>
    decreases n,
{
    if n <= 0 {
        Seq::empty()
    } else {
        txt_lines(w, bits, n - 1) + txt_cells(w, bits, n - 1, w.channels as int) + seq![10u8]
    }
}

/// The text encoding of a waveform at the given depth.
pub open spec fn txt_bytes(w: WaveformView, bits: u8) -> Seq<u8> {
    txt_lines(w, bits, w.len() as int)
}

/// The first `n` data values, comma-separated, as JSON numbers.
pub open spec fn json_values(d: Seq<i16>, bits: u8, n: int) -> Seq<u8>
    decreases n,
{
    if n <= 0 {
        Seq::empty()
    } else {
        let sep: Seq<u8> = if n - 1 > 0 { seq![44u8] } else { Seq::empty() };
        json_values(d, bits, n - 1) + sep + decimal(printed_value(d[n - 1], bits))
    }
}

/// The JSON encoding of a waveform's metadata, up to the opening of the data array.
pub open spec fn json_header(w: WaveformView, bits: u8) -> Seq<u8> {
    "{\"version\":2,\"channels\":".spec_bytes() + decimal(w.channels as int)
        + ",\"sample_rate\":".spec_bytes() + decimal(w.sample_rate as int)
        + ",\"samples_per_pixel\":".spec_bytes() + decimal(w.samples_per_pixel as int)
        + ",\"bits\":".spec_bytes() + decimal(bits as int) + ",\"length\":".spec_bytes() + decimal(
        w.len() as int,
    ) + ",\"data\":[".spec_bytes()
}

/// The JSON encoding of a waveform at the given depth.
pub open spec fn json_bytes(w: WaveformView, bits: u8) -> Seq<u8> {
    json_header(w, bits) + json_values(w.data, bits, w.data.len() as int) + "]}\n".spec_bytes()
}

/// The encoding of a waveform in the given format and depth.
pub open spec fn encoded_bytes(w: WaveformView, format: WaveformFormat, bits: u8) -> Seq<u8> {
    match format {
        WaveformFormat::Dat => dat_bytes(w, bits),
        WaveformFormat::Json => json_bytes(w, bits),
        WaveformFormat::Txt => txt_bytes(w, bits),
    }
}

/// The fields of a JSON waveform document.
#[derive(Debug)]
pub struct JsonWaveform {
    /// Format version; 1 and 2 are supported.
    pub version: i32,
    /// Channel count; one when absent.
    pub channels: Option<u16>,
    /// Source sample rate.
    pub sample_rate: u32,
    /// Source samples per waveform point.
    pub samples_per_pixel: u32,
    /// Storage depth of the values.
    pub bits: u8,
    /// Number of points per channel.
    pub length: usize,
    /// Interleaved values at the storage depth.
    pub data: Vec<i32>,
}

/// Index of the first value of `d` at or after `from` outside `lo..=hi`, or `d.len()`.
pub open spec fn first_outside(d: Seq<i32>, lo: int, hi: int, from: int) -> int
    decreases d.len() - from,
{
    if from >= d.len() || from < 0 {
        d.len() as int
    } else if d[from] < lo || d[from] > hi {
        from
    } else {
        first_outside(d, lo, hi, from + 1)
    }
}

/// The largest magnitude a JSON value may have at the given depth.
pub open spec fn json_low(bits: u8) -> int {
    if bits == 8 {
        -128
    } else {
        -32768
    }
}

/// The largest value a JSON value may have at the given depth.
pub open spec fn json_high(bits: u8) -> int {
    if bits == 8 {
        127
    } else {
        32767
    }
}

/// The waveform a valid JSON document describes.
pub open spec fn json_view(j: JsonWaveform) -> WaveformView {
    WaveformView {
        sample_rate: j.sample_rate,
        samples_per_pixel: j.samples_per_pixel,
        channels: match j.channels {
            Some(c) => c,
            None => 1,
        },
        storage_bits: j.bits,
        data: Seq::new(
            j.data@.len(),
            |i: int| (if j.bits == 8 { j.data@[i] * 256 } else { j.data@[i] as int }) as i16,
        ),
    }
}

/// The outcome of reading a JSON document: `r` is what `read_json` returns for `j`.
pub open spec fn json_result(j: JsonWaveform, r: Result<Waveform, Error>) -> bool {
    let ch: u16 = match j.channels {
        Some(c) => c,
        None => 1,
    };
    let expected = j.length * ch * 2;
    let bad = first_outside(j.data@, json_low(j.bits), json_high(j.bits), 0);
    if j.version != 1 && j.version != 2 {
        r matches Err(e) && is_invalid_data(e, "Invalid version: expecting 1 or 2"@)
    } else if !valid_metadata(j.sample_rate, j.samples_per_pixel, ch) {
        r matches Err(e) && metadata_error(e, j.sample_rate, j.samples_per_pixel, ch)
    } else if !valid_bits(j.bits) {
        r matches Err(e) && bits_error(e)
    } else if expected > usize::MAX {
        r matches Err(e) && is_invalid_data(e, "Waveform length is too large"@)
    } else if j.data@.len() != expected {
        r matches Err(e) && is_invalid_data(
            e,
            "Length mismatch: expected "@ + decimal_text(expected) + " values, found "@
                + decimal_text(j.data@.len() as int),
        )
    } else if bad < j.data@.len() {
        r matches Err(e) && is_invalid_data(
            e,
            "Data value out of range: "@ + decimal_text(j.data@[bad] as int),
        )
    } else {
        r matches Ok(w) && w.wf() && w@ == json_view(j)
    }
}

/// The outcome of reading `.dat` bytes: `r` is what `read_dat` returns for `b`.
pub open spec fn dat_result(b: Seq<u8>, r: Result<Waveform, Error>) -> bool {
    let version = seq_le_i32(b, 0);
    let v = dat_view(b);
    &&& r is Ok <==> b.len() >= 4 && (version == 1 || version == 2) && b.len() >= dat_header_len(
        version,
    ) && valid_metadata(v.sample_rate, v.samples_per_pixel, v.channels) && (v.data.len() as int)
        % (2 * v.channels as int) == 0
    &&& r matches Ok(w) ==> w.wf() && w@ == v
    &&& r matches Err(e) ==> if b.len() < 4 {
        is_eof_error(e)
    } else if version != 1 && version != 2 {
        is_invalid_data(e, "Cannot load data file version: "@ + decimal_text(version))
    } else if b.len() < dat_header_len(version) {
        is_eof_error(e)
    } else if !valid_metadata(v.sample_rate, v.samples_per_pixel, v.channels) {
        metadata_error(e, v.sample_rate, v.samples_per_pixel, v.channels)
    } else {
        is_invalid_data(e, "Waveform data length must be divisible by two samples per channel"@)
    }
}

/// The smaller of two integers.
pub open spec fn min_int(a: int, b: int) -> int {
    if b < a { b } else { a }
}

/// The larger of two integers.
pub open spec fn max_int(a: int, b: int) -> int {
    if b > a { b } else { a }
}

/// The smallest `min` over channels `0..k` and points `lo..hi` (`i32::MAX` when empty).
pub open spec fn channels_low(v: WaveformView, k: int, lo: int, hi: int) -> int
    decreases k,
{
    if k <= 0 {
        i32::MAX as int
    } else {
        min_int(channels_low(v, k - 1, lo, hi), range_min(v, k - 1, lo, hi) as int)
    }
}

/// The largest `max` over channels `0..k` and points `lo..hi` (`i32::MIN` when empty).
pub open spec fn channels_high(v: WaveformView, k: int, lo: int, hi: int) -> int
    decreases k,
{
    if k <= 0 {
        i32::MIN as int
    } else {
        max_int(channels_high(v, k - 1, lo, hi), range_max(v, k - 1, lo, hi) as int)
    }
}

/// The smallest and largest values of one channel over a nonempty range
/// bound every point of the range and are taken by one of its points.
pub proof fn lemma_range_extremes(v: WaveformView, c: int, lo: int, hi: int)
    requires
        lo < hi,
    ensures
        forall|i: int| lo <= i < hi ==> range_min(v, c, lo, hi) <= #[trigger] v.point(c, i).min,
        forall|i: int| lo <= i < hi ==> v.point(c, i).max <= range_max(v, c, lo, hi),
        exists|i: int| lo <= i < hi && range_min(v, c, lo, hi) == #[trigger] v.point(c, i).min,
        exists|i: int| lo <= i < hi && range_max(v, c, lo, hi) == #[trigger] v.point(c, i).max,
    decreases hi - lo,
{
    if hi - 1 > lo {
        lemma_range_extremes(v, c, lo, hi - 1);
        let i0 = choose|i: int| lo <= i < hi - 1 && range_min(v, c, lo, hi - 1) == #[trigger] v.point(c, i).min;
        let i1 = choose|i: int| lo <= i < hi - 1 && range_max(v, c, lo, hi - 1) == #[trigger] v.point(c, i).max;
        if v.point(c, hi - 1).min < range_min(v, c, lo, hi - 1) {
            assert(range_min(v, c, lo, hi) == v.point(c, hi - 1).min);
        } else {
            assert(range_min(v, c, lo, hi) == v.point(c, i0).min);
        }
        if v.point(c, hi - 1).max > range_max(v, c, lo, hi - 1) {
            assert(range_max(v, c, lo, hi) == v.point(c, hi - 1).max);
        } else {
            assert(range_max(v, c, lo, hi) == v.point(c, i1).max);
        }
    } else {
        assert(range_min(v, c, lo, lo) == i16::MAX);
        assert(range_max(v, c, lo, lo) == i16::MIN);
        assert(range_min(v, c, lo, hi) == v.point(c, lo).min);
        assert(range_max(v, c, lo, hi) == v.point(c, lo).max);
    }
}

/// The smallest `min` and largest `max` over channels `0..k` and a nonempty
/// range of points bound every point of every one of those channels and are
/// taken by one of them.
pub proof fn lemma_channels_extremes(v: WaveformView, k: int, lo: int, hi: int)
    requires
        lo < hi,
        k >= 1,
    ensures
        forall|c: int, i: int| 0 <= c < k && lo <= i < hi ==> channels_low(v, k, lo, hi) <= #[trigger] v.point(
            c,
            i,
        ).min && v.point(c, i).max <= channels_high(v, k, lo, hi),
        exists|c: int, i: int| 0 <= c < k && lo <= i < hi && channels_low(v, k, lo, hi) == #[trigger] v.point(
            c,
            i,
        ).min,
        exists|c: int, i: int| 0 <= c < k && lo <= i < hi && channels_high(v, k, lo, hi) == #[trigger] v.point(
            c,
            i,
        ).max,
    decreases k,
{
    lemma_range_extremes(v, k - 1, lo, hi);
    let j0 = choose|i: int| lo <= i < hi && range_min(v, k - 1, lo, hi) == #[trigger] v.point(k - 1, i).min;
    let j1 = choose|i: int| lo <= i < hi && range_max(v, k - 1, lo, hi) == #[trigger] v.point(k - 1, i).max;
    if k == 1 {
        assert(channels_low(v, 1, lo, hi) == v.point(0, j0).min);
        assert(channels_high(v, 1, lo, hi) == v.point(0, j1).max);
    } else {
        lemma_channels_extremes(v, k - 1, lo, hi);
        let (c0, i0) = choose|c: int, i: int| 0 <= c < k - 1 && lo <= i < hi && channels_low(v, k - 1, lo, hi)
            == #[trigger] v.point(c, i).min;
        let (c1, i1) = choose|c: int, i: int| 0 <= c < k - 1 && lo <= i < hi && channels_high(v, k - 1, lo, hi)
            == #[trigger] v.point(c, i).max;
        if (range_min(v, k - 1, lo, hi) as int) < channels_low(v, k - 1, lo, hi) {
            assert(channels_low(v, k, lo, hi) == v.point(k - 1, j0).min);
        } else {
            assert(channels_low(v, k, lo, hi) == v.point(c0, i0).min);
        }
        if (range_max(v, k - 1, lo, hi) as int) > channels_high(v, k - 1, lo, hi) {
            assert(channels_high(v, k, lo, hi) == v.point(k - 1, j1).max);
        } else {
            assert(channels_high(v, k, lo, hi) == v.point(c1, i1).max);
        }
    }
}

/// The sample a transfer table maps `s` to.
pub open spec fn table_sample(table: Seq<i16>, s: i16) -> i16 {
    table[s + 32768]
}

/// Immutable-ish waveform value containing metadata and interleaved min/max data.
#[derive(Debug)]
pub struct Waveform {
    sample_rate: u32,
    samples_per_pixel: u32,
    channels: u16,
    storage_bits: u8,
    data: Vec<i16>,
}

impl View for Waveform {
    type V = WaveformView;

    closed spec fn view(&self) -> WaveformView {
        WaveformView {
            sample_rate: self.sample_rate,
            samples_per_pixel: self.samples_per_pixel,
            channels: self.channels,
            storage_bits: self.storage_bits,
            data: self.data@,
        }
    }
}

impl Clone for Waveform {
    fn clone(&self) -> (r: Self)
        ensures
            r@ == self@,
    {
        let data = self.data.clone();
        assert(data@ =~= self.data@);
        Waveform {
            sample_rate: self.sample_rate,
            samples_per_pixel: self.samples_per_pixel,
            channels: self.channels,
            storage_bits: self.storage_bits,
            data,
        }
    }
}

impl Waveform {
    /// The waveform invariant.
    pub open spec fn wf(&self) -> bool {
        self@.well_formed()
    }

    /// Checks the sample rate, scale and channel count of a waveform.
    pub fn validate_metadata(sample_rate: u32, samples_per_pixel: u32, channels: u16) -> (r: Result<(), Error>)
        ensures
            r is Ok <==> valid_metadata(sample_rate, samples_per_pixel, channels),
            r matches Err(e) ==> metadata_error(e, sample_rate, samples_per_pixel, channels),
    {
        if sample_rate == 0 {
            return Err(Error::invalid_argument("sample rate", "Invalid sample rate: minimum 1 Hz"));
        }
        if samples_per_pixel < 2 {
            return Err(
                Error::invalid_argument("samples per pixel", "Invalid samples per pixel: minimum 2"),
            );
        }
        if channels == 0 || channels > MAX_CHANNELS {
            return Err(
                Error::invalid_argument("channels", "Invalid channels: must be between 1 and 24"),
            );
        }
        Ok(())
    }

    /// Checks that `bits` is a supported storage depth.
    pub fn validate_storage_bits(bits: u8) -> (r: Result<(), Error>)
        ensures
            r is Ok <==> valid_bits(bits),
            r matches Err(e) ==> bits_error(e),
    {
        if bits != 8 && bits != 16 {
            return Err(Error::invalid_argument("bits", "Invalid bits: must be either 8 or 16"));
        }
        Ok(())
    }

    /// Creates an empty waveform with the given metadata.
    pub fn new(sample_rate: u32, samples_per_pixel: u32, channels: u16) -> (r: Result<Waveform, Error>)
        ensures
            r is Ok <==> valid_metadata(sample_rate, samples_per_pixel, channels),
            r matches Ok(w) ==> w.wf() && w@ == (WaveformView {
                sample_rate,
                samples_per_pixel,
                channels,
                storage_bits: 16,
                data: Seq::empty(),
            }),
            r matches Err(e) ==> metadata_error(e, sample_rate, samples_per_pixel, channels),
    {
        Self::validate_metadata(sample_rate, samples_per_pixel, channels)?;
        let w = Waveform { sample_rate, samples_per_pixel, channels, storage_bits: 16, data: Vec::new() };
        assert(w@.data.len() == 0);
        Ok(w)
    }

    /// Creates a waveform from already interleaved min/max samples.
    pub fn from_interleaved_samples(
        sample_rate: u32,
        samples_per_pixel: u32,
        channels: u16,
        data: Vec<i16>,
        storage_bits: u8,
    ) -> (r: Result<Waveform, Error>)
        ensures
            r is Ok <==> valid_metadata(sample_rate, samples_per_pixel, channels) && valid_bits(
                storage_bits,
            ) && (data@.len() as int) % (2 * channels as int) == 0,
            r matches Ok(w) ==> w.wf() && w@ == (WaveformView {
                sample_rate,
                samples_per_pixel,
                channels,
                storage_bits,
                data: data@,
            }),
            r matches Err(e) ==> {
                if !valid_metadata(sample_rate, samples_per_pixel, channels) {
                    metadata_error(e, sample_rate, samples_per_pixel, channels)
                } else if !valid_bits(storage_bits) {
                    bits_error(e)
                } else {
                    is_invalid_data(
                        e,
                        "Waveform data length must be divisible by two samples per channel"@,
                    )
                }
            },
    {
        Self::validate_metadata(sample_rate, samples_per_pixel, channels)?;
        Self::validate_storage_bits(storage_bits)?;
        let frame_width = channels as usize * 2;
        if data.len() % frame_width != 0 {
            return Err(
                Error::invalid_data(
                    "Waveform data length must be divisible by two samples per channel",
                ),
            );
        }
        Ok(Waveform { sample_rate, samples_per_pixel, channels, storage_bits, data })
    }

    /// Returns the sample rate of the source audio.
    pub fn sample_rate(&self) -> (r: u32)
        ensures
            r == self@.sample_rate,
    {
        self.sample_rate
    }

    /// Returns the number of source samples represented by each waveform point.
    pub fn samples_per_pixel(&self) -> (r: u32)
        ensures
            r == self@.samples_per_pixel,
    {
        self.samples_per_pixel
    }

    /// Returns the number of waveform channels.
    pub fn channels(&self) -> (r: u16)
        ensures
            r == self@.channels,
    {
        self.channels
    }

    /// Returns the preferred serialized bit depth.
    pub fn storage_bits(&self) -> (r: u8)
        ensures
            r == self@.storage_bits,
    {
        self.storage_bits
    }

    /// Returns the number of waveform points per channel.
    pub fn len(&self) -> (r: usize)
        requires
            self.wf(),
        ensures
            r == self@.len(),
    {
        self.data.len() / (self.channels as usize * 2)
    }

    /// Returns `true` when the waveform contains no points.
    pub fn is_empty(&self) -> (r: bool)
        ensures
            r == (self@.data.len() == 0),
            self.wf() ==> (r == (self@.len() == 0)),
    {
        proof {
            if self.wf() {
                let d = self.data@.len() as int;
                let w = 2 * self.channels as int;
                vstd::arithmetic::div_mod::lemma_fundamental_div_mod(d, w);
                assert(d == 0 <==> d / w == 0) by (nonlinear_arith)
                    requires
                        d == w * (d / w) + d % w,
                        d % w == 0,
                        w > 0,
                        d >= 0,
                ;
            }
        }
        self.data.len() == 0
    }

    /// Returns the interleaved internal min/max data.
    pub fn interleaved_samples(&self) -> (r: &[i16])
        ensures
            r@ == self@.data,
    {
        self.data.as_slice()
    }

    /// Appends a frame containing one point per channel.
    pub fn push_frame(&mut self, points: &[WaveformPoint]) -> (r: Result<(), Error>)
        requires
            old(self).wf(),
        ensures
            final(self).wf(),
            r is Ok <==> points@.len() == old(self)@.channels,
            r is Ok ==> final(self)@ == (WaveformView {
                data: old(self)@.data + flatten_points(points@),
                ..old(self)@
            }),
            r is Err ==> final(self)@ == old(self)@,
            r matches Err(e) ==> is_invalid_argument(
                e,
                "points"@,
                "Expected "@ + decimal_text(old(self)@.channels as int) + " points, received "@
                    + decimal_text(points@.len() as int),
            ),
    {
        if points.len() != self.channels as usize {
            let mut message = String::from_str("Expected ");
            let count = decimal_string_unsigned(self.channels as u64);
            message.append(count.as_str());
            message.append(" points, received ");
            let received = decimal_string_unsigned(points.len() as u64);
            message.append(received.as_str());
            return Err(Error::invalid_argument_owned("points", message));
        }
        let ghost start = self.data@;
        let n = points.len();
        let mut i: usize = 0;
        while i < n
            invariant
                n == points@.len(),
                n == self.channels,
                i <= n,
                self.data@ == start + flatten_points(points@.subrange(0, i as int)),
                self.sample_rate == old(self).sample_rate,
                self.samples_per_pixel == old(self).samples_per_pixel,
                self.channels == old(self).channels,
                self.storage_bits == old(self).storage_bits,
            decreases n - i,
        {
            let p = points[i];
            self.data.push(p.min);
            self.data.push(p.max);
            i = i + 1;
            assert(self.data@ =~= start + flatten_points(points@.subrange(0, i as int)));
        }
        assert(points@.subrange(0, n as int) =~= points@);
        proof {
            let ch = self.channels as int;
            assert((start.len() as int) % (2 * ch) == 0);
            assert((start.len() as int + 2 * ch) % (2 * ch) == 0) by (nonlinear_arith)
                requires
                    (start.len() as int) % (2 * ch) == 0,
                    ch >= 1,
            ;
        }
        Ok(())
    }

    fn offset(&self, channel: u16, index: usize) -> (r: usize)
        requires
            self.wf(),
            channel < self@.channels,
            index < self@.len(),
        ensures
            r == self@.offset(channel as int, index as int),
            r + 1 < self@.data.len(),
    {
        let n = self.data.len();
        proof {
            lemma_offset_in_range(n as int, self.channels as int, channel as int, index as int);
        }
        (index * self.channels as usize + channel as usize) * 2
    }

    /// Returns the waveform point at `index` for the given `channel`.
    pub fn point(&self, channel: u16, index: usize) -> (r: Option<WaveformPoint>)
        requires
            self.wf(),
        ensures
            r is Some <==> channel < self@.channels && index < self@.len(),
            r matches Some(p) ==> p == self@.point(channel as int, index as int),
    {
        if channel >= self.channels || index >= self.len() {
            return None;
        }
        let offset = self.offset(channel, index);
        Some(WaveformPoint { min: self.data[offset], max: self.data[offset + 1] })
    }

    /// Appends, for every channel, the aggregate point over points `lo..hi`.
    fn push_aggregate(&self, out: &mut Vec<i16>, lo: usize, hi: usize)
        requires
            self.wf(),
            lo <= hi <= self@.len(),
        ensures
            final(out)@ == old(out)@ + aggregate_frame(self@, lo as int, hi as int),
    {
        let ch = self.channels as usize;
        let mut mins: Vec<i16> = vec![i16::MAX; ch];
        let mut maxs: Vec<i16> = vec![i16::MIN; ch];
        let mut i = lo;
        while i < hi
            invariant
                self.wf(),
                ch == self@.channels,
                lo <= i <= hi <= self@.len(),
                mins@.len() == ch,
                maxs@.len() == ch,
                forall|c: int| 0 <= c < ch ==> #[trigger] mins@[c] == range_min(self@, c, lo as int, i as int),
                forall|c: int| 0 <= c < ch ==> #[trigger] maxs@[c] == range_max(self@, c, lo as int, i as int),
            decreases hi - i,
        {
            let mut c: usize = 0;
            while c < ch
                invariant
                    self.wf(),
                    ch == self@.channels,
                    lo <= i < hi <= self@.len(),
                    c <= ch,
                    mins@.len() == ch,
                    maxs@.len() == ch,
                    forall|d: int| 0 <= d < c ==> #[trigger] mins@[d] == range_min(self@, d, lo as int, i + 1),
                    forall|d: int| c <= d < ch ==> #[trigger] mins@[d] == range_min(self@, d, lo as int, i as int),
                    forall|d: int| 0 <= d < c ==> #[trigger] maxs@[d] == range_max(self@, d, lo as int, i + 1),
                    forall|d: int| c <= d < ch ==> #[trigger] maxs@[d] == range_max(self@, d, lo as int, i as int),
                decreases ch - c,
            {
                let offset = self.offset(c as u16, i);
                let pmin = self.data[offset];
                let pmax = self.data[offset + 1];
                if pmin < mins[c] {
                    mins.set(c, pmin);
                }
                if pmax > maxs[c] {
                    maxs.set(c, pmax);
                }
                assert(mins@[c as int] == range_min(self@, c as int, lo as int, i + 1));
                assert(maxs@[c as int] == range_max(self@, c as int, lo as int, i + 1));
                c = c + 1;
            }
            i = i + 1;
        }
        let ghost start = out@;
        let ghost pts = Seq::new(ch as nat, |c: int| range_point(self@, c, lo as int, hi as int));
        let mut c: usize = 0;
        while c < ch
            invariant
                ch == self@.channels,
                c <= ch,
                mins@.len() == ch,
                maxs@.len() == ch,
                pts.len() == ch,
                forall|d: int| 0 <= d < ch ==> #[trigger] pts[d] == range_point(self@, d, lo as int, hi as int),
                forall|d: int| 0 <= d < ch ==> #[trigger] mins@[d] == range_min(self@, d, lo as int, hi as int),
                forall|d: int| 0 <= d < ch ==> #[trigger] maxs@[d] == range_max(self@, d, lo as int, hi as int),
                out@ == start + flatten_points(pts.subrange(0, c as int)),
            decreases ch - c,
        {
            out.push(mins[c]);
            out.push(maxs[c]);
            c = c + 1;
            assert(out@ =~= start + flatten_points(pts.subrange(0, c as int)));
        }
        assert(pts.subrange(0, ch as int) =~= pts);
    }

    /// Resamples the waveform to a coarser scale.
    ///
    /// The resulting waveform always has the same sample rate, channel count
    /// and storage depth as the original.
    pub fn resample(&self, scale: ScaleSpec) -> (r: Result<Waveform, Error>)
        requires
            self.wf(),
            self@.len() * self@.samples_per_pixel <= usize::MAX,
            ({
                let total = (self@.len() * self@.samples_per_pixel) as usize;
                let b = scale_candidate(scale, self@.sample_rate, total);
                scale_resolves(scale, self@.sample_rate, total) && b > self@.samples_per_pixel
                    ==> self@.len() * self@.samples_per_pixel + b <= usize::MAX
            }),
        ensures
            ({
                let total = (self@.len() * self@.samples_per_pixel) as usize;
                let b = scale_candidate(scale, self@.sample_rate, total);
                &&& r is Ok <==> scale_resolves(scale, self@.sample_rate, total) && b
                    >= self@.samples_per_pixel
                &&& r matches Ok(w) ==> w.wf() && w@ == (if b == self@.samples_per_pixel {
                    self@
                } else {
                    resampled_view(self@, b)
                })
                &&& r matches Err(e) ==> if !scale_resolves(scale, self@.sample_rate, total) {
                    scale_error(e, scale)
                } else {
                    is_invalid_argument(
                        e,
                        "zoom"@,
                        "Invalid zoom, minimum: "@ + decimal_text(self@.samples_per_pixel as int),
                    )
                }
            }),
    {
        let len = self.len();
        proof {
            assert(len * self.samples_per_pixel <= usize::MAX);
        }
        let total_frames = len * self.samples_per_pixel as usize;
        let resolved = scale.resolve(self.sample_rate, total_frames)?;
        if resolved == self.samples_per_pixel {
            return Ok(self.clone());
        }
        if resolved < self.samples_per_pixel {
            let mut message = String::from_str("Invalid zoom, minimum: ");
            let minimum = decimal_string_unsigned(self.samples_per_pixel as u64);
            message.append(minimum.as_str());
            return Err(Error::invalid_argument_owned("zoom", message));
        }
        let a = self.samples_per_pixel as usize;
        let b = resolved as usize;
        let ghost v = self@;
        let mut data: Vec<i16> = Vec::new();
        let mut k: usize = 0;
        proof {
            assert(0 * b == 0) by (nonlinear_arith);
        }
        while (k * b) / a < len
            invariant
                self.wf(),
                v == self@,
                len == v.len(),
                a == v.samples_per_pixel,
                2 <= a < b <= u32::MAX,
                len * a + b <= usize::MAX,
                k * b <= len * a + b,
                data@ + resampled_from(v, b as int, k as int) == resampled_from(v, b as int, 0),
            decreases len - k,
        {
            proof {
                lemma_bucket_start_grows(k as int, a as int, b as int);
                let (ki, ai, bi, li) = (k as int, a as int, b as int, len as int);
                assert((ki + 1) * bi <= li * ai + bi) by (nonlinear_arith)
                    requires
                        (ki * bi) / ai < li,
                        ai > 0,
                        bi > 0,
                        ki >= 0,
                ;
            }
            let start = (k * b) / a;
            let next = ((k + 1) * b) / a;
            let end = if next < len { next } else { len };
            let ghost before = data@;
            self.push_aggregate(&mut data, start, end);
            proof {
                assert(resampled_from(v, b as int, k as int) == resampled_frame(v, b as int, k as int)
                    + resampled_from(v, b as int, k + 1));
                assert(data@ + resampled_from(v, b as int, k + 1) =~= before + resampled_from(
                    v,
                    b as int,
                    k as int,
                ));
            }
            k = k + 1;
        }
        assert(resampled_from(v, b as int, k as int) =~= Seq::<i16>::empty());
        assert(data@ =~= resampled_from(v, b as int, 0));
        let w = Waveform {
            sample_rate: self.sample_rate,
            samples_per_pixel: resolved,
            channels: self.channels,
            storage_bits: self.storage_bits,
            data,
        };
        proof {
            lemma_resampled_well_formed(v, b as int, 0);
        }
        Ok(w)
    }

    /// Appends the `.dat` encoding of the waveform at storage depth `bits`.
    pub fn write_dat(&self, out: &mut Vec<u8>, bits: u8)
        requires
            self.wf(),
        ensures
            final(out)@ == old(out)@ + dat_bytes(self@, bits),
    {
        let ghost v = self@;
        let ghost start = out@;
        let version: i32 = if self.channels == 1 { 1 } else { 2 };
        out.extend_from_slice(&write_i32_le(version));
        let flags: u32 = if bits == 8 { 1 } else { 0 };
        out.extend_from_slice(&write_u32_le(flags));
        out.extend_from_slice(&write_u32_le(self.sample_rate));
        out.extend_from_slice(&write_u32_le(self.samples_per_pixel));
        let len = self.len();
        out.extend_from_slice(&write_u32_le((len as u64 % 0x1_0000_0000) as u32));
        if version == 2 {
            out.extend_from_slice(&write_u32_le(self.channels as u32));
        }
        let ghost header = out@.subrange(start.len() as int, out@.len() as int);
        proof {
            let version_int: int = if v.channels == 1 { 1 } else { 2 };
            let h = u32_le_bytes(version_int) + u32_le_bytes(if bits == 8 { 1 } else { 0 })
                + u32_le_bytes(v.sample_rate as int) + u32_le_bytes(v.samples_per_pixel as int)
                + u32_le_bytes(v.len() as int % 0x1_0000_0000);
            let h = if version_int == 2 { h + u32_le_bytes(v.channels as int) } else { h };
            assert(header =~= h);
        }
        let n = self.data.len();
        let mut i: usize = 0;
        if bits == 8 {
            while i < n
                invariant
                    self@ == v,
                    n == v.data.len(),
                    i <= n,
                    out@ == start + header + Seq::new(i as nat, |j: int| dat_byte(v.data[j])),
                decreases n - i,
            {
                let value = self.data[i];
                let q: i16 = if value >= 0 { value / 256 } else { -((-(value as i32)) / 256) as i16 };
                let byte: u8 = if q < 0 { (q + 256) as u8 } else { q as u8 };
                out.push(byte);
                i = i + 1;
                assert(out@ =~= start + header + Seq::new(i as nat, |j: int| dat_byte(v.data[j])));
            }
        } else {
            while i < n
                invariant
                    self@ == v,
                    n == v.data.len(),
                    i <= n,
                    out@ == start + header + Seq::new(
                        2 * i as nat,
                        |j: int| u16_le_bytes(unsigned16(v.data[j / 2]))[j % 2],
                    ),
                decreases n - i,
            {
                let pair = write_i16_le(self.data[i]);
                out.push(pair[0]);
                out.push(pair[1]);
                i = i + 1;
                assert(out@ =~= start + header + Seq::new(
                    2 * i as nat,
                    |j: int| u16_le_bytes(unsigned16(v.data[j / 2]))[j % 2],
                ));
            }
        }
        assert(out@ =~= start + dat_bytes(v, bits));
    }

    /// Reads a waveform from the bytes of a `.dat` file.
    ///
    /// Point data ends where the declared length ends or where the input
    /// runs out, whichever comes first.
    #[verifier::spinoff_prover]
    pub fn read_dat(bytes: &[u8]) -> (r: Result<Waveform, Error>)
        ensures
            dat_result(bytes@, r),
    {
        let ghost b = bytes@;
        let n = bytes.len();
        if n < 4 {
            return Err(Error::Io { message: String::from_str("failed to fill whole buffer") });
        }
        let version = read_i32_le(&bytes[0..4]);
        assert(bytes@.subrange(0, 4) =~= b.subrange(0, 4));
        if version != 1 && version != 2 {
            let mut message = String::from_str("Cannot load data file version: ");
            let text = decimal_string(version as i64);
            message.append(text.as_str());
            return Err(Error::InvalidData { message });
        }
        let header: usize = if version == 2 { 24 } else { 20 };
        if n < header {
            return Err(Error::Io { message: String::from_str("failed to fill whole buffer") });
        }
        let flags = read_u32_le(&bytes[4..8]);
        let sample_rate = read_u32_le(&bytes[8..12]);
        let samples_per_pixel = read_u32_le(&bytes[12..16]);
        let length = read_u32_le(&bytes[16..20]);
        let channels: u16 = if version == 2 {
            let raw = read_u32_le(&bytes[20..24]);
            if raw > 65535 {
                65535
            } else {
                raw as u16
            }
        } else {
            1
        };
        proof {
            assert(seq_le_u32(bytes@.subrange(4, 8), 0) == seq_le_u32(b, 4));
            assert(seq_le_u32(bytes@.subrange(8, 12), 0) == seq_le_u32(b, 8));
            assert(seq_le_u32(bytes@.subrange(12, 16), 0) == seq_le_u32(b, 12));
            assert(seq_le_u32(bytes@.subrange(16, 20), 0) == seq_le_u32(b, 16));
            if version == 2 {
                assert(seq_le_u32(bytes@.subrange(20, 24), 0) == seq_le_u32(b, 20));
            }
        }
        Self::validate_metadata(sample_rate, samples_per_pixel, channels)?;
        let bits: u8 = if flags % 2 == 1 { 8 } else { 16 };
        let avail: u64 = ((n - header) / 2) as u64;
        proof {
            assert(channels <= 24);
            assert(length as int * channels as int <= 0xFFFF_FFFF * 24) by (nonlinear_arith)
                requires
                    channels <= 24,
                    length <= 0xFFFF_FFFF,
            ;
        }
        let declared: u64 = length as u64 * channels as u64;
        let mut data: Vec<i16> = Vec::new();
        let mut i: u64 = 0;
        if bits == 8 {
            let pairs: u64 = if declared < avail { declared } else { avail };
            while i < pairs
                invariant
                    b == bytes@,
                    n == b.len(),
                    header == dat_header_len(version as int),
                    header <= n,
                    pairs <= avail,
                    avail == (n - header) / 2,
                    i <= pairs,
                    data@ == Seq::new((2 * i) as nat, |j: int| (signed8(b[header + j]) * 256) as i16),
                decreases pairs - i,
            {
                let at = header + 2 * (i as usize);
                let lo = bytes[at];
                let hi = bytes[at + 1];
                let min_value: i16 = if lo >= 128 { lo as i16 - 256 } else { lo as i16 };
                let max_value: i16 = if hi >= 128 { hi as i16 - 256 } else { hi as i16 };
                data.push(min_value * 256);
                data.push(max_value * 256);
                i = i + 1;
                assert(data@ =~= Seq::new((2 * i) as nat, |j: int| (signed8(b[header + j]) * 256) as i16));
            }
        } else {
            let count: u64 = if 2 * declared < avail { 2 * declared } else { avail };
            while i < count
                invariant
                    b == bytes@,
                    n == b.len(),
                    header == dat_header_len(version as int),
                    header <= n,
                    count <= avail,
                    avail == (n - header) / 2,
                    i <= count,
                    data@ == Seq::new(i as nat, |j: int| seq_le_i16(b, header + 2 * j) as i16),
                decreases count - i,
            {
                let at = header + 2 * (i as usize);
                let value = read_i16_le(&bytes[at..at + 2]);
                assert(seq_le_i16(bytes@.subrange(at as int, at + 2), 0) == seq_le_i16(b, at as int));
                data.push(value);
                i = i + 1;
                assert(data@ =~= Seq::new(i as nat, |j: int| seq_le_i16(b, header + 2 * j) as i16));
            }
        }
        assert(data@ =~= dat_data(b));
        Self::from_interleaved_samples(sample_rate, samples_per_pixel, channels, data, bits)
    }

    /// Appends the text encoding of the waveform at storage depth `bits`.
    #[verifier::rlimit(50)]
    #[verifier::spinoff_prover]
    pub fn write_txt(&self, out: &mut Vec<u8>, bits: u8)
        requires
            self.wf(),
        ensures
            final(out)@ == old(out)@ + txt_bytes(self@, bits),
    {
        let ghost v = self@;
        let ghost start = out@;
        let len = self.len();
        let ch = self.channels;
        let mut index: usize = 0;
        while index < len
            invariant
                self.wf(),
                self@ == v,
                len == v.len(),
                ch == v.channels,
                index <= len,
                out@ == start + txt_lines(v, bits, index as int),
            decreases len - index,
        {
            let ghost row_start = out@;
            let mut c: u16 = 0;
            while c < ch
                invariant
                    self.wf(),
                    self@ == v,
                    len == v.len(),
                    ch == v.channels,
                    index < len,
                    c <= ch,
                    out@ == row_start + txt_cells(v, bits, index as int, c as int),
                decreases ch - c,
            {
                let ghost before = out@;
                if c > 0 {
                    out.push(44u8);
                }
                let offset = self.offset(c, index);
                let min = self.data[offset];
                let max = self.data[offset + 1];
                let (lo, hi): (i16, i16) = if bits == 8 {
                    (
                        if min >= 0 { min / 256 } else { -((-(min as i32)) / 256) as i16 },
                        if max >= 0 { max / 256 } else { -((-(max as i32)) / 256) as i16 },
                    )
                } else {
                    (min, max)
                };
                push_decimal(out, lo as i64);
                out.push(44u8);
                push_decimal(out, hi as i64);
                c = c + 1;
                assert(out@ =~= row_start + txt_cells(v, bits, index as int, c as int));
            }
            out.push(10u8);
            index = index + 1;
            assert(out@ =~= start + txt_lines(v, bits, index as int));
        }
    }

    /// Appends the JSON encoding of the waveform at storage depth `bits`.
    #[verifier::rlimit(60)]
    #[verifier::spinoff_prover]
    pub fn write_json(&self, out: &mut Vec<u8>, bits: u8)
        requires
            self.wf(),
        ensures
            final(out)@ == old(out)@ + json_bytes(self@, bits),
    {
        let ghost v = self@;
        let ghost start = out@;
        push_str(out, "{\"version\":2,\"channels\":");
        push_decimal_unsigned(out, self.channels as u64);
        push_str(out, ",\"sample_rate\":");
        push_decimal_unsigned(out, self.sample_rate as u64);
        push_str(out, ",\"samples_per_pixel\":");
        push_decimal_unsigned(out, self.samples_per_pixel as u64);
        push_str(out, ",\"bits\":");
        push_decimal_unsigned(out, bits as u64);
        push_str(out, ",\"length\":");
        push_decimal_unsigned(out, self.len() as u64);
        push_str(out, ",\"data\":[");
        let ghost header = out@;
        assert(header =~= start + json_header(v, bits));
        let n = self.data.len();
        let mut i: usize = 0;
        while i < n
            invariant
                self@ == v,
                n == v.data.len(),
                i <= n,
                out@ == header + json_values(v.data, bits, i as int),
            decreases n - i,
        {
            if i > 0 {
                out.push(44u8);
            }
            let value = self.data[i];
            let printed: i16 = if bits == 8 {
                if value >= 0 { value / 256 } else { -((-(value as i32)) / 256) as i16 }
            } else {
                value
            };
            push_decimal(out, printed as i64);
            i = i + 1;
            assert(out@ =~= header + json_values(v.data, bits, i as int));
        }
        assert(v.data.subrange(0, n as int) =~= v.data);
        let ghost body = out@;
        push_str(out, "]}\n");
        assert(out@ =~= start + json_bytes(v, bits));
    }

    /// Writes the waveform in `format` to `writer`, at depth `bits` or, when
    /// omitted, at the waveform's storage depth.
    pub fn write_to_writer(&self, writer: &mut Vec<u8>, format: WaveformFormat, bits: Option<u8>) -> (r:
        Result<(), Error>)
        requires
            self.wf(),
        ensures
            ({
                let depth = match bits {
                    Some(b) => b,
                    None => self@.storage_bits,
                };
                &&& r is Ok <==> valid_bits(depth)
                &&& r is Ok ==> final(writer)@ == old(writer)@ + encoded_bytes(self@, format, depth)
                &&& r is Err ==> final(writer)@ == old(writer)@
                &&& r matches Err(e) ==> bits_error(e)
            }),
    {
        let depth = match bits {
            Some(b) => b,
            None => self.storage_bits,
        };
        Self::validate_storage_bits(depth)?;
        match format {
            WaveformFormat::Dat => self.write_dat(writer, depth),
            WaveformFormat::Json => self.write_json(writer, depth),
            WaveformFormat::Txt => self.write_txt(writer, depth),
        }
        Ok(())
    }

    /// Builds a waveform from the fields of a JSON waveform document.
    pub fn read_json(json: JsonWaveform) -> (r: Result<Waveform, Error>)
        ensures
            json_result(json, r),
    {
        let ghost j = json;
        if json.version != 1 && json.version != 2 {
            return Err(Error::invalid_data("Invalid version: expecting 1 or 2"));
        }
        let channels: u16 = match json.channels {
            Some(c) => c,
            None => 1,
        };
        Self::validate_metadata(json.sample_rate, json.samples_per_pixel, channels)?;
        Self::validate_storage_bits(json.bits)?;
        let expected = match json.length.checked_mul(channels as usize) {
            Some(v) => v.checked_mul(2),
            None => None,
        };
        let expected = match expected {
            Some(v) => v,
            None => {
                proof {
                    assert(json.length * channels * 2 > usize::MAX) by (nonlinear_arith)
                        requires
                            json.length * channels > usize::MAX || (json.length * channels) * 2
                                > usize::MAX,
                    ;
                }
                return Err(Error::invalid_data("Waveform length is too large"));
            },
        };
        if json.data.len() != expected {
            let mut message = String::from_str("Length mismatch: expected ");
            let e = decimal_string_unsigned(expected as u64);
            message.append(e.as_str());
            message.append(" values, found ");
            let f = decimal_string_unsigned(json.data.len() as u64);
            message.append(f.as_str());
            return Err(Error::InvalidData { message });
        }
        let eight = json.bits == 8;
        let (low, high): (i32, i32) = if eight { (-128, 127) } else { (-32768, 32767) };
        let n = json.data.len();
        let mut data: Vec<i16> = Vec::new();
        let mut i: usize = 0;
        while i < n
            invariant
                n == j.data@.len(),
                json == j,
                j.version == 1 || j.version == 2,
                channels == (match j.channels {
                    Some(c) => c,
                    None => 1u16,
                }),
                valid_metadata(j.sample_rate, j.samples_per_pixel, channels),
                n == j.length * channels * 2,
                json.data@ == j.data@,
                json.bits == j.bits,
                eight == (j.bits == 8),
                valid_bits(j.bits),
                low == json_low(j.bits),
                high == json_high(j.bits),
                i <= n,
                first_outside(j.data@, low as int, high as int, 0) == first_outside(
                    j.data@,
                    low as int,
                    high as int,
                    i as int,
                ),
                data@ == Seq::new(
                    i as nat,
                    |k: int| (if j.bits == 8 { j.data@[k] * 256 } else { j.data@[k] as int }) as i16,
                ),
            decreases n - i,
        {
            let value = json.data[i];
            if value < low || value > high {
                assert(first_outside(j.data@, low as int, high as int, i as int) == i);
                let mut message = String::from_str("Data value out of range: ");
                let t = decimal_string(value as i64);
                message.append(t.as_str());
                return Err(Error::InvalidData { message });
            }
            let stored: i16 = if eight { (value as i16) * 256 } else { value as i16 };
            data.push(stored);
            i = i + 1;
            assert(data@ =~= Seq::new(
                i as nat,
                |k: int| (if j.bits == 8 { j.data@[k] * 256 } else { j.data@[k] as int }) as i16,
            ));
        }
        proof {
            let ch = channels as int;
            let l = json.length as int;
            assert(l * ch * 2 == l * (2 * ch)) by (nonlinear_arith);
            vstd::arithmetic::div_mod::lemma_mod_multiples_basic(l, 2 * ch);
        }
        Self::from_interleaved_samples(
            json.sample_rate,
            json.samples_per_pixel,
            channels,
            data,
            json.bits,
        )
    }

    /// Loads a waveform from the bytes of a serialized waveform.
    ///
    /// JSON documents are decoded into their fields by `decode_json`; the
    /// text format cannot be read back.
    pub fn load_from_reader<F>(reader: &[u8], format: WaveformFormat, decode_json: F) -> (r: Result<
        Waveform,
        Error,
    >) where F: Fn(&[u8]) -> Result<JsonWaveform, Error>
        requires
            format == WaveformFormat::Json ==> call_requires(decode_json, (reader,)),
        ensures
            format == WaveformFormat::Dat ==> dat_result(reader@, r),
            format == WaveformFormat::Txt ==> (r matches Err(e) && e == (Error::UnsupportedFormat {
                format: e->format,
            }) && e->format@ == "txt"@),
            format == WaveformFormat::Json ==> exists|o: Result<JsonWaveform, Error>|
                call_ensures(decode_json, (reader,), o) && match o {
                    Ok(j) => json_result(j, r),
                    Err(e) => r == Err::<Waveform, Error>(e),
                },
    {
        match format {
            WaveformFormat::Dat => Self::read_dat(reader),
            WaveformFormat::Json => {
                let decoded = decode_json(reader);
                let ghost o = decoded;
                match decoded {
                    Ok(j) => Self::read_json(j),
                    Err(e) => Err(e),
                }
            },
            WaveformFormat::Txt => Err(Error::UnsupportedFormat { format: String::from_str("txt") }),
        }
    }

    /// The lowest `min` and highest `max` over all channels and points
    /// `start_index..end_index`, the range automatic amplitude scaling fills.
    pub fn amplitude_range(&self, start_index: usize, end_index: usize) -> (r: Result<(i32, i32), Error>)
        requires
            self.wf(),
        ensures
            r is Ok <==> start_index < end_index <= self@.len(),
            r matches Ok((low, high)) ==> low == channels_low(
                self@,
                self@.channels as int,
                start_index as int,
                end_index as int,
            ) && high == channels_high(
                self@,
                self@.channels as int,
                start_index as int,
                end_index as int,
            ),
            r matches Ok((low, high)) ==> forall|c: int, i: int|
                0 <= c < self@.channels && start_index <= i < end_index ==> low <= #[trigger] self@.point(
                    c,
                    i,
                ).min && self@.point(c, i).max <= high,
            r matches Ok((low, high)) ==> exists|c: int, i: int|
                0 <= c < self@.channels && start_index <= i < end_index && low == #[trigger] self@.point(
                    c,
                    i,
                ).min,
            r matches Ok((low, high)) ==> exists|c: int, i: int|
                0 <= c < self@.channels && start_index <= i < end_index && high == #[trigger] self@.point(
                    c,
                    i,
                ).max,
            r matches Err(e) ==> is_invalid_argument(
                e,
                "amplitude range"@,
                "Invalid amplitude scaling range"@,
            ),
    {
        if start_index >= end_index || end_index > self.len() {
            return Err(
                Error::invalid_argument("amplitude range", "Invalid amplitude scaling range"),
            );
        }
        let ghost v = self@;
        let mut low: i32 = i32::MAX;
        let mut high: i32 = i32::MIN;
        let mut c: u16 = 0;
        while c < self.channels
            invariant
                self.wf(),
                v == self@,
                start_index < end_index <= v.len(),
                c <= v.channels,
                low == channels_low(v, c as int, start_index as int, end_index as int),
                high == channels_high(v, c as int, start_index as int, end_index as int),
            decreases v.channels - c,
        {
            let mut lo: i16 = i16::MAX;
            let mut hi: i16 = i16::MIN;
            let mut i = start_index;
            while i < end_index
                invariant
                    self.wf(),
                    v == self@,
                    start_index <= i <= end_index <= v.len(),
                    c < v.channels,
                    lo == range_min(v, c as int, start_index as int, i as int),
                    hi == range_max(v, c as int, start_index as int, i as int),
                decreases end_index - i,
            {
                let offset = self.offset(c, i);
                if self.data[offset] < lo {
                    lo = self.data[offset];
                }
                if self.data[offset + 1] > hi {
                    hi = self.data[offset + 1];
                }
                i = i + 1;
            }
            if (lo as i32) < low {
                low = lo as i32;
            }
            if (hi as i32) > high {
                high = hi as i32;
            }
            c = c + 1;
        }
        proof {
            lemma_channels_extremes(v, v.channels as int, start_index as int, end_index as int);
        }
        Ok((low, high))
    }

    /// Maps every sample through a transfer table indexed by `sample + 32768`.
    ///
    /// Amplitude scaling is applied this way: the table holds the scaled,
    /// clamped value of every 16-bit sample.
    pub fn apply_amplitude_table(&self, table: &[i16]) -> (r: Waveform)
        requires
            self.wf(),
            table@.len() == 65536,
        ensures
            r.wf(),
            r@ == (WaveformView {
                data: Seq::new(self@.data.len(), |i: int| table_sample(table@, self@.data[i])),
                ..self@
            }),
    {
        let n = self.data.len();
        let mut data: Vec<i16> = Vec::new();
        let mut i: usize = 0;
        while i < n
            invariant
                n == self@.data.len(),
                table@.len() == 65536,
                i <= n,
                data@ == Seq::new(i as nat, |k: int| table_sample(table@, self@.data[k])),
            decreases n - i,
        {
            let s = self.data[i];
            let index = (s as i32 + 32768) as usize;
            data.push(table[index]);
            i = i + 1;
            assert(data@ =~= Seq::new(i as nat, |k: int| table_sample(table@, self@.data[k])));
        }
        Waveform {
            sample_rate: self.sample_rate,
            samples_per_pixel: self.samples_per_pixel,
            channels: self.channels,
            storage_bits: self.storage_bits,
            data,
        }
    }

    /// Returns the waveform with its serialized bit-depth preference changed.
    pub fn with_storage_bits(self, bits: u8) -> (r: Result<Waveform, Error>)
        requires
            self.wf(),
        ensures
            r is Ok <==> valid_bits(bits),
            r matches Ok(w) ==> w.wf() && w@ == (WaveformView { storage_bits: bits, ..self@ }),
            r matches Err(e) ==> bits_error(e),
    {
        Self::validate_storage_bits(bits)?;
        let mut w = self;
        w.storage_bits = bits;
        Ok(w)
    }
}

} // verus!
