//! Headerless raw audio: sample encodings and decoding to 16-bit PCM.
use vstd::prelude::*;

use crate::audio::{
    GenerateOptions,
    PcmAudio,
    PcmView,
    generate_waveform_from_pcm,
    pcm_error,
    trunc_div,
    valid_pcm,
};
use crate::bytes::{le_u16, le_u32, signed16, signed32};
use crate::error::{Error, is_invalid_argument, is_invalid_data, is_unsupported_format};
use crate::text::{ascii_lower, lowercase_equals};
use crate::waveform::{Waveform, signed8};

verus! {

/// Supported raw audio sample encodings.
#[derive(Clone, Copy, Debug, PartialEq, Eq, Structural)]
pub enum RawSampleFormat {
    /// Signed 8-bit integer.
    S8,
    /// Unsigned 8-bit integer.
    U8,
    /// Signed little-endian 16-bit integer.
    S16Le,
    /// Signed big-endian 16-bit integer.
    S16Be,
    /// Signed little-endian 24-bit integer.
    S24Le,
    /// Signed big-endian 24-bit integer.
    S24Be,
    /// Signed little-endian 32-bit integer.
    S32Le,
    /// Signed big-endian 32-bit integer.
    S32Be,
    /// Little-endian 32-bit float.
    F32Le,
    /// Big-endian 32-bit float.
    F32Be,
    /// Little-endian 64-bit float.
    F64Le,
    /// Big-endian 64-bit float.
    F64Be,
}

/// The canonical name of a raw sample encoding.
pub open spec fn raw_format_name(f: RawSampleFormat) -> Seq<char> {
    match f {
        RawSampleFormat::S8 => "s8"@,
        RawSampleFormat::U8 => "u8"@,
        RawSampleFormat::S16Le => "s16le"@,
        RawSampleFormat::S16Be => "s16be"@,
        RawSampleFormat::S24Le => "s24le"@,
        RawSampleFormat::S24Be => "s24be"@,
        RawSampleFormat::S32Le => "s32le"@,
        RawSampleFormat::S32Be => "s32be"@,
        RawSampleFormat::F32Le => "f32le"@,
        RawSampleFormat::F32Be => "f32be"@,
        RawSampleFormat::F64Le => "f64le"@,
        RawSampleFormat::F64Be => "f64be"@,
    }
}

/// The encoding a lowercase name selects.
pub open spec fn raw_format_named(e: Seq<char>) -> Option<RawSampleFormat> {
    if e == "s8"@ {
        Some(RawSampleFormat::S8)
    } else if e == "u8"@ {
        Some(RawSampleFormat::U8)
    } else if e == "s16le"@ {
        Some(RawSampleFormat::S16Le)
    } else if e == "s16be"@ {
        Some(RawSampleFormat::S16Be)
    } else if e == "s24le"@ {
        Some(RawSampleFormat::S24Le)
    } else if e == "s24be"@ {
        Some(RawSampleFormat::S24Be)
    } else if e == "s32le"@ {
        Some(RawSampleFormat::S32Le)
    } else if e == "s32be"@ {
        Some(RawSampleFormat::S32Be)
    } else if e == "f32le"@ {
        Some(RawSampleFormat::F32Le)
    } else if e == "f32be"@ {
        Some(RawSampleFormat::F32Be)
    } else if e == "f64le"@ {
        Some(RawSampleFormat::F64Le)
    } else if e == "f64be"@ {
        Some(RawSampleFormat::F64Be)
    } else {
        None
    }
}

/// Bytes per sample of an encoding.
pub open spec fn raw_width(f: RawSampleFormat) -> int {
    match f {
        RawSampleFormat::S8 | RawSampleFormat::U8 => 1,
        RawSampleFormat::S16Le | RawSampleFormat::S16Be => 2,
        RawSampleFormat::S24Le | RawSampleFormat::S24Be => 3,
        RawSampleFormat::F64Le | RawSampleFormat::F64Be => 8,
        _ => 4,
    }
}

/// Whether an encoding stores floating-point samples.
pub open spec fn is_float_format(f: RawSampleFormat) -> bool {
    matches!(f, RawSampleFormat::F32Le | RawSampleFormat::F32Be | RawSampleFormat::F64Le | RawSampleFormat::F64Be)
}

/// A 24-bit two's-complement value from its bytes, least significant first.
pub open spec fn signed24(b0: u8, b1: u8, b2: u8) -> int {
    let u = b0 as int + 256 * (b1 as int) + 65536 * (b2 as int);
    if b2 >= 128 {
        u - 0x100_0000
    } else {
        u
    }
}

/// The 16-bit sample an integer encoding gives for the bytes of one sample.
///
/// 24- and 32-bit values are scaled down by dividing by 256 and 65536,
/// rounding toward zero; the results always fit in 16 bits.
pub open spec fn raw_int_sample(f: RawSampleFormat, c: Seq<u8>) -> int {
    match f {
        RawSampleFormat::S8 => signed8(c[0]) * 256,
        RawSampleFormat::U8 => (c[0] - 128) * 256,
        RawSampleFormat::S16Le => signed16(le_u16(c[0], c[1])),
        RawSampleFormat::S16Be => signed16(le_u16(c[1], c[0])),
        RawSampleFormat::S24Le => trunc_div(signed24(c[0], c[1], c[2]), 256),
        RawSampleFormat::S24Be => trunc_div(signed24(c[2], c[1], c[0]), 256),
        RawSampleFormat::S32Le => trunc_div(signed32(le_u32(c[0], c[1], c[2], c[3])), 65536),
        RawSampleFormat::S32Be => trunc_div(signed32(le_u32(c[3], c[2], c[1], c[0])), 65536),
        _ => 0,
    }
}

/// The little-endian unsigned value of bytes `0..n` of `c`.
pub open spec fn le_bits(c: Seq<u8>, n: int) -> int
    decreases n,
{
    if n <= 0 {
        0
    } else {
        le_bits(c, n - 1) + pow256(n - 1) * (c[n - 1] as int)
    }
}

/// `256` to the power `k`.
pub open spec fn pow256(k: int) -> int
    decreases k,
{
    if k <= 0 {
        1
    } else {
        256 * pow256(k - 1)
    }
}

/// The IEEE-754 bit pattern a floating-point encoding stores in the bytes of one sample.
pub open spec fn raw_float_bits(f: RawSampleFormat, c: Seq<u8>) -> int {
    match f {
        RawSampleFormat::F32Le => le_bits(c, 4),
        RawSampleFormat::F32Be => le_bits(c.reverse(), 4),
        RawSampleFormat::F64Le => le_bits(c, 8),
        _ => le_bits(c.reverse(), 8),
    }
}

/// `s` is a sample the decoder gives for the bytes `c` of one sample: the
/// integer value for integer encodings, and a result of `decode_float` on
/// the stored bit pattern for floating-point encodings.
pub open spec fn raw_sample_decoded<F: Fn(RawSampleFormat, u64) -> i16>(
    decode_float: F,
    f: RawSampleFormat,
    c: Seq<u8>,
    s: i16,
) -> bool {
    if is_float_format(f) {
        call_ensures(decode_float, (f, raw_float_bits(f, c) as u64), s)
    } else {
        s == raw_int_sample(f, c)
    }
}

/// `decode_float` may be called on every bit pattern.
pub open spec fn decodes_all_floats<F: Fn(RawSampleFormat, u64) -> i16>(decode_float: F) -> bool {
    forall|f: RawSampleFormat, bits: u64| #[trigger] call_requires(decode_float, (f, bits))
}

impl RawSampleFormat {
    /// Returns the canonical CLI-friendly name.
    pub fn as_str(self) -> (r: &'static str)
        ensures
            r@ == raw_format_name(self),
    {
        match self {
            RawSampleFormat::S8 => "s8",
            RawSampleFormat::U8 => "u8",
            RawSampleFormat::S16Le => "s16le",
            RawSampleFormat::S16Be => "s16be",
            RawSampleFormat::S24Le => "s24le",
            RawSampleFormat::S24Be => "s24be",
            RawSampleFormat::S32Le => "s32le",
            RawSampleFormat::S32Be => "s32be",
            RawSampleFormat::F32Le => "f32le",
            RawSampleFormat::F32Be => "f32be",
            RawSampleFormat::F64Le => "f64le",
            RawSampleFormat::F64Be => "f64be",
        }
    }

    /// Parses an encoding name, ignoring ASCII case, as `FromStr` does.
    pub fn parse(s: &str) -> (r: Result<RawSampleFormat, Error>)
        ensures
            raw_format_named(ascii_lower(s@)) matches Some(f) ==> r == Ok::<RawSampleFormat, Error>(
                f,
            ),
            raw_format_named(ascii_lower(s@)) is None ==> (r matches Err(e)
                && is_unsupported_format(e, s@)),
    {
        if lowercase_equals(s, "s8") {
            Ok(RawSampleFormat::S8)
        } else if lowercase_equals(s, "u8") {
            Ok(RawSampleFormat::U8)
        } else if lowercase_equals(s, "s16le") {
            Ok(RawSampleFormat::S16Le)
        } else if lowercase_equals(s, "s16be") {
            Ok(RawSampleFormat::S16Be)
        } else if lowercase_equals(s, "s24le") {
            Ok(RawSampleFormat::S24Le)
        } else if lowercase_equals(s, "s24be") {
            Ok(RawSampleFormat::S24Be)
        } else if lowercase_equals(s, "s32le") {
            Ok(RawSampleFormat::S32Le)
        } else if lowercase_equals(s, "s32be") {
            Ok(RawSampleFormat::S32Be)
        } else if lowercase_equals(s, "f32le") {
            Ok(RawSampleFormat::F32Le)
        } else if lowercase_equals(s, "f32be") {
            Ok(RawSampleFormat::F32Be)
        } else if lowercase_equals(s, "f64le") {
            Ok(RawSampleFormat::F64Le)
        } else if lowercase_equals(s, "f64be") {
            Ok(RawSampleFormat::F64Be)
        } else {
            Err(Error::unsupported_format(s))
        }
    }

    /// Bytes per sample.
    pub fn width(self) -> (r: usize)
        ensures
            r == raw_width(self),
    {
        match self {
            RawSampleFormat::S8 | RawSampleFormat::U8 => 1,
            RawSampleFormat::S16Le | RawSampleFormat::S16Be => 2,
            RawSampleFormat::S24Le | RawSampleFormat::S24Be => 3,
            RawSampleFormat::F64Le | RawSampleFormat::F64Be => 8,
            _ => 4,
        }
    }
}

impl std::str::FromStr for RawSampleFormat {
    type Err = Error;

    fn from_str(s: &str) -> (r: Result<RawSampleFormat, Error>)
        ensures
            raw_format_named(ascii_lower(s@)) matches Some(f) ==> r == Ok::<RawSampleFormat, Error>(f),
            raw_format_named(ascii_lower(s@)) is None ==> (r matches Err(e) && is_unsupported_format(e, s@)),
    {
        RawSampleFormat::parse(s)
    }
}

/// Configuration for decoding raw audio.
#[derive(Clone, Copy, Debug, PartialEq, Eq, Structural)]
pub struct RawAudioConfig {
    /// Source sample rate in Hz.
    pub sample_rate: u32,
    /// Channel count.
    pub channels: u16,
    /// Raw sample encoding.
    pub sample_format: RawSampleFormat,
}

impl RawAudioConfig {
    /// Creates a raw audio configuration.
    pub fn new(sample_rate: u32, channels: u16, sample_format: RawSampleFormat) -> (r: Result<
        RawAudioConfig,
        Error,
    >)
        ensures
            r is Ok <==> sample_rate != 0 && channels != 0,
            r matches Ok(c) ==> c == (RawAudioConfig { sample_rate, channels, sample_format }),
            r matches Err(e) ==> if sample_rate == 0 {
                is_invalid_argument(
                    e,
                    "raw sample rate"@,
                    "Invalid input sample rate: must be greater than zero"@,
                )
            } else {
                is_invalid_argument(
                    e,
                    "raw channels"@,
                    "Invalid number of input channels: must be greater than zero"@,
                )
            },
    {
        if sample_rate == 0 {
            return Err(
                Error::invalid_argument(
                    "raw sample rate",
                    "Invalid input sample rate: must be greater than zero",
                ),
            );
        }
        if channels == 0 {
            return Err(
                Error::invalid_argument(
                    "raw channels",
                    "Invalid number of input channels: must be greater than zero",
                ),
            );
        }
        Ok(RawAudioConfig { sample_rate, channels, sample_format })
    }
}

fn trunc_div_i64(v: i64, d: i64) -> (r: i64)
    requires
        d > 0,
        v > i64::MIN,
    ensures
        r == trunc_div(v as int, d as int),
{
    if v >= 0 {
        v / d
    } else {
        -((-v) / d)
    }
}

fn le_bits_of(c: &[u8], n: usize, reversed: bool) -> (r: u64)
    requires
        n == 4 || n == 8,
        c@.len() >= n,
    ensures
        r == le_bits(if reversed { c@.subrange(0, n as int).reverse() } else { c@.subrange(0, n as int) }, n as int),
{
    let ghost s = if reversed { c@.subrange(0, n as int).reverse() } else { c@.subrange(0, n as int) };
    let mut acc: u128 = 0;
    let mut scale: u128 = 1;
    let mut k: usize = 0;
    proof {
        assert(pow256(8) == 0x1_0000_0000_0000_0000) by {
            reveal_with_fuel(pow256, 9);
        }
    }
    while k < n
        invariant
            n == 4 || n == 8,
            c@.len() >= n,
            s.len() == n,
            s == (if reversed { c@.subrange(0, n as int).reverse() } else { c@.subrange(0, n as int) }),
            k <= n,
            scale as int == pow256(k as int),
            acc as int == le_bits(s, k as int),
            acc < scale,
            scale <= pow256(8),
        decreases n - k,
    {
        let byte = if reversed { c[n - 1 - k] } else { c[k] };
        assert(byte == s[k as int]);
        proof {
            assert(pow256(8) == 0x1_0000_0000_0000_0000) by {
                reveal_with_fuel(pow256, 9);
            }
            assert(pow256(k + 1) <= pow256(8)) by {
                reveal_with_fuel(pow256, 9);
            }
            assert(acc + scale * (byte as int) < scale * 256) by (nonlinear_arith)
                requires
                    acc < scale,
                    byte < 256,
            ;
        }
        acc = acc + scale * byte as u128;
        scale = scale * 256;
        k = k + 1;
    }
    proof {
        assert(pow256(8) == 0x1_0000_0000_0000_0000) by {
            reveal_with_fuel(pow256, 9);
        }
    }
    acc as u64
}

/// Decodes one sample of `bytes`, whose first bytes hold the encoded sample.
pub fn parse_raw_sample<F: Fn(RawSampleFormat, u64) -> i16>(
    bytes: &[u8],
    format: RawSampleFormat,
    decode_float: &F,
) -> (r: i16)
    requires
        bytes@.len() >= raw_width(format),
        decodes_all_floats(*decode_float),
    ensures
        raw_sample_decoded(*decode_float, format, bytes@.subrange(0, raw_width(format)), r),
{
    let ghost c = bytes@.subrange(0, raw_width(format));
    match format {
        RawSampleFormat::S8 => {
            let b = bytes[0];
            let v: i16 = if b >= 128 { b as i16 - 256 } else { b as i16 };
            v * 256
        },
        RawSampleFormat::U8 => (bytes[0] as i16 - 128) * 256,
        RawSampleFormat::S16Le | RawSampleFormat::S16Be => {
            let (lo, hi) = if format == RawSampleFormat::S16Le {
                (bytes[0], bytes[1])
            } else {
                (bytes[1], bytes[0])
            };
            let u: i32 = lo as i32 + 256 * hi as i32;
            (if u >= 32768 { u - 65536 } else { u }) as i16
        },
        RawSampleFormat::S24Le | RawSampleFormat::S24Be => {
            let (b0, b1, b2) = if format == RawSampleFormat::S24Le {
                (bytes[0], bytes[1], bytes[2])
            } else {
                (bytes[2], bytes[1], bytes[0])
            };
            let u: i64 = b0 as i64 + 256 * b1 as i64 + 65536 * b2 as i64;
            let v: i64 = if b2 >= 128 { u - 0x100_0000 } else { u };
            let q = trunc_div_i64(v, 256);
            proof {
                assert(-32768 <= trunc_div(v as int, 256) <= 32767) by (nonlinear_arith)
                    requires
                        -0x80_0000 <= v < 0x80_0000,
                ;
            }
            q as i16
        },
        RawSampleFormat::S32Le | RawSampleFormat::S32Be => {
            let (b0, b1, b2, b3) = if format == RawSampleFormat::S32Le {
                (bytes[0], bytes[1], bytes[2], bytes[3])
            } else {
                (bytes[3], bytes[2], bytes[1], bytes[0])
            };
            let u: i64 = b0 as i64 + 256 * b1 as i64 + 65536 * b2 as i64 + 16777216 * b3 as i64;
            let v: i64 = if u >= 0x8000_0000 { u - 0x1_0000_0000 } else { u };
            let q = trunc_div_i64(v, 65536);
            proof {
                assert(-32768 <= trunc_div(v as int, 65536) <= 32767) by (nonlinear_arith)
                    requires
                        -0x8000_0000 <= v < 0x8000_0000,
                ;
            }
            q as i16
        },
        RawSampleFormat::F32Le | RawSampleFormat::F32Be => {
            let bits = le_bits_of(bytes, 4, format == RawSampleFormat::F32Be);
            decode_float(format, bits)
        },
        _ => {
            let bits = le_bits_of(bytes, 8, format == RawSampleFormat::F64Be);
            decode_float(format, bits)
        },
    }
}

/// The samples decoded from `bytes`: `s` holds one decoded sample for each
/// `width`-byte chunk, in order.
pub open spec fn raw_samples_decoded<F: Fn(RawSampleFormat, u64) -> i16>(
    decode_float: F,
    f: RawSampleFormat,
    bytes: Seq<u8>,
    s: Seq<i16>,
) -> bool {
    let w = raw_width(f);
    &&& s.len() == bytes.len() as int / w
    &&& forall|i: int|
        0 <= i < s.len() ==> raw_sample_decoded(
            decode_float,
            f,
            #[trigger] bytes.subrange(i * w, i * w + w),
            s[i],
        )
}

/// Decodes raw audio bytes into interleaved 16-bit PCM.
///
/// Floating-point samples are converted by `decode_float`, which receives
/// the encoding and the stored IEEE-754 bit pattern.
pub fn decode_raw_audio_reader<F: Fn(RawSampleFormat, u64) -> i16>(
    reader: &[u8],
    config: &RawAudioConfig,
    decode_float: F,
) -> (r: Result<PcmAudio, Error>)
    requires
        decodes_all_floats(decode_float),
    ensures
        ({
            let b = reader@;
            let w = raw_width(config.sample_format);
            let n = b.len() as int / w;
            &&& r is Ok <==> (b.len() as int) % w == 0 && valid_pcm(config.sample_rate, config.channels, n)
            &&& r matches Ok(p) ==> p.wf() && p@.sample_rate == config.sample_rate && p@.channels
                == config.channels && raw_samples_decoded(
                decode_float,
                config.sample_format,
                b,
                p@.samples,
            )
            &&& r matches Err(e) ==> if (b.len() as int) % w != 0 {
                is_invalid_data(e, "Raw audio byte length is not aligned to the sample format"@)
            } else {
                pcm_error(e, config.sample_rate, config.channels)
            }
        }),
{
    let format = config.sample_format;
    let width = format.width();
    let n = reader.len();
    if n % width != 0 {
        return Err(
            Error::invalid_data("Raw audio byte length is not aligned to the sample format"),
        );
    }
    let count = n / width;
    let mut samples: Vec<i16> = Vec::new();
    let mut i: usize = 0;
    while i < count
        invariant
            decodes_all_floats(decode_float),
            n == reader@.len(),
            width == raw_width(format),
            count == n / width,
            n % width == 0,
            i <= count,
            samples@.len() == i,
            forall|k: int|
                0 <= k < i ==> raw_sample_decoded(
                    decode_float,
                    format,
                    #[trigger] reader@.subrange(k * width, k * width + width),
                    samples@[k],
                ),
        decreases count - i,
    {
        proof {
            let (ii, wi, ci) = (i as int, width as int, count as int);
            assert(ii * wi + wi <= ci * wi) by (nonlinear_arith)
                requires
                    ii < ci,
                    wi > 0,
            ;
            assert(ci * wi == n) by (nonlinear_arith)
                requires
                    ci == (n as int) / wi,
                    (n as int) % wi == 0,
                    wi > 0,
            ;
        }
        let start = i * width;
        let chunk = &reader[start..start + width];
        let s = parse_raw_sample(chunk, format, &decode_float);
        assert(chunk@.subrange(0, width as int) =~= reader@.subrange(
            i * width,
            i * width + width,
        ));
        samples.push(s);
        i = i + 1;
    }
    PcmAudio::new(config.sample_rate, config.channels, samples)
}

/// Generates a waveform from raw audio bytes.
pub fn generate_waveform_from_raw_reader<F: Fn(RawSampleFormat, u64) -> i16>(
    reader: &[u8],
    config: &RawAudioConfig,
    options: &GenerateOptions,
    decode_float: F,
) -> (r: Result<Waveform, Error>)
    requires
        decodes_all_floats(decode_float),
    ensures
        ({
            let b = reader@;
            let w = raw_width(config.sample_format);
            let n = b.len() as int / w;
            let decodes = (b.len() as int) % w == 0 && valid_pcm(config.sample_rate, config.channels, n);
            &&& !decodes ==> (r matches Err(e) && if (b.len() as int) % w != 0 {
                is_invalid_data(e, "Raw audio byte length is not aligned to the sample format"@)
            } else {
                pcm_error(e, config.sample_rate, config.channels)
            })
            &&& decodes ==> exists|p: PcmView|
                p.sample_rate == config.sample_rate && p.channels == config.channels
                    && p.well_formed() && raw_samples_decoded(
                    decode_float,
                    config.sample_format,
                    b,
                    p.samples,
                ) && #[trigger] crate::audio::generated_result(p, *options, r)
        }),
{
    let pcm = decode_raw_audio_reader(reader, config, decode_float)?;
    let r = generate_waveform_from_pcm(&pcm, options);
    proof {
        assert(crate::audio::generated_result(pcm@, *options, r));
    }
    r
}

} // verus!
