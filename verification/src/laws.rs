//! Properties that hold across the library's operations.
use vstd::prelude::*;

use crate::audio::{frames_point_data, generated_from, generated_view, output_channels, trunc_div, PcmView};
use crate::bytes::{
    lemma_i16_bytes_of_read, lemma_i16_round_trip, lemma_u32_bytes_of_read, lemma_u32_round_trip, seq_le_i16,
    le_u16, seq_le_i32, seq_le_u32, u16_le_bytes, u32_le_bytes,
};
use crate::codecs::{pcm16_bytes, tag_bytes, wav_bytes, wav_header, wav_header_len};
use crate::cli::{cli_format_name, cli_format_named, run_plan_of, CliFormat, RunPlan};
use crate::error::Error;
use crate::format::{audio_format_name, audio_format_named, waveform_format_name, waveform_format_named, AudioFormat, WaveformFormat};
use crate::raw::{raw_format_name, raw_format_named, RawSampleFormat};
use crate::text::{ascii_lower, ascii_upper, lower_char, upper_char};
use crate::waveform::{
    resampled_view, table_sample, json_result, JsonWaveform, printed_value, first_outside, json_low, json_high,
    dat_bits, dat_byte, dat_bytes, dat_channels, dat_data, dat_header_len, dat_result, dat_view, signed8,
    unsigned16, valid_bits, Waveform, WaveformView, txt_bytes, txt_cells, txt_lines, channels_low, channels_high,
    lemma_channels_extremes,
};
use crate::text::decimal;
use crate::canvas::{blank, lemma_grid_index, rect, CanvasView, Shape};
use crate::color::Color;
use crate::render::{
    channel_bars, channel_lines, line_shape, points_drawn, rendered, waveform_lines, BarStyle, RenderOptions,
};

verus! {

/// The samples a `.dat` file keeps at a storage depth: 8-bit files keep the
/// high byte of each sample.
pub open spec fn stored_samples(data: Seq<i16>, bits: u8) -> Seq<i16> {
    if bits == 8 {
        Seq::new(data.len(), |j: int| (trunc_div(data[j] as int, 256) * 256) as i16)
    } else {
        data
    }
}

/// The waveform a `.dat` file written at depth `bits` describes.
pub open spec fn stored_view(v: WaveformView, bits: u8) -> WaveformView {
    WaveformView { storage_bits: bits, data: stored_samples(v.data, bits), ..v }
}

proof fn lemma_read_u32_at(s: Seq<u8>, at: int, n: int)
    requires
        0 <= at,
        at + 4 <= s.len(),
        0 <= n < 0x1_0000_0000,
        s.subrange(at, at + 4) == u32_le_bytes(n),
    ensures
        seq_le_u32(s, at) == n,
{
    lemma_u32_round_trip(n);
    let t = u32_le_bytes(n);
    assert(s[at] == t[0] && s[at + 1] == t[1] && s[at + 2] == t[2] && s[at + 3] == t[3]) by {
        assert(s.subrange(at, at + 4)[0] == s[at]);
        assert(s.subrange(at, at + 4)[1] == s[at + 1]);
        assert(s.subrange(at, at + 4)[2] == s[at + 2]);
        assert(s.subrange(at, at + 4)[3] == s[at + 3]);
    }
}

/// The header fields of the `.dat` bytes of a waveform read back as written.
#[verifier::rlimit(30)]
proof fn lemma_dat_header_read(v: WaveformView, bits: u8)
    requires
        v.well_formed(),
        valid_bits(bits),
        v.len() < 0x1_0000_0000,
    ensures
        ({
            let b = dat_bytes(v, bits);
            let version: int = if v.channels == 1 { 1 } else { 2 };
            &&& seq_le_i32(b, 0) == version
            &&& b.len() >= dat_header_len(version)
            &&& seq_le_u32(b, 8) == v.sample_rate
            &&& seq_le_u32(b, 12) == v.samples_per_pixel
            &&& seq_le_u32(b, 16) == v.len()
            &&& dat_channels(b) == v.channels
            &&& dat_bits(b) == bits
        }),
{
    let b = dat_bytes(v, bits);
    let version: int = if v.channels == 1 { 1 } else { 2 };
    let ch = v.channels as int;
    let len = v.len() as int;
    assert(b.subrange(0, 4) =~= u32_le_bytes(version));
    assert(b.subrange(4, 8) =~= u32_le_bytes(if bits == 8 { 1 } else { 0 }));
    assert(b.subrange(8, 12) =~= u32_le_bytes(v.sample_rate as int));
    assert(b.subrange(12, 16) =~= u32_le_bytes(v.samples_per_pixel as int));
    assert(b.subrange(16, 20) =~= u32_le_bytes(len % 0x1_0000_0000));
    lemma_read_u32_at(b, 0, version);
    lemma_read_u32_at(b, 4, if bits == 8 { 1 } else { 0 });
    lemma_read_u32_at(b, 8, v.sample_rate as int);
    lemma_read_u32_at(b, 12, v.samples_per_pixel as int);
    lemma_read_u32_at(b, 16, len);
    if version == 2 {
        assert(b.subrange(20, 24) =~= u32_le_bytes(ch));
        lemma_read_u32_at(b, 20, ch);
    }
}

/// The data of the `.dat` bytes of a waveform reads back as the samples
/// reduced to the depth written.
#[verifier::rlimit(30)]
proof fn lemma_dat_data_read(v: WaveformView, bits: u8)
    requires
        v.well_formed(),
        valid_bits(bits),
        v.len() < 0x1_0000_0000,
        dat_channels(dat_bytes(v, bits)) == v.channels,
        dat_bits(dat_bytes(v, bits)) == bits,
        seq_le_i32(dat_bytes(v, bits), 0) == (if v.channels == 1 { 1int } else { 2 }),
        seq_le_u32(dat_bytes(v, bits), 16) == v.len(),
    ensures
        dat_data(dat_bytes(v, bits)) == stored_samples(v.data, bits),
{
    let b = dat_bytes(v, bits);
    let version: int = if v.channels == 1 { 1 } else { 2 };
    let h = dat_header_len(version);
    let ch = v.channels as int;
    let n = v.data.len() as int;
    let len = v.len() as int;
    vstd::arithmetic::div_mod::lemma_fundamental_div_mod(n, 2 * ch);
    assert(len * ch * 2 == n) by (nonlinear_arith)
        requires
            n == (2 * ch) * (n / (2 * ch)) + n % (2 * ch),
            n % (2 * ch) == 0,
            len == n / (2 * ch),
    ;
    let d = dat_data(b);
    let stored = stored_samples(v.data, bits);
    if bits == 8 {
        assert(b.len() == h + n);
        assert(d.len() == n);
        assert forall|j: int| 0 <= j < n implies d[j] == stored[j] by {
            assert(b[h + j] == dat_byte(v.data[j]));
            let q = trunc_div(v.data[j] as int, 256);
            assert(-128 <= q <= 127);
            assert(signed8(dat_byte(v.data[j])) == q);
        }
    } else {
        assert(b.len() == h + 2 * n);
        assert(d.len() == n);
        assert forall|j: int| 0 <= j < n implies d[j] == stored[j] by {
            let x = v.data[j] as int;
            lemma_i16_round_trip(x);
            let u = u16_le_bytes(unsigned16(v.data[j]));
            assert(b[h + 2 * j] == u[0]);
            assert(b[h + 2 * j + 1] == u[1]);
            assert(seq_le_i16(b, h + 2 * j) == seq_le_i16(u, 0));
        }
    }
    assert(d =~= stored);
}

/// Reading back what `write_dat` writes at a valid depth gives the waveform
/// again, with the storage depth it was written at and its samples reduced
/// to that depth: unchanged at 16 bits, their high byte at 8 bits. The
/// point count must fit the header's 32-bit length field.
pub proof fn law_dat_round_trip(v: WaveformView, bits: u8, r: Result<Waveform, Error>)
    requires
        v.well_formed(),
        valid_bits(bits),
        v.len() < 0x1_0000_0000,
        dat_result(dat_bytes(v, bits), r),
    ensures
        r matches Ok(w) && w@ == stored_view(v, bits),
{
    let b = dat_bytes(v, bits);
    let ch = v.channels as int;
    let n = v.data.len() as int;
    lemma_dat_header_read(v, bits);
    lemma_dat_data_read(v, bits);
    assert(dat_view(b) == stored_view(v, bits));
    assert(stored_samples(v.data, bits).len() == n);
    assert((n % (2 * ch)) == 0);
}

proof fn lemma_lower_fixed(s: Seq<char>)
    requires
        forall|i: int| 0 <= i < s.len() ==> !('A' <= #[trigger] s[i] && s[i] <= 'Z'),
    ensures
        ascii_lower(s) == s,
{
    assert forall|i: int| 0 <= i < s.len() implies ascii_lower(s)[i] == s[i] by {
        assert(lower_char(s[i]) == s[i]);
    }
    assert(ascii_lower(s) =~= s);
}

/// The canonical name of every audio format names that format again.
pub proof fn law_audio_format_name_round_trip(f: AudioFormat)
    ensures
        audio_format_named(ascii_lower(audio_format_name(f))) == Some(f),
{
    reveal_strlit("mp3");
    reveal_strlit("wav");
    reveal_strlit("w64");
    reveal_strlit("flac");
    reveal_strlit("ogg");
    reveal_strlit("oga");
    reveal_strlit("opus");
    reveal_strlit("raw");
    lemma_lower_fixed(audio_format_name(f));
    match f {
        AudioFormat::Mp3 => {},
        AudioFormat::Wav => {
            assert("wav"@[0] != "mp3"@[0]);
        },
        AudioFormat::Flac => {
            assert("flac"@.len() != "mp3"@.len());
            assert("flac"@.len() != "wav"@.len());
            assert("flac"@.len() != "w64"@.len());
        },
        AudioFormat::Ogg => {
            assert("ogg"@[0] != "mp3"@[0]);
            assert("ogg"@[0] != "wav"@[0]);
            assert("ogg"@[0] != "w64"@[0]);
            assert("ogg"@.len() != "flac"@.len());
        },
        AudioFormat::Opus => {
            assert("opus"@.len() != "mp3"@.len());
            assert("opus"@.len() != "wav"@.len());
            assert("opus"@.len() != "w64"@.len());
            assert("opus"@[0] != "flac"@[0]);
            assert("opus"@.len() != "ogg"@.len());
            assert("opus"@.len() != "oga"@.len());
        },
        AudioFormat::Raw => {
            assert("raw"@[0] != "mp3"@[0]);
            assert("raw"@[0] != "wav"@[0]);
            assert("raw"@[0] != "w64"@[0]);
            assert("raw"@.len() != "flac"@.len());
            assert("raw"@[0] != "ogg"@[0]);
            assert("raw"@[0] != "oga"@[0]);
            assert("raw"@.len() != "opus"@.len());
        },
    }
}

/// The canonical name of every waveform format names that format again.
pub proof fn law_waveform_format_name_round_trip(f: WaveformFormat)
    ensures
        waveform_format_named(ascii_lower(waveform_format_name(f))) == Some(f),
{
    reveal_strlit("dat");
    reveal_strlit("json");
    reveal_strlit("txt");
    lemma_lower_fixed(waveform_format_name(f));
    match f {
        WaveformFormat::Dat => {},
        WaveformFormat::Json => {
            assert("json"@.len() != "dat"@.len());
        },
        WaveformFormat::Txt => {
            assert("txt"@[0] != "dat"@[0]);
            assert("txt"@.len() != "json"@.len());
        },
    }
}

/// The canonical name of every command-line format names that format again.
pub proof fn law_cli_format_name_round_trip(f: CliFormat)
    ensures
        cli_format_named(ascii_lower(cli_format_name(f))) == Some(f),
{
    reveal_strlit("mp3");
    reveal_strlit("wav");
    reveal_strlit("w64");
    reveal_strlit("flac");
    reveal_strlit("ogg");
    reveal_strlit("oga");
    reveal_strlit("opus");
    reveal_strlit("raw");
    reveal_strlit("dat");
    reveal_strlit("json");
    reveal_strlit("txt");
    reveal_strlit("png");
    lemma_lower_fixed(cli_format_name(f));
    match f {
        CliFormat::Mp3 => {},
        CliFormat::Wav => {
            assert("wav"@[0] != "mp3"@[0]);
        },
        CliFormat::Flac => {
            assert("flac"@.len() != "mp3"@.len());
            assert("flac"@.len() != "wav"@.len());
            assert("flac"@.len() != "w64"@.len());
        },
        CliFormat::Ogg => {
            assert("ogg"@[0] != "mp3"@[0]);
            assert("ogg"@[0] != "wav"@[0]);
            assert("ogg"@[0] != "w64"@[0]);
            assert("ogg"@.len() != "flac"@.len());
        },
        CliFormat::Opus => {
            assert("opus"@.len() != "mp3"@.len());
            assert("opus"@.len() != "wav"@.len());
            assert("opus"@.len() != "w64"@.len());
            assert("opus"@[0] != "flac"@[0]);
            assert("opus"@.len() != "ogg"@.len());
            assert("opus"@.len() != "oga"@.len());
        },
        CliFormat::Raw => {
            assert("raw"@[0] != "mp3"@[0]);
            assert("raw"@[0] != "wav"@[0]);
            assert("raw"@[0] != "w64"@[0]);
            assert("raw"@.len() != "flac"@.len());
            assert("raw"@[0] != "ogg"@[0]);
            assert("raw"@[0] != "oga"@[0]);
            assert("raw"@.len() != "opus"@.len());
        },
        CliFormat::Dat => {
            assert("dat"@[0] != "mp3"@[0]);
            assert("dat"@[0] != "wav"@[0]);
            assert("dat"@[0] != "w64"@[0]);
            assert("dat"@.len() != "flac"@.len());
            assert("dat"@[0] != "ogg"@[0]);
            assert("dat"@[0] != "oga"@[0]);
            assert("dat"@.len() != "opus"@.len());
            assert("dat"@[0] != "raw"@[0]);
        },
        CliFormat::Json => {
            assert("json"@.len() != "mp3"@.len());
            assert("json"@.len() != "wav"@.len());
            assert("json"@.len() != "w64"@.len());
            assert("json"@[0] != "flac"@[0]);
            assert("json"@.len() != "ogg"@.len());
            assert("json"@.len() != "oga"@.len());
            assert("json"@[0] != "opus"@[0]);
            assert("json"@.len() != "raw"@.len());
            assert("json"@.len() != "dat"@.len());
        },
        CliFormat::Txt => {
            assert("txt"@[0] != "mp3"@[0]);
            assert("txt"@[0] != "wav"@[0]);
            assert("txt"@[0] != "w64"@[0]);
            assert("txt"@.len() != "flac"@.len());
            assert("txt"@[0] != "ogg"@[0]);
            assert("txt"@[0] != "oga"@[0]);
            assert("txt"@.len() != "opus"@.len());
            assert("txt"@[0] != "raw"@[0]);
            assert("txt"@[0] != "dat"@[0]);
            assert("txt"@.len() != "json"@.len());
        },
        CliFormat::Png => {
            assert("png"@[0] != "mp3"@[0]);
            assert("png"@[0] != "wav"@[0]);
            assert("png"@[0] != "w64"@[0]);
            assert("png"@.len() != "flac"@.len());
            assert("png"@[0] != "ogg"@[0]);
            assert("png"@[0] != "oga"@[0]);
            assert("png"@.len() != "opus"@.len());
            assert("png"@[0] != "raw"@[0]);
            assert("png"@[0] != "dat"@[0]);
            assert("png"@.len() != "json"@.len());
            assert("png"@[0] != "txt"@[0]);
        },
    }
}

/// The canonical name of every raw sample encoding names that encoding again.
pub proof fn law_raw_format_name_round_trip(f: RawSampleFormat)
    ensures
        raw_format_named(ascii_lower(raw_format_name(f))) == Some(f),
{
    reveal_strlit("s8");
    reveal_strlit("u8");
    reveal_strlit("s16le");
    reveal_strlit("s16be");
    reveal_strlit("s24le");
    reveal_strlit("s24be");
    reveal_strlit("s32le");
    reveal_strlit("s32be");
    reveal_strlit("f32le");
    reveal_strlit("f32be");
    reveal_strlit("f64le");
    reveal_strlit("f64be");
    lemma_lower_fixed(raw_format_name(f));
    match f {
        RawSampleFormat::S8 => {},
        RawSampleFormat::U8 => {
            assert("u8"@[0] != "s8"@[0]);
        },
        RawSampleFormat::S16Le => {
            assert("s16le"@.len() != "s8"@.len());
            assert("s16le"@.len() != "u8"@.len());
        },
        RawSampleFormat::S16Be => {
            assert("s16be"@.len() != "s8"@.len());
            assert("s16be"@.len() != "u8"@.len());
            assert("s16be"@[3] != "s16le"@[3]);
        },
        RawSampleFormat::S24Le => {
            assert("s24le"@.len() != "s8"@.len());
            assert("s24le"@.len() != "u8"@.len());
            assert("s24le"@[1] != "s16le"@[1]);
            assert("s24le"@[1] != "s16be"@[1]);
        },
        RawSampleFormat::S24Be => {
            assert("s24be"@.len() != "s8"@.len());
            assert("s24be"@.len() != "u8"@.len());
            assert("s24be"@[1] != "s16le"@[1]);
            assert("s24be"@[1] != "s16be"@[1]);
            assert("s24be"@[3] != "s24le"@[3]);
        },
        RawSampleFormat::S32Le => {
            assert("s32le"@.len() != "s8"@.len());
            assert("s32le"@.len() != "u8"@.len());
            assert("s32le"@[1] != "s16le"@[1]);
            assert("s32le"@[1] != "s16be"@[1]);
            assert("s32le"@[1] != "s24le"@[1]);
            assert("s32le"@[1] != "s24be"@[1]);
        },
        RawSampleFormat::S32Be => {
            assert("s32be"@.len() != "s8"@.len());
            assert("s32be"@.len() != "u8"@.len());
            assert("s32be"@[1] != "s16le"@[1]);
            assert("s32be"@[1] != "s16be"@[1]);
            assert("s32be"@[1] != "s24le"@[1]);
            assert("s32be"@[1] != "s24be"@[1]);
            assert("s32be"@[3] != "s32le"@[3]);
        },
        RawSampleFormat::F32Le => {
            assert("f32le"@.len() != "s8"@.len());
            assert("f32le"@.len() != "u8"@.len());
            assert("f32le"@[0] != "s16le"@[0]);
            assert("f32le"@[0] != "s16be"@[0]);
            assert("f32le"@[0] != "s24le"@[0]);
            assert("f32le"@[0] != "s24be"@[0]);
            assert("f32le"@[0] != "s32le"@[0]);
            assert("f32le"@[0] != "s32be"@[0]);
        },
        RawSampleFormat::F32Be => {
            assert("f32be"@.len() != "s8"@.len());
            assert("f32be"@.len() != "u8"@.len());
            assert("f32be"@[0] != "s16le"@[0]);
            assert("f32be"@[0] != "s16be"@[0]);
            assert("f32be"@[0] != "s24le"@[0]);
            assert("f32be"@[0] != "s24be"@[0]);
            assert("f32be"@[0] != "s32le"@[0]);
            assert("f32be"@[0] != "s32be"@[0]);
            assert("f32be"@[3] != "f32le"@[3]);
        },
        RawSampleFormat::F64Le => {
            assert("f64le"@.len() != "s8"@.len());
            assert("f64le"@.len() != "u8"@.len());
            assert("f64le"@[0] != "s16le"@[0]);
            assert("f64le"@[0] != "s16be"@[0]);
            assert("f64le"@[0] != "s24le"@[0]);
            assert("f64le"@[0] != "s24be"@[0]);
            assert("f64le"@[0] != "s32le"@[0]);
            assert("f64le"@[0] != "s32be"@[0]);
            assert("f64le"@[1] != "f32le"@[1]);
            assert("f64le"@[1] != "f32be"@[1]);
        },
        RawSampleFormat::F64Be => {
            assert("f64be"@.len() != "s8"@.len());
            assert("f64be"@.len() != "u8"@.len());
            assert("f64be"@[0] != "s16le"@[0]);
            assert("f64be"@[0] != "s16be"@[0]);
            assert("f64be"@[0] != "s24le"@[0]);
            assert("f64be"@[0] != "s24be"@[0]);
            assert("f64be"@[0] != "s32le"@[0]);
            assert("f64be"@[0] != "s32be"@[0]);
            assert("f64be"@[1] != "f32le"@[1]);
            assert("f64be"@[1] != "f32be"@[1]);
            assert("f64be"@[3] != "f64le"@[3]);
        },
    }
}

proof fn lemma_div_step(a: int, y: int)
    requires
        a >= 0,
        y > 0,
    ensures
        (a + y) / y == a / y + 1,
{
    vstd::arithmetic::div_mod::lemma_fundamental_div_mod(a, y);
    assert(a + y == (a / y + 1) * y + a % y) by (nonlinear_arith)
        requires
            a == y * (a / y) + a % y,
    ;
    vstd::arithmetic::div_mod::lemma_fundamental_div_mod_converse(a + y, y, a / y + 1, a % y);
}

proof fn lemma_generated_len(p: PcmView, split: bool, spp: int, start: int)
    requires
        p.well_formed(),
        spp >= 1,
        0 <= start <= p.frames(),
    ensures
        generated_from(p, split, spp, start).len() == 2 * output_channels(p, split) * ((p.frames() - start
            + spp - 1) / spp),
    decreases p.frames() - start,
{
    let f = p.frames() - start;
    let c = output_channels(p, split) as int;
    if start >= p.frames() {
        assert((spp - 1) / spp == 0) by (nonlinear_arith)
            requires
                spp >= 1,
        ;
        assert(generated_from(p, split, spp, start).len() == 0);
        assert(2 * c * 0 == 0);
    } else {
        let end = if f <= spp { p.frames() } else { start + spp };
        lemma_generated_len(p, split, spp, end);
        let chunk = frames_point_data(p, split, start, end);
        assert(chunk.len() == 2 * c);
        assert(generated_from(p, split, spp, start) == chunk + generated_from(p, split, spp, end));
        if f <= spp {
            assert((f + spp - 1) / spp == 1) by (nonlinear_arith)
                requires
                    1 <= f <= spp,
            ;
            assert((spp - 1) / spp == 0) by (nonlinear_arith)
                requires
                    spp >= 1,
            ;
        } else {
            lemma_div_step(f - 1, spp);
            assert(f - spp + spp - 1 == f - 1);
        }
        assert(2 * c * ((p.frames() - end + spp - 1) / spp) + 2 * c == 2 * c * ((f + spp - 1) / spp)) by (nonlinear_arith)
            requires
                (p.frames() - end + spp - 1) / spp + 1 == (f + spp - 1) / spp,
        ;
    }
}

/// A waveform generated from PCM audio keeps its sample rate, has one
/// channel or, split, as many as the audio, and one point per channel for
/// every block of `spp` frames, the last block possibly shorter.
pub proof fn law_generated_point_count(p: PcmView, split: bool, spp: u32)
    requires
        p.well_formed(),
        spp >= 1,
    ensures
        generated_view(p, split, spp).sample_rate == p.sample_rate,
        generated_view(p, split, spp).channels == output_channels(p, split),
        generated_view(p, split, spp).len() == (p.frames() + spp - 1) / (spp as int),
{
    lemma_generated_len(p, split, spp as int, 0);
    let c = output_channels(p, split) as int;
    let k = (p.frames() + spp - 1) / (spp as int);
    assert(c >= 1);
    assert(p.frames() >= 0) by (nonlinear_arith)
        requires
            p.samples.len() >= 0,
            p.channels >= 1,
            p.frames() == p.samples.len() as int / p.channels as int,
    ;
    assert(k >= 0) by (nonlinear_arith)
        requires
            p.frames() >= 0,
            spp >= 1,
            k == (p.frames() + spp - 1) / (spp as int),
    ;
    assert(2 * c * k == k * (2 * c) + 0) by (nonlinear_arith);
    vstd::arithmetic::div_mod::lemma_fundamental_div_mod_converse(2 * c * k, 2 * c, k, 0);
}

/// Resampling keeps the sample rate and the channel count and sets the new
/// scale.
pub proof fn law_resample_keeps_rate_and_channels(v: WaveformView, b: u32)
    ensures
        resampled_view(v, b as int).sample_rate == v.sample_rate,
        resampled_view(v, b as int).channels == v.channels,
        resampled_view(v, b as int).samples_per_pixel == b,
{
}

/// A transfer table that maps every sample to itself leaves the samples unchanged.
pub proof fn law_identity_table(table: Seq<i16>, data: Seq<i16>)
    requires
        forall|s: i16| #[trigger] table_sample(table, s) == s,
    ensures
        Seq::new(data.len(), |i: int| table_sample(table, data[i])) == data,
{
    assert(Seq::new(data.len(), |i: int| table_sample(table, data[i])) =~= data);
}

/// A `.dat` file as `write_dat` writes it: the version its channel count
/// calls for, a flags word of 0 or 1, a length field that counts exactly the
/// points present, a channel field that fits 16 bits, and nothing after the
/// data.
pub open spec fn dat_canonical(b: Seq<u8>) -> bool {
    let version = seq_le_i32(b, 0);
    let v = dat_view(b);
    let h = dat_header_len(version);
    &&& (version == 1 <==> v.channels == 1)
    &&& seq_le_u32(b, 4) <= 1
    &&& seq_le_u32(b, 16) == v.len()
    &&& (version == 2 ==> seq_le_u32(b, 20) < 65536)
    &&& b.len() == h + (if dat_bits(b) == 8 { v.data.len() as int } else { 2 * v.data.len() as int })
}

/// Writing back a waveform read from a `.dat` file in the form `write_dat`
/// writes, at the depth the file declares, gives the file's bytes again.
#[verifier::rlimit(60)]
pub proof fn law_dat_bytes_round_trip(b: Seq<u8>, r: Result<Waveform, Error>)
    requires
        dat_result(b, r),
        r is Ok,
        dat_canonical(b),
    ensures
        dat_bytes(r->Ok_0@, dat_bits(b)) == b,
{
    let v = dat_view(b);
    let version = seq_le_i32(b, 0);
    let h = dat_header_len(version);
    let bits = dat_bits(b);
    let n = v.data.len() as int;
    let w = dat_bytes(v, bits);
    lemma_u32_bytes_of_read(b, 0);
    lemma_u32_bytes_of_read(b, 4);
    lemma_u32_bytes_of_read(b, 8);
    lemma_u32_bytes_of_read(b, 12);
    lemma_u32_bytes_of_read(b, 16);
    assert(seq_le_u32(b, 0) == version);
    assert(seq_le_u32(b, 4) == (if bits == 8 { 1int } else { 0 }));
    if version == 2 {
        lemma_u32_bytes_of_read(b, 20);
        assert(seq_le_u32(b, 20) == v.channels);
    }
    assert(w.len() == b.len());
    assert forall|i: int| 0 <= i < h implies w[i] == b[i] by {
        if i < 4 {
            assert(b.subrange(0, 4)[i] == b[i]);
        } else if i < 8 {
            assert(b.subrange(4, 8)[i - 4] == b[i]);
        } else if i < 12 {
            assert(b.subrange(8, 12)[i - 8] == b[i]);
        } else if i < 16 {
            assert(b.subrange(12, 16)[i - 12] == b[i]);
        } else if i < 20 {
            assert(b.subrange(16, 20)[i - 16] == b[i]);
        } else {
            assert(b.subrange(20, 24)[i - 20] == b[i]);
        }
    }
    if bits == 8 {
        assert forall|i: int| h <= i < b.len() implies #[trigger] w[i] == b[i] by {
            let j = i - h;
            let s = signed8(b[h + j]);
            assert(v.data[j] == (s * 256) as i16);
            assert(trunc_div(s * 256, 256) == s);
        }
    } else {
        assert forall|i: int| h <= i < b.len() implies #[trigger] w[i] == b[i] by {
            let j = (i - h) / 2;
            assert(i == h + 2 * j || i == h + 2 * j + 1);
            lemma_i16_bytes_of_read(b, h + 2 * j);
            let x = seq_le_i16(b, h + 2 * j);
            assert(v.data[j] == x as i16);
            assert(b.subrange(h + 2 * j, h + 2 * j + 2)[0] == b[h + 2 * j]);
            assert(b.subrange(h + 2 * j, h + 2 * j + 2)[1] == b[h + 2 * j + 1]);
        }
    }
    assert(w =~= b);
}

/// The JSON document that `write_json` writes for a waveform at depth
/// `bits`, field by field.
pub open spec fn json_document_of(j: JsonWaveform, v: WaveformView, bits: u8) -> bool {
    &&& j.version == 2
    &&& j.channels == Some(v.channels)
    &&& j.sample_rate == v.sample_rate
    &&& j.samples_per_pixel == v.samples_per_pixel
    &&& j.bits == bits
    &&& j.length == v.len()
    &&& j.data@ == Seq::new(v.data.len(), |i: int| printed_value(v.data[i], bits) as i32)
}

/// Reading the JSON document `write_json` writes for a waveform gives the
/// waveform again, with its samples reduced to the depth written.
pub proof fn law_json_round_trip(v: WaveformView, bits: u8, j: JsonWaveform, r: Result<Waveform, Error>)
    requires
        v.well_formed(),
        valid_bits(bits),
        v.data.len() <= usize::MAX,
        json_document_of(j, v, bits),
        json_result(j, r),
    ensures
        r matches Ok(w) && w@ == stored_view(v, bits),
{
    let ch = v.channels as int;
    let n = v.data.len() as int;
    let len = v.len() as int;
    vstd::arithmetic::div_mod::lemma_fundamental_div_mod(n, 2 * ch);
    assert(n == len * ch * 2) by (nonlinear_arith)
        requires
            n == (2 * ch) * (n / (2 * ch)) + n % (2 * ch),
            n % (2 * ch) == 0,
            len == n / (2 * ch),
    ;
    assert forall|i: int| 0 <= i < n implies json_low(bits) <= #[trigger] j.data@[i] <= json_high(bits) by {
        let x = v.data[i] as int;
        if bits == 8 {
            assert(-128 <= trunc_div(x, 256) <= 127);
        }
    }
    lemma_first_outside_none(j.data@, json_low(bits), json_high(bits), 0);
    assert(crate::waveform::json_view(j).data =~= stored_samples(v.data, bits));
}

proof fn lemma_first_outside_none(d: Seq<i32>, lo: int, hi: int, from: int)
    requires
        0 <= from,
        forall|i: int| 0 <= i < d.len() ==> lo <= #[trigger] d[i] <= hi,
    ensures
        first_outside(d, lo, hi, from) == d.len(),
    decreases d.len() - from,
{
    if from < d.len() {
        lemma_first_outside_none(d, lo, hi, from + 1);
    }
}

/// The fields of the WAV header at the offsets both header forms share.
#[verifier::rlimit(40)]
proof fn lemma_wav_header_fields(channels: u16, sample_rate: u32, n: int)
    requires
        channels >= 1,
        0 <= 2 * n < 0x1_0000_0000,
    ensures
        ({
            let hd = wav_header(channels, sample_rate, n);
            let h = wav_header_len(channels);
            &&& hd.len() == h
            &&& hd.subrange(0, 4) == tag_bytes('R', 'I', 'F', 'F')
            &&& hd.subrange(8, 12) == tag_bytes('W', 'A', 'V', 'E')
            &&& le_u16(hd[22], hd[23]) == channels
            &&& seq_le_u32(hd, 24) == sample_rate
            &&& le_u16(hd[34], hd[35]) == 16
            &&& seq_le_u32(hd, h - 4) == 2 * n
        }),
{
    let hd = wav_header(channels, sample_rate, n);
    let h = wav_header_len(channels);
    reveal(wav_header);
    lemma_u32_round_trip(sample_rate as int);
    lemma_u32_round_trip(2 * n);
    assert(hd.subrange(0, 4) =~= tag_bytes('R', 'I', 'F', 'F'));
    assert(hd.subrange(8, 12) =~= tag_bytes('W', 'A', 'V', 'E'));
    assert(hd.subrange(h - 4, h) =~= u32_le_bytes(2 * n));
    assert(hd.subrange(24, 28) =~= u32_le_bytes(sample_rate as int));
}

/// A WAV stream as the library writes it is a RIFF header (44 bytes up to
/// two channels, 68 above) that opens with `RIFF` and `WAVE`, carries the
/// channel count, the sample rate, the 16-bit sample width and the data
/// length in their fields, and is followed by every sample in order, each in
/// two little-endian bytes.
pub proof fn law_wav_layout(channels: u16, sample_rate: u32, samples: Seq<i16>)
    requires
        channels >= 1,
        2 * samples.len() < 0x1_0000_0000,
    ensures
        ({
            let b = wav_bytes(channels, sample_rate, samples);
            let h = wav_header_len(channels);
            &&& b.len() == h + 2 * samples.len()
            &&& b.subrange(0, 4) == tag_bytes('R', 'I', 'F', 'F')
            &&& b.subrange(8, 12) == tag_bytes('W', 'A', 'V', 'E')
            &&& le_u16(b[22], b[23]) == channels
            &&& seq_le_u32(b, 24) == sample_rate
            &&& le_u16(b[34], b[35]) == 16
            &&& seq_le_u32(b, h - 4) == 2 * samples.len()
            &&& forall|i: int| 0 <= i < samples.len() ==> #[trigger] seq_le_i16(b, h + 2 * i) == samples[i]
        }),
{
    let n = samples.len() as int;
    let hd = wav_header(channels, sample_rate, n);
    let body = pcm16_bytes(samples);
    let b = wav_bytes(channels, sample_rate, samples);
    let h = wav_header_len(channels);
    lemma_wav_header_fields(channels, sample_rate, n);
    assert(b == hd + body);
    assert(b.subrange(0, h) =~= hd);
    assert(b.subrange(0, 4) =~= hd.subrange(0, 4));
    assert(b.subrange(8, 12) =~= hd.subrange(8, 12));
    assert(b[22] == hd[22] && b[23] == hd[23] && b[34] == hd[34] && b[35] == hd[35]);
    assert(seq_le_u32(b, 24) == seq_le_u32(hd, 24));
    assert(seq_le_u32(b, h - 4) == seq_le_u32(hd, h - 4));
    assert forall|i: int| 0 <= i < n implies #[trigger] seq_le_i16(b, h + 2 * i) == samples[i] by {
        lemma_i16_round_trip(samples[i] as int);
        assert(b[h + 2 * i] == body[2 * i]);
        assert(b[h + 2 * i + 1] == body[2 * i + 1]);
        assert(body[2 * i] == u16_le_bytes(unsigned16(samples[i]))[0]);
        assert(body[2 * i + 1] == u16_le_bytes(unsigned16(samples[i]))[1]);
    }
}

/// Changing the ASCII case of an extension changes neither the audio format
/// nor the waveform format it names.
pub proof fn law_format_extension_ignores_case(s: Seq<char>)
    ensures
        audio_format_named(ascii_lower(ascii_upper(s))) == audio_format_named(ascii_lower(s)),
        waveform_format_named(ascii_lower(ascii_upper(s))) == waveform_format_named(ascii_lower(s)),
        audio_format_named(ascii_lower(ascii_lower(s))) == audio_format_named(ascii_lower(s)),
        waveform_format_named(ascii_lower(ascii_lower(s))) == waveform_format_named(ascii_lower(s)),
{
    assert forall|i: int| 0 <= i < s.len() implies lower_char(upper_char(s[i])) == lower_char(s[i])
        && lower_char(lower_char(s[i])) == lower_char(s[i]) by {
        let c = s[i];
        if 'a' <= c && c <= 'z' {
            assert('A' <= upper_char(c) && upper_char(c) <= 'Z');
            assert(lower_char(upper_char(c)) == c);
        }
    }
    assert(ascii_lower(ascii_upper(s)) =~= ascii_lower(s));
    assert(ascii_lower(ascii_lower(s)) =~= ascii_lower(s));
}

/// Decimal numbers joined by commas.
pub open spec fn comma_separated(d: Seq<int>) -> Seq<u8>
    decreases d.len(),
{
    if d.len() == 0 {
        Seq::empty()
    } else {
        let sep: Seq<u8> = if d.len() > 1 { seq![44u8] } else { Seq::empty() };
        comma_separated(d.drop_last()) + sep + decimal(d.last())
    }
}

/// The first `n` lines of `k` values each of `d`, each line comma-separated
/// and ended by a newline.
pub open spec fn value_lines(d: Seq<int>, k: int, n: int) -> Seq<u8>
    decreases n,
{
    if n <= 0 {
        Seq::empty()
    } else {
        value_lines(d, k, n - 1) + comma_separated(d.subrange((n - 1) * k, n * k)) + seq![10u8]
    }
}

/// The values a text file shows at storage depth `bits`: the samples
/// themselves at 16 bits, their quotient by 256 rounded toward zero at 8.
pub open spec fn shown_values(data: Seq<i16>, bits: u8) -> Seq<int> {
    Seq::new(data.len(), |j: int| if bits == 8 { trunc_div(data[j] as int, 256) } else { data[j] as int })
}

proof fn lemma_txt_cells(w: WaveformView, bits: u8, index: int, c: int)
    requires
        w.well_formed(),
        0 <= index < w.len(),
        0 <= c <= w.channels,
    ensures
        txt_cells(w, bits, index, c) == comma_separated(
            shown_values(w.data, bits).subrange(index * (2 * w.channels), index * (2 * w.channels) + 2 * c),
        ),
    decreases c,
{
    let ch = w.channels as int;
    let p = shown_values(w.data, bits);
    let base = index * (2 * ch);
    let n = w.data.len() as int;
    vstd::arithmetic::div_mod::lemma_fundamental_div_mod(n, 2 * ch);
    assert(base + 2 * ch <= n) by (nonlinear_arith)
        requires
            n == (2 * ch) * (n / (2 * ch)) + n % (2 * ch),
            n % (2 * ch) == 0,
            0 <= index < n / (2 * ch),
            base == index * (2 * ch),
            ch >= 1,
    ;
    assert(base >= 0) by (nonlinear_arith)
        requires
            index >= 0,
            ch >= 1,
            base == index * (2 * ch),
    ;
    if c == 0 {
        assert(p.subrange(base, base) =~= Seq::<int>::empty());
    } else {
        lemma_txt_cells(w, bits, index, c - 1);
        let s2 = p.subrange(base, base + 2 * c);
        let s1 = p.subrange(base, base + 2 * c - 1);
        let s0 = p.subrange(base, base + 2 * c - 2);
        assert(s2.drop_last() =~= s1);
        assert(s1.drop_last() =~= s0);
        assert(w.offset(c - 1, index) == base + 2 * c - 2) by (nonlinear_arith)
            requires
                base == index * (2 * ch),
                w.offset(c - 1, index) == (index * ch + (c - 1)) * 2,
        ;
        assert(s2.last() == p[base + 2 * c - 1]);
        assert(s1.last() == p[base + 2 * c - 2]);
        assert(printed_value(w.point(c - 1, index).min, bits) == p[base + 2 * c - 2]);
        assert(printed_value(w.point(c - 1, index).max, bits) == p[base + 2 * c - 1]);
        assert(comma_separated(s2) == comma_separated(s1) + seq![44u8] + decimal(s2.last()));
        assert(comma_separated(s1) == comma_separated(s0) + (if c - 1 > 0 { seq![44u8] } else {
            Seq::<u8>::empty()
        }) + decimal(s1.last()));
        assert(comma_separated(s2) == comma_separated(s0) + (if c - 1 > 0 { seq![44u8] } else {
            Seq::<u8>::empty()
        }) + decimal(s1.last()) + seq![44u8] + decimal(s2.last()));
    }
}

proof fn lemma_txt_lines(w: WaveformView, bits: u8, n: int)
    requires
        w.well_formed(),
        0 <= n <= w.len(),
    ensures
        txt_lines(w, bits, n) == value_lines(shown_values(w.data, bits), 2 * w.channels, n),
    decreases n,
{
    if n > 0 {
        lemma_txt_lines(w, bits, n - 1);
        lemma_txt_cells(w, bits, n - 1, w.channels as int);
        let k = 2 * w.channels as int;
        assert((n - 1) * k + k == n * k) by (nonlinear_arith);
    }
}

/// The text encoding of a waveform has one line per point, each listing
/// every channel's `min` and `max` in order, separated by commas: the
/// samples themselves at 16 bits, and their quotient by 256 rounded toward
/// zero at 8 bits.
pub proof fn law_txt_shows_every_value(w: WaveformView, bits: u8)
    requires
        w.well_formed(),
    ensures
        txt_bytes(w, bits) == value_lines(shown_values(w.data, bits), 2 * w.channels, w.len() as int),
        bits != 8 ==> shown_values(w.data, bits) == Seq::new(w.data.len(), |j: int| w.data[j] as int),
{
    lemma_txt_lines(w, bits, w.len() as int);
    if bits != 8 {
        assert(shown_values(w.data, bits) =~= Seq::new(w.data.len(), |j: int| w.data[j] as int));
    }
}

/// The range auto amplitude scaling reads covers every channel: the lowest
/// `min` and the highest `max` over all channels and the points `lo..hi` bound
/// every point of every channel there, and each is some channel's value.
pub proof fn law_amplitude_range_covers_every_channel(v: WaveformView, lo: int, hi: int)
    requires
        v.well_formed(),
        0 <= lo < hi <= v.len(),
    ensures
        forall|c: int, i: int| 0 <= c < v.channels && lo <= i < hi ==> channels_low(v, v.channels as int, lo, hi)
            <= #[trigger] v.point(c, i).min && v.point(c, i).max <= channels_high(v, v.channels as int, lo, hi),
        exists|c: int, i: int| 0 <= c < v.channels && lo <= i < hi && channels_low(v, v.channels as int, lo, hi)
            == #[trigger] v.point(c, i).min,
        exists|c: int, i: int| 0 <= c < v.channels && lo <= i < hi && channels_high(v, v.channels as int, lo, hi)
            == #[trigger] v.point(c, i).max,
{
    lemma_channels_extremes(v, v.channels as int, lo, hi);
}

/// Every input the tool reads, audio or waveform data, can be rendered as a
/// PNG image, whether or not a new scale is asked for: PNG output is
/// available for exactly the inputs that can be turned into `.dat` data.
pub proof fn law_png_renders_every_readable_input(input: CliFormat, has_resample: bool)
    ensures
        run_plan_of(input, CliFormat::Png, has_resample) is Some <==> run_plan_of(input, CliFormat::Dat, false) is Some,
        run_plan_of(input, CliFormat::Png, has_resample) is Some ==> run_plan_of(input, CliFormat::Png, has_resample)
            == Some(RunPlan::RenderImage),
        (input is Mp3 || input is Wav || input is Flac || input is Ogg || input is Opus || input is Raw
            || input is Dat || input is Json) ==> run_plan_of(input, CliFormat::Png, has_resample) == Some(
            RunPlan::RenderImage,
        ),
{
}

/// Painting a shape sets the pixels inside it and keeps the others.
proof fn lemma_painted_at(v: CanvasView, s: Shape, col: Color, x: int, y: int)
    requires
        v.well_formed(),
        0 <= x < v.width,
        0 <= y < v.height,
    ensures
        v.painted(s, col).well_formed(),
        v.painted(s, col).width == v.width,
        v.painted(s, col).height == v.height,
        v.painted(s, col).at(x, y) == (if s(x, y) { col } else { v.at(x, y) }),
{
    let w = v.width as int;
    let h = v.height as int;
    assert(y * w + x < w * h) by (nonlinear_arith)
        requires
            0 <= x < w,
            0 <= y < h,
    ;
    assert(0 <= y * w) by (nonlinear_arith)
        requires
            0 <= y,
            0 <= w,
    ;
    lemma_grid_index(w, x, y);
}

/// The lines of channel `c` set the pixel `(x, y)` to the channel's palette
/// color exactly when the line of column `x` is drawn and covers it.
proof fn lemma_channel_lines_at(
    base: CanvasView,
    v: WaveformView,
    o: RenderOptions,
    table: Seq<i16>,
    start: int,
    c: int,
    n: nat,
    x: int,
    y: int,
)
    requires
        base.well_formed(),
        0 <= x < base.width,
        0 <= y < base.height,
    ensures
        ({
            let r = channel_lines(base, v, o, table, start, c, n);
            &&& r.well_formed()
            &&& r.width == base.width
            &&& r.height == base.height
            &&& r.at(x, y) == (if x < n && line_shape(v, o, table, start, c, x)(x, y) {
                o.colors.waveform@[c % (o.colors.waveform@.len() as int)]
            } else {
                base.at(x, y)
            })
        }),
    decreases n,
{
    if n > 0 {
        lemma_channel_lines_at(base, v, o, table, start, c, (n - 1) as nat, x, y);
        let prev = channel_lines(base, v, o, table, start, c, (n - 1) as nat);
        lemma_painted_at(prev, line_shape(v, o, table, start, c, n - 1), crate::render::channel_color(o, c), x, y);
    }
}

/// The channels drawn after `c` leave a pixel that no later line covers as
/// channel `c` left it.
proof fn lemma_waveform_lines_at(
    base: CanvasView,
    v: WaveformView,
    o: RenderOptions,
    table: Seq<i16>,
    start: int,
    k: nat,
    c: int,
    x: int,
    y: int,
)
    requires
        base.well_formed(),
        0 <= x < base.width,
        0 <= y < base.height,
        0 <= c < k,
        0 <= x < points_drawn(v, o, start),
        line_shape(v, o, table, start, c, x)(x, y),
        forall|d: int| c < d < k ==> !#[trigger] line_shape(v, o, table, start, d, x)(x, y),
    ensures
        waveform_lines(base, v, o, table, start, k).at(x, y) == o.colors.waveform@[c
            % (o.colors.waveform@.len() as int)],
    decreases k,
{
    let nd = points_drawn(v, o, start) as nat;
    lemma_waveform_lines_wf(base, v, o, table, start, (k - 1) as nat);
    let prev = waveform_lines(base, v, o, table, start, (k - 1) as nat);
    lemma_channel_lines_at(prev, v, o, table, start, k - 1, nd, x, y);
    if k - 1 > c {
        assert(!line_shape(v, o, table, start, k - 1, x)(x, y));
        lemma_waveform_lines_at(base, v, o, table, start, (k - 1) as nat, c, x, y);
    }
}

/// Drawing lines keeps the canvas and its size.
proof fn lemma_waveform_lines_wf(
    base: CanvasView,
    v: WaveformView,
    o: RenderOptions,
    table: Seq<i16>,
    start: int,
    k: nat,
)
    requires
        base.well_formed(),
    ensures
        waveform_lines(base, v, o, table, start, k).well_formed(),
        waveform_lines(base, v, o, table, start, k).width == base.width,
        waveform_lines(base, v, o, table, start, k).height == base.height,
    decreases k,
{
    if k > 0 {
        lemma_waveform_lines_wf(base, v, o, table, start, (k - 1) as nat);
        let prev = waveform_lines(base, v, o, table, start, (k - 1) as nat);
        lemma_channel_lines_wf(prev, v, o, table, start, k - 1, points_drawn(v, o, start) as nat);
    }
}

/// Drawing the lines of one channel keeps the canvas and its size.
proof fn lemma_channel_lines_wf(
    base: CanvasView,
    v: WaveformView,
    o: RenderOptions,
    table: Seq<i16>,
    start: int,
    c: int,
    n: nat,
)
    requires
        base.well_formed(),
    ensures
        channel_lines(base, v, o, table, start, c, n).well_formed(),
        channel_lines(base, v, o, table, start, c, n).width == base.width,
        channel_lines(base, v, o, table, start, c, n).height == base.height,
    decreases n,
{
    if n > 0 {
        lemma_channel_lines_wf(base, v, o, table, start, c, (n - 1) as nat);
    }
}

/// In a line rendering without axis labels, the line of channel `c` is drawn
/// in palette entry `c` modulo the number of waveform colors: channels take
/// the palette colors in order and wrap around when there are more channels
/// than colors. A pixel on the line of column `x` that no later channel's
/// line covers shows that color.
pub proof fn law_channel_lines_take_their_palette_color(
    v: WaveformView,
    o: RenderOptions,
    start: int,
    table: Seq<i16>,
    first: int,
    offset: int,
    c: int,
    x: int,
    y: int,
)
    requires
        o.style is Normal,
        !o.axis_labels,
        0 <= c < v.channels,
        0 <= x < points_drawn(v, o, start),
        0 <= y < o.height,
        line_shape(v, o, table, start, c, x)(x, y),
        forall|d: int| c < d < v.channels ==> !#[trigger] line_shape(v, o, table, start, d, x)(x, y),
    ensures
        rendered(v, o, start, table, first, offset).at(x, y) == o.colors.waveform@[c
            % (o.colors.waveform@.len() as int)],
{
    let base = blank(o.width, o.height, o.colors.background);
    assert(x < o.width);
    lemma_waveform_lines_at(base, v, o, table, start, v.channels as nat, c, x, y);
}

/// Every pixel the bars of channel `c` change takes palette entry `c`
/// modulo the number of waveform colors.
pub proof fn law_channel_bars_take_their_palette_color(
    base: CanvasView,
    v: WaveformView,
    o: RenderOptions,
    table: Seq<i16>,
    start: int,
    bw: int,
    gap: int,
    style: BarStyle,
    c: int,
    n: nat,
    x: int,
    y: int,
)
    requires
        base.well_formed(),
        0 <= x < base.width,
        0 <= y < base.height,
    ensures
        ({
            let r = channel_bars(base, v, o, table, start, bw, gap, style, c, n);
            &&& r.well_formed()
            &&& r.width == base.width
            &&& r.height == base.height
            &&& (r.at(x, y) == base.at(x, y) || r.at(x, y) == o.colors.waveform@[c
                % (o.colors.waveform@.len() as int)])
        }),
    decreases n,
{
    if n > 0 {
        law_channel_bars_take_their_palette_color(base, v, o, table, start, bw, gap, style, c, (n - 1) as nat, x, y);
        let prev = channel_bars(base, v, o, table, start, bw, gap, style, c, (n - 1) as nat);
        let col = crate::render::channel_color(o, c);
        let total = bw + gap;
        let bx = crate::render::bar_offset(start, total) + (n - 1) * total;
        let bh = crate::render::bar_height(v, c, crate::render::bar_first(start, total) + (n - 1) * total, total);
        let top_row = crate::render::channel_top(o, v.channels as int, c);
        let height = crate::render::channel_height(o, v.channels as int, c);
        let top = crate::render::sample_y(top_row, height, crate::render::level_of(table, bh as i16));
        let bottom = crate::render::sample_y(top_row, height, crate::render::level_of(table, (-bh) as i16));
        lemma_painted_at(prev, crate::canvas::rounded_rect_shape(bx, top, bx + bw - 1, bottom, crate::render::bar_radius(bw)), col, x, y);
        lemma_painted_at(prev, rect(bx, top, bx + bw - 1, bottom), col, x, y);
    }
}

} // verus!
