//! The PNG and WAV encoders of the `png` and `hound` crates, as the library
//! calls them.
use vstd::prelude::*;

use crate::bytes::{u16_le_bytes, u32_le_bytes};
use crate::render::PngCompression;
use vstd::arithmetic::power2::pow2;

verus! {

/// The error type of the `png` encoder.
#[verifier::external_type_specification]
#[verifier::external_body]
pub struct ExPngEncodingError(png::EncodingError);

/// The bytes of the 8-bit RGBA PNG image of `width` by `height` pixels with
/// the row-major RGBA bytes `rgba`, as the `png` encoder writes it with
/// `compression`.
pub uninterp spec fn png_bytes(width: u32, height: u32, rgba: Seq<u8>, compression: PngCompression) -> Seq<u8>;

/// The four ASCII bytes of a RIFF chunk tag.
pub open spec fn tag_bytes(a: char, b: char, c: char, d: char) -> Seq<u8> {
    seq![a as u8, b as u8, c as u8, d as u8]
}

/// The little-endian two's-complement bytes of 16-bit samples, in order.
pub open spec fn pcm16_bytes(samples: Seq<i16>) -> Seq<u8> {
    Seq::new(2 * samples.len(), |j: int| u16_le_bytes(if samples[j / 2] < 0 { samples[j / 2] + 65536 } else { samples[j / 2] as int })[j % 2])
}

/// The speaker mask of a WAVE_FORMAT_EXTENSIBLE header: one bit for each of
/// the first `channels` speaker positions, at most 18 of them.
pub open spec fn channel_mask(channels: u16) -> int {
    pow2(if channels > 18 { 18 } else { channels as nat }) - 1
}

/// The GUID of integer PCM audio, `KSDATAFORMAT_SUBTYPE_PCM`.
pub open spec fn pcm_subformat() -> Seq<u8> {
    seq![0x01u8, 0x00, 0x00, 0x00, 0x00, 0x00, 0x10, 0x00, 0x80, 0x00, 0x00, 0xaa, 0x00, 0x38, 0x9b, 0x71]
}

/// The length of the WAV header: a PCMWAVEFORMAT header up to two channels,
/// a WAVE_FORMAT_EXTENSIBLE one above.
pub open spec fn wav_header_len(channels: u16) -> int {
    if channels <= 2 { 44 } else { 68 }
}

/// The RIFF header of a 16-bit integer PCM WAV stream with `n` samples.
#[verifier::opaque]
pub open spec fn wav_header(channels: u16, sample_rate: u32, n: int) -> Seq<u8> {
    let data_len = 2 * n;
    let format = u16_le_bytes(channels as int) + u32_le_bytes(sample_rate as int) + u32_le_bytes(
        2 * sample_rate * channels,
    ) + u16_le_bytes(2 * channels);
    let riff = tag_bytes('R', 'I', 'F', 'F') + u32_le_bytes(data_len + wav_header_len(channels) - 8)
        + tag_bytes('W', 'A', 'V', 'E') + tag_bytes('f', 'm', 't', ' ');
    let data = tag_bytes('d', 'a', 't', 'a') + u32_le_bytes(data_len);
    if channels <= 2 {
        riff + u32_le_bytes(16) + u16_le_bytes(1) + format + u16_le_bytes(16) + data
    } else {
        riff + u32_le_bytes(40) + u16_le_bytes(0xfffe) + format + u16_le_bytes(16) + u16_le_bytes(22)
            + u16_le_bytes(16) + u32_le_bytes(channel_mask(channels)) + pcm_subformat() + data
    }
}

/// The bytes of the 16-bit integer PCM WAV stream of `samples`, as `hound`
/// writes it: the header, then every sample in little-endian order.
pub open spec fn wav_bytes(channels: u16, sample_rate: u32, samples: Seq<i16>) -> Seq<u8> {
    wav_header(channels, sample_rate, samples.len() as int) + pcm16_bytes(samples)
}

/// Encodes RGBA pixels as a PNG image with `png::Encoder` (8-bit RGBA,
/// no filter before the compression preset is applied). The data must hold
/// exactly four bytes per pixel: the encoder computes the data size in
/// `usize` before it compares lengths, and that product could overflow for
/// other data. Claims that the bytes it returns are those the encoder writes
/// for these arguments, and that it succeeds when the image has a nonzero
/// width and height: writing the header refuses only a zero width or height,
/// writing the data refuses only a wrong data length, and writing into
/// memory does not fail.
#[verifier::external_body]
pub(crate) fn encode_png(width: u32, height: u32, rgba: &[u8], compression: PngCompression) -> (r: Result<Vec<u8>, png::EncodingError>)
    requires
        rgba@.len() == 4 * width * height,
    ensures
        r matches Ok(bytes) ==> bytes@ == png_bytes(width, height, rgba@, compression),
        width >= 1 && height >= 1 ==> r is Ok,
{
    let mut bytes = Vec::new();
    {
        let mut encoder = png::Encoder::new(&mut bytes, width, height);
        encoder.set_color(png::ColorType::Rgba);
        encoder.set_depth(png::BitDepth::Eight);
        encoder.set_filter(png::Filter::NoFilter);
        encoder.set_compression(match compression {
            PngCompression::Fast => png::Compression::Fast,
            PngCompression::Default => png::Compression::Balanced,
            PngCompression::Best => png::Compression::High,
        });
        let mut writer = encoder.write_header()?;
        writer.write_image_data(rgba)?;
    }
    Ok(bytes)
}

/// The message of a `png` encoding error, from its `Display` impl. Nothing
/// is claimed of the text.
#[verifier::external_body]
pub(crate) fn png_error_message(error: &png::EncodingError) -> String {
    error.to_string()
}

/// Writes 16-bit integer samples as a WAV stream into memory with
/// `hound::WavWriter` (new, one `write_sample` per sample, `finalize`); a
/// failure comes back as the text of the `hound` error. The writer holds the
/// output buffer by mutable borrow and has no method that hands it back, so
/// the three calls stand in one item. `hound` panics on a zero channel count,
/// on a zero sample rate (it divides by it while writing the header) and on
/// a byte rate or a RIFF size (the data length plus the header after the
/// first eight bytes) that overflows `u32`; those inputs are excluded. Claims that
/// the bytes are the header `hound` writes followed by the samples, and that
/// writing into memory fails only when the last frame is incomplete, which
/// `finalize` reports; nothing is claimed of the error text.
#[verifier::external_body]
pub(crate) fn encode_wav(channels: u16, sample_rate: u32, samples: &[i16]) -> (r: Result<Vec<u8>, String>)
    requires
        channels >= 1,
        sample_rate >= 1,
        2 * sample_rate * channels <= u32::MAX,
        2 * samples@.len() + wav_header_len(channels) - 8 <= u32::MAX,
    ensures
        r matches Ok(bytes) ==> bytes@ == wav_bytes(channels, sample_rate, samples@),
        (samples@.len() as int) % (channels as int) == 0 ==> r is Ok,
{
    let spec = hound::WavSpec { channels, sample_rate, bits_per_sample: 16, sample_format: hound::SampleFormat::Int };
    let mut bytes = Vec::new();
    let written = (|| {
        let mut wav = hound::WavWriter::new(std::io::Cursor::new(&mut bytes), spec)?;
        for sample in samples {
            wav.write_sample(*sample)?;
        }
        wav.finalize()
    })();
    written.map(|_| bytes).map_err(|e| e.to_string())
}

} // verus!
