//! Encoding rendered waveforms as PNG images and PCM audio as WAV streams.
use vstd::prelude::*;

use crate::audio::PcmAudio;
use crate::canvas::rgba_bytes;
use crate::error::Error;
use crate::render::{
    compression_of, png_compression, render_accepts, render_error, rendered, PngCompression, RenderFrame,
    RenderOptions, RenderStyle, label_interval_exists, label_seconds_fit, render_waveform,
};
use crate::codecs::{encode_png, encode_wav, png_bytes, png_error_message, wav_bytes, wav_header_len};
use crate::waveform::Waveform;

verus! {

/// Renders a waveform and appends it to `out` as a PNG image.
pub fn write_waveform_png(
    waveform: &Waveform,
    options: &RenderOptions,
    frame: &RenderFrame,
    out: &mut Vec<u8>,
) -> (r: Result<(), Error>)
    requires
        waveform.wf(),
        4 * (options.width as int * options.height as int) <= usize::MAX,
        frame.amplitude matches Some(t) ==> t@.len() == 65536,
        render_accepts(waveform@, *options, frame.start_index, frame.amplitude is Some) ==> {
            &&& options.colors.waveform@.len() > 0
            &&& (options.style matches RenderStyle::Bars { width, gap, .. } ==> width + gap <= u32::MAX)
            &&& (options.axis_labels ==> label_interval_exists(waveform@.sample_rate, waveform@.samples_per_pixel)
                && label_seconds_fit(
                waveform@,
                *options,
                frame.first_label_secs as int,
                frame.label_offset_pixels as int,
            ))
        },
    ensures
        !render_accepts(waveform@, *options, frame.start_index, frame.amplitude is Some) ==> (r matches Err(e)
            && render_error(e, waveform@, *options, frame.start_index)),
        r is Ok ==> final(out)@ == old(out)@ + png_bytes(
            options.width,
            options.height,
            rgba_bytes(
                rendered(
                    waveform@,
                    *options,
                    frame.start_index.unwrap() as int,
                    frame.amplitude.unwrap()@,
                    frame.first_label_secs as int,
                    frame.label_offset_pixels as int,
                ).pixels,
            ),
            compression_of(options.png_compression_level),
        ),
        r is Err ==> final(out)@ == old(out)@,
        render_accepts(waveform@, *options, frame.start_index, frame.amplitude is Some) ==> r is Ok,
{
    let image = match render_waveform(waveform, options, frame) {
        Ok(image) => image,
        Err(e) => {
            return Err(e);
        },
    };
    let width = image.width();
    let height = image.height();
    let raw = image.into_raw();
    let compression = png_compression(options.png_compression_level);
    proof {
        assert(raw@.len() == 4 * (width as int * height as int));
        assert(4 * (width as int * height as int) == 4 * width * height) by (nonlinear_arith);
    }
    match encode_png(width, height, raw.as_slice(), compression) {
        Ok(bytes) => {
            let mut bytes = bytes;
            out.append(&mut bytes);
            Ok(())
        },
        Err(e) => Err(Error::Codec { message: png_error_message(&e) }),
    }
}

impl Waveform {
    /// Renders the waveform and appends it to `out` as a PNG image; see
    /// [`write_waveform_png`].
    pub fn write_png(&self, options: &RenderOptions, frame: &RenderFrame, out: &mut Vec<u8>) -> (r: Result<(), Error>)
        requires
            self.wf(),
            4 * (options.width as int * options.height as int) <= usize::MAX,
            frame.amplitude matches Some(t) ==> t@.len() == 65536,
            render_accepts(self@, *options, frame.start_index, frame.amplitude is Some) ==> {
                &&& options.colors.waveform@.len() > 0
                &&& (options.style matches RenderStyle::Bars { width, gap, .. } ==> width + gap <= u32::MAX)
                &&& (options.axis_labels ==> label_interval_exists(self@.sample_rate, self@.samples_per_pixel)
                    && label_seconds_fit(
                    self@,
                    *options,
                    frame.first_label_secs as int,
                    frame.label_offset_pixels as int,
                ))
            },
        ensures
            !render_accepts(self@, *options, frame.start_index, frame.amplitude is Some) ==> (r matches Err(e)
                && render_error(e, self@, *options, frame.start_index)),
            r is Ok ==> final(out)@ == old(out)@ + png_bytes(
                options.width,
                options.height,
                rgba_bytes(
                    rendered(
                        self@,
                        *options,
                        frame.start_index.unwrap() as int,
                        frame.amplitude.unwrap()@,
                        frame.first_label_secs as int,
                        frame.label_offset_pixels as int,
                    ).pixels,
                ),
                compression_of(options.png_compression_level),
            ),
            r is Err ==> final(out)@ == old(out)@,
            render_accepts(self@, *options, frame.start_index, frame.amplitude is Some) ==> r is Ok,
    {
        write_waveform_png(self, options, frame, out)
    }
}

/// Appends interleaved PCM audio to `out` as a 16-bit WAV stream.
pub fn write_pcm_as_wav(pcm: &PcmAudio, out: &mut Vec<u8>) -> (r: Result<(), Error>)
    requires
        pcm.wf(),
        2 * pcm@.sample_rate * pcm@.channels <= u32::MAX,
        2 * pcm@.samples.len() + wav_header_len(pcm@.channels) - 8 <= u32::MAX,
    ensures
        r is Ok,
        final(out)@ == old(out)@ + wav_bytes(pcm@.channels, pcm@.sample_rate, pcm@.samples),
{
    match encode_wav(pcm.channels(), pcm.sample_rate(), pcm.samples()) {
        Ok(bytes) => {
            let mut bytes = bytes;
            out.append(&mut bytes);
            Ok(())
        },
        Err(message) => Err(Error::Codec { message }),
    }
}

} // verus!
