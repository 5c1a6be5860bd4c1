//! Waveform data generation, serialization and rendering for audio.
//!
//! The crate turns interleaved PCM audio into min/max waveform points,
//! reads and writes the binary `.dat`, JSON and text waveform formats,
//! resamples waveforms to coarser scales, rasterises them onto RGBA
//! canvases and encodes the results as PNG images; PCM audio can be written
//! as WAV. The decisions of the command-line tool live in [`cli`].
use vstd::prelude::*;

pub mod audio;
pub mod bytes;
pub mod canvas;
pub mod cli;
pub mod codecs;
pub mod color;
pub mod decode;
pub mod encode;
pub mod error;
pub mod font;
pub mod format;
pub mod laws;
pub mod pixels;
pub mod raw;
pub mod render;
pub mod scale;
pub mod text;
pub mod waveform;

pub use audio::{generate_waveform_from_pcm, GenerateOptions, PcmAudio};
pub use canvas::Canvas;
pub use color::{Color, ColorScheme, WaveformColors};
pub use encode::{write_pcm_as_wav, write_waveform_png};
pub use error::Error;
pub use format::{AudioFormat, WaveformFormat};
pub use raw::{
    decode_raw_audio_reader, generate_waveform_from_raw_reader, parse_raw_sample, RawAudioConfig,
    RawSampleFormat,
};
pub use render::{render_waveform, BarStyle, RenderFrame, RenderOptions, RenderStyle};
pub use scale::ScaleSpec;
pub use waveform::{JsonWaveform, Waveform, WaveformPoint};
