//! Audio and waveform file formats, named by extension.
use vstd::prelude::*;

use crate::error::{Error, is_unsupported_format};
use crate::text::{ascii_lower, lowercase_equals};

verus! {

/// What `std::path::Path::extension` gives for a path: the part of its file
/// name after the last `.`, when there is one.
pub uninterp spec fn path_extension_of(path: Seq<char>) -> Option<Seq<char>>;

/// `Path::extension` from std, on a path given as text. Its result is named
/// by [`path_extension_of`]; the text of the path determines it.
#[verifier::external_body]
pub(crate) fn path_extension(path: &str) -> (r: Option<&str>)
    ensures
        r matches Some(e) ==> path_extension_of(path@) == Some(e@),
        r is None ==> path_extension_of(path@) is None,
{
    std::path::Path::new(path).extension().and_then(|e| e.to_str())
}

/// Supported audio container or source formats.
#[derive(Clone, Copy, Debug, PartialEq, Eq, Structural)]
pub enum AudioFormat {
    /// MP3 audio.
    Mp3,
    /// WAV audio.
    Wav,
    /// FLAC audio.
    Flac,
    /// Ogg Vorbis audio.
    Ogg,
    /// Opus audio.
    Opus,
    /// Headerless raw PCM or floating-point audio.
    Raw,
}

/// The audio format a lowercase extension names.
pub open spec fn audio_format_named(e: Seq<char>) -> Option<AudioFormat> {
    if e == "mp3"@ {
        Some(AudioFormat::Mp3)
    } else if e == "wav"@ || e == "w64"@ {
        Some(AudioFormat::Wav)
    } else if e == "flac"@ {
        Some(AudioFormat::Flac)
    } else if e == "ogg"@ || e == "oga"@ {
        Some(AudioFormat::Ogg)
    } else if e == "opus"@ {
        Some(AudioFormat::Opus)
    } else if e == "raw"@ {
        Some(AudioFormat::Raw)
    } else {
        None
    }
}

/// The canonical name of an audio format.
pub open spec fn audio_format_name(f: AudioFormat) -> Seq<char> {
    match f {
        AudioFormat::Mp3 => "mp3"@,
        AudioFormat::Wav => "wav"@,
        AudioFormat::Flac => "flac"@,
        AudioFormat::Ogg => "ogg"@,
        AudioFormat::Opus => "opus"@,
        AudioFormat::Raw => "raw"@,
    }
}

impl AudioFormat {
    /// Returns the canonical lowercase name for the format.
    pub fn as_str(self) -> (r: &'static str)
        ensures
            r@ == audio_format_name(self),
    {
        match self {
            AudioFormat::Mp3 => "mp3",
            AudioFormat::Wav => "wav",
            AudioFormat::Flac => "flac",
            AudioFormat::Ogg => "ogg",
            AudioFormat::Opus => "opus",
            AudioFormat::Raw => "raw",
        }
    }

    /// Infers an audio format from a file extension string, ignoring ASCII case.
    pub fn from_extension(extension: &str) -> (r: Option<AudioFormat>)
        ensures
            r == audio_format_named(ascii_lower(extension@)),
    {
        if lowercase_equals(extension, "mp3") {
            Some(AudioFormat::Mp3)
        } else if lowercase_equals(extension, "wav") || lowercase_equals(extension, "w64") {
            Some(AudioFormat::Wav)
        } else if lowercase_equals(extension, "flac") {
            Some(AudioFormat::Flac)
        } else if lowercase_equals(extension, "ogg") || lowercase_equals(extension, "oga") {
            Some(AudioFormat::Ogg)
        } else if lowercase_equals(extension, "opus") {
            Some(AudioFormat::Opus)
        } else if lowercase_equals(extension, "raw") {
            Some(AudioFormat::Raw)
        } else {
            None
        }
    }

    /// Infers an audio format from the extension of a path.
    pub fn from_path(path: &str) -> (r: Option<AudioFormat>)
        ensures
            r == (match path_extension_of(path@) {
                Some(e) => audio_format_named(ascii_lower(e)),
                None => None,
            }),
    {
        match path_extension(path) {
            Some(extension) => Self::from_extension(extension),
            None => None,
        }
    }

    /// Parses a format name, as `FromStr` does.
    pub fn parse(s: &str) -> (r: Result<AudioFormat, Error>)
        ensures
            audio_format_named(ascii_lower(s@)) matches Some(f) ==> r == Ok::<AudioFormat, Error>(
                f,
            ),
            audio_format_named(ascii_lower(s@)) is None ==> (r matches Err(e)
                && is_unsupported_format(e, s@)),
    {
        match Self::from_extension(s) {
            Some(f) => Ok(f),
            None => Err(Error::unsupported_format(s)),
        }
    }
}

impl std::str::FromStr for AudioFormat {
    type Err = Error;

    fn from_str(s: &str) -> (r: Result<AudioFormat, Error>)
        ensures
            audio_format_named(ascii_lower(s@)) matches Some(f) ==> r == Ok::<AudioFormat, Error>(f),
            audio_format_named(ascii_lower(s@)) is None ==> (r matches Err(e) && is_unsupported_format(e, s@)),
    {
        AudioFormat::parse(s)
    }
}

/// Supported serialized waveform data formats.
#[derive(Clone, Copy, Debug, PartialEq, Eq, Structural)]
pub enum WaveformFormat {
    /// Binary `.dat` waveform data.
    Dat,
    /// Compact JSON waveform data.
    Json,
    /// Plain text CSV-like waveform data.
    Txt,
}

/// The waveform format a lowercase extension names.
pub open spec fn waveform_format_named(e: Seq<char>) -> Option<WaveformFormat> {
    if e == "dat"@ {
        Some(WaveformFormat::Dat)
    } else if e == "json"@ {
        Some(WaveformFormat::Json)
    } else if e == "txt"@ {
        Some(WaveformFormat::Txt)
    } else {
        None
    }
}

/// The canonical name of a waveform format.
pub open spec fn waveform_format_name(f: WaveformFormat) -> Seq<char> {
    match f {
        WaveformFormat::Dat => "dat"@,
        WaveformFormat::Json => "json"@,
        WaveformFormat::Txt => "txt"@,
    }
}

impl WaveformFormat {
    /// Returns the canonical lowercase name for the format.
    pub fn as_str(self) -> (r: &'static str)
        ensures
            r@ == waveform_format_name(self),
    {
        match self {
            WaveformFormat::Dat => "dat",
            WaveformFormat::Json => "json",
            WaveformFormat::Txt => "txt",
        }
    }

    /// Infers a waveform data format from a file extension string, ignoring ASCII case.
    pub fn from_extension(extension: &str) -> (r: Option<WaveformFormat>)
        ensures
            r == waveform_format_named(ascii_lower(extension@)),
    {
        if lowercase_equals(extension, "dat") {
            Some(WaveformFormat::Dat)
        } else if lowercase_equals(extension, "json") {
            Some(WaveformFormat::Json)
        } else if lowercase_equals(extension, "txt") {
            Some(WaveformFormat::Txt)
        } else {
            None
        }
    }

    /// Infers a waveform data format from the extension of a path.
    pub fn from_path(path: &str) -> (r: Option<WaveformFormat>)
        ensures
            r == (match path_extension_of(path@) {
                Some(e) => waveform_format_named(ascii_lower(e)),
                None => None,
            }),
    {
        match path_extension(path) {
            Some(extension) => Self::from_extension(extension),
            None => None,
        }
    }

    /// Parses a format name, as `FromStr` does.
    pub fn parse(s: &str) -> (r: Result<WaveformFormat, Error>)
        ensures
            waveform_format_named(ascii_lower(s@)) matches Some(f) ==> r == Ok::<
                WaveformFormat,
                Error,
            >(f),
            waveform_format_named(ascii_lower(s@)) is None ==> (r matches Err(e)
                && is_unsupported_format(e, s@)),
    {
        match Self::from_extension(s) {
            Some(f) => Ok(f),
            None => Err(Error::unsupported_format(s)),
        }
    }
}

impl std::str::FromStr for WaveformFormat {
    type Err = Error;

    fn from_str(s: &str) -> (r: Result<WaveformFormat, Error>)
        ensures
            waveform_format_named(ascii_lower(s@)) matches Some(f) ==> r == Ok::<WaveformFormat, Error>(f),
            waveform_format_named(ascii_lower(s@)) is None ==> (r matches Err(e) && is_unsupported_format(e, s@)),
    {
        WaveformFormat::parse(s)
    }
}

} // verus!
