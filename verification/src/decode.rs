//! The decisions of decoding an audio stream: which format hint to give the
//! prober, which stream metadata is required, and what to do after each
//! packet is read and decoded. The caller runs the demuxer and the decoder
//! and reports each outcome here.
use vstd::prelude::*;

use crate::audio::{pcm_error, valid_pcm, PcmAudio, PcmView};
use crate::error::{is_invalid_argument, Error};
use crate::format::{audio_format_name, AudioFormat};

verus! {

/// What reading the next packet of a stream gave.
#[derive(Clone, Copy, Debug, PartialEq, Eq, Structural)]
pub enum PacketEvent {
    /// A packet of the selected track.
    Packet,
    /// The stream ended.
    End,
    /// The stream ended in the middle of a packet.
    Truncated,
    /// Reading failed otherwise.
    Failed,
}

/// What decoding a packet gave.
#[derive(Debug)]
pub enum DecodedEvent {
    /// Interleaved 16-bit samples.
    Samples(Vec<i16>),
    /// The packet holds corrupt data.
    Corrupt,
    /// The stream ended in the middle of the packet.
    Truncated,
    /// Decoding failed otherwise.
    Failed,
}

/// What to do next.
#[derive(Clone, Copy, Debug, PartialEq, Eq, Structural)]
pub enum DecodeAction {
    /// Decode the packet just read.
    Decode,
    /// Read the next packet.
    Read,
    /// Stop reading; the samples gathered so far are the audio.
    Finish,
    /// Stop with the error of the last read or decode.
    Abort,
}

/// The action after reading a packet.
pub open spec fn action_after_packet(event: PacketEvent) -> DecodeAction {
    match event {
        PacketEvent::Packet => DecodeAction::Decode,
        PacketEvent::End => DecodeAction::Finish,
        PacketEvent::Truncated => DecodeAction::Finish,
        PacketEvent::Failed => DecodeAction::Abort,
    }
}

/// The action after decoding a packet.
pub open spec fn action_after_decode(event: DecodedEvent) -> DecodeAction {
    match event {
        DecodedEvent::Samples(_) => DecodeAction::Read,
        DecodedEvent::Corrupt => DecodeAction::Read,
        DecodedEvent::Truncated => DecodeAction::Finish,
        DecodedEvent::Failed => DecodeAction::Abort,
    }
}

/// The extension hint for the prober; Opus input is refused.
pub fn format_hint_extension(format_hint: Option<AudioFormat>) -> (r: Result<Option<&'static str>, Error>)
    ensures
        format_hint == Some(AudioFormat::Opus) ==> (r matches Err(e) && e matches Error::UnsupportedFormat {
            format,
        } && format@ == "opus"@),
        format_hint is Some && format_hint != Some(AudioFormat::Opus) ==> (r matches Ok(Some(s)) && s@
            == audio_format_name(format_hint.unwrap())),
        format_hint is None ==> r == Ok::<Option<&'static str>, Error>(None),
{
    match format_hint {
        Some(format) => {
            if format == AudioFormat::Opus {
                Err(Error::unsupported_format("opus"))
            } else {
                Ok(Some(format.as_str()))
            }
        },
        None => Ok(None),
    }
}

/// The audio gathered while decoding a stream.
pub struct DecodeSession {
    sample_rate: u32,
    channels: u16,
    samples: Vec<i16>,
}

/// The content of a [`DecodeSession`]: the stream's sample rate and channel
/// count and the samples decoded so far.
pub struct DecodeSessionView {
    pub sample_rate: u32,
    pub channels: u16,
    pub samples: Seq<i16>,
}

impl View for DecodeSession {
    type V = DecodeSessionView;

    closed spec fn view(&self) -> DecodeSessionView {
        DecodeSessionView { sample_rate: self.sample_rate, channels: self.channels, samples: self.samples@ }
    }
}

/// `e` is the error for stream metadata that lacks the named field.
pub open spec fn missing_metadata(e: Error, name: Seq<char>) -> bool {
    e matches Error::MissingMetadata { name: n } && n@ == name
}

impl DecodeSession {
    /// Starts gathering audio from the default track's metadata: whether
    /// there is a default track, whether it has audio codec parameters, and
    /// its sample rate and channel count, each checked in that order; a
    /// channel count that does not fit 16 bits is refused.
    pub fn start(has_track: bool, has_audio_params: bool, sample_rate: Option<u32>, channels: Option<usize>) -> (r:
        Result<DecodeSession, Error>)
        ensures
            !has_track ==> (r matches Err(e) && missing_metadata(e, "default track"@)),
            has_track && !has_audio_params ==> (r matches Err(e) && missing_metadata(
                e,
                "audio codec parameters"@,
            )),
            has_track && has_audio_params && sample_rate is None ==> (r matches Err(e) && missing_metadata(
                e,
                "sample_rate"@,
            )),
            has_track && has_audio_params && sample_rate is Some && channels is None ==> (r matches Err(e)
                && missing_metadata(e, "channels"@)),
            has_track && has_audio_params && sample_rate is Some && channels is Some && channels.unwrap()
                > 65535 ==> (r matches Err(e) && is_invalid_argument(
                e,
                "channels"@,
                "Invalid number of input channels: maximum 65535"@,
            )),
            has_track && has_audio_params && sample_rate is Some && channels is Some && channels.unwrap()
                <= 65535 ==> (r matches Ok(s) && s@ == (DecodeSessionView {
                sample_rate: sample_rate.unwrap(),
                channels: channels.unwrap() as u16,
                samples: Seq::empty(),
            })),
    {
        if !has_track {
            return Err(Error::MissingMetadata { name: "default track" });
        }
        if !has_audio_params {
            return Err(Error::MissingMetadata { name: "audio codec parameters" });
        }
        let rate = match sample_rate {
            Some(r) => r,
            None => {
                return Err(Error::MissingMetadata { name: "sample_rate" });
            },
        };
        let count = match channels {
            Some(c) => c,
            None => {
                return Err(Error::MissingMetadata { name: "channels" });
            },
        };
        if count > 65535 {
            return Err(
                Error::invalid_argument("channels", "Invalid number of input channels: maximum 65535"),
            );
        }
        proof {
            reveal_strlit("default track");
            reveal_strlit("audio codec parameters");
            reveal_strlit("sample_rate");
            reveal_strlit("channels");
        }
        let s = DecodeSession { sample_rate: rate, channels: count as u16, samples: Vec::new() };
        assert(s@.samples =~= Seq::<i16>::empty());
        Ok(s)
    }

    /// The action after reading a packet.
    pub fn after_packet(&self, event: PacketEvent) -> (r: DecodeAction)
        ensures
            r == action_after_packet(event),
    {
        match event {
            PacketEvent::Packet => DecodeAction::Decode,
            PacketEvent::End => DecodeAction::Finish,
            PacketEvent::Truncated => DecodeAction::Finish,
            PacketEvent::Failed => DecodeAction::Abort,
        }
    }

    /// Takes the outcome of decoding a packet: decoded samples are appended,
    /// corrupt packets are skipped.
    pub fn after_decode(&mut self, event: DecodedEvent) -> (r: DecodeAction)
        ensures
            r == action_after_decode(event),
            final(self)@.sample_rate == old(self)@.sample_rate,
            final(self)@.channels == old(self)@.channels,
            final(self)@.samples == (match event {
                DecodedEvent::Samples(chunk) => old(self)@.samples + chunk@,
                _ => old(self)@.samples,
            }),
    {
        match event {
            DecodedEvent::Samples(chunk) => {
                let mut chunk = chunk;
                self.samples.append(&mut chunk);
                DecodeAction::Read
            },
            DecodedEvent::Corrupt => DecodeAction::Read,
            DecodedEvent::Truncated => DecodeAction::Finish,
            DecodedEvent::Failed => DecodeAction::Abort,
        }
    }

    /// The samples decoded so far, as PCM audio.
    pub fn finish(self) -> (r: Result<PcmAudio, Error>)
        ensures
            r is Ok <==> valid_pcm(self@.sample_rate, self@.channels, self@.samples.len() as int),
            r matches Ok(p) ==> p.wf() && p@ == (PcmView {
                sample_rate: self@.sample_rate,
                channels: self@.channels,
                samples: self@.samples,
            }),
            r matches Err(e) ==> pcm_error(e, self@.sample_rate, self@.channels),
    {
        PcmAudio::new(self.sample_rate, self.channels, self.samples)
    }
}

} // verus!
