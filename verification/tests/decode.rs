use audiowaveform::decode::{format_hint_extension, DecodeAction, DecodeSession, DecodedEvent, PacketEvent};
use audiowaveform::AudioFormat;

#[test]
fn opus_input_is_refused_before_probing() {
    let error = format_hint_extension(Some(AudioFormat::Opus)).expect_err("opus");
    assert_eq!(error.to_string(), "Unsupported format: opus");
    assert_eq!(format_hint_extension(Some(AudioFormat::Flac)).expect("flac"), Some("flac"));
    assert_eq!(format_hint_extension(None).expect("none"), None);
}

#[test]
fn stream_metadata_is_checked_in_order() {
    let error = DecodeSession::start(false, true, Some(8_000), Some(1)).err().expect("track");
    assert_eq!(error.to_string(), "Missing metadata: default track");
    let error = DecodeSession::start(true, false, Some(8_000), Some(1)).err().expect("params");
    assert_eq!(error.to_string(), "Missing metadata: audio codec parameters");
    let error = DecodeSession::start(true, true, None, Some(1)).err().expect("rate");
    assert_eq!(error.to_string(), "Missing metadata: sample_rate");
    let error = DecodeSession::start(true, true, Some(8_000), None).err().expect("channels");
    assert_eq!(error.to_string(), "Missing metadata: channels");
}

#[test]
fn decoded_packets_are_gathered_and_corrupt_ones_skipped() {
    let mut session = DecodeSession::start(true, true, Some(8_000), Some(2)).ok().expect("session");
    assert_eq!(session.after_packet(PacketEvent::Packet), DecodeAction::Decode);
    assert_eq!(session.after_decode(DecodedEvent::Samples(vec![1, 2, 3, 4])), DecodeAction::Read);
    assert_eq!(session.after_decode(DecodedEvent::Corrupt), DecodeAction::Read);
    assert_eq!(session.after_decode(DecodedEvent::Samples(vec![5, 6])), DecodeAction::Read);
    assert_eq!(session.after_packet(PacketEvent::End), DecodeAction::Finish);
    assert_eq!(session.after_packet(PacketEvent::Truncated), DecodeAction::Finish);
    assert_eq!(session.after_packet(PacketEvent::Failed), DecodeAction::Abort);
    assert_eq!(session.after_decode(DecodedEvent::Truncated), DecodeAction::Finish);
    assert_eq!(session.after_decode(DecodedEvent::Failed), DecodeAction::Abort);
    let pcm = session.finish().expect("pcm");
    assert_eq!(pcm.sample_rate(), 8_000);
    assert_eq!(pcm.channels(), 2);
    assert_eq!(pcm.samples(), &[1, 2, 3, 4, 5, 6]);
}

#[test]
fn an_unaligned_sample_count_is_refused_at_the_end() {
    let mut session = DecodeSession::start(true, true, Some(8_000), Some(2)).ok().expect("session");
    session.after_decode(DecodedEvent::Samples(vec![1, 2, 3]));
    let error = session.finish().expect_err("unaligned");
    assert_eq!(error.to_string(), "Interleaved PCM sample count must be divisible by the channel count");
}

#[test]
fn channel_counts_beyond_sixteen_bits_are_refused() {
    let error = DecodeSession::start(true, true, Some(8_000), Some(65_537)).err().expect("too many channels");
    assert_eq!(error.to_string(), "Invalid number of input channels: maximum 65535");
    assert!(DecodeSession::start(true, true, Some(8_000), Some(65_535)).is_ok());
}
