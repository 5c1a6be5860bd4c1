use std::io::Cursor;

use audiowaveform::{write_pcm_as_wav, PcmAudio};

#[test]
fn writes_empty_wav_header_for_empty_pcm() {
    let pcm = PcmAudio::new(44_100, 1, Vec::new()).expect("pcm");
    let mut wav = Vec::new();
    write_pcm_as_wav(&pcm, &mut wav).expect("write wav");

    assert_eq!(wav.len(), 44);
}

#[test]
fn writes_expected_pcm_wav_structure() {
    let pcm = PcmAudio::new(44_100, 1, vec![0; 1024]).expect("pcm");
    let mut wav = Vec::new();
    write_pcm_as_wav(&pcm, &mut wav).expect("write wav");

    assert_eq!(wav.len(), 44 + 1024 * 2);

    let mut reader = hound::WavReader::new(Cursor::new(wav)).expect("open wav");
    assert_eq!(reader.spec().channels, 1);
    assert_eq!(reader.spec().sample_rate, 44_100);
    assert_eq!(reader.spec().bits_per_sample, 16);
    assert_eq!(reader.duration(), 1024);
    assert!(reader.samples::<i16>().all(|sample| sample.expect("sample") == 0));
}

#[test]
fn wav_samples_read_back_in_order() {
    let pcm = PcmAudio::new(8_000, 2, vec![1, -1, 300, -300, i16::MAX, i16::MIN]).expect("pcm");
    let mut wav = vec![7];
    write_pcm_as_wav(&pcm, &mut wav).expect("write wav");
    assert_eq!(wav[0], 7);
    let reader = hound::WavReader::new(Cursor::new(wav[1..].to_vec())).expect("open wav");
    assert_eq!(reader.spec().channels, 2);
    let samples: Vec<i16> = reader.into_samples::<i16>().map(|s| s.expect("sample")).collect();
    assert_eq!(samples, vec![1, -1, 300, -300, i16::MAX, i16::MIN]);
}

#[test]
fn writes_pcm_audio_as_valid_wav_bytes() {
    let pcm = PcmAudio::new(44_100, 1, vec![0, 1, -1, 2, -2]).expect("pcm");
    let mut wav = Vec::new();
    write_pcm_as_wav(&pcm, &mut wav).expect("write wav");

    assert_eq!(&wav[0..4], b"RIFF");
    assert_eq!(&wav[8..12], b"WAVE");

    let mut reader = hound::WavReader::new(Cursor::new(wav)).expect("read wav");
    assert_eq!(reader.spec().channels, 1);
    assert_eq!(reader.spec().sample_rate, 44_100);
    assert_eq!(reader.samples::<i16>().collect::<Result<Vec<_>, _>>().expect("samples"), vec![0, 1, -1, 2, -2]);
}

fn le16(b: &[u8], at: usize) -> u16 {
    u16::from_le_bytes([b[at], b[at + 1]])
}

fn le32(b: &[u8], at: usize) -> u32 {
    u32::from_le_bytes([b[at], b[at + 1], b[at + 2], b[at + 3]])
}

#[test]
fn stereo_wav_header_fields_are_laid_out_in_order() {
    let pcm = PcmAudio::new(22_050, 2, vec![5, -5, 1000, -1000]).expect("pcm");
    let mut wav = Vec::new();
    write_pcm_as_wav(&pcm, &mut wav).expect("write wav");
    assert_eq!(wav.len(), 44 + 8);
    assert_eq!(&wav[0..4], b"RIFF");
    assert_eq!(le32(&wav, 4), 8 + 36);
    assert_eq!(&wav[8..16], b"WAVEfmt ");
    assert_eq!(le32(&wav, 16), 16);
    assert_eq!(le16(&wav, 20), 1);
    assert_eq!(le16(&wav, 22), 2);
    assert_eq!(le32(&wav, 24), 22_050);
    assert_eq!(le32(&wav, 28), 22_050 * 4);
    assert_eq!(le16(&wav, 32), 4);
    assert_eq!(le16(&wav, 34), 16);
    assert_eq!(&wav[36..40], b"data");
    assert_eq!(le32(&wav, 40), 8);
    let samples: Vec<i16> = (0..4).map(|i| le16(&wav, 44 + 2 * i) as i16).collect();
    assert_eq!(samples, vec![5, -5, 1000, -1000]);
}

#[test]
fn wav_above_two_channels_uses_the_extensible_header() {
    let pcm = PcmAudio::new(8_000, 3, vec![1, 2, 3, -1, -2, -3]).expect("pcm");
    let mut wav = Vec::new();
    write_pcm_as_wav(&pcm, &mut wav).expect("write wav");
    assert_eq!(wav.len(), 68 + 12);
    assert_eq!(&wav[0..4], b"RIFF");
    assert_eq!(le32(&wav, 4), 12 + 60);
    assert_eq!(&wav[8..16], b"WAVEfmt ");
    assert_eq!(le32(&wav, 16), 40);
    assert_eq!(le16(&wav, 20), 0xfffe);
    assert_eq!(le16(&wav, 22), 3);
    assert_eq!(le32(&wav, 24), 8_000);
    assert_eq!(le32(&wav, 28), 8_000 * 6);
    assert_eq!(le16(&wav, 32), 6);
    assert_eq!(le16(&wav, 34), 16);
    assert_eq!(le16(&wav, 36), 22);
    assert_eq!(le16(&wav, 38), 16);
    assert_eq!(le32(&wav, 40), 7);
    assert_eq!(
        &wav[44..60],
        &[0x01, 0x00, 0x00, 0x00, 0x00, 0x00, 0x10, 0x00, 0x80, 0x00, 0x00, 0xaa, 0x00, 0x38, 0x9b, 0x71]
    );
    assert_eq!(&wav[60..64], b"data");
    assert_eq!(le32(&wav, 64), 12);
    let samples: Vec<i16> = (0..6).map(|i| le16(&wav, 68 + 2 * i) as i16).collect();
    assert_eq!(samples, vec![1, 2, 3, -1, -2, -3]);
}
