use std::str::FromStr;

use audiowaveform::{
    decode_raw_audio_reader, generate_waveform_from_pcm, generate_waveform_from_raw_reader, parse_raw_sample,
    GenerateOptions, PcmAudio, RawAudioConfig, RawSampleFormat, ScaleSpec, WaveformPoint,
};

fn clamp_to_i16(value: f64) -> i16 {
    value.clamp(f64::from(i16::MIN), f64::from(i16::MAX)) as i16
}

fn decode_float(format: RawSampleFormat, bits: u64) -> i16 {
    match format {
        RawSampleFormat::F32Le | RawSampleFormat::F32Be => {
            clamp_to_i16(f64::from(f32::from_bits(bits as u32)) * f64::from(i16::MAX))
        }
        _ => clamp_to_i16(f64::from_bits(bits) * f64::from(i16::MAX)),
    }
}

fn amplitude_table(multiplier: f64) -> Vec<i16> {
    (i16::MIN..=i16::MAX)
        .map(|value| clamp_to_i16(f64::from(value) * multiplier))
        .collect()
}

#[test]
fn validates_pcm_audio_construction() {
    let pcm = PcmAudio::new(48_000, 2, vec![1, 2, 3, 4]).expect("pcm");
    assert_eq!(pcm.frame_count(), 2);
    assert_eq!(pcm.frame_count() as f64 / pcm.sample_rate() as f64, 2.0 / 48_000.0);

    let error = PcmAudio::new(0, 1, vec![1]).expect_err("invalid sample rate");
    assert_eq!(error.to_string(), "Invalid input sample rate: must be greater than zero");

    let error = PcmAudio::new(48_000, 0, vec![1]).expect_err("invalid channels");
    assert_eq!(error.to_string(), "Invalid number of input channels: must be greater than zero");

    let error = PcmAudio::new(48_000, 2, vec![1, 2, 3]).expect_err("unaligned samples");
    assert_eq!(error.to_string(), "Interleaved PCM sample count must be divisible by the channel count");
}

#[test]
fn resolves_scale_specifications_and_rejects_invalid_values() {
    assert_eq!(ScaleSpec::SamplesPerPixel(64).resolve(48_000, 96_000).expect("samples per pixel"), 64);
    assert_eq!(ScaleSpec::PixelsPerSecond(100).resolve(48_000, 96_000).expect("pixels per second"), 480);
    // The time range 0.0 s to 4.0 s at 48 kHz spans 192000 frames.
    let range_frames = ((4.0 - 0.0) * 48_000.0) as u64;
    assert_eq!(
        ScaleSpec::FitWidth { width_pixels: 400, range_frames: Some(range_frames) }
            .resolve(48_000, 0)
            .expect("fit width"),
        480
    );

    let error = ScaleSpec::PixelsPerSecond(0).resolve(48_000, 0).expect_err("invalid pixels per second");
    assert_eq!(error.to_string(), "Invalid pixels per second: must be greater than zero");

    let error = ScaleSpec::FitWidth { width_pixels: 0, range_frames: None }
        .resolve(48_000, 96_000)
        .expect_err("invalid width");
    assert_eq!(error.to_string(), "Invalid image width: minimum 1");

    let error = ScaleSpec::FitWidth { width_pixels: 100_000, range_frames: None }
        .resolve(48_000, 96_000)
        .expect_err("zoom too small");
    assert_eq!(error.to_string(), "Invalid zoom: minimum 2");
}

#[test]
fn parses_raw_sample_formats_and_validates_raw_audio_config() {
    assert_eq!(RawSampleFormat::from_str("s16le").expect("raw sample format"), RawSampleFormat::S16Le);
    assert_eq!(RawSampleFormat::from_str("F64BE").expect("raw sample format"), RawSampleFormat::F64Be);
    let error = RawSampleFormat::from_str("pcm").expect_err("unsupported format");
    assert_eq!(error.to_string(), "Unsupported format: pcm");

    let config = RawAudioConfig::new(44_100, 2, RawSampleFormat::S16Le).expect("config");
    assert_eq!(config.sample_rate, 44_100);
    assert_eq!(config.channels, 2);

    let error = RawAudioConfig::new(0, 1, RawSampleFormat::S16Le).expect_err("invalid sample rate");
    assert_eq!(error.to_string(), "Invalid input sample rate: must be greater than zero");

    let error = RawAudioConfig::new(44_100, 0, RawSampleFormat::S16Le).expect_err("invalid channels");
    assert_eq!(error.to_string(), "Invalid number of input channels: must be greater than zero");
}

#[test]
fn decodes_representative_raw_sample_formats() {
    let cases = [
        (RawSampleFormat::S8, vec![0x80], i16::MIN),
        (RawSampleFormat::U8, vec![0xff], 32_512),
        (RawSampleFormat::S16Le, vec![0x34, 0x12], 0x1234),
        (RawSampleFormat::S16Be, vec![0x12, 0x34], 0x1234),
        (RawSampleFormat::S24Le, vec![0x00, 0x00, 0x01], 256),
        (RawSampleFormat::S24Be, vec![0x01, 0x00, 0x00], 256),
        (RawSampleFormat::S32Le, vec![0x00, 0x00, 0x01, 0x00], 1),
        (RawSampleFormat::S32Be, vec![0x00, 0x01, 0x00, 0x00], 1),
        (RawSampleFormat::F32Le, 1.0_f32.to_le_bytes().to_vec(), i16::MAX),
        (RawSampleFormat::F32Be, 1.0_f32.to_be_bytes().to_vec(), i16::MAX),
        (RawSampleFormat::F64Le, 1.0_f64.to_le_bytes().to_vec(), i16::MAX),
        (RawSampleFormat::F64Be, 1.0_f64.to_be_bytes().to_vec(), i16::MAX),
    ];

    for (format, bytes, expected) in cases {
        assert_eq!(parse_raw_sample(&bytes, format, &decode_float), expected, "{format:?}");
    }
}

#[test]
fn decodes_raw_audio_and_rejects_unaligned_buffers() {
    let config = RawAudioConfig::new(16_000, 1, RawSampleFormat::S16Le).expect("config");
    let pcm = decode_raw_audio_reader(&[0x01, 0x00, 0xff, 0xff], &config, decode_float).expect("parse raw");
    assert_eq!(pcm.samples(), &[1, -1]);

    let error = decode_raw_audio_reader(&[0x01], &config, decode_float).expect_err("unaligned bytes");
    assert_eq!(error.to_string(), "Raw audio byte length is not aligned to the sample format");
}

#[test]
fn generates_waveforms_from_pcm_for_mixed_and_split_channels() {
    let pcm = PcmAudio::new(48_000, 2, vec![100, 300, 200, 400, -100, -300, -200, -400]).expect("pcm");

    let mixed = generate_waveform_from_pcm(
        &pcm,
        &GenerateOptions { scale: ScaleSpec::SamplesPerPixel(2), split_channels: false },
    )
    .expect("mixed waveform");
    assert_eq!(mixed.channels(), 1);
    assert_eq!(mixed.point(0, 0).expect("first point"), WaveformPoint { min: 200, max: 300 });
    assert_eq!(mixed.point(0, 1).expect("second point"), WaveformPoint { min: -300, max: -200 });

    let split = generate_waveform_from_pcm(
        &pcm,
        &GenerateOptions { scale: ScaleSpec::SamplesPerPixel(2), split_channels: true },
    )
    .expect("split waveform")
    .apply_amplitude_table(&amplitude_table(2.0));
    assert_eq!(split.channels(), 2);
    assert_eq!(split.point(0, 0).expect("left point"), WaveformPoint { min: 200, max: 400 });
    assert_eq!(split.point(1, 1).expect("right point"), WaveformPoint { min: -800, max: -600 });
}

#[test]
fn generated_point_count_covers_every_frame() {
    let pcm = PcmAudio::new(8_000, 1, (0..10).map(|i| i as i16).collect()).expect("pcm");
    let waveform = generate_waveform_from_pcm(
        &pcm,
        &GenerateOptions { scale: ScaleSpec::SamplesPerPixel(4), split_channels: false },
    )
    .expect("waveform");
    assert_eq!(waveform.len(), 3);
    assert_eq!(waveform.sample_rate(), 8_000);
    assert_eq!(waveform.samples_per_pixel(), 4);
    assert_eq!(waveform.point(0, 2).expect("last point"), WaveformPoint { min: 8, max: 9 });
}

#[test]
fn default_generate_options_use_256_samples_per_pixel() {
    let options = GenerateOptions::default();
    assert_eq!(options.scale, ScaleSpec::SamplesPerPixel(256));
    assert!(!options.split_channels);
    let pcm = PcmAudio::new(48_000, 1, vec![0_i16; 48_000]).expect("pcm");
    let waveform = generate_waveform_from_pcm(&pcm, &options).expect("waveform");
    assert!(!waveform.is_empty());
    assert_eq!(waveform.len(), 188);
}

#[test]
fn generation_rejects_a_scale_below_two() {
    let pcm = PcmAudio::new(48_000, 1, vec![0_i16; 16]).expect("pcm");
    let error = generate_waveform_from_pcm(
        &pcm,
        &GenerateOptions { scale: ScaleSpec::SamplesPerPixel(1), split_channels: false },
    )
    .expect_err("zoom too small");
    assert_eq!(error.to_string(), "Invalid zoom: minimum 2");
}

#[test]
fn generates_waveforms_from_raw_bytes() {
    let config = RawAudioConfig::new(16_000, 1, RawSampleFormat::S16Le).expect("config");
    let waveform = generate_waveform_from_raw_reader(
        &[0x10, 0x00, 0xf0, 0xff, 0x05, 0x00, 0x00, 0x00],
        &config,
        &GenerateOptions { scale: ScaleSpec::SamplesPerPixel(2), split_channels: false },
        decode_float,
    )
    .expect("waveform");
    assert_eq!(waveform.len(), 2);
    assert_eq!(waveform.point(0, 0).expect("first"), WaveformPoint { min: -16, max: 16 });
    assert_eq!(waveform.point(0, 1).expect("second"), WaveformPoint { min: 0, max: 5 });
}
