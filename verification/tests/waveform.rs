use audiowaveform::{ScaleSpec, Waveform, WaveformFormat, WaveformPoint};

fn sample_waveform() -> Waveform {
    let mut waveform = Waveform::new(48_000, 64, 1).expect("waveform");
    waveform.push_frame(&[WaveformPoint { min: -10, max: 20 }]).expect("first frame");
    waveform.push_frame(&[WaveformPoint { min: -30, max: 40 }]).expect("second frame");
    waveform
}

fn scale_table(multiplier: f64) -> Vec<i16> {
    (i16::MIN..=i16::MAX)
        .map(|value| (f64::from(value) * multiplier).clamp(f64::from(i16::MIN), f64::from(i16::MAX)) as i16)
        .collect()
}

fn auto_multiplier(low: i32, high: i32) -> f64 {
    let high_scale = if high == 0 { 1.0 } else { 32767.0 / f64::from(high) };
    let low_scale = if low == 0 { 1.0 } else { 32767.0 / f64::from(low) };
    high_scale.min(low_scale).abs()
}

#[test]
fn validates_waveform_metadata_and_frame_shapes() {
    let error = Waveform::new(0, 64, 1).expect_err("invalid sample rate");
    assert_eq!(error.to_string(), "Invalid sample rate: minimum 1 Hz");

    let error = Waveform::new(48_000, 1, 1).expect_err("invalid scale");
    assert_eq!(error.to_string(), "Invalid samples per pixel: minimum 2");

    let error = Waveform::new(48_000, 64, 25).expect_err("invalid channels");
    assert_eq!(error.to_string(), "Invalid channels: must be between 1 and 24");

    let error = Waveform::from_interleaved_samples(48_000, 64, 2, vec![1, 2, 3], 16)
        .expect_err("unaligned waveform data");
    assert_eq!(error.to_string(), "Waveform data length must be divisible by two samples per channel");

    let mut waveform = Waveform::new(48_000, 64, 2).expect("waveform");
    let error = waveform.push_frame(&[WaveformPoint { min: 0, max: 1 }]).expect_err("wrong frame width");
    assert_eq!(error.to_string(), "Expected 2 points, received 1");
}

#[test]
fn scales_waveform_amplitude_using_fixed_and_auto_modes() {
    let waveform = sample_waveform();

    let fixed = waveform.apply_amplitude_table(&scale_table(2.0));
    assert_eq!(fixed.point(0, 0).expect("scaled point"), WaveformPoint { min: -20, max: 40 });

    let (low, high) = waveform.amplitude_range(0, waveform.len()).expect("range");
    assert_eq!((low, high), (-30, 40));
    let auto = waveform.apply_amplitude_table(&scale_table(auto_multiplier(low, high)));
    assert_eq!(auto.point(0, 1).expect("auto point"), WaveformPoint { min: -32_767, max: 32_767 });

    let error = waveform.amplitude_range(1, 1).expect_err("empty range");
    assert_eq!(error.to_string(), "Invalid amplitude scaling range");
}

#[test]
fn resamples_waveforms_to_a_coarser_scale() {
    let mut waveform = Waveform::new(48_000, 512, 1).expect("waveform");
    for point in [
        WaveformPoint { min: 0, max: 0 },
        WaveformPoint { min: -10, max: 10 },
        WaveformPoint { min: 0, max: 0 },
        WaveformPoint { min: -5, max: 7 },
        WaveformPoint { min: -5, max: 7 },
        WaveformPoint { min: 0, max: 0 },
        WaveformPoint { min: 0, max: 0 },
        WaveformPoint { min: 0, max: 0 },
        WaveformPoint { min: 0, max: 0 },
        WaveformPoint { min: -2, max: 2 },
    ] {
        waveform.push_frame(&[point]).expect("push point");
    }

    let resampled = waveform.resample(ScaleSpec::SamplesPerPixel(1024)).expect("resample waveform");
    assert_eq!(resampled.len(), 5);
    assert_eq!(resampled.samples_per_pixel(), 1024);
    assert_eq!(resampled.point(0, 0).expect("point 0"), WaveformPoint { min: -10, max: 10 });
    assert_eq!(resampled.point(0, 1).expect("point 1"), WaveformPoint { min: -5, max: 7 });
    assert_eq!(resampled.point(0, 2).expect("point 2"), WaveformPoint { min: -5, max: 7 });
    assert_eq!(resampled.point(0, 3).expect("point 3"), WaveformPoint { min: 0, max: 0 });
    assert_eq!(resampled.point(0, 4).expect("point 4"), WaveformPoint { min: -2, max: 2 });

    let error = waveform.resample(ScaleSpec::SamplesPerPixel(256)).expect_err("finer zoom should fail");
    assert_eq!(error.to_string(), "Invalid zoom, minimum: 512");
}

#[test]
fn serializes_text_and_json_for_two_channel_waveforms() {
    let waveform = Waveform::from_interleaved_samples(
        44_100,
        256,
        2,
        vec![-1024, 1024, -2048, 2048, -3072, 3072, -4096, 4096],
        16,
    )
    .expect("waveform");

    let mut txt = Vec::new();
    waveform.write_to_writer(&mut txt, WaveformFormat::Txt, Some(8)).expect("write txt");
    assert_eq!(String::from_utf8(txt).expect("utf8"), "-4,4,-8,8\n-12,12,-16,16\n");

    let mut json = Vec::new();
    waveform.write_to_writer(&mut json, WaveformFormat::Json, Some(16)).expect("write json");
    assert_eq!(
        String::from_utf8(json).expect("utf8"),
        "{\"version\":2,\"channels\":2,\"sample_rate\":44100,\"samples_per_pixel\":256,\"bits\":16,\"length\":2,\"data\":[-1024,1024,-2048,2048,-3072,3072,-4096,4096]}\n"
    );
}

#[test]
fn resampling_keeps_rate_and_channels() {
    let waveform = Waveform::from_interleaved_samples(22_050, 64, 2, vec![-1, 1, -2, 2, -3, 3, -4, 4, -5, 5, -6, 6], 8)
        .expect("waveform");
    let resampled = waveform.resample(ScaleSpec::SamplesPerPixel(128)).expect("resample");
    assert_eq!(resampled.sample_rate(), 22_050);
    assert_eq!(resampled.channels(), 2);
    assert_eq!(resampled.samples_per_pixel(), 128);
    assert_eq!(resampled.len(), 2);
    assert_eq!(resampled.point(1, 0).expect("point"), WaveformPoint { min: -4, max: 4 });
    assert_eq!(resampled.point(0, 1).expect("point"), WaveformPoint { min: -5, max: 5 });

    let same = waveform.resample(ScaleSpec::SamplesPerPixel(64)).expect("same scale");
    assert_eq!(same.interleaved_samples(), waveform.interleaved_samples());
}

#[test]
fn storage_bits_can_be_changed_to_a_valid_depth() {
    let waveform = sample_waveform();
    assert_eq!(waveform.storage_bits(), 16);
    let eight = waveform.clone().with_storage_bits(8).expect("8 bits");
    assert_eq!(eight.storage_bits(), 8);
    assert_eq!(eight.interleaved_samples(), waveform.interleaved_samples());
    let error = waveform.with_storage_bits(12).expect_err("invalid depth");
    assert_eq!(error.to_string(), "Invalid bits: must be either 8 or 16");
}

#[test]
fn points_outside_the_waveform_are_absent() {
    let waveform = sample_waveform();
    assert_eq!(waveform.point(0, 2), None);
    assert_eq!(waveform.point(1, 0), None);
    assert_eq!(waveform.len(), 2);
    assert!(!waveform.is_empty());
}
