use audiowaveform::{Error, JsonWaveform, Waveform, WaveformFormat};

/// The bytes of a `.dat` file with the given header fields and values.
fn dat_file(version: i32, bits: u8, sample_rate: u32, samples_per_pixel: u32, length: u32, channels: u32, values: &[i16]) -> Vec<u8> {
    let mut bytes = Vec::new();
    bytes.extend_from_slice(&version.to_le_bytes());
    bytes.extend_from_slice(&(if bits == 8 { 1_u32 } else { 0 }).to_le_bytes());
    bytes.extend_from_slice(&sample_rate.to_le_bytes());
    bytes.extend_from_slice(&samples_per_pixel.to_le_bytes());
    bytes.extend_from_slice(&length.to_le_bytes());
    if version == 2 {
        bytes.extend_from_slice(&channels.to_le_bytes());
    }
    for value in values {
        if bits == 8 {
            bytes.push(*value as i8 as u8);
        } else {
            bytes.extend_from_slice(&value.to_le_bytes());
        }
    }
    bytes
}

/// A deterministic run of stored values.
fn values(count: usize, bits: u8) -> Vec<i16> {
    (0..count)
        .map(|i| {
            let v = ((i * 37) % 200) as i16 - 100;
            if bits == 8 { v } else { v * 300 }
        })
        .collect()
}

fn no_json(_: &[u8]) -> Result<JsonWaveform, Error> {
    Err(Error::InvalidData { message: "not json".to_string() })
}

fn decode_json(bytes: &[u8]) -> Result<JsonWaveform, Error> {
    let value: serde_json::Value =
        serde_json::from_slice(bytes).map_err(|e| Error::InvalidData { message: e.to_string() })?;
    let field = |name: &str| value.get(name).and_then(|v| v.as_u64()).unwrap_or(0);
    Ok(JsonWaveform {
        version: value.get("version").and_then(|v| v.as_i64()).unwrap_or(0) as i32,
        channels: value.get("channels").and_then(|v| v.as_u64()).map(|v| v as u16),
        sample_rate: field("sample_rate") as u32,
        samples_per_pixel: field("samples_per_pixel") as u32,
        bits: field("bits") as u8,
        length: field("length") as usize,
        data: value
            .get("data")
            .and_then(|v| v.as_array())
            .map(|items| items.iter().map(|v| v.as_i64().unwrap_or(0) as i32).collect())
            .unwrap_or_default(),
    })
}

fn load_dat(bytes: &[u8]) -> Waveform {
    Waveform::load_from_reader(bytes, WaveformFormat::Dat, no_json).expect("load waveform")
}

#[test]
fn round_trips_binary_waveform_fixture() {
    let fixture = dat_file(1, 8, 16_000, 64, 1774, 1, &values(2 * 1774, 8));
    let waveform = load_dat(&fixture);

    assert_eq!(waveform.sample_rate(), 16_000);
    assert_eq!(waveform.samples_per_pixel(), 64);
    assert_eq!(waveform.channels(), 1);
    assert_eq!(waveform.storage_bits(), 8);
    assert_eq!(waveform.len(), 1774);

    let mut output = Vec::new();
    waveform.write_to_writer(&mut output, WaveformFormat::Dat, None).expect("write dat");
    assert_eq!(output, fixture);
}

#[test]
fn emits_expected_json_and_text_fixture_bytes() {
    let fixture = dat_file(1, 8, 16_000, 64, 2, 1, &[-3, 4, 0, 127]);
    let waveform = load_dat(&fixture);

    let mut json = Vec::new();
    waveform.write_to_writer(&mut json, WaveformFormat::Json, Some(8)).expect("write json");
    assert_eq!(
        String::from_utf8(json).expect("utf8"),
        "{\"version\":2,\"channels\":1,\"sample_rate\":16000,\"samples_per_pixel\":64,\"bits\":8,\"length\":2,\"data\":[-3,4,0,127]}\n"
    );

    let mut txt = Vec::new();
    waveform.write_to_writer(&mut txt, WaveformFormat::Txt, Some(8)).expect("write txt");
    assert_eq!(String::from_utf8(txt).expect("utf8"), "-3,4\n0,127\n");
}

#[test]
fn loads_version1_and_version2_waveform_fixtures() {
    let cases = [
        (dat_file(1, 8, 16_000, 64, 1774, 1, &values(2 * 1774, 8)), 16_000, 8_u8, 1_u16, 1774_usize),
        (dat_file(2, 8, 16_000, 64, 1774, 1, &values(2 * 1774, 8)), 16_000, 8_u8, 1_u16, 1774_usize),
        (dat_file(1, 16, 16_000, 64, 1774, 1, &values(2 * 1774, 16)), 16_000, 16_u8, 1_u16, 1774_usize),
        (dat_file(2, 16, 16_000, 64, 1774, 1, &values(2 * 1774, 16)), 16_000, 16_u8, 1_u16, 1774_usize),
        (dat_file(2, 8, 44_100, 64, 10_438, 2, &values(4 * 10_438, 8)), 44_100, 8_u8, 2_u16, 10_438_usize),
    ];

    for (bytes, sample_rate, bits, channels, length) in cases {
        let waveform = load_dat(&bytes);
        assert_eq!(waveform.sample_rate(), sample_rate);
        assert_eq!(waveform.samples_per_pixel(), 64);
        assert_eq!(waveform.storage_bits(), bits);
        assert_eq!(waveform.channels(), channels);
        assert_eq!(waveform.len(), length);
    }
}

#[test]
fn loads_zero_length_waveform_fixture() {
    let waveform = load_dat(&dat_file(1, 8, 16_000, 64, 0, 1, &[]));
    assert_eq!(waveform.sample_rate(), 16_000);
    assert_eq!(waveform.samples_per_pixel(), 64);
    assert!(waveform.is_empty());
}

#[test]
fn loads_truncated_waveform_fixture_using_available_points() {
    let waveform = load_dat(&dat_file(1, 8, 16_000, 64, 2_000, 1, &values(2 * 1_800, 8)));
    assert_eq!(waveform.sample_rate(), 16_000);
    assert_eq!(waveform.samples_per_pixel(), 64);
    assert_eq!(waveform.channels(), 1);
    assert_eq!(waveform.storage_bits(), 8);
    assert_eq!(waveform.len(), 1_800);
}

#[test]
fn rejects_invalid_waveform_fixtures() {
    let cases = [
        (dat_file(3, 8, 16_000, 64, 0, 1, &[]), "Cannot load data file version: 3"),
        (dat_file(1, 8, 0, 64, 0, 1, &[]), "Invalid sample rate: minimum 1 Hz"),
        (dat_file(1, 8, 16_000, 1, 0, 1, &[]), "Invalid samples per pixel: minimum 2"),
        (dat_file(2, 8, 16_000, 64, 0, 25, &[]), "Invalid channels: must be between 1 and 24"),
        (dat_file(2, 8, 16_000, 64, 0, 0, &[]), "Invalid channels: must be between 1 and 24"),
    ];

    for (bytes, expected) in cases {
        let error = Waveform::load_from_reader(&bytes, WaveformFormat::Dat, no_json).expect_err("invalid dat");
        assert!(error.to_string().contains(expected), "{}", error.to_string());
    }
}

#[test]
fn rejects_invalid_json_waveform_payloads() {
    let error = Waveform::load_from_reader(
        br#"{"version":2,"channels":1,"sample_rate":44100,"samples_per_pixel":256,"bits":8,"length":2,"data":[1,2,3]}"#
            .as_slice(),
        WaveformFormat::Json,
        decode_json,
    )
    .expect_err("json length mismatch");
    assert_eq!(error.to_string(), "Length mismatch: expected 4 values, found 3");

    let error = Waveform::load_from_reader(
        br#"{"version":2,"channels":1,"sample_rate":44100,"samples_per_pixel":256,"bits":8,"length":1,"data":[999,0]}"#
            .as_slice(),
        WaveformFormat::Json,
        decode_json,
    )
    .expect_err("json range mismatch");
    assert_eq!(error.to_string(), "Data value out of range: 999");

    let overflowing_length = format!(
        r#"{{"version":2,"channels":1,"sample_rate":44100,"samples_per_pixel":256,"bits":8,"length":{},"data":[]}}"#,
        usize::MAX
    );
    let error = Waveform::load_from_reader(overflowing_length.as_bytes(), WaveformFormat::Json, decode_json)
        .expect_err("overflowing json length");
    assert_eq!(error.to_string(), "Waveform length is too large");
}

#[test]
fn saves_empty_waveform_as_header_only_dat_file() {
    let waveform = Waveform::new(44_100, 256, 1).expect("new waveform");
    let mut dat = Vec::new();
    waveform.write_to_writer(&mut dat, WaveformFormat::Dat, None).expect("write dat");
    assert_eq!(dat.len(), 20);
}

#[test]
fn writes_expected_text_and_json_for_two_channel_waveforms() {
    let waveform = load_dat(&dat_file(2, 8, 44_100, 64, 2, 2, &[-1, 1, -2, 2, -3, 3, -4, 4]));

    let mut json = Vec::new();
    waveform.write_to_writer(&mut json, WaveformFormat::Json, Some(8)).expect("write json");
    assert_eq!(
        String::from_utf8(json).expect("utf8"),
        "{\"version\":2,\"channels\":2,\"sample_rate\":44100,\"samples_per_pixel\":64,\"bits\":8,\"length\":2,\"data\":[-1,1,-2,2,-3,3,-4,4]}\n"
    );

    let mut txt = Vec::new();
    waveform.write_to_writer(&mut txt, WaveformFormat::Txt, Some(8)).expect("write txt");
    assert_eq!(String::from_utf8(txt).expect("utf8"), "-1,1,-2,2\n-3,3,-4,4\n");
}

#[test]
fn saves_waveform_to_path_and_reloads_it() {
    let waveform = load_dat(&dat_file(1, 8, 16_000, 64, 3, 1, &[-5, 5, -6, 6, -7, 7]));
    let mut bytes = Vec::new();
    waveform.write_to_writer(&mut bytes, WaveformFormat::Dat, None).expect("save waveform");
    let reloaded = load_dat(&bytes);
    assert_eq!(reloaded.sample_rate(), waveform.sample_rate());
    assert_eq!(reloaded.samples_per_pixel(), waveform.samples_per_pixel());
    assert_eq!(reloaded.channels(), waveform.channels());
    assert_eq!(reloaded.storage_bits(), waveform.storage_bits());
    assert_eq!(reloaded.interleaved_samples(), waveform.interleaved_samples());
}

#[test]
fn rejects_invalid_storage_bits_and_txt_loading() {
    let waveform = load_dat(&dat_file(1, 8, 16_000, 64, 1774, 1, &values(2 * 1774, 8)));

    let mut sink = Vec::new();
    let error = waveform.write_to_writer(&mut sink, WaveformFormat::Dat, Some(10)).expect_err("invalid bits");
    assert_eq!(error.to_string(), "Invalid bits: must be either 8 or 16");
    assert!(sink.is_empty());

    let error = Waveform::load_from_reader(b"-1,1\n".as_slice(), WaveformFormat::Txt, no_json)
        .expect_err("txt input unsupported");
    assert_eq!(error.to_string(), "Unsupported format: txt");
}

#[test]
fn rescales_waveforms_to_a_coarser_scale() {
    let waveform = load_dat(&dat_file(1, 8, 16_000, 64, 1774, 1, &values(2 * 1774, 8)));
    let resampled = waveform.resample(audiowaveform::ScaleSpec::SamplesPerPixel(128)).expect("resample");

    assert_eq!(resampled.sample_rate(), 16_000);
    assert_eq!(resampled.samples_per_pixel(), 128);
    assert_eq!(resampled.channels(), 1);
    assert_eq!(resampled.len(), 887);
}

#[test]
fn sixteen_bit_dat_files_round_trip() {
    let waveform = Waveform::from_interleaved_samples(8_000, 32, 2, vec![-300, 300, -32768, 32767, 0, 1, -1, 0], 16)
        .expect("waveform");
    let mut bytes = Vec::new();
    waveform.write_to_writer(&mut bytes, WaveformFormat::Dat, Some(16)).expect("write");
    assert_eq!(bytes.len(), 24 + 16);
    let reloaded = load_dat(&bytes);
    assert_eq!(reloaded.channels(), 2);
    assert_eq!(reloaded.interleaved_samples(), waveform.interleaved_samples());
}

#[test]
fn eight_bit_dat_files_keep_the_high_byte() {
    let waveform = Waveform::from_interleaved_samples(8_000, 32, 1, vec![-300, 300, 511, -32768], 16).expect("waveform");
    let mut bytes = Vec::new();
    waveform.write_to_writer(&mut bytes, WaveformFormat::Dat, Some(8)).expect("write");
    let reloaded = load_dat(&bytes);
    assert_eq!(reloaded.storage_bits(), 8);
    assert_eq!(reloaded.interleaved_samples(), &[-256, 256, 256, -32768]);
}

#[test]
fn reads_json_waveforms() {
    let waveform = Waveform::load_from_reader(
        br#"{"version":1,"sample_rate":8000,"samples_per_pixel":16,"bits":8,"length":1,"data":[-2,3]}"#.as_slice(),
        WaveformFormat::Json,
        decode_json,
    )
    .expect("json");
    assert_eq!(waveform.channels(), 1);
    assert_eq!(waveform.storage_bits(), 8);
    assert_eq!(waveform.interleaved_samples(), &[-512, 768]);
}

#[test]
fn truncated_dat_headers_are_reported() {
    let error = Waveform::read_dat(&[1, 0]).expect_err("short header");
    assert_eq!(error.to_string(), "failed to fill whole buffer");
    let error = Waveform::read_dat(&dat_file(2, 8, 8_000, 32, 0, 1, &[])[..22]).expect_err("short v2 header");
    assert_eq!(error.to_string(), "failed to fill whole buffer");
}

#[test]
fn dat_channel_fields_beyond_sixteen_bits_are_refused() {
    for channels in [65_537_u32, 65_560, u32::MAX] {
        let bytes = dat_file(2, 8, 16_000, 64, 0, channels, &[]);
        let error = Waveform::load_from_reader(&bytes, WaveformFormat::Dat, no_json).expect_err("refused");
        assert_eq!(error.to_string(), "Invalid channels: must be between 1 and 24");
    }
}
