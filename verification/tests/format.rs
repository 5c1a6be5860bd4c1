use audiowaveform::{AudioFormat, WaveformFormat};

#[test]
fn infers_audio_formats_from_extensions_and_paths() {
    assert_eq!(AudioFormat::from_extension("mp3"), Some(AudioFormat::Mp3));
    assert_eq!(AudioFormat::from_extension("w64"), Some(AudioFormat::Wav));
    assert_eq!(AudioFormat::from_extension("oga"), Some(AudioFormat::Ogg));
    assert_eq!(AudioFormat::from_path("clip.flac"), Some(AudioFormat::Flac));
    assert_eq!(AudioFormat::from_path("clip.opus"), Some(AudioFormat::Opus));
    assert_eq!(AudioFormat::from_extension("unknown"), None);
}

#[test]
fn parses_audio_format_strings() {
    assert_eq!("wav".parse::<AudioFormat>().expect("wav"), AudioFormat::Wav);
    assert_eq!("oga".parse::<AudioFormat>().expect("oga"), AudioFormat::Ogg);

    let error = "aac".parse::<AudioFormat>().expect_err("unsupported");
    assert_eq!(error.to_string(), "Unsupported format: aac");
}

#[test]
fn infers_and_parses_waveform_formats() {
    assert_eq!(WaveformFormat::from_extension("dat"), Some(WaveformFormat::Dat));
    assert_eq!(WaveformFormat::from_path("waveform.json"), Some(WaveformFormat::Json));
    assert_eq!("txt".parse::<WaveformFormat>().expect("txt"), WaveformFormat::Txt);
    assert_eq!(WaveformFormat::from_extension("png"), None);

    let error = "csv".parse::<WaveformFormat>().expect_err("unsupported");
    assert_eq!(error.to_string(), "Unsupported format: csv");
}

#[test]
fn format_names_round_trip() {
    for format in [
        AudioFormat::Mp3,
        AudioFormat::Wav,
        AudioFormat::Flac,
        AudioFormat::Ogg,
        AudioFormat::Opus,
        AudioFormat::Raw,
    ] {
        assert_eq!(AudioFormat::from_extension(format.as_str()), Some(format));
    }
    for format in [WaveformFormat::Dat, WaveformFormat::Json, WaveformFormat::Txt] {
        assert_eq!(WaveformFormat::from_extension(format.as_str()), Some(format));
    }
}

#[test]
fn extensions_ignore_case_and_paths_need_an_extension() {
    assert_eq!(AudioFormat::from_path("DIR/CLIP.MP3"), Some(AudioFormat::Mp3));
    assert_eq!(AudioFormat::from_path("clip"), None);
    assert_eq!(WaveformFormat::from_path("data.DAT"), Some(WaveformFormat::Dat));
    assert_eq!(WaveformFormat::from_path(".json"), None);
}

#[test]
fn extensions_name_the_same_format_in_any_ascii_case() {
    for ext in ["mp3", "Wav", "W64", "flac", "OGG", "oga", "opus", "RAW", "aac", "", "dat", "Json", "TXT", "ünï"] {
        assert_eq!(AudioFormat::from_extension(ext), AudioFormat::from_extension(&ext.to_ascii_uppercase()));
        assert_eq!(AudioFormat::from_extension(ext), AudioFormat::from_extension(&ext.to_ascii_lowercase()));
        assert_eq!(WaveformFormat::from_extension(ext), WaveformFormat::from_extension(&ext.to_ascii_uppercase()));
    }
}
