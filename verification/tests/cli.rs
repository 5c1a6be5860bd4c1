use audiowaveform::cli::{
    is_stdio_filename, parse_u32, plan_run, resolve_bits, resolve_colors, resolve_compression, resolve_format,
    resolve_raw_audio_config, resolve_render_style, resolve_scale, CliFormat, CliScale, RunPlan,
};
use audiowaveform::{
    AudioFormat, BarStyle, Color, RawAudioConfig, RawSampleFormat, RenderStyle, ScaleSpec, WaveformFormat,
};

#[test]
fn names_and_paths_select_formats() {
    assert_eq!(CliFormat::from_name("WAV"), Ok(CliFormat::Wav));
    assert_eq!(CliFormat::from_name("w64"), Ok(CliFormat::Wav));
    assert_eq!(CliFormat::from_name("oga"), Ok(CliFormat::Ogg));
    assert_eq!(CliFormat::from_name("aac"), Err("Unknown file format: aac".to_string()));
    assert_eq!(CliFormat::from_path("out/image.png"), Ok(CliFormat::Png));
    assert_eq!(CliFormat::from_path("noextension"), Err("Unknown file format: noextension".to_string()));
    for format in [
        CliFormat::Mp3,
        CliFormat::Wav,
        CliFormat::Flac,
        CliFormat::Ogg,
        CliFormat::Opus,
        CliFormat::Raw,
        CliFormat::Dat,
        CliFormat::Json,
        CliFormat::Txt,
        CliFormat::Png,
    ] {
        assert_eq!(CliFormat::from_name(format.name()), Ok(format));
    }
}

#[test]
fn formats_know_their_kind() {
    assert!(CliFormat::Raw.is_audio_input());
    assert!(!CliFormat::Dat.is_audio_input());
    assert!(CliFormat::Json.is_waveform_input());
    assert!(!CliFormat::Txt.is_waveform_input());
    assert_eq!(CliFormat::Flac.as_audio_format(), Some(AudioFormat::Flac));
    assert_eq!(CliFormat::Png.as_audio_format(), None);
    assert_eq!(CliFormat::Txt.as_waveform_format(), Some(WaveformFormat::Txt));
    assert_eq!(CliFormat::Mp3.as_waveform_format(), None);
}

#[test]
fn formats_come_from_names_before_file_names() {
    assert_eq!(resolve_format(Some("in.wav"), Some("mp3"), true), Ok(CliFormat::Mp3));
    assert_eq!(resolve_format(Some("in.wav"), None, true), Ok(CliFormat::Wav));
    assert_eq!(
        resolve_format(None, None, true),
        Err("Error: Must specify either input filename or input format".to_string())
    );
    assert_eq!(
        resolve_format(None, None, false),
        Err("Error: Must specify either output filename or output format".to_string())
    );
}

#[test]
fn checks_bits_and_compression() {
    assert_eq!(resolve_bits(None), Ok(None));
    assert_eq!(resolve_bits(Some(8)), Ok(Some(8)));
    assert_eq!(resolve_bits(Some(12)), Err("Error: Invalid bits: must be either 8 or 16".to_string()));
    assert_eq!(resolve_compression(-1), Ok(None));
    assert_eq!(resolve_compression(9), Ok(Some(9)));
    assert_eq!(
        resolve_compression(10),
        Err("Error: Invalid compression level: must be from 0 (none) to 9 (best), or -1 (default)".to_string())
    );
}

#[test]
fn recognises_standard_streams() {
    assert!(is_stdio_filename(None));
    assert!(is_stdio_filename(Some("-")));
    assert!(!is_stdio_filename(Some("--")));
    assert!(!is_stdio_filename(Some("out.dat")));
}

#[test]
fn picks_render_styles() {
    assert_eq!(resolve_render_style("normal", 0, -1, "odd"), Ok(RenderStyle::Normal));
    assert_eq!(
        resolve_render_style("bars", 8, 4, "rounded"),
        Ok(RenderStyle::Bars { width: 8, gap: 4, style: BarStyle::Rounded })
    );
    assert_eq!(resolve_render_style("bars", 0, 4, "square"), Err("Invalid bar width: minimum 1".to_string()));
    assert_eq!(resolve_render_style("bars", 8, -1, "square"), Err("Invalid bar gap: minimum 0".to_string()));
    assert_eq!(resolve_render_style("bars", 8, 4, "oval"), Err("Unknown waveform bar style: oval".to_string()));
    assert_eq!(resolve_render_style("Bars", 8, 4, "square"), Err("Unknown waveform style: Bars".to_string()));
}

#[test]
fn builds_raw_audio_configs() {
    assert_eq!(
        resolve_raw_audio_config(Some(48_000), Some(2), Some("s16le")),
        Ok(RawAudioConfig { sample_rate: 48_000, channels: 2, sample_format: RawSampleFormat::S16Le })
    );
    assert_eq!(
        resolve_raw_audio_config(None, Some(2), Some("s16le")),
        Err("Error: Missing --raw-samplerate option".to_string())
    );
    assert_eq!(
        resolve_raw_audio_config(Some(48_000), None, None),
        Err("Error: Missing --raw-channels option".to_string())
    );
    assert_eq!(resolve_raw_audio_config(Some(48_000), Some(1), None), Err("Error: Missing --raw-format option".to_string()));
    assert_eq!(
        resolve_raw_audio_config(Some(0), Some(1), Some("s8")),
        Err("Invalid input sample rate: must be greater than zero".to_string())
    );
    assert_eq!(
        resolve_raw_audio_config(Some(8_000), Some(0), Some("s8")),
        Err("Invalid number of input channels: must be greater than zero".to_string())
    );
    assert_eq!(
        resolve_raw_audio_config(Some(48_000), Some(65_537), Some("s16le")),
        Err("Invalid number of input channels: maximum 65535".to_string())
    );
    assert_eq!(resolve_raw_audio_config(Some(8_000), Some(1), Some("pcm")), Err("Unsupported format: pcm".to_string()));
}

#[test]
fn picks_scales() {
    assert_eq!(resolve_scale(None, None, false, 800), Ok(CliScale::Scale(ScaleSpec::SamplesPerPixel(256))));
    assert_eq!(resolve_scale(Some("64"), None, false, 800), Ok(CliScale::Scale(ScaleSpec::SamplesPerPixel(64))));
    assert_eq!(
        resolve_scale(Some("auto"), None, false, 800),
        Ok(CliScale::Scale(ScaleSpec::FitWidth { width_pixels: 800, range_frames: None }))
    );
    assert_eq!(resolve_scale(None, Some(50), false, 800), Ok(CliScale::Scale(ScaleSpec::PixelsPerSecond(50))));
    assert_eq!(resolve_scale(None, None, true, 600), Ok(CliScale::TimeRange { width_pixels: 600 }));
    assert_eq!(
        resolve_scale(Some("64"), None, true, 800),
        Err("Specify either --end or --zoom but not both".to_string())
    );
    assert_eq!(
        resolve_scale(None, Some(5), true, 800),
        Err("Specify either --end or --pixels-per-second but not both".to_string())
    );
    assert_eq!(
        resolve_scale(Some("64"), Some(5), false, 800),
        Err("Specify either --zoom or --pixels-per-second but not both".to_string())
    );
    assert_eq!(resolve_scale(None, None, false, 0), Err("Invalid image width: minimum 1".to_string()));
    assert_eq!(
        resolve_scale(None, Some(0), false, 800),
        Err("Invalid pixels per second: must be greater than zero".to_string())
    );
    assert_eq!(
        resolve_scale(Some("-4"), None, false, 800),
        Err("Error: Invalid zoom: must be a number or 'auto'".to_string())
    );
}

#[test]
fn parses_unsigned_numbers_as_str_parse_does() {
    assert_eq!(parse_u32("0"), Some(0));
    assert_eq!(parse_u32("+42"), Some(42));
    assert_eq!(parse_u32("4294967295"), Some(u32::MAX));
    assert_eq!(parse_u32("4294967296"), None);
    assert_eq!(parse_u32("99999999999999999999"), None);
    assert_eq!(parse_u32(""), None);
    assert_eq!(parse_u32("+"), None);
    assert_eq!(parse_u32(" 1"), None);
    assert_eq!(parse_u32("1x"), None);
}

#[test]
fn builds_palettes_with_overrides() {
    let colors = resolve_colors("audition", Some("112233"), None, Some("445566aa"), Some("ff0000,00ff00")).expect("colors");
    assert_eq!(colors.border, Color::opaque(0x11, 0x22, 0x33));
    assert_eq!(colors.background, Color::opaque(0, 63, 34));
    assert_eq!(colors.axis_label, Color::rgba(0x44, 0x55, 0x66, 0xaa));
    assert_eq!(colors.waveform, vec![Color::opaque(255, 0, 0), Color::opaque(0, 255, 0)]);

    let defaults = resolve_colors("AUDACITY", None, None, None, None).expect("defaults");
    assert_eq!(defaults.waveform, vec![Color::opaque(63, 77, 155)]);

    assert_eq!(
        resolve_colors("sunset", None, None, None, None).expect_err("scheme").as_str(),
        "Unknown color scheme: sunset"
    );
    assert_eq!(
        resolve_colors("audacity", None, Some("12"), None, None).expect_err("color").as_str(),
        "Invalid color value"
    );
    assert_eq!(
        resolve_colors("audacity", None, None, None, Some("ff0000,")).expect_err("list").as_str(),
        "Invalid color value"
    );
}

#[test]
fn plans_pipelines() {
    assert_eq!(plan_run(CliFormat::Mp3, CliFormat::Wav, false), Ok(RunPlan::TranscodeToWav));
    assert_eq!(plan_run(CliFormat::Raw, CliFormat::Json, true), Ok(RunPlan::GenerateWaveform));
    assert_eq!(plan_run(CliFormat::Dat, CliFormat::Txt, false), Ok(RunPlan::ConvertWaveform));
    assert_eq!(plan_run(CliFormat::Json, CliFormat::Dat, true), Ok(RunPlan::ResampleWaveform));
    assert_eq!(plan_run(CliFormat::Dat, CliFormat::Png, true), Ok(RunPlan::RenderImage));
    assert_eq!(
        plan_run(CliFormat::Wav, CliFormat::Mp3, false),
        Err("Can't generate mp3 format output from wav format input".to_string())
    );
    assert_eq!(
        plan_run(CliFormat::Dat, CliFormat::Txt, true),
        Err("Can't generate txt format output from dat format input".to_string())
    );
}
