use std::str::FromStr;

use audiowaveform::{Color, ColorScheme, WaveformColors};

#[test]
fn parses_rgb_and_rgba_colors() {
    assert_eq!(Color::from_str("123456").expect("rgb"), Color::rgba(0x12, 0x34, 0x56, 0xff));
    assert_eq!(Color::from_str("abcdef80").expect("rgba"), Color::rgba(0xab, 0xcd, 0xef, 0x80));
    assert_eq!(Color::from_str("A1B2C3").expect("uppercase"), Color::rgba(0xa1, 0xb2, 0xc3, 0xff));
}

#[test]
fn rejects_invalid_color_strings() {
    for value in ["", "12345", "gggggg", "123456789"] {
        let error = Color::from_str(value).expect_err("invalid color");
        assert_eq!(error.to_string(), "Invalid color value");
    }
}

#[test]
fn parses_color_schemes_and_detects_alpha() {
    assert_eq!(ColorScheme::from_str("audacity").expect("audacity"), ColorScheme::Audacity);
    assert_eq!(ColorScheme::from_str("AUDITION").expect("audition"), ColorScheme::Audition);
    let error = ColorScheme::from_str("unknown").expect_err("unknown scheme");
    assert_eq!(error.to_string(), "Unknown color scheme: unknown");

    let mut colors = WaveformColors::default();
    assert!(!colors.has_alpha());
    colors.background = Color::rgba(0, 0, 0, 128);
    assert!(colors.has_alpha());
}

#[test]
fn palettes_hold_the_scheme_colors() {
    let audacity = ColorScheme::Audacity.palette();
    assert_eq!(audacity.border, Color::opaque(0, 0, 0));
    assert_eq!(audacity.background, Color::opaque(214, 214, 214));
    assert_eq!(audacity.waveform, vec![Color::opaque(63, 77, 155)]);
    assert_eq!(audacity.axis_label, Color::opaque(0, 0, 0));

    let audition = WaveformColors::audition();
    assert_eq!(audition.border, Color::opaque(157, 157, 157));
    assert_eq!(audition.background, Color::opaque(0, 63, 34));
    assert_eq!(audition.waveform, vec![Color::opaque(134, 252, 199)]);
    assert_eq!(audition.axis_label, Color::opaque(190, 190, 190));
}

#[test]
fn a_waveform_color_with_alpha_is_detected() {
    let mut colors = WaveformColors::audacity();
    colors.waveform.push(Color::rgba(1, 2, 3, 254));
    assert!(colors.has_alpha());
    assert!(Color::rgba(1, 2, 3, 0).has_alpha());
    assert!(!Color::opaque(1, 2, 3).has_alpha());
}

#[test]
fn parses_color_bytes() {
    assert_eq!(Color::parse_bytes(b"ff000080").expect("bytes"), Color::rgba(255, 0, 0, 128));
    assert_eq!(Color::parse_bytes(b"12345g").expect_err("bad digit").to_string(), "Invalid color value");
}
