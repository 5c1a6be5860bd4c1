use audiowaveform::font::{glyph_bitmap, text_width, LABEL_FONT_HEIGHT};
use audiowaveform::render::{
    axis_label_scale, get_bar_height, png_compression, round_up_to_nearest, seconds_to_string, PngCompression,
};
use audiowaveform::{
    render_waveform, write_waveform_png, BarStyle, Color, RenderFrame, RenderOptions, RenderStyle, Waveform,
    WaveformColors, WaveformPoint,
};

fn sample_waveform() -> Waveform {
    let mut waveform = Waveform::new(48_000, 64, 1).expect("waveform");
    waveform.push_frame(&[WaveformPoint { min: -16_384, max: 16_384 }]).expect("push point");
    waveform
}

fn identity_table() -> Vec<i16> {
    (i16::MIN..=i16::MAX).collect()
}

fn start_index(seconds: f64, waveform: &Waveform) -> Option<usize> {
    if !seconds.is_finite() || seconds < 0.0 {
        None
    } else {
        Some((seconds * waveform.sample_rate() as f64 / waveform.samples_per_pixel() as f64) as usize)
    }
}

fn fixed_amplitude(value: f64) -> Option<Vec<i16>> {
    if !value.is_finite() || value < 0.0 {
        None
    } else {
        Some(
            (i16::MIN..=i16::MAX)
                .map(|v| (f64::from(v) * value).clamp(f64::from(i16::MIN), f64::from(i16::MAX)) as i16)
                .collect(),
        )
    }
}

fn frame_at(seconds: f64, amplitude: f64, waveform: &Waveform) -> RenderFrame {
    RenderFrame {
        start_index: start_index(seconds, waveform),
        amplitude: fixed_amplitude(amplitude),
        first_label_secs: 0,
        label_offset_pixels: 0,
    }
}

fn default_frame(waveform: &Waveform) -> RenderFrame {
    frame_at(0.0, 1.0, waveform)
}

#[test]
fn formats_time_axis_labels() {
    assert_eq!(seconds_to_string(5), "00:05");
    assert_eq!(seconds_to_string(125), "02:05");
    assert_eq!(seconds_to_string(3_665), "01:01:05");
    assert_eq!(round_up_to_nearest(0.0_f64.ceil() as i32, 5), 0);
    assert_eq!(round_up_to_nearest(0.1_f64.ceil() as i32, 5), 5);
    assert_eq!(round_up_to_nearest(12.3_f64.ceil() as i32, 10), 20);
}

#[test]
fn one_glyph_uses_a_thin_stem() {
    assert_eq!(glyph_bitmap('1'), [0x08, 0x18, 0x08, 0x08, 0x08, 0x08, 0x08, 0x08, 0x08, 0x1C]);
}

#[test]
fn glyph_fallback_and_metrics_are_stable() {
    assert_eq!(glyph_bitmap('?'), [0x00; LABEL_FONT_HEIGHT as usize]);
}

#[test]
fn validates_render_options_and_waveform_state() {
    let waveform = sample_waveform();

    let error = render_waveform(&waveform, &RenderOptions { width: 0, ..RenderOptions::default() }, &default_frame(&waveform))
        .expect_err("invalid width");
    assert_eq!(error.to_string(), "Invalid image width: minimum 1");

    let error = render_waveform(&waveform, &RenderOptions { height: 0, ..RenderOptions::default() }, &default_frame(&waveform))
        .expect_err("invalid height");
    assert_eq!(error.to_string(), "Invalid image height: minimum 1");

    let error = render_waveform(&waveform, &RenderOptions::default(), &frame_at(-0.1, 1.0, &waveform))
        .expect_err("invalid start time");
    assert_eq!(error.to_string(), "Invalid start time: minimum 0");

    let error = render_waveform(&waveform, &RenderOptions::default(), &frame_at(f64::INFINITY, 1.0, &waveform))
        .expect_err("non-finite start time");
    assert_eq!(error.to_string(), "Invalid start time: minimum 0");

    let empty = Waveform::new(48_000, 64, 1).expect("empty waveform");
    let error = render_waveform(&empty, &RenderOptions::default(), &default_frame(&empty)).expect_err("empty waveform");
    assert_eq!(error.to_string(), "Empty waveform buffer");
}

#[test]
fn validates_bar_rendering_and_amplitude_ranges() {
    let waveform = sample_waveform();

    let error = render_waveform(
        &waveform,
        &RenderOptions {
            style: RenderStyle::Bars { width: 0, gap: 4, style: BarStyle::Square },
            ..RenderOptions::default()
        },
        &default_frame(&waveform),
    )
    .expect_err("invalid bar width");
    assert_eq!(error.to_string(), "Invalid bar width: minimum 1");

    let error = render_waveform(&waveform, &RenderOptions::default(), &frame_at(0.0, -1.0, &waveform))
        .expect_err("negative amplitude scale");
    assert_eq!(error.to_string(), "Invalid amplitude scale: must be a positive number");

    let error = render_waveform(&waveform, &RenderOptions::default(), &frame_at(0.0, f64::NAN, &waveform))
        .expect_err("non-finite amplitude scale");
    assert_eq!(error.to_string(), "Invalid amplitude scale: must be a positive number");
}

#[test]
fn renders_an_image_with_expected_dimensions() {
    let waveform = sample_waveform();
    let image = render_waveform(
        &waveform,
        &RenderOptions { width: 32, height: 20, colors: WaveformColors::default(), ..RenderOptions::default() },
        &default_frame(&waveform),
    )
    .expect("render image");

    assert_eq!((image.width(), image.height()), (32, 20));
}

#[test]
fn draws_each_point_as_a_vertical_line() {
    let waveform = sample_waveform();
    let options = RenderOptions { width: 32, height: 20, axis_labels: false, ..RenderOptions::default() };
    let image = render_waveform(&waveform, &options, &default_frame(&waveform)).expect("render");
    let line = Color::opaque(63, 77, 155);
    let background = Color::opaque(214, 214, 214);
    for y in 0..20 {
        let expected = if (4..=14).contains(&y) { line } else { background };
        assert_eq!(image.pixel(0, y), expected, "row {y}");
        assert_eq!(image.pixel(1, y), background, "row {y}");
    }
}

#[test]
fn draws_the_border_with_axis_labels() {
    let waveform = sample_waveform();
    let options = RenderOptions { width: 32, height: 30, ..RenderOptions::default() };
    let image = render_waveform(&waveform, &options, &default_frame(&waveform)).expect("render");
    let border = Color::opaque(0, 0, 0);
    assert_eq!(image.pixel(0, 0), border);
    assert_eq!(image.pixel(31, 29), border);
    assert_eq!(image.pixel(15, 0), border);
    assert_eq!(image.pixel(31, 15), border);
    assert_eq!(image.pixel(20, 15), Color::opaque(214, 214, 214));
}

#[test]
fn draws_bars_with_their_width() {
    let mut waveform = Waveform::new(48_000, 64, 1).expect("waveform");
    for _ in 0..8 {
        waveform.push_frame(&[WaveformPoint { min: -16_384, max: 16_384 }]).expect("push");
    }
    let options = RenderOptions {
        width: 8,
        height: 20,
        axis_labels: false,
        style: RenderStyle::Bars { width: 2, gap: 2, style: BarStyle::Square },
        ..RenderOptions::default()
    };
    let image = render_waveform(&waveform, &options, &default_frame(&waveform)).expect("render");
    let bar = Color::opaque(63, 77, 155);
    let background = Color::opaque(214, 214, 214);
    assert_eq!(image.pixel(0, 10), bar);
    assert_eq!(image.pixel(1, 10), bar);
    assert_eq!(image.pixel(2, 10), background);
    assert_eq!(image.pixel(3, 10), background);
    assert_eq!(image.pixel(4, 10), bar);
}

#[test]
fn measures_bar_heights() {
    let mut waveform = Waveform::new(48_000, 64, 1).expect("waveform");
    waveform.push_frame(&[WaveformPoint { min: -100, max: 50 }]).expect("push");
    waveform.push_frame(&[WaveformPoint { min: i16::MIN, max: 10 }]).expect("push");
    assert_eq!(get_bar_height(&waveform, 0, 0, 1), 100);
    assert_eq!(get_bar_height(&waveform, 0, 0, 2), 32_767);
    assert_eq!(get_bar_height(&waveform, 0, 2, 4), 0);
}

#[test]
fn chooses_label_intervals_of_at_least_sixty_pixels() {
    assert_eq!(axis_label_scale(48_000, 64), 1);
    assert_eq!(axis_label_scale(16_000, 16_000), 60);
    assert_eq!(axis_label_scale(16_000, 4_000), 20);
}

#[test]
fn measures_label_text() {
    assert_eq!(text_width(""), 0);
    assert_eq!(text_width("00:05"), 34);
    assert_eq!(seconds_to_string(0), "00:00");
    assert_eq!(seconds_to_string(36_000), "10:00:00");
}

#[test]
fn maps_png_compression_levels() {
    assert_eq!(png_compression(None), PngCompression::Default);
    assert_eq!(png_compression(Some(0)), PngCompression::Fast);
    assert_eq!(png_compression(Some(3)), PngCompression::Fast);
    assert_eq!(png_compression(Some(5)), PngCompression::Default);
    assert_eq!(png_compression(Some(9)), PngCompression::Best);
}

#[test]
fn writes_a_png_of_the_rendered_canvas() {
    let waveform = sample_waveform();
    let options = RenderOptions { width: 16, height: 12, axis_labels: false, ..RenderOptions::default() };
    let mut bytes = Vec::new();
    write_waveform_png(&waveform, &options, &default_frame(&waveform), &mut bytes).expect("png");
    assert_eq!(&bytes[..8], &[0x89, b'P', b'N', b'G', 0x0d, 0x0a, 0x1a, 0x0a]);

    let decoder = png::Decoder::new(std::io::Cursor::new(bytes));
    let mut reader = decoder.read_info().expect("png header");
    let mut pixels = vec![0; reader.output_buffer_size().expect("size")];
    let info = reader.next_frame(&mut pixels).expect("png frame");
    assert_eq!((info.width, info.height), (16, 12));
    let image = render_waveform(&waveform, &options, &default_frame(&waveform)).expect("render");
    assert_eq!(&pixels[..info.buffer_size()], image.into_raw().as_slice());
}

#[test]
fn png_writing_reports_render_errors_and_leaves_the_output_alone() {
    let waveform = sample_waveform();
    let mut bytes = vec![1, 2, 3];
    let error = write_waveform_png(
        &waveform,
        &RenderOptions { width: 0, ..RenderOptions::default() },
        &default_frame(&waveform),
        &mut bytes,
    )
    .expect_err("invalid width");
    assert_eq!(error.to_string(), "Invalid image width: minimum 1");
    assert_eq!(bytes, vec![1, 2, 3]);
}

#[test]
fn identity_amplitude_leaves_points_unchanged() {
    let waveform = sample_waveform();
    let scaled = waveform.apply_amplitude_table(&identity_table());
    assert_eq!(scaled.interleaved_samples(), waveform.interleaved_samples());
}
