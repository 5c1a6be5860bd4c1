use audiowaveform::render::{axis_label_scale, round_up_to_nearest};
use audiowaveform::{
    render_waveform, BarStyle, Canvas, Color, ColorScheme, RenderFrame, RenderOptions, RenderStyle, ScaleSpec,
    Waveform, WaveformColors, WaveformPoint,
};

/// How a render's start time and amplitude scale are given.
#[derive(Clone, Copy)]
enum Amplitude {
    Fixed(f64),
    Auto,
}

fn table(multiplier: f64) -> Vec<i16> {
    (i16::MIN..=i16::MAX)
        .map(|v| (f64::from(v) * multiplier).clamp(f64::from(i16::MIN), f64::from(i16::MAX)) as i16)
        .collect()
}

/// The frame of a render starting at `start_time` seconds.
fn frame(waveform: &Waveform, options: &RenderOptions, start_time: f64, amplitude: Amplitude) -> RenderFrame {
    let start = (start_time * waveform.sample_rate() as f64 / waveform.samples_per_pixel() as f64) as usize;
    let multiplier = match amplitude {
        Amplitude::Fixed(value) => value,
        Amplitude::Auto => {
            let end = (start + options.width as usize).min(waveform.len());
            let (low, high) = waveform.amplitude_range(start, end).expect("range");
            let high_scale = if high == 0 { 1.0 } else { 32767.0 / f64::from(high) };
            let low_scale = if low == 0 { 1.0 } else { 32767.0 / f64::from(low) };
            high_scale.min(low_scale).abs()
        }
    };
    let interval = axis_label_scale(waveform.sample_rate(), waveform.samples_per_pixel());
    let first = round_up_to_nearest(start_time.ceil() as i32, interval);
    let offset = (((first as f64 - start_time) * waveform.sample_rate() as f64) as usize
        / waveform.samples_per_pixel() as usize) as i32;
    RenderFrame {
        start_index: Some(start),
        amplitude: Some(table(multiplier)),
        first_label_secs: first,
        label_offset_pixels: offset,
    }
}

fn render(waveform: &Waveform, options: &RenderOptions, start_time: f64, amplitude: Amplitude) -> Canvas {
    render_waveform(waveform, options, &frame(waveform, options, start_time, amplitude)).expect("render image")
}

/// A mono waveform at 128 samples per pixel whose point `i` reaches
/// `(i % 100) * 100` either way.
fn ramp_waveform(channels: u16) -> Waveform {
    let mut waveform = Waveform::new(16_000, 64, channels).expect("waveform");
    for i in 0..2_000 {
        let level = ((i / 2) % 100) as i16 * 100;
        let points: Vec<WaveformPoint> = (0..channels)
            .map(|c| WaveformPoint { min: -level - c as i16, max: level + c as i16 })
            .collect();
        waveform.push_frame(&points).expect("push frame");
    }
    waveform.resample(ScaleSpec::SamplesPerPixel(128)).expect("resample waveform")
}

/// A mono waveform whose points all reach half the full scale.
fn flat_waveform(channels: u16) -> Waveform {
    let mut waveform = Waveform::new(16_000, 128, channels).expect("waveform");
    for _ in 0..1_000 {
        let points: Vec<WaveformPoint> =
            (0..channels).map(|_| WaveformPoint { min: -16_384, max: 16_384 }).collect();
        waveform.push_frame(&points).expect("push frame");
    }
    waveform
}

const BLUE: Color = Color { red: 63, green: 77, blue: 155, alpha: 255 };
const GREY: Color = Color { red: 214, green: 214, blue: 214, alpha: 255 };
const BLACK: Color = Color { red: 0, green: 0, blue: 0, alpha: 255 };

#[test]
fn renders_default_waveform_image_fixture() {
    let waveform = flat_waveform(1);
    let image = render(&waveform, &RenderOptions::default(), 0.0, Amplitude::Fixed(1.0));
    assert_eq!((image.width(), image.height()), (800, 250));
    assert_eq!(image.pixel(0, 0), BLACK);
    assert_eq!(image.pixel(799, 249), BLACK);
    for y in 1..249 {
        let expected = if (62..=186).contains(&y) { BLUE } else { GREY };
        assert_eq!(image.pixel(400, y), expected, "row {y}");
    }
    // Labels every second (125 pixels): markers at both edges and the text of "00:01".
    assert_eq!(image.pixel(125, 5), BLACK);
    assert_eq!(image.pixel(125, 244), BLACK);
    assert_eq!(image.pixel(126, 5), GREY);
    let label = (109..143).flat_map(|x| (228..238).map(move |y| (x, y)));
    assert!(label.clone().any(|(x, y)| image.pixel(x, y) == BLACK));
    assert!(label.clone().any(|(x, y)| image.pixel(x, y) == GREY));
}

#[test]
fn renders_waveform_images_with_custom_render_options() {
    let flat = flat_waveform(1);

    let no_labels =
        render(&flat, &RenderOptions { axis_labels: false, ..RenderOptions::default() }, 0.0, Amplitude::Fixed(1.0));
    assert_eq!(no_labels.pixel(0, 0), GREY);
    assert_eq!(no_labels.pixel(400, 62), BLUE);
    assert_eq!(no_labels.pixel(400, 187), BLUE);
    assert_eq!(no_labels.pixel(400, 188), GREY);

    let scaled = render(&flat, &RenderOptions::default(), 0.0, Amplitude::Fixed(1.5));
    assert_eq!(scaled.pixel(400, 31), BLUE);
    assert_eq!(scaled.pixel(400, 30), GREY);

    let auto = render(&flat, &RenderOptions::default(), 0.0, Amplitude::Auto);
    assert_eq!(auto.pixel(400, 1), BLUE);
    assert_eq!(auto.pixel(400, 248), BLUE);

    let ramp = ramp_waveform(1);
    let plain = render(&ramp, &RenderOptions::default(), 0.0, Amplitude::Fixed(1.0));
    let offset = render(&ramp, &RenderOptions::default(), 0.5, Amplitude::Fixed(1.0));
    for x in 1..700 {
        for y in (20..200).step_by(7) {
            assert_eq!(offset.pixel(x, y), plain.pixel(x + 62, y), "({x}, {y})");
        }
    }

    let bars = RenderStyle::Bars { width: 8, gap: 4, style: BarStyle::Square };
    let square = render(&flat, &RenderOptions { style: bars, ..RenderOptions::default() }, 0.0, Amplitude::Fixed(1.0));
    assert_eq!(square.pixel(1, 62), BLUE);
    assert_eq!(square.pixel(7, 62), BLUE);
    assert_eq!(square.pixel(8, 100), GREY);
    assert_eq!(square.pixel(11, 100), GREY);
    assert_eq!(square.pixel(12, 62), BLUE);

    let rounded_style = RenderStyle::Bars { width: 8, gap: 4, style: BarStyle::Rounded };
    let rounded =
        render(&flat, &RenderOptions { style: rounded_style, ..RenderOptions::default() }, 0.0, Amplitude::Fixed(1.0));
    assert_eq!(rounded.pixel(12, 62), GREY);
    assert_eq!(rounded.pixel(14, 62), BLUE);
    assert_eq!(rounded.pixel(12, 100), BLUE);

    let square_offset =
        render(&flat, &RenderOptions { style: bars, ..RenderOptions::default() }, 0.5, Amplitude::Fixed(1.0));
    assert_eq!(square_offset.pixel(5, 100), BLUE);
    assert_eq!(square_offset.pixel(6, 100), GREY);
    assert_eq!(square_offset.pixel(9, 100), GREY);
    assert_eq!(square_offset.pixel(10, 100), BLUE);

    let two = flat_waveform(2);
    let stacked = render(&two, &RenderOptions::default(), 0.0, Amplitude::Fixed(1.0));
    // Channel 0 takes rows 1..=125 and channel 1 rows 126..=248.
    assert_eq!(stacked.pixel(400, 63), BLUE);
    assert_eq!(stacked.pixel(400, 30), GREY);
    assert_eq!(stacked.pixel(400, 187), BLUE);
    assert_eq!(stacked.pixel(400, 150), GREY);

    let stacked_bars =
        render(&two, &RenderOptions { style: bars, ..RenderOptions::default() }, 0.0, Amplitude::Fixed(1.0));
    assert_eq!(stacked_bars.pixel(3, 63), BLUE);
    assert_eq!(stacked_bars.pixel(9, 63), GREY);
    assert_eq!(stacked_bars.pixel(3, 187), BLUE);
}

#[test]
fn renders_waveforms_with_custom_colors() {
    let waveform = flat_waveform(1);
    let audition = render(
        &waveform,
        &RenderOptions { colors: ColorScheme::Audition.palette(), ..RenderOptions::default() },
        0.0,
        Amplitude::Fixed(1.0),
    );
    assert_eq!(audition.pixel(0, 0), Color::opaque(157, 157, 157));
    assert_eq!(audition.pixel(400, 30), Color::opaque(0, 63, 34));
    assert_eq!(audition.pixel(400, 100), Color::opaque(134, 252, 199));

    let custom = render(
        &waveform,
        &RenderOptions {
            colors: WaveformColors {
                border: Color::opaque(255, 0, 0),
                background: Color::rgba(0, 255, 0, 128),
                waveform: vec![Color::opaque(0, 0, 255)],
                axis_label: Color::opaque(255, 255, 255),
            },
            ..RenderOptions::default()
        },
        0.0,
        Amplitude::Fixed(1.0),
    );
    assert_eq!(custom.pixel(0, 0), Color::opaque(255, 0, 0));
    assert_eq!(custom.pixel(400, 30), Color::rgba(0, 255, 0, 128));
    assert_eq!(custom.pixel(400, 100), Color::opaque(0, 0, 255));
    let label = (109..143).flat_map(|x| (228..238).map(move |y| (x, y)));
    assert!(label.clone().any(|(x, y)| custom.pixel(x, y) == Color::opaque(255, 255, 255)));
}

#[test]
fn renders_reference_images_for_amplitude_scale_fixtures() {
    let single = ramp_waveform(1).resample(ScaleSpec::SamplesPerPixel(128)).expect("resample single");
    let single_image = render(&single, &RenderOptions::default(), 0.0, Amplitude::Fixed(1.0));
    assert_eq!((single_image.width(), single_image.height()), (800, 250));
    assert_eq!(single_image.pixel(0, 124), BLUE);

    let dual = ramp_waveform(2).resample(ScaleSpec::SamplesPerPixel(128)).expect("resample dual");
    let dual_image = render(&dual, &RenderOptions::default(), 0.0, Amplitude::Fixed(1.0));
    assert_eq!((dual_image.width(), dual_image.height()), (800, 250));
    assert_eq!(dual_image.pixel(0, 63), BLUE);
    assert_eq!(dual_image.pixel(0, 187), BLUE);
}
