//! Rasterising waveforms onto a canvas: the time-axis labels, the waveform
//! itself as lines or bars, and the PNG settings of the result.
use vstd::prelude::*;

use crate::canvas::{
    blank, hline, lemma_painted_agree, lemma_painted_twice, rect, rounded_rect_shape, union, vline,
    Canvas, CanvasView, Shape,
};
use crate::color::{Color, WaveformColors};
use crate::error::{is_invalid_argument, Error};
use crate::font::{draw_text, text_shape, text_width, text_width_of};
use crate::text::{decimal_string, decimal_text, digits, lemma_digits_short, pow10};
use crate::waveform::{max_int, min_int, range_max, range_min, table_sample, Waveform, WaveformView};

verus! {

/// Integer division rounding toward zero, as Rust's `/` on signed integers.
pub open spec fn tdiv(a: int, b: int) -> int {
    let q = (if a >= 0 { a } else { -a }) / (if b >= 0 { b } else { -b });
    if (a >= 0) == (b >= 0) || q == 0 {
        q
    } else {
        -q
    }
}

fn trunc_divide(a: i64, b: i64) -> (r: i64)
    requires
        b != 0,
        -0x4000_0000_0000_0000 <= a <= 0x4000_0000_0000_0000,
        -0x4000_0000_0000_0000 <= b <= 0x4000_0000_0000_0000,
    ensures
        r == tdiv(a as int, b as int),
        -0x4000_0000_0000_0000 <= r <= 0x4000_0000_0000_0000,
{
    let ma = if a >= 0 { a } else { -a };
    let mb = if b >= 0 { b } else { -b };
    let q = ma / mb;
    proof {
        vstd::arithmetic::div_mod::lemma_div_is_ordered_by_denominator(ma as int, 1, mb as int);
    }
    if (a >= 0) == (b >= 0) || q == 0 {
        q
    } else {
        -q
    }
}

/// A number written with at least two digits, as `{:02}` writes it.
pub open spec fn pad2(n: int) -> Seq<char> {
    if 0 <= n < 10 {
        seq!['0'] + decimal_text(n)
    } else {
        decimal_text(n)
    }
}

/// The text of a time-axis label for `s` seconds: `MM:SS`, or `HH:MM:SS`
/// from one hour on.
pub open spec fn seconds_text(s: int) -> Seq<char> {
    let hours = tdiv(s, 3600);
    let minutes = tdiv(s - 3600 * hours, 60);
    let seconds = s - 60 * tdiv(s, 60);
    if hours > 0 {
        pad2(hours) + seq![':'] + pad2(minutes) + seq![':'] + pad2(seconds)
    } else {
        pad2(minutes) + seq![':'] + pad2(seconds)
    }
}

fn pad2_string(n: i64) -> (r: String)
    requires
        -0x1_0000_0000 <= n <= 0x1_0000_0000,
    ensures
        r@ == pad2(n as int),
        r@.len() <= 12,
{
    let digits_text = decimal_string(n);
    proof {
        let m: nat = if n >= 0 { n as nat } else { (-n) as nat };
        reveal_with_fuel(pow10, 12);
        assert(pow10(11) == 100000000000);
        lemma_digits_short(m, 11);
    }
    if 0 <= n && n < 10 {
        proof {
            reveal_strlit("0");
        }
        let mut out = String::from_str("0");
        out.append(digits_text.as_str());
        out
    } else {
        digits_text
    }
}

/// Formats `seconds` as a time-axis label.
pub fn seconds_to_string(seconds: i32) -> (r: String)
    ensures
        r@ == seconds_text(seconds as int),
        r@.len() <= 40,
{
    let v = seconds as i64;
    let hours: i64;
    let minutes: i64;
    let secs: i64;
    if v >= 0 {
        hours = v / 3600;
        minutes = (v % 3600) / 60;
        secs = v % 60;
    } else {
        let u = -v;
        hours = -(u / 3600);
        minutes = -((u % 3600) / 60);
        secs = -(u % 60);
    }
    assert(hours == tdiv(v as int, 3600));
    assert(minutes == tdiv(v - 3600 * hours, 60));
    assert(secs == v - 60 * tdiv(v as int, 60));
    proof {
        reveal_strlit(":");
    }
    if hours > 0 {
        let mut out = pad2_string(hours);
        out.append(":");
        let m = pad2_string(minutes);
        out.append(m.as_str());
        out.append(":");
        let s = pad2_string(secs);
        out.append(s.as_str());
        out
    } else {
        let mut out = pad2_string(minutes);
        out.append(":");
        let s = pad2_string(secs);
        out.append(s.as_str());
        out
    }
}

/// `value` rounded up to a multiple of `multiple`, toward zero as Rust's
/// integer division rounds; `0` for a zero multiple.
pub open spec fn rounded_up(value: int, multiple: int) -> int {
    if multiple == 0 {
        0
    } else {
        tdiv(value + multiple - 1, multiple) * multiple
    }
}

/// Rounds a whole number of seconds, already rounded up from the start time,
/// up to the next multiple of `multiple`.
pub fn round_up_to_nearest(value: i32, multiple: i32) -> (r: i32)
    requires
        i32::MIN <= value + multiple - 1 <= i32::MAX,
    ensures
        r == rounded_up(value as int, multiple as int),
{
    if multiple == 0 {
        return 0;
    }
    let a = value as i64 + multiple as i64 - 1;
    let q = trunc_divide(a, multiple as i64);
    proof {
        let ma: int = if a >= 0 { a as int } else { -a };
        let mb: int = if multiple >= 0 { multiple as int } else { -multiple };
        let mq = ma / mb;
        assert(0 <= mq * mb <= ma) by (nonlinear_arith)
            requires
                mb > 0,
                ma >= 0,
                mq == ma / mb,
        ;
        if (a >= 0) == (multiple >= 0) || mq == 0 {
            assert(q == mq);
        } else {
            assert(q == -mq);
        }
        if a >= 0 && multiple > 0 {
            assert(q * multiple == mq * mb);
        } else if a >= 0 {
            assert(q * multiple == mq * mb) by (nonlinear_arith)
                requires
                    q == -mq || mq == 0,
                    q == mq || q == -mq,
                    multiple == -mb,
            ;
        } else if multiple > 0 {
            assert(q * multiple == -(mq * mb)) by (nonlinear_arith)
                requires
                    q == -mq || mq == 0,
                    q == mq || q == -mq,
                    multiple == mb,
            ;
        } else {
            assert(q * multiple == -(mq * mb)) by (nonlinear_arith)
                requires
                    q == mq,
                    multiple == -mb,
            ;
        }
    }
    (q * multiple as i64) as i32
}

/// The number of pixels that `secs` seconds span.
pub open spec fn label_pixels(secs: int, sample_rate: int, samples_per_pixel: int) -> int {
    secs * sample_rate / samples_per_pixel
}

/// Sixty to the power `k`.
pub open spec fn pow60(k: nat) -> int
    decreases k,
{
    if k == 0 {
        1
    } else {
        60 * pow60((k - 1) as nat)
    }
}

/// The `i`-th step of a decade of label intervals.
pub open spec fn label_step(i: int) -> int {
    if i == 0 {
        1
    } else if i == 1 {
        2
    } else if i == 2 {
        5
    } else if i == 3 {
        10
    } else if i == 4 {
        20
    } else {
        30
    }
}

/// The `n`-th candidate label interval, in seconds: 1, 2, 5, 10, 20, 30,
/// then the same times 60, and so on.
pub open spec fn label_candidate(n: nat) -> int {
    pow60(n / 6) * label_step((n % 6) as int)
}

/// The first candidate interval from the `n`-th on that spans at least 60
/// pixels (the 31st candidate being the last one that fits in `i32`).
pub open spec fn label_interval_from(sample_rate: int, samples_per_pixel: int, n: nat) -> int
    decreases 31 - n,
{
    if n >= 31 || label_pixels(label_candidate(n), sample_rate, samples_per_pixel) >= 60 {
        label_candidate(n)
    } else {
        label_interval_from(sample_rate, samples_per_pixel, n + 1)
    }
}

/// The interval between two time-axis labels, in seconds.
pub open spec fn label_interval(sample_rate: u32, samples_per_pixel: u32) -> int {
    label_interval_from(sample_rate as int, samples_per_pixel as int, 0)
}

/// A label interval that spans 60 pixels is found before the candidates
/// overflow `i32`.
pub open spec fn label_interval_exists(sample_rate: u32, samples_per_pixel: u32) -> bool {
    label_pixels(1555200000, sample_rate as int, samples_per_pixel as int) >= 60
}

proof fn lemma_candidate_bound(n: nat)
    requires
        n <= 31,
    ensures
        1 <= label_candidate(n) <= 1555200000,
        n == 31 ==> label_candidate(n) == 1555200000,
        1 <= pow60(n / 6) <= 777600000,
{
    reveal_with_fuel(pow60, 7);
    assert(pow60(5) == 777600000);
    let k = n / 6;
    assert(k <= 5);
    if k == 5 {
        assert(n % 6 <= 1);
    }
    assert(pow60(4) == 12960000);
    assert(1 <= pow60(k) <= 777600000) by {
        if k == 0 {
        } else if k == 1 {
        } else if k == 2 {
        } else if k == 3 {
        } else if k == 4 {
        } else {
        }
    }
    assert(k < 5 ==> pow60(k) <= 12960000) by {
        if k == 0 {
        } else if k == 1 {
        } else if k == 2 {
        } else if k == 3 {
        } else {
        }
    }
    let p = pow60(k);
    let st = label_step((n % 6) as int);
    assert(1 <= st <= 30);
    assert(k == 5 ==> st <= 2);
    assert(1 <= p * st <= 1555200000) by (nonlinear_arith)
        requires
            1 <= p <= 777600000,
            1 <= st <= 30,
            k < 5 ==> p <= 12960000,
            k == 5 ==> st <= 2,
            k <= 5,
    ;
}

/// Chooses the interval between time-axis labels: the first of 1, 2, 5, 10,
/// 20, 30 seconds, then minutes and hours likewise, that spans 60 pixels.
pub fn axis_label_scale(sample_rate: u32, samples_per_pixel: u32) -> (r: i32)
    requires
        samples_per_pixel > 0,
        label_interval_exists(sample_rate, samples_per_pixel),
    ensures
        r == label_interval(sample_rate, samples_per_pixel),
        1 <= r <= 1555200000,
        label_pixels(r as int, sample_rate as int, samples_per_pixel as int) >= 60,
{
    let steps: [i64; 6] = [1, 2, 5, 10, 20, 30];
    let mut base: i64 = 1;
    let mut index: usize = 0;
    let ghost mut n: nat = 0;
    proof {
        lemma_candidate_bound(31);
    }
    loop
        invariant
            samples_per_pixel > 0,
            label_interval_exists(sample_rate, samples_per_pixel),
            steps@ == seq![1i64, 2, 5, 10, 20, 30],
            n <= 31,
            base == pow60(n / 6),
            index == n % 6,
            label_interval(sample_rate, samples_per_pixel) == label_interval_from(
                sample_rate as int,
                samples_per_pixel as int,
                n,
            ),
        decreases 31 - n,
    {
        proof {
            lemma_candidate_bound(n);
            assert(label_step(index as int) == steps@[index as int]);
        }
        let secs = base * steps[index];
        assert(secs == label_candidate(n));
        assert(secs * sample_rate <= 1555200000 * 0xffff_ffff) by (nonlinear_arith)
            requires
                1 <= secs <= 1555200000,
                sample_rate <= 0xffff_ffff,
        ;
        let pixels = (secs as u64 * sample_rate as u64) / samples_per_pixel as u64;
        if pixels >= 60 {
            return secs as i32;
        }
        proof {
            if n == 31 {
                assert(label_candidate(31) == 1555200000);
            }
        }
        index = index + 1;
        if index == 6 {
            base = base * 60;
            index = 0;
        }
        proof {
            n = n + 1;
        }
    }
}

/// `|v|` limited to the 16-bit range.
pub open spec fn magnitude(v: int) -> int {
    let a = if v < 0 { -v } else { v };
    if a > 32767 {
        32767
    } else {
        a
    }
}

/// The height of the bar over points `start..start + width` of `channel`:
/// the largest magnitude among their extremes, `0` past the end.
pub open spec fn bar_height(v: WaveformView, channel: int, start: int, width: int) -> int {
    if start >= v.len() {
        0
    } else {
        let hi = min_int(start + width, v.len() as int);
        max_int(
            magnitude(range_min(v, channel, start, hi) as int),
            magnitude(range_max(v, channel, start, hi) as int),
        )
    }
}

/// Returns the bar height of `width` points of `channel` from `start`.
pub fn get_bar_height(waveform: &Waveform, channel: u16, start: usize, width: usize) -> (r: i32)
    requires
        waveform.wf(),
        start < waveform@.len() ==> channel < waveform@.channels && width >= 1,
    ensures
        r == bar_height(waveform@, channel as int, start as int, width as int),
        0 <= r <= 32767,
{
    let len = waveform.len();
    if start >= len {
        return 0;
    }
    let end = if width > len - start { len } else { start + width };
    let mut low: i16 = i16::MAX;
    let mut high: i16 = i16::MIN;
    let mut index = start;
    while index < end
        invariant
            waveform.wf(),
            len == waveform@.len(),
            channel < waveform@.channels,
            start <= index <= end <= len,
            low == range_min(waveform@, channel as int, start as int, index as int),
            high == range_max(waveform@, channel as int, start as int, index as int),
        decreases end - index,
    {
        let point = waveform.point(channel, index);
        match point {
            Some(p) => {
                if p.min < low {
                    low = p.min;
                }
                if p.max > high {
                    high = p.max;
                }
            },
            None => {},
        }
        index = index + 1;
    }
    let low_abs: i32 = if low < 0 { -(low as i32) } else { low as i32 };
    let high_abs: i32 = if high < 0 { -(high as i32) } else { high as i32 };
    let low_c = if low_abs > 32767 { 32767 } else { low_abs };
    let high_c = if high_abs > 32767 { 32767 } else { high_abs };
    if low_c > high_c {
        low_c
    } else {
        high_c
    }
}

/// The PNG compression settings a level selects.
#[derive(Clone, Copy, Debug, PartialEq, Eq, Structural)]
pub enum PngCompression {
    /// Fast, light compression.
    Fast,
    /// The encoder's default compression.
    Default,
    /// The strongest compression.
    Best,
}

/// The compression a PNG compression level from `0` to `9` selects.
pub open spec fn compression_of(level: Option<u8>) -> PngCompression {
    match level {
        Some(l) => if l <= 3 {
            PngCompression::Fast
        } else if 7 <= l <= 9 {
            PngCompression::Best
        } else {
            PngCompression::Default
        },
        None => PngCompression::Default,
    }
}

/// Maps a PNG compression level to the encoder's compression setting:
/// `0`-`3` fast, `7`-`9` best, anything else the default.
pub fn png_compression(level: Option<u8>) -> (r: PngCompression)
    ensures
        r == compression_of(level),
{
    match level {
        Some(l) => {
            if l <= 3 {
                PngCompression::Fast
            } else if 7 <= l && l <= 9 {
                PngCompression::Best
            } else {
                PngCompression::Default
            }
        },
        None => PngCompression::Default,
    }
}

/// Available waveform bar styles.
#[derive(Clone, Copy, Debug, PartialEq, Eq, Structural)]
pub enum BarStyle {
    /// Square-ended bars.
    Square,
    /// Rounded bars.
    Rounded,
}

/// Waveform rendering style.
#[derive(Clone, Copy, Debug, PartialEq, Eq, Structural)]
pub enum RenderStyle {
    /// Draw each waveform point as a vertical line.
    Normal,
    /// Draw waveform points as grouped bars.
    Bars {
        /// Width of each bar in pixels.
        width: u32,
        /// Gap between bars in pixels.
        gap: u32,
        /// Bar end-cap style.
        style: BarStyle,
    },
}

/// Options controlling waveform rendering.
#[derive(Debug)]
pub struct RenderOptions {
    /// Output image width in pixels.
    pub width: u32,
    /// Output image height in pixels.
    pub height: u32,
    /// Whether to render the border and the time-axis labels.
    pub axis_labels: bool,
    /// Drawing style.
    pub style: RenderStyle,
    /// Render palette.
    pub colors: WaveformColors,
    /// Optional PNG compression level from `0` to `9`.
    pub png_compression_level: Option<u8>,
}

impl Default for RenderOptions {
    fn default() -> (r: RenderOptions)
        ensures
            r.width == 800,
            r.height == 250,
            r.axis_labels,
            r.style == RenderStyle::Normal,
            crate::color::is_audacity(r.colors),
            r.png_compression_level is None,
    {
        RenderOptions {
            width: 800,
            height: 250,
            axis_labels: true,
            style: RenderStyle::Normal,
            colors: WaveformColors::default(),
            png_compression_level: None,
        }
    }
}

/// Where and how a render starts, once its time and amplitude settings are
/// evaluated: the first point drawn, the sample transfer table of the
/// amplitude scale, and the place of the first time-axis label.
#[derive(Debug)]
pub struct RenderFrame {
    /// Index of the waveform point drawn at `x = 0`; `None` when the start
    /// time is negative or not finite.
    pub start_index: Option<usize>,
    /// The scaled value of every sample `s`, at index `s + 32768`; `None`
    /// when the amplitude scale is invalid.
    pub amplitude: Option<Vec<i16>>,
    /// Seconds shown by the first time-axis label.
    pub first_label_secs: i32,
    /// Pixel column of the first time-axis label.
    pub label_offset_pixels: i32,
}

/// First row of the plot area.
pub open spec fn plot_top(o: RenderOptions) -> int {
    if o.axis_labels {
        1
    } else {
        0
    }
}

/// Number of rows of the plot area (negative when the border leaves none).
pub open spec fn plot_rows(o: RenderOptions) -> int {
    if o.axis_labels {
        o.height - 2
    } else {
        o.height as int
    }
}

/// Rows given to each channel but the last, less the separating row.
pub open spec fn row_height(o: RenderOptions, channels: int) -> int {
    tdiv(plot_rows(o), channels)
}

/// First row of channel `c`.
pub open spec fn channel_top(o: RenderOptions, channels: int, c: int) -> int {
    plot_top(o) + c * (row_height(o, channels) + 1)
}

/// Height of the rows of channel `c`; the last channel takes what is left.
pub open spec fn channel_height(o: RenderOptions, channels: int, c: int) -> int {
    if c == channels - 1 {
        plot_rows(o) - c * (row_height(o, channels) + 1)
    } else {
        row_height(o, channels) + 1
    }
}

/// The row of a sample level (`0..65536`, bottom to top) in rows `top..top + height`.
pub open spec fn sample_y(top: int, height: int, level: int) -> int {
    top + height - 1 - tdiv(level * height, 65536)
}

/// The level of sample `s` once scaled through `table`.
pub open spec fn level_of(table: Seq<i16>, s: i16) -> int {
    table_sample(table, s) + 32768
}

/// The color of channel `c`; channels wrap around the palette.
pub open spec fn channel_color(o: RenderOptions, c: int) -> Color {
    o.colors.waveform@[c % (o.colors.waveform@.len() as int)]
}

/// Number of points drawn per channel from point `start`.
pub open spec fn points_drawn(v: WaveformView, o: RenderOptions, start: int) -> int {
    if start < v.len() {
        min_int(o.width as int, v.len() - start)
    } else {
        0
    }
}

/// The vertical line drawn for point `start + x` of channel `c`.
pub open spec fn line_shape(v: WaveformView, o: RenderOptions, table: Seq<i16>, start: int, c: int, x: int) -> Shape {
    let p = v.point(c, start + x);
    let top = channel_top(o, v.channels as int, c);
    let height = channel_height(o, v.channels as int, c);
    vline(x, sample_y(top, height, level_of(table, p.max)), sample_y(top, height, level_of(table, p.min)))
}

/// `base` with the first `n` lines of channel `c` drawn.
pub open spec fn channel_lines(
    base: CanvasView,
    v: WaveformView,
    o: RenderOptions,
    table: Seq<i16>,
    start: int,
    c: int,
    n: nat,
) -> CanvasView
    decreases n,
{
    if n == 0 {
        base
    } else {
        channel_lines(base, v, o, table, start, c, (n - 1) as nat).painted(
            line_shape(v, o, table, start, c, n - 1),
            channel_color(o, c),
        )
    }
}

/// `base` with the lines of channels `0..c` drawn.
pub open spec fn waveform_lines(
    base: CanvasView,
    v: WaveformView,
    o: RenderOptions,
    table: Seq<i16>,
    start: int,
    c: nat,
) -> CanvasView
    decreases c,
{
    if c == 0 {
        base
    } else {
        channel_lines(
            waveform_lines(base, v, o, table, start, (c - 1) as nat),
            v,
            o,
            table,
            start,
            c - 1,
            points_drawn(v, o, start) as nat,
        )
    }
}

/// The corner radius of rounded bars of width `bw`.
pub open spec fn bar_radius(bw: int) -> int {
    if bw > 4 {
        bw / 4
    } else {
        bw / 2
    }
}

/// The first point of the bar that holds point `start`.
pub open spec fn bar_first(start: int, total: int) -> int {
    (start / total) * total
}

/// The column of the first bar: at or left of the first column.
pub open spec fn bar_offset(start: int, total: int) -> int {
    bar_first(start, total) - start
}

/// Number of bars that start left of the right edge.
pub open spec fn bar_count(o: RenderOptions, start: int, total: int) -> nat {
    ((o.width - bar_offset(start, total) + total - 1) / total) as nat
}

/// `cur` with bar `k` of channel `c` drawn, unless it has no height.
pub open spec fn bar_painted(
    cur: CanvasView,
    v: WaveformView,
    o: RenderOptions,
    table: Seq<i16>,
    start: int,
    bw: int,
    gap: int,
    style: BarStyle,
    c: int,
    k: int,
) -> CanvasView {
    let total = bw + gap;
    let x = bar_offset(start, total) + k * total;
    let bh = bar_height(v, c, bar_first(start, total) + k * total, total);
    let top_row = channel_top(o, v.channels as int, c);
    let height = channel_height(o, v.channels as int, c);
    let top = sample_y(top_row, height, level_of(table, bh as i16));
    let bottom = sample_y(top_row, height, level_of(table, (-bh) as i16));
    if top == bottom {
        cur
    } else if style == BarStyle::Rounded && bw > 2 && height >= 3 {
        cur.painted(rounded_rect_shape(x, top, x + bw - 1, bottom, bar_radius(bw)), channel_color(o, c))
    } else {
        cur.painted(rect(x, top, x + bw - 1, bottom), channel_color(o, c))
    }
}

/// `base` with the first `n` bars of channel `c` drawn.
pub open spec fn channel_bars(
    base: CanvasView,
    v: WaveformView,
    o: RenderOptions,
    table: Seq<i16>,
    start: int,
    bw: int,
    gap: int,
    style: BarStyle,
    c: int,
    n: nat,
) -> CanvasView
    decreases n,
{
    if n == 0 {
        base
    } else {
        bar_painted(
            channel_bars(base, v, o, table, start, bw, gap, style, c, (n - 1) as nat),
            v,
            o,
            table,
            start,
            bw,
            gap,
            style,
            c,
            n - 1,
        )
    }
}

/// `base` with the bars of channels `0..c` drawn.
pub open spec fn waveform_bars(
    base: CanvasView,
    v: WaveformView,
    o: RenderOptions,
    table: Seq<i16>,
    start: int,
    bw: int,
    gap: int,
    style: BarStyle,
    c: nat,
) -> CanvasView
    decreases c,
{
    if c == 0 {
        base
    } else {
        channel_bars(
            waveform_bars(base, v, o, table, start, bw, gap, style, (c - 1) as nat),
            v,
            o,
            table,
            start,
            bw,
            gap,
            style,
            c - 1,
            bar_count(o, start, bw + gap),
        )
    }
}

/// The column of time-axis label `k`.
pub open spec fn label_x(v: WaveformView, interval: int, offset: int, k: int) -> int {
    offset + (k * interval * v.sample_rate) / (v.samples_per_pixel as int)
}

/// The seconds shown by time-axis label `k`.
pub open spec fn label_secs(first: int, interval: int, k: int) -> int {
    first + k * interval
}

/// `cur` with time-axis label `k` drawn: its two markers and, when it fits
/// from the left edge, its text.
pub open spec fn label_painted(
    cur: CanvasView,
    v: WaveformView,
    o: RenderOptions,
    interval: int,
    first: int,
    offset: int,
    k: int,
) -> CanvasView {
    let x = label_x(v, interval, offset, k);
    let h = o.height as int;
    let marked = cur.painted(vline(x, 0, 10), o.colors.border).painted(vline(x, h - 1, h - 11), o.colors.border);
    let text = seconds_text(label_secs(first, interval, k));
    let lx = x - text_width_of(text.len() as int) / 2 + 1;
    if lx >= 0 {
        marked.painted(text_shape(text, lx, h - 22), o.colors.axis_label)
    } else {
        marked
    }
}

/// `base` with time-axis labels `0..n` drawn.
pub open spec fn labels_painted(
    base: CanvasView,
    v: WaveformView,
    o: RenderOptions,
    interval: int,
    first: int,
    offset: int,
    n: nat,
) -> CanvasView
    decreases n,
{
    if n == 0 {
        base
    } else {
        label_painted(labels_painted(base, v, o, interval, first, offset, (n - 1) as nat), v, o, interval, first, offset, n - 1)
    }
}

/// Label `n` is the first one that starts right of the canvas.
pub open spec fn labels_end(v: WaveformView, o: RenderOptions, interval: int, offset: int, n: nat) -> bool {
    &&& label_x(v, interval, offset, n as int) >= o.width
    &&& forall|j: nat| j < n ==> #[trigger] label_x(v, interval, offset, j as int) < o.width
}

/// Number of time-axis labels drawn.
pub open spec fn label_count(v: WaveformView, o: RenderOptions, interval: int, offset: int) -> nat {
    choose|n: nat| labels_end(v, o, interval, offset, n)
}

/// The seconds of every label computed while drawing fit in `i32`.
pub open spec fn label_seconds_fit(v: WaveformView, o: RenderOptions, first: int, offset: int) -> bool {
    let interval = label_interval(v.sample_rate, v.samples_per_pixel);
    forall|k: nat|
        (k == 0 || label_x(v, interval, offset, k - 1) < o.width) ==> #[trigger] label_secs(first, interval, k as int)
            <= i32::MAX
}

/// The border: the outermost rows and columns.
pub open spec fn border_shape(w: int, h: int) -> Shape {
    union(union(union(hline(0, w - 1, 0), hline(0, w - 1, h - 1)), vline(0, 0, h - 1)), vline(w - 1, 0, h - 1))
}

/// The image `render_waveform` draws.
pub open spec fn rendered(
    v: WaveformView,
    o: RenderOptions,
    start: int,
    table: Seq<i16>,
    first: int,
    offset: int,
) -> CanvasView {
    let c0 = blank(o.width, o.height, o.colors.background);
    let c1 = if o.axis_labels {
        c0.painted(border_shape(o.width as int, o.height as int), o.colors.border)
    } else {
        c0
    };
    let c2 = match o.style {
        RenderStyle::Normal => waveform_lines(c1, v, o, table, start, v.channels as nat),
        RenderStyle::Bars { width, gap, style } => waveform_bars(
            c1,
            v,
            o,
            table,
            start,
            width as int,
            gap as int,
            style,
            v.channels as nat,
        ),
    };
    if o.axis_labels {
        let interval = label_interval(v.sample_rate, v.samples_per_pixel);
        labels_painted(c2, v, o, interval, first, offset, label_count(v, o, interval, offset))
    } else {
        c2
    }
}

/// The options and frame pass every check of `render_waveform`.
pub open spec fn render_accepts(v: WaveformView, o: RenderOptions, start: Option<usize>, has_table: bool) -> bool {
    &&& o.width > 0
    &&& o.height > 0
    &&& start is Some
    &&& v.len() > 0
    &&& !(o.style matches RenderStyle::Bars { width, .. } && width == 0)
    &&& has_table
}

/// `e` is the error `render_waveform` reports for options and a frame it refuses.
pub open spec fn render_error(e: Error, v: WaveformView, o: RenderOptions, start: Option<usize>) -> bool {
    if o.width == 0 {
        is_invalid_argument(e, "image width"@, "Invalid image width: minimum 1"@)
    } else if o.height == 0 {
        is_invalid_argument(e, "image height"@, "Invalid image height: minimum 1"@)
    } else if start is None {
        is_invalid_argument(e, "start time"@, "Invalid start time: minimum 0"@)
    } else if v.len() == 0 {
        is_invalid_argument(e, "waveform"@, "Empty waveform buffer"@)
    } else if o.style matches RenderStyle::Bars { width, .. } && width == 0 {
        is_invalid_argument(e, "bar width"@, "Invalid bar width: minimum 1"@)
    } else {
        is_invalid_argument(e, "amplitude scale"@, "Invalid amplitude scale: must be a positive number"@)
    }
}

fn draw_border(image: &mut Canvas, color: Color)
    requires
        old(image).wf(),
    ensures
        final(image).wf(),
        final(image)@.width == old(image)@.width,
        final(image)@.height == old(image)@.height,
        final(image)@ == old(image)@.painted(
            border_shape(old(image)@.width as int, old(image)@.height as int),
            color,
        ),
{
    let ghost v0 = image@;
    let width = image.width() as i64;
    let height = image.height() as i64;
    image.draw_horizontal_line(0, width - 1, 0, color);
    image.draw_horizontal_line(0, width - 1, height - 1, color);
    proof {
        lemma_painted_twice(v0, hline(0, width - 1, 0), hline(0, width - 1, height - 1), color);
    }
    image.draw_vertical_line(0, 0, height - 1, color);
    let ghost s2 = union(hline(0, width - 1, 0), hline(0, width - 1, height - 1));
    proof {
        lemma_painted_twice(v0, s2, vline(0, 0, height - 1), color);
    }
    image.draw_vertical_line(width - 1, 0, height - 1, color);
    proof {
        lemma_painted_twice(v0, union(s2, vline(0, 0, height - 1)), vline(width - 1, 0, height - 1), color);
    }
}

proof fn lemma_row_bounds(o: RenderOptions, channels: int, c: int)
    requires
        1 <= channels <= 24,
        0 <= c < channels,
    ensures
        -2 <= row_height(o, channels) <= 0xffff_ffff,
        -0x20_0000_0000 <= channel_top(o, channels, c) <= 0x20_0000_0000,
        -0x20_0000_0000 <= channel_height(o, channels, c) <= 0x20_0000_0000,
{
    let rows = plot_rows(o);
    assert(-2 <= rows <= 0xffff_ffff);
    let rh = row_height(o, channels);
    if rows >= 0 {
        assert(0 <= rows / channels <= rows) by (nonlinear_arith)
            requires
                rows >= 0,
                channels >= 1,
        ;
    } else {
        assert(0 <= (-rows) / channels <= 2) by (nonlinear_arith)
            requires
                1 <= -rows <= 2,
                channels >= 1,
        ;
    }
    assert(-24 <= c * (rh + 1) <= 24 * 0x1_0000_0000) by (nonlinear_arith)
        requires
            0 <= c < 24,
            -1 <= rh + 1 <= 0x1_0000_0000,
    ;
}

/// Draws the waveform as one vertical line per point and channel, from the
/// scaled minimum to the scaled maximum.
fn draw_waveform_lines(image: &mut Canvas, waveform: &Waveform, options: &RenderOptions, start: usize, table: &[i16])
    requires
        old(image).wf(),
        old(image)@.width == options.width,
        old(image)@.height == options.height,
        waveform.wf(),
        table@.len() == 65536,
        options.colors.waveform@.len() > 0,
    ensures
        final(image).wf(),
        final(image)@.width == options.width,
        final(image)@.height == options.height,
        final(image)@ == waveform_lines(
            old(image)@,
            waveform@,
            *options,
            table@,
            start as int,
            waveform@.channels as nat,
        ),
{
    let ghost v0 = image@;
    let ghost v = waveform@;
    let len = waveform.len();
    let channels = waveform.channels();
    let top_y: i64 = if options.axis_labels { 1 } else { 0 };
    let rows: i64 = if options.axis_labels { options.height as i64 - 2 } else { options.height as i64 };
    let row_h = trunc_divide(rows, channels as i64);
    let n: usize = if start < len {
        if (options.width as usize) < len - start {
            options.width as usize
        } else {
            len - start
        }
    } else {
        0
    };
    assert(n == points_drawn(v, *options, start as int));
    let ncolors = options.colors.waveform.len();
    let mut c: u16 = 0;
    while c < channels
        invariant
            image.wf(),
            image@.width == options.width,
            image@.height == options.height,
            waveform.wf(),
            v == waveform@,
            len == v.len(),
            channels == v.channels,
            1 <= channels <= 24,
            table@.len() == 65536,
            ncolors == options.colors.waveform@.len(),
            ncolors > 0,
            top_y == plot_top(*options),
            rows == plot_rows(*options),
            row_h == row_height(*options, channels as int),
            n == points_drawn(v, *options, start as int),
            c <= channels,
            image@ == waveform_lines(v0, v, *options, table@, start as int, c as nat),
        decreases channels - c,
    {
        proof {
            lemma_row_bounds(*options, channels as int, c as int);
        }
        let wtop = top_y + c as i64 * (row_h + 1);
        let height = if c as i64 == channels as i64 - 1 {
            rows - c as i64 * (row_h + 1)
        } else {
            row_h + 1
        };
        assert(wtop == channel_top(*options, channels as int, c as int));
        assert(height == channel_height(*options, channels as int, c as int));
        let color = options.colors.waveform[c as usize % ncolors];
        let ghost before = image@;
        let mut x: usize = 0;
        while x < n
            invariant
                image.wf(),
                image@.width == options.width,
                image@.height == options.height,
                waveform.wf(),
                v == waveform@,
                len == v.len(),
                channels == v.channels,
                c < channels,
                table@.len() == 65536,
                wtop == channel_top(*options, channels as int, c as int),
                height == channel_height(*options, channels as int, c as int),
                -0x20_0000_0000 <= wtop <= 0x20_0000_0000,
                -0x20_0000_0000 <= height <= 0x20_0000_0000,
                color == channel_color(*options, c as int),
                n == points_drawn(v, *options, start as int),
                n <= options.width,
                start < len ==> n <= len - start,
                start >= len ==> n == 0,
                x <= n,
                before == waveform_lines(v0, v, *options, table@, start as int, c as nat),
                image@ == channel_lines(before, v, *options, table@, start as int, c as int, x as nat),
            decreases n - x,
        {
            let point = waveform.point(c, start + x);
            match point {
                Some(p) => {
                    let high = table[(p.max as i64 + 32768) as usize] as i64 + 32768;
                    let low = table[(p.min as i64 + 32768) as usize] as i64 + 32768;
                    proof {
                        assert(-0x40_0000_0000_0000 <= high * height <= 0x40_0000_0000_0000) by (nonlinear_arith)
                            requires
                                0 <= high <= 65535,
                                -0x20_0000_0000 <= height <= 0x20_0000_0000,
                        ;
                        assert(-0x40_0000_0000_0000 <= low * height <= 0x40_0000_0000_0000) by (nonlinear_arith)
                            requires
                                0 <= low <= 65535,
                                -0x20_0000_0000 <= height <= 0x20_0000_0000,
                        ;
                    }
                    let dh = trunc_divide(high * height, 65536);
                    let dl = trunc_divide(low * height, 65536);
                    proof {
                        assert(-0x40_0000_0000 <= dh <= 0x40_0000_0000) by {
                            let m = if high * height >= 0 { high * height } else { -(high * height) };
                            assert(m / 65536 <= 0x40_0000_0000) by (nonlinear_arith)
                                requires
                                    0 <= m <= 0x40_0000_0000_0000,
                            ;
                        }
                        assert(-0x40_0000_0000 <= dl <= 0x40_0000_0000) by {
                            let m = if low * height >= 0 { low * height } else { -(low * height) };
                            assert(m / 65536 <= 0x40_0000_0000) by (nonlinear_arith)
                                requires
                                    0 <= m <= 0x40_0000_0000_0000,
                            ;
                        }
                    }
                    let top = wtop + height - 1 - dh;
                    let bottom = wtop + height - 1 - dl;
                    image.draw_vertical_line(x as i64, top, bottom, color);
                },
                None => {},
            }
            x = x + 1;
        }
        c = c + 1;
    }
}

proof fn lemma_bar_count(o: RenderOptions, start: int, total: int, k: int)
    requires
        total >= 1,
        k >= 1,
        bar_offset(start, total) + (k - 1) * total < o.width,
        bar_offset(start, total) + k * total >= o.width,
    ensures
        bar_count(o, start, total) == k,
{
    let off = bar_offset(start, total);
    let num = o.width - off + total - 1;
    let r = num - k * total;
    assert(0 <= r < total) by (nonlinear_arith)
        requires
            off + (k - 1) * total < o.width,
            off + k * total >= o.width,
            num == o.width - off + total - 1,
            r == num - k * total,
    ;
    vstd::arithmetic::div_mod::lemma_fundamental_div_mod_converse(num, total, k, r);
}

proof fn lemma_bar_first(start: int, total: int)
    requires
        start >= 0,
        total >= 1,
    ensures
        0 <= start - bar_first(start, total) < total,
{
    vstd::arithmetic::div_mod::lemma_fundamental_div_mod(start, total);
    assert(total * (start / total) == (start / total) * total) by (nonlinear_arith);
}

/// Draws the waveform as bars of `bar_width` pixels every
/// `bar_width + bar_gap` pixels, aligned to multiples of that period.
fn draw_waveform_bars(
    image: &mut Canvas,
    waveform: &Waveform,
    options: &RenderOptions,
    start: usize,
    table: &[i16],
    bar_width: u32,
    bar_gap: u32,
    bar_style: BarStyle,
)
    requires
        old(image).wf(),
        old(image)@.width == options.width,
        old(image)@.height == options.height,
        options.width > 0,
        waveform.wf(),
        table@.len() == 65536,
        options.colors.waveform@.len() > 0,
        bar_width >= 1,
        bar_width + bar_gap <= u32::MAX,
    ensures
        final(image).wf(),
        final(image)@.width == options.width,
        final(image)@.height == options.height,
        final(image)@ == waveform_bars(
            old(image)@,
            waveform@,
            *options,
            table@,
            start as int,
            bar_width as int,
            bar_gap as int,
            bar_style,
            waveform@.channels as nat,
        ),
{
    let ghost v0 = image@;
    let ghost v = waveform@;
    let len = waveform.len();
    let channels = waveform.channels();
    let top_y: i64 = if options.axis_labels { 1 } else { 0 };
    let rows: i64 = if options.axis_labels { options.height as i64 - 2 } else { options.height as i64 };
    let row_h = trunc_divide(rows, channels as i64);
    let total: usize = (bar_width + bar_gap) as usize;
    let ghost t = total as int;
    proof {
        lemma_bar_first(start as int, t);
    }
    let first = (start / total) * total;
    let offset: i64 = -((start - first) as i64);
    assert(offset == bar_offset(start as int, t));
    let width = options.width as i64;
    let ncolors = options.colors.waveform.len();
    let mut c: u16 = 0;
    while c < channels
        invariant
            image.wf(),
            image@.width == options.width,
            image@.height == options.height,
            waveform.wf(),
            v == waveform@,
            len == v.len(),
            channels == v.channels,
            1 <= channels <= 24,
            table@.len() == 65536,
            ncolors == options.colors.waveform@.len(),
            ncolors > 0,
            top_y == plot_top(*options),
            rows == plot_rows(*options),
            row_h == row_height(*options, channels as int),
            total == bar_width + bar_gap,
            t == total,
            bar_width >= 1,
            first == bar_first(start as int, t),
            offset == bar_offset(start as int, t),
            -0x1_0000_0000 < offset <= 0,
            width == options.width,
            width > 0,
            c <= channels,
            image@ == waveform_bars(v0, v, *options, table@, start as int, bar_width as int, bar_gap as int, bar_style, c as nat),
        decreases channels - c,
    {
        proof {
            lemma_row_bounds(*options, channels as int, c as int);
        }
        let wtop = top_y + c as i64 * (row_h + 1);
        let height = if c as i64 == channels as i64 - 1 {
            rows - c as i64 * (row_h + 1)
        } else {
            row_h + 1
        };
        assert(wtop == channel_top(*options, channels as int, c as int));
        assert(height == channel_height(*options, channels as int, c as int));
        let color = options.colors.waveform[c as usize % ncolors];
        let ghost before = image@;
        let mut x: i64 = offset;
        let mut index: u128 = first as u128;
        let ghost mut k: nat = 0;
        while x < width
            invariant
                image.wf(),
                image@.width == options.width,
                image@.height == options.height,
                waveform.wf(),
                v == waveform@,
                len == v.len(),
                channels == v.channels,
                c < channels,
                table@.len() == 65536,
                wtop == channel_top(*options, channels as int, c as int),
                height == channel_height(*options, channels as int, c as int),
                -0x20_0000_0000 <= wtop <= 0x20_0000_0000,
                -0x20_0000_0000 <= height <= 0x20_0000_0000,
                color == channel_color(*options, c as int),
                total == bar_width + bar_gap,
                t == total,
                bar_width >= 1,
                first == bar_first(start as int, t),
                offset == bar_offset(start as int, t),
                -0x1_0000_0000 < offset <= 0,
                width == options.width,
                width > 0,
                x == offset + k * t,
                index == first + k * t,
                k >= 1 ==> offset + (k - 1) * t < width,
                x < width + t,
                before == waveform_bars(v0, v, *options, table@, start as int, bar_width as int, bar_gap as int, bar_style, c as nat),
                image@ == channel_bars(before, v, *options, table@, start as int, bar_width as int, bar_gap as int, bar_style, c as int, k),
            decreases width + t - x,
        {
            let bh: i32 = if index < len as u128 {
                get_bar_height(waveform, c, index as usize, total)
            } else {
                0
            };
            assert(bh == bar_height(v, c as int, first + k * t, t));
            let high = table[(bh as i64 + 32768) as usize] as i64 + 32768;
            let low = table[(32768 - bh as i64) as usize] as i64 + 32768;
            assert(high == level_of(table@, bh as i16));
            assert(low == level_of(table@, (-bh) as i16));
            proof {
                assert(-0x40_0000_0000_0000 <= high * height <= 0x40_0000_0000_0000) by (nonlinear_arith)
                    requires
                        0 <= high <= 65535,
                        -0x20_0000_0000 <= height <= 0x20_0000_0000,
                ;
                assert(-0x40_0000_0000_0000 <= low * height <= 0x40_0000_0000_0000) by (nonlinear_arith)
                    requires
                        0 <= low <= 65535,
                        -0x20_0000_0000 <= height <= 0x20_0000_0000,
                ;
            }
            let dh = trunc_divide(high * height, 65536);
            let dl = trunc_divide(low * height, 65536);
            proof {
                assert(-0x40_0000_0000 <= dh <= 0x40_0000_0000) by {
                    let m = if high * height >= 0 { high * height } else { -(high * height) };
                    assert(m / 65536 <= 0x40_0000_0000) by (nonlinear_arith)
                        requires
                            0 <= m <= 0x40_0000_0000_0000,
                    ;
                }
                assert(-0x40_0000_0000 <= dl <= 0x40_0000_0000) by {
                    let m = if low * height >= 0 { low * height } else { -(low * height) };
                    assert(m / 65536 <= 0x40_0000_0000) by (nonlinear_arith)
                        requires
                            0 <= m <= 0x40_0000_0000_0000,
                    ;
                }
            }
            let top = wtop + height - 1 - dh;
            let bottom = wtop + height - 1 - dl;
            let right = x + bar_width as i64 - 1;
            if top != bottom {
                let rounded = match bar_style {
                    BarStyle::Rounded => bar_width > 2 && height >= 3,
                    BarStyle::Square => false,
                };
                if rounded {
                    let radius: i64 = if bar_width > 4 { (bar_width / 4) as i64 } else { (bar_width / 2) as i64 };
                    image.draw_rounded_rect(x, top, right, bottom, radius, color);
                } else {
                    image.fill_rect(x, top, right, bottom, color);
                }
            }
            proof {
                assert((k + 1) * t == k * t + t) by (nonlinear_arith);
                assert(total >= 1);
            }
            x = x + total as i64;
            index = index + total as u128;
            proof {
                k = k + 1;
            }
        }
        proof {
            if k == 0 {
                assert(offset >= width);
            }
            lemma_bar_count(*options, start as int, t, k as int);
        }
        c = c + 1;
    }
}

proof fn lemma_label_step(v: WaveformView, interval: int, offset: int, k: int)
    requires
        v.samples_per_pixel > 0,
        interval >= 1,
        k >= 0,
        label_pixels(interval, v.sample_rate as int, v.samples_per_pixel as int) >= 60,
    ensures
        label_x(v, interval, offset, k + 1) >= label_x(v, interval, offset, k) + 1,
{
    let sr = v.sample_rate as int;
    let b = v.samples_per_pixel as int;
    let a = interval * sr;
    let ka = k * interval * sr;
    assert((k + 1) * interval * sr == ka + a) by (nonlinear_arith)
        requires
            ka == k * interval * sr,
            a == interval * sr,
    ;
    vstd::arithmetic::div_mod::lemma_fundamental_div_mod(a, b);
    assert(a >= b) by (nonlinear_arith)
        requires
            a / b >= 60,
            a == b * (a / b) + a % b,
            a % b >= 0,
            b > 0,
    ;
    assert(ka >= 0) by (nonlinear_arith)
        requires
            k >= 0,
            interval >= 1,
            sr >= 0,
            ka == k * interval * sr,
    ;
    vstd::arithmetic::div_mod::lemma_fundamental_div_mod(ka, b);
    assert(ka + b == (ka / b + 1) * b + ka % b) by (nonlinear_arith)
        requires
            ka == b * (ka / b) + ka % b,
    ;
    vstd::arithmetic::div_mod::lemma_fundamental_div_mod_converse(ka + b, b, ka / b + 1, ka % b);
    vstd::arithmetic::div_mod::lemma_div_is_ordered(ka + b, ka + a, b);
}

/// Draws the time-axis labels: a marker at the top and bottom edge every
/// label interval and, between the bottom markers, the time they stand for.
fn draw_time_axis_labels(image: &mut Canvas, waveform: &Waveform, options: &RenderOptions, first: i32, offset: i32)
    requires
        old(image).wf(),
        old(image)@.width == options.width,
        old(image)@.height == options.height,
        waveform.wf(),
        label_interval_exists(waveform@.sample_rate, waveform@.samples_per_pixel),
        label_seconds_fit(waveform@, *options, first as int, offset as int),
    ensures
        final(image).wf(),
        final(image)@.width == options.width,
        final(image)@.height == options.height,
        final(image)@ == labels_painted(
            old(image)@,
            waveform@,
            *options,
            label_interval(waveform@.sample_rate, waveform@.samples_per_pixel),
            first as int,
            offset as int,
            label_count(
                waveform@,
                *options,
                label_interval(waveform@.sample_rate, waveform@.samples_per_pixel),
                offset as int,
            ),
        ),
{
    let ghost v0 = image@;
    let ghost v = waveform@;
    let sr = waveform.sample_rate();
    let spp = waveform.samples_per_pixel();
    let interval = axis_label_scale(sr, spp);
    let ghost i = interval as int;
    let w = options.width as i64;
    let h = options.height as i64;
    let border = options.colors.border;
    let text_color = options.colors.axis_label;
    let mut secs: i64 = first as i64;
    let ghost mut k: nat = 0;
    loop
        invariant
            image.wf(),
            image@.width == options.width,
            image@.height == options.height,
            v == waveform@,
            sr == v.sample_rate,
            spp == v.samples_per_pixel,
            spp >= 2,
            i == interval,
            i == label_interval(sr, spp),
            1 <= i <= 1555200000,
            label_pixels(i, sr as int, spp as int) >= 60,
            label_seconds_fit(v, *options, first as int, offset as int),
            w == options.width,
            h == options.height,
            border == options.colors.border,
            text_color == options.colors.axis_label,
            secs == label_secs(first as int, i, k as int),
            first <= secs <= i32::MAX,
            k > 0 ==> label_x(v, i, offset as int, k - 1) < w,
            forall|j: nat| j < k ==> #[trigger] label_x(v, i, offset as int, j as int) < w,
            image@ == labels_painted(v0, v, *options, i, first as int, offset as int, k),
        ensures
            image.wf(),
            image@.width == options.width,
            image@.height == options.height,
            image@ == labels_painted(v0, v, *options, i, first as int, offset as int, label_count(v, *options, i, offset as int)),
        decreases (if label_x(v, i, offset as int, k as int) < w { w - label_x(v, i, offset as int, k as int) } else { 0 }),
    {
        let steps = (secs - first as i64) as u128;
        proof {
            assert(steps == k * i);
            assert(steps * sr <= 0x1_0000_0000 * 0x1_0000_0000) by (nonlinear_arith)
                requires
                    0 <= steps <= 0x1_0000_0000,
                    sr <= 0xffff_ffff,
            ;
        }
        let q = (steps * sr as u128) / spp as u128;
        assert(q <= 0x1_0000_0000 * 0x1_0000_0000);
        let x_wide: i128 = offset as i128 + q as i128;
        assert(x_wide == label_x(v, i, offset as int, k as int));
        if x_wide >= w as i128 {
            proof {
                assert(labels_end(v, *options, i, offset as int, k));
                let n = label_count(v, *options, i, offset as int);
                assert(labels_end(v, *options, i, offset as int, n));
                if n < k {
                    assert(label_x(v, i, offset as int, n as int) < w);
                } else if n > k {
                    assert(label_x(v, i, offset as int, k as int) < w);
                }
            }
            break;
        }
        let x = x_wide as i64;
        image.draw_vertical_line(x, 0, 10, border);
        image.draw_vertical_line(x, h - 1, h - 11, border);
        let label = seconds_to_string(secs as i32);
        let tw = text_width(label.as_str());
        let text_x = x - (tw as i64) / 2 + 1;
        if text_x >= 0 {
            draw_text(image, text_x, h - 22, label.as_str(), text_color);
        }
        proof {
            assert(label_secs(first as int, i, (k + 1) as int) <= i32::MAX);
            assert(label_secs(first as int, i, (k + 1) as int) == secs + i) by (nonlinear_arith)
                requires
                    secs == label_secs(first as int, i, k as int),
            ;
            lemma_label_step(v, i, offset as int, k as int);
            assert(forall|j: nat| j < k + 1 ==> #[trigger] label_x(v, i, offset as int, j as int) < w);
        }
        secs = secs + interval as i64;
        proof {
            k = k + 1;
        }
    }
}

/// Renders a waveform onto a new canvas.
///
/// `frame` holds what the options come to once their times and amplitude
/// scale are evaluated against the waveform. The options are checked in
/// order: image width, image height, start time, an empty waveform, bar
/// width, amplitude scale.
pub fn render_waveform(waveform: &Waveform, options: &RenderOptions, frame: &RenderFrame) -> (r: Result<Canvas, Error>)
    requires
        waveform.wf(),
        4 * (options.width as int * options.height as int) <= usize::MAX,
        frame.amplitude matches Some(t) ==> t@.len() == 65536,
        render_accepts(waveform@, *options, frame.start_index, frame.amplitude is Some) ==> {
            &&& options.colors.waveform@.len() > 0
            &&& (options.style matches RenderStyle::Bars { width, gap, .. } ==> width + gap <= u32::MAX)
            &&& (options.axis_labels ==> label_interval_exists(waveform@.sample_rate, waveform@.samples_per_pixel)
                && label_seconds_fit(
                waveform@,
                *options,
                frame.first_label_secs as int,
                frame.label_offset_pixels as int,
            ))
        },
    ensures
        r is Ok <==> render_accepts(waveform@, *options, frame.start_index, frame.amplitude is Some),
        r matches Ok(image) ==> image.wf() && image@.width == options.width && image@.height == options.height
            && image@ == rendered(
            waveform@,
            *options,
            frame.start_index.unwrap() as int,
            frame.amplitude.unwrap()@,
            frame.first_label_secs as int,
            frame.label_offset_pixels as int,
        ),
        r matches Err(e) ==> render_error(e, waveform@, *options, frame.start_index),
{
    if options.width == 0 {
        return Err(Error::invalid_argument("image width", "Invalid image width: minimum 1"));
    }
    if options.height == 0 {
        return Err(Error::invalid_argument("image height", "Invalid image height: minimum 1"));
    }
    let start = match frame.start_index {
        Some(s) => s,
        None => {
            return Err(Error::invalid_argument("start time", "Invalid start time: minimum 0"));
        },
    };
    if waveform.is_empty() {
        return Err(Error::invalid_argument("waveform", "Empty waveform buffer"));
    }
    match options.style {
        RenderStyle::Bars { width, .. } => {
            if width == 0 {
                return Err(Error::invalid_argument("bar width", "Invalid bar width: minimum 1"));
            }
        },
        RenderStyle::Normal => {},
    }
    let table: &Vec<i16> = match &frame.amplitude {
        Some(t) => t,
        None => {
            assert(frame.amplitude is None);
            return Err(
                Error::invalid_argument(
                    "amplitude scale",
                    "Invalid amplitude scale: must be a positive number",
                ),
            );
        },
    };
    assert(frame.amplitude is Some);
    assert(table@ == frame.amplitude.unwrap()@);
    assert(render_accepts(waveform@, *options, frame.start_index, frame.amplitude is Some));
    let ghost v = waveform@;
    let mut image = Canvas::filled(options.width, options.height, options.colors.background);
    let ghost c0 = image@;
    if options.axis_labels {
        draw_border(&mut image, options.colors.border);
    }
    let ghost c1 = image@;
    match options.style {
        RenderStyle::Normal => {
            draw_waveform_lines(&mut image, waveform, options, start, table.as_slice());
        },
        RenderStyle::Bars { width, gap, style } => {
            draw_waveform_bars(&mut image, waveform, options, start, table.as_slice(), width, gap, style);
        },
    }
    if options.axis_labels {
        draw_time_axis_labels(&mut image, waveform, options, frame.first_label_secs, frame.label_offset_pixels);
    }
    Ok(image)
}

impl Waveform {
    /// Renders the waveform onto a new canvas; see [`render_waveform`].
    pub fn render(&self, options: &RenderOptions, frame: &RenderFrame) -> (r: Result<Canvas, Error>)
        requires
            self.wf(),
            4 * (options.width as int * options.height as int) <= usize::MAX,
            frame.amplitude matches Some(t) ==> t@.len() == 65536,
            render_accepts(self@, *options, frame.start_index, frame.amplitude is Some) ==> {
                &&& options.colors.waveform@.len() > 0
                &&& (options.style matches RenderStyle::Bars { width, gap, .. } ==> width + gap <= u32::MAX)
                &&& (options.axis_labels ==> label_interval_exists(self@.sample_rate, self@.samples_per_pixel)
                    && label_seconds_fit(
                    self@,
                    *options,
                    frame.first_label_secs as int,
                    frame.label_offset_pixels as int,
                ))
            },
        ensures
            r is Ok <==> render_accepts(self@, *options, frame.start_index, frame.amplitude is Some),
            r matches Ok(image) ==> image.wf() && image@.width == options.width && image@.height == options.height
            && image@ == rendered(
                self@,
                *options,
                frame.start_index.unwrap() as int,
                frame.amplitude.unwrap()@,
                frame.first_label_secs as int,
                frame.label_offset_pixels as int,
            ),
            r matches Err(e) ==> render_error(e, self@, *options, frame.start_index),
    {
        render_waveform(self, options, frame)
    }
}

} // verus!
