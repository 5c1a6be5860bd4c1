//! The decisions of the command-line tool: file formats, option checks and
//! which pipeline a pair of input and output formats selects.
use vstd::prelude::*;

use vstd::string::{StrSliceExecFns, StringSliceAdditionalSpecFns};

use crate::color::{
    color_of_text, is_color_text, palette_axis_label, palette_background, palette_border, palette_waveform,
    scheme_named, Color, ColorScheme, WaveformColors,
};
use crate::error::error_text;
use crate::format::{path_extension, path_extension_of, AudioFormat, WaveformFormat};
use crate::raw::{raw_format_named, RawAudioConfig, RawSampleFormat};
use crate::render::{BarStyle, RenderStyle};
use crate::scale::ScaleSpec;
use crate::text::{ascii_lower, lowercase_equals, text_equals};

verus! {

/// File formats the command-line tool reads or writes.
#[derive(Clone, Copy, Debug, PartialEq, Eq, Structural)]
pub enum CliFormat {
    Mp3,
    Wav,
    Flac,
    Ogg,
    Opus,
    Raw,
    Dat,
    Json,
    Txt,
    Png,
}

/// The format a lowercase name or extension selects.
pub open spec fn cli_format_named(e: Seq<char>) -> Option<CliFormat> {
    if e == "mp3"@ {
        Some(CliFormat::Mp3)
    } else if e == "wav"@ || e == "w64"@ {
        Some(CliFormat::Wav)
    } else if e == "flac"@ {
        Some(CliFormat::Flac)
    } else if e == "ogg"@ || e == "oga"@ {
        Some(CliFormat::Ogg)
    } else if e == "opus"@ {
        Some(CliFormat::Opus)
    } else if e == "raw"@ {
        Some(CliFormat::Raw)
    } else if e == "dat"@ {
        Some(CliFormat::Dat)
    } else if e == "json"@ {
        Some(CliFormat::Json)
    } else if e == "txt"@ {
        Some(CliFormat::Txt)
    } else if e == "png"@ {
        Some(CliFormat::Png)
    } else {
        None
    }
}

/// The canonical name of a format.
pub open spec fn cli_format_name(f: CliFormat) -> Seq<char> {
    match f {
        CliFormat::Mp3 => "mp3"@,
        CliFormat::Wav => "wav"@,
        CliFormat::Flac => "flac"@,
        CliFormat::Ogg => "ogg"@,
        CliFormat::Opus => "opus"@,
        CliFormat::Raw => "raw"@,
        CliFormat::Dat => "dat"@,
        CliFormat::Json => "json"@,
        CliFormat::Txt => "txt"@,
        CliFormat::Png => "png"@,
    }
}

/// `r` is what parsing the format name `name` gives.
pub open spec fn named_format_result(name: Seq<char>, r: Result<CliFormat, String>) -> bool {
    match cli_format_named(ascii_lower(name)) {
        Some(f) => r == Ok::<CliFormat, String>(f),
        None => r matches Err(m) && m@ == "Unknown file format: "@ + name,
    }
}

/// `r` is what inferring a format from the extension of `path` gives.
pub open spec fn path_format_result(path: Seq<char>, r: Result<CliFormat, String>) -> bool {
    match path_extension_of(path) {
        Some(e) => named_format_result(e, r),
        None => r matches Err(m) && m@ == "Unknown file format: "@ + path,
    }
}

fn unknown_format(name: &str) -> (r: String)
    ensures
        r@ == "Unknown file format: "@ + name@,
{
    let mut m = String::from_str("Unknown file format: ");
    m.append(name);
    m
}

impl CliFormat {
    /// Parses a format name, ignoring ASCII case.
    pub fn from_name(name: &str) -> (r: Result<CliFormat, String>)
        ensures
            named_format_result(name@, r),
    {
        if lowercase_equals(name, "mp3") {
            Ok(CliFormat::Mp3)
        } else if lowercase_equals(name, "wav") || lowercase_equals(name, "w64") {
            Ok(CliFormat::Wav)
        } else if lowercase_equals(name, "flac") {
            Ok(CliFormat::Flac)
        } else if lowercase_equals(name, "ogg") || lowercase_equals(name, "oga") {
            Ok(CliFormat::Ogg)
        } else if lowercase_equals(name, "opus") {
            Ok(CliFormat::Opus)
        } else if lowercase_equals(name, "raw") {
            Ok(CliFormat::Raw)
        } else if lowercase_equals(name, "dat") {
            Ok(CliFormat::Dat)
        } else if lowercase_equals(name, "json") {
            Ok(CliFormat::Json)
        } else if lowercase_equals(name, "txt") {
            Ok(CliFormat::Txt)
        } else if lowercase_equals(name, "png") {
            Ok(CliFormat::Png)
        } else {
            Err(unknown_format(name))
        }
    }

    /// Infers a format from the extension of a path.
    pub fn from_path(path: &str) -> (r: Result<CliFormat, String>)
        ensures
            path_format_result(path@, r),
    {
        match path_extension(path) {
            Some(extension) => CliFormat::from_name(extension),
            None => Err(unknown_format(path)),
        }
    }

    /// Whether the format is an audio input.
    pub fn is_audio_input(self) -> (r: bool)
        ensures
            r == (self is Mp3 || self is Wav || self is Flac || self is Ogg || self is Opus || self is Raw),
    {
        match self {
            CliFormat::Mp3 | CliFormat::Wav | CliFormat::Flac | CliFormat::Ogg | CliFormat::Opus | CliFormat::Raw => true,
            _ => false,
        }
    }

    /// Whether the format is a waveform data input.
    pub fn is_waveform_input(self) -> (r: bool)
        ensures
            r == (self is Dat || self is Json),
    {
        match self {
            CliFormat::Dat | CliFormat::Json => true,
            _ => false,
        }
    }

    /// The audio format of an audio input format.
    pub fn as_audio_format(self) -> (r: Option<AudioFormat>)
        ensures
            r == (match self {
                CliFormat::Mp3 => Some(AudioFormat::Mp3),
                CliFormat::Wav => Some(AudioFormat::Wav),
                CliFormat::Flac => Some(AudioFormat::Flac),
                CliFormat::Ogg => Some(AudioFormat::Ogg),
                CliFormat::Opus => Some(AudioFormat::Opus),
                CliFormat::Raw => Some(AudioFormat::Raw),
                _ => None::<AudioFormat>,
            }),
    {
        match self {
            CliFormat::Mp3 => Some(AudioFormat::Mp3),
            CliFormat::Wav => Some(AudioFormat::Wav),
            CliFormat::Flac => Some(AudioFormat::Flac),
            CliFormat::Ogg => Some(AudioFormat::Ogg),
            CliFormat::Opus => Some(AudioFormat::Opus),
            CliFormat::Raw => Some(AudioFormat::Raw),
            _ => None,
        }
    }

    /// The waveform format of a waveform data format.
    pub fn as_waveform_format(self) -> (r: Option<WaveformFormat>)
        ensures
            r == (match self {
                CliFormat::Dat => Some(WaveformFormat::Dat),
                CliFormat::Json => Some(WaveformFormat::Json),
                CliFormat::Txt => Some(WaveformFormat::Txt),
                _ => None::<WaveformFormat>,
            }),
    {
        match self {
            CliFormat::Dat => Some(WaveformFormat::Dat),
            CliFormat::Json => Some(WaveformFormat::Json),
            CliFormat::Txt => Some(WaveformFormat::Txt),
            _ => None,
        }
    }

    /// The canonical name of the format.
    pub fn name(self) -> (r: &'static str)
        ensures
            r@ == cli_format_name(self),
    {
        match self {
            CliFormat::Mp3 => "mp3",
            CliFormat::Wav => "wav",
            CliFormat::Flac => "flac",
            CliFormat::Ogg => "ogg",
            CliFormat::Opus => "opus",
            CliFormat::Raw => "raw",
            CliFormat::Dat => "dat",
            CliFormat::Json => "json",
            CliFormat::Txt => "txt",
            CliFormat::Png => "png",
        }
    }
}

/// Picks a format from an explicit name, else from the file name's
/// extension; one of the two is required.
pub fn resolve_format(filename: Option<&str>, explicit: Option<&str>, input: bool) -> (r: Result<CliFormat, String>)
    ensures
        explicit matches Some(name) ==> named_format_result(name@, r),
        explicit is None ==> (filename matches Some(path) ==> path_format_result(path@, r)),
        explicit is None && filename is None ==> (r matches Err(m) && m@ == (if input {
            "Error: Must specify either input filename or input format"@
        } else {
            "Error: Must specify either output filename or output format"@
        })),
{
    match explicit {
        Some(name) => CliFormat::from_name(name),
        None => match filename {
            Some(path) => CliFormat::from_path(path),
            None => {
                if input {
                    Err(String::from_str("Error: Must specify either input filename or input format"))
                } else {
                    Err(String::from_str("Error: Must specify either output filename or output format"))
                }
            },
        },
    }
}

/// Checks the bit depth option: absent, 8 or 16.
pub fn resolve_bits(bits: Option<i32>) -> (r: Result<Option<i32>, String>)
    ensures
        (bits is None || bits == Some(8i32) || bits == Some(16i32)) ==> r == Ok::<Option<i32>, String>(bits),
        !(bits is None || bits == Some(8i32) || bits == Some(16i32)) ==> (r matches Err(m) && m@
            == "Error: Invalid bits: must be either 8 or 16"@),
{
    match bits {
        Some(b) => {
            if b == 8 || b == 16 {
                Ok(bits)
            } else {
                Err(String::from_str("Error: Invalid bits: must be either 8 or 16"))
            }
        },
        None => Ok(bits),
    }
}

/// Checks the PNG compression option: `-1` (default) or `0` to `9`.
pub fn resolve_compression(compression: i32) -> (r: Result<Option<i32>, String>)
    ensures
        -1 <= compression <= 9 ==> r == Ok::<Option<i32>, String>(
            if compression >= 0 {
                Some(compression)
            } else {
                None
            },
        ),
        !(-1 <= compression <= 9) ==> (r matches Err(m) && m@
            == "Error: Invalid compression level: must be from 0 (none) to 9 (best), or -1 (default)"@),
{
    if -1 <= compression && compression <= 9 {
        if compression >= 0 {
            Ok(Some(compression))
        } else {
            Ok(None)
        }
    } else {
        Err(
            String::from_str(
                "Error: Invalid compression level: must be from 0 (none) to 9 (best), or -1 (default)",
            ),
        )
    }
}

/// Whether a file name stands for the standard input or output: absent or `-`.
pub fn is_stdio_filename(filename: Option<&str>) -> (r: bool)
    ensures
        r == (filename is None || filename.unwrap()@ == "-"@),
{
    match filename {
        Some(name) => text_equals(name, "-"),
        None => true,
    }
}

/// The error text `s` with `value` appended.
fn message_with(s: &str, value: &str) -> (r: String)
    ensures
        r@ == s@ + value@,
{
    let mut m = String::from_str(s);
    m.append(value);
    m
}

/// The render style the style options select.
pub open spec fn render_style_result(
    style: Seq<char>,
    bar_width: i32,
    bar_gap: i32,
    bar_style: Seq<char>,
    r: Result<RenderStyle, String>,
) -> bool {
    if style == "normal"@ {
        r == Ok::<RenderStyle, String>(RenderStyle::Normal)
    } else if style == "bars"@ {
        if bar_width < 1 {
            r matches Err(m) && m@ == "Invalid bar width: minimum 1"@
        } else if bar_gap < 0 {
            r matches Err(m) && m@ == "Invalid bar gap: minimum 0"@
        } else if bar_style == "square"@ {
            r == Ok::<RenderStyle, String>(
                RenderStyle::Bars { width: bar_width as u32, gap: bar_gap as u32, style: BarStyle::Square },
            )
        } else if bar_style == "rounded"@ {
            r == Ok::<RenderStyle, String>(
                RenderStyle::Bars { width: bar_width as u32, gap: bar_gap as u32, style: BarStyle::Rounded },
            )
        } else {
            r matches Err(m) && m@ == "Unknown waveform bar style: "@ + bar_style
        }
    } else {
        r matches Err(m) && m@ == "Unknown waveform style: "@ + style
    }
}

/// Picks the render style from the style options.
pub fn resolve_render_style(style: &str, bar_width: i32, bar_gap: i32, bar_style: &str) -> (r: Result<
    RenderStyle,
    String,
>)
    ensures
        render_style_result(style@, bar_width, bar_gap, bar_style@, r),
{
    proof {
        reveal_strlit("normal");
        reveal_strlit("bars");
    }
    if text_equals(style, "normal") {
        Ok(RenderStyle::Normal)
    } else if text_equals(style, "bars") {
        if bar_width < 1 {
            return Err(String::from_str("Invalid bar width: minimum 1"));
        }
        if bar_gap < 0 {
            return Err(String::from_str("Invalid bar gap: minimum 0"));
        }
        let kind = if text_equals(bar_style, "square") {
            BarStyle::Square
        } else if text_equals(bar_style, "rounded") {
            BarStyle::Rounded
        } else {
            return Err(message_with("Unknown waveform bar style: ", bar_style));
        };
        Ok(RenderStyle::Bars { width: bar_width as u32, gap: bar_gap as u32, style: kind })
    } else {
        Err(message_with("Unknown waveform style: ", style))
    }
}

/// The raw-audio configuration the raw options select.
pub open spec fn raw_config_result(
    sample_rate: Option<i32>,
    channels: Option<i32>,
    sample_format: Option<Seq<char>>,
    r: Result<RawAudioConfig, String>,
) -> bool {
    if sample_rate is None {
        r matches Err(m) && m@ == "Error: Missing --raw-samplerate option"@
    } else if channels is None {
        r matches Err(m) && m@ == "Error: Missing --raw-channels option"@
    } else if sample_format is None {
        r matches Err(m) && m@ == "Error: Missing --raw-format option"@
    } else if sample_rate.unwrap() <= 0 {
        r matches Err(m) && m@ == "Invalid input sample rate: must be greater than zero"@
    } else if channels.unwrap() <= 0 {
        r matches Err(m) && m@ == "Invalid number of input channels: must be greater than zero"@
    } else if channels.unwrap() > 65535 {
        r matches Err(m) && m@ == "Invalid number of input channels: maximum 65535"@
    } else {
        match raw_format_named(ascii_lower(sample_format.unwrap())) {
            Some(f) => r == Ok::<RawAudioConfig, String>(
                RawAudioConfig {
                    sample_rate: sample_rate.unwrap() as u32,
                    channels: channels.unwrap() as u16,
                    sample_format: f,
                },
            ),
            None => r matches Err(m) && m@ == "Unsupported format: "@ + sample_format.unwrap(),
        }
    }
}

/// Builds the raw-audio configuration from the raw options.
pub fn resolve_raw_audio_config(sample_rate: Option<i32>, channels: Option<i32>, sample_format: Option<&str>) -> (r: Result<
    RawAudioConfig,
    String,
>)
    ensures
        raw_config_result(
            sample_rate,
            channels,
            match sample_format {
                Some(s) => Some(s@),
                None => None,
            },
            r,
        ),
{
    let rate = match sample_rate {
        Some(v) => v,
        None => {
            return Err(String::from_str("Error: Missing --raw-samplerate option"));
        },
    };
    let count = match channels {
        Some(v) => v,
        None => {
            return Err(String::from_str("Error: Missing --raw-channels option"));
        },
    };
    let name = match sample_format {
        Some(v) => v,
        None => {
            return Err(String::from_str("Error: Missing --raw-format option"));
        },
    };
    if rate <= 0 {
        return Err(String::from_str("Invalid input sample rate: must be greater than zero"));
    }
    if count <= 0 {
        return Err(String::from_str("Invalid number of input channels: must be greater than zero"));
    }
    if count > 65535 {
        return Err(String::from_str("Invalid number of input channels: maximum 65535"));
    }
    let format = match RawSampleFormat::parse(name) {
        Ok(f) => f,
        Err(e) => {
            return Err(e.to_string());
        },
    };
    match RawAudioConfig::new(rate as u32, count as u16, format) {
        Ok(config) => Ok(config),
        Err(e) => Err(e.to_string()),
    }
}

/// Whether a character is an ASCII decimal digit.
pub open spec fn is_decimal_digit(c: char) -> bool {
    '0' <= c <= '9'
}

/// The value of a string of decimal digits.
pub open spec fn digits_value(s: Seq<char>) -> int
    decreases s.len(),
{
    if s.len() == 0 {
        0
    } else {
        digits_value(s.drop_last()) * 10 + (s.last() as int - 48)
    }
}

/// Every character is a decimal digit.
pub open spec fn all_digits(b: Seq<char>) -> bool {
    forall|i: int| 0 <= i < b.len() ==> is_decimal_digit(#[trigger] b[i])
}

/// The text after an optional leading `+`.
pub open spec fn unsigned_body(s: Seq<char>) -> Seq<char> {
    if s.len() > 0 && s[0] == '+' {
        s.drop_first()
    } else {
        s
    }
}

/// What `str::parse::<u32>` gives: an optional `+`, then one or more decimal
/// digits whose value fits in `u32`.
pub open spec fn u32_text(s: Seq<char>) -> Option<u32> {
    let body = unsigned_body(s);
    if body.len() > 0 && all_digits(body) && digits_value(body) <= u32::MAX {
        Some(digits_value(body) as u32)
    } else {
        None
    }
}

/// Parses decimal text as `str::parse::<u32>` does.
pub fn parse_u32(s: &str) -> (r: Option<u32>)
    ensures
        r == u32_text(s@),
{
    let n = s.unicode_len();
    let start: usize = if n > 0 && s.get_char(0) == '+' { 1 } else { 0 };
    let ghost body = unsigned_body(s@);
    assert(body =~= s@.subrange(start as int, n as int));
    if start == n {
        return None;
    }
    let mut value: u64 = 0;
    let mut i: usize = start;
    while i < n
        invariant
            n == s@.len(),
            start <= i <= n,
            body == s@.subrange(start as int, n as int),
            body == unsigned_body(s@),
            forall|j: int| start <= j < i ==> is_decimal_digit(#[trigger] s@[j]),
            value == (if digits_value(s@.subrange(start as int, i as int)) < 0x1_0000_0000 {
                digits_value(s@.subrange(start as int, i as int))
            } else {
                0x1_0000_0000
            }),
            digits_value(s@.subrange(start as int, i as int)) >= 0,
        decreases n - i,
    {
        let c = s.get_char(i);
        if c < '0' || c > '9' {
            proof {
                assert(body[i - start] == c);
                assert(!is_decimal_digit(body[i - start]));
                assert(!all_digits(body));
            }
            return None;
        }
        let d = (c as u32 - 48) as u64;
        proof {
            assert(s@.subrange(start as int, i + 1).drop_last() =~= s@.subrange(start as int, i as int));
        }
        let next = value * 10 + d;
        value = if next < 0x1_0000_0000 { next } else { 0x1_0000_0000 };
        i = i + 1;
    }
    proof {
        assert(s@.subrange(start as int, n as int) =~= body);
        assert forall|j: int| 0 <= j < body.len() implies is_decimal_digit(#[trigger] body[j]) by {
            assert(body[j] == s@[start + j]);
        }
    }
    if value <= 0xffff_ffff {
        Some(value as u32)
    } else {
        None
    }
}

/// A scale as the scale options give it: either a waveform scale, or a fit
/// of the image width to the time range between the start and end times,
/// which the caller converts once the sample rate is known.
#[derive(Clone, Copy, Debug, PartialEq, Eq, Structural)]
pub enum CliScale {
    /// A waveform scale.
    Scale(ScaleSpec),
    /// Fit the time range between the start and end options into `width_pixels`.
    TimeRange {
        /// Output width in pixels.
        width_pixels: u32,
    },
}

/// The scale the scale options select.
pub open spec fn scale_result(
    zoom: Option<Seq<char>>,
    pixels_per_second: Option<i32>,
    has_end: bool,
    width: i32,
    r: Result<CliScale, String>,
) -> bool {
    if zoom is Some && has_end {
        r matches Err(m) && m@ == "Specify either --end or --zoom but not both"@
    } else if pixels_per_second is Some && has_end {
        r matches Err(m) && m@ == "Specify either --end or --pixels-per-second but not both"@
    } else if zoom is Some && pixels_per_second is Some {
        r matches Err(m) && m@ == "Specify either --zoom or --pixels-per-second but not both"@
    } else if width < 1 {
        r matches Err(m) && m@ == "Invalid image width: minimum 1"@
    } else if has_end {
        r == Ok::<CliScale, String>(CliScale::TimeRange { width_pixels: width as u32 })
    } else if pixels_per_second is Some {
        if pixels_per_second.unwrap() <= 0 {
            r matches Err(m) && m@ == "Invalid pixels per second: must be greater than zero"@
        } else {
            r == Ok::<CliScale, String>(CliScale::Scale(ScaleSpec::PixelsPerSecond(pixels_per_second.unwrap() as u32)))
        }
    } else if zoom is Some {
        if zoom.unwrap() == "auto"@ {
            r == Ok::<CliScale, String>(
                CliScale::Scale(ScaleSpec::FitWidth { width_pixels: width as u32, range_frames: None }),
            )
        } else {
            match u32_text(zoom.unwrap()) {
                Some(z) => r == Ok::<CliScale, String>(CliScale::Scale(ScaleSpec::SamplesPerPixel(z))),
                None => r matches Err(m) && m@ == "Error: Invalid zoom: must be a number or 'auto'"@,
            }
        }
    } else {
        r == Ok::<CliScale, String>(CliScale::Scale(ScaleSpec::SamplesPerPixel(256)))
    }
}

/// Picks the scale from the zoom, pixels-per-second, end and width options.
pub fn resolve_scale(zoom: Option<&str>, pixels_per_second: Option<i32>, has_end: bool, width: i32) -> (r: Result<
    CliScale,
    String,
>)
    ensures
        scale_result(
            match zoom {
                Some(z) => Some(z@),
                None => None,
            },
            pixels_per_second,
            has_end,
            width,
            r,
        ),
{
    if zoom.is_some() && has_end {
        return Err(String::from_str("Specify either --end or --zoom but not both"));
    }
    if pixels_per_second.is_some() && has_end {
        return Err(String::from_str("Specify either --end or --pixels-per-second but not both"));
    }
    if zoom.is_some() && pixels_per_second.is_some() {
        return Err(String::from_str("Specify either --zoom or --pixels-per-second but not both"));
    }
    if width < 1 {
        return Err(String::from_str("Invalid image width: minimum 1"));
    }
    if has_end {
        return Ok(CliScale::TimeRange { width_pixels: width as u32 });
    }
    match pixels_per_second {
        Some(pps) => {
            if pps <= 0 {
                return Err(String::from_str("Invalid pixels per second: must be greater than zero"));
            }
            return Ok(CliScale::Scale(ScaleSpec::PixelsPerSecond(pps as u32)));
        },
        None => {},
    }
    match zoom {
        Some(value) => {
            if text_equals(value, "auto") {
                proof {
                    reveal_strlit("auto");
                }
                Ok(CliScale::Scale(ScaleSpec::FitWidth { width_pixels: width as u32, range_frames: None }))
            } else {
                match parse_u32(value) {
                    Some(z) => Ok(CliScale::Scale(ScaleSpec::SamplesPerPixel(z))),
                    None => Err(String::from_str("Error: Invalid zoom: must be a number or 'auto'")),
                }
            }
        },
        None => Ok(CliScale::Scale(ScaleSpec::SamplesPerPixel(256))),
    }
}

/// The pieces of `b` between commas; one piece when there is no comma.
pub open spec fn comma_pieces(b: Seq<u8>) -> Seq<Seq<u8>>
    decreases b.len(),
{
    if b.len() == 0 {
        seq![Seq::<u8>::empty()]
    } else {
        let p = comma_pieces(b.drop_last());
        if b.last() == 44u8 {
            p.push(Seq::<u8>::empty())
        } else {
            p.update(p.len() - 1, p.last().push(b.last()))
        }
    }
}

proof fn lemma_comma_pieces_len(b: Seq<u8>)
    ensures
        comma_pieces(b).len() >= 1,
    decreases b.len(),
{
    if b.len() > 0 {
        lemma_comma_pieces_len(b.drop_last());
    }
}

/// Every piece is color text.
pub open spec fn all_color_text(pieces: Seq<Seq<u8>>) -> bool {
    forall|k: int| 0 <= k < pieces.len() ==> is_color_text(#[trigger] pieces[k])
}

/// The colors of the comma-separated list `b`.
pub open spec fn color_list(b: Seq<u8>) -> Seq<Color> {
    let p = comma_pieces(b);
    Seq::new(p.len(), |k: int| color_of_text(p[k]))
}

/// Parses a comma-separated list of colors.
fn parse_color_list(text: &str) -> (r: Option<Vec<Color>>)
    ensures
        r is Some <==> all_color_text(comma_pieces(text.spec_bytes())),
        r matches Some(v) ==> v@ == color_list(text.spec_bytes()),
{
    let b = text.as_bytes();
    let n = b.len();
    let mut done: Vec<Color> = Vec::new();
    let mut current: Vec<u8> = Vec::new();
    let mut ok = true;
    proof {
        assert(b@.take(0) =~= Seq::<u8>::empty());
    }
    let mut i: usize = 0;
    while i < n
        invariant
            n == b@.len(),
            b@ == text.spec_bytes(),
            i <= n,
            comma_pieces(b@.take(i as int)).len() >= 1,
            comma_pieces(b@.take(i as int)).last() == current@,
            done@.len() == comma_pieces(b@.take(i as int)).len() - 1,
            ok <==> (forall|k: int| 0 <= k < done@.len() ==> is_color_text(#[trigger] comma_pieces(b@.take(i as int))[k])),
            ok ==> forall|k: int| 0 <= k < done@.len() ==> #[trigger] done@[k] == color_of_text(comma_pieces(b@.take(i as int))[k]),
        decreases n - i,
    {
        let ghost p = comma_pieces(b@.take(i as int));
        let ghost cur_old = current@;
        let ghost ok_old = ok;
        let ghost done_old = done@;
        proof {
            assert(b@.take(i + 1).drop_last() =~= b@.take(i as int));
            lemma_comma_pieces_len(b@.take(i + 1));
        }
        if b[i] == 44u8 {
            let parsed = Color::parse_bytes(current.as_slice());
            match parsed {
                Ok(c) => done.push(c),
                Err(_) => {
                    ok = false;
                    done.push(Color { red: 0, green: 0, blue: 0, alpha: 0 });
                },
            }
            current = Vec::new();
            proof {
                let q = comma_pieces(b@.take(i + 1));
                assert(q == p.push(Seq::<u8>::empty()));
                assert(q[done_old.len() as int] == cur_old);
                assert forall|k: int| 0 <= k < done_old.len() implies #[trigger] q[k] == p[k] by {}
                if ok {
                    assert forall|k: int| 0 <= k < done@.len() implies is_color_text(#[trigger] q[k]) by {
                        if k < done_old.len() {
                            assert(q[k] == p[k]);
                        }
                    }
                    assert forall|k: int| 0 <= k < done@.len() implies #[trigger] done@[k] == color_of_text(q[k]) by {
                        if k < done_old.len() {
                            assert(q[k] == p[k]);
                        }
                    }
                } else {
                    if ok_old {
                        assert(!is_color_text(q[done_old.len() as int]));
                    } else {
                        let w = choose|k: int| 0 <= k < done_old.len() && !is_color_text(#[trigger] p[k]);
                        assert(q[w] == p[w]);
                        assert(!is_color_text(q[w]));
                    }
                }
            }
        } else {
            current.push(b[i]);
            proof {
                let q = comma_pieces(b@.take(i + 1));
                assert(q == p.update(p.len() - 1, p.last().push(b@[i as int])));
                assert forall|k: int| 0 <= k < done@.len() implies #[trigger] q[k] == p[k] by {}
                if !ok {
                    let w = choose|k: int| 0 <= k < done_old.len() && !is_color_text(#[trigger] p[k]);
                    assert(q[w] == p[w]);
                }
            }
        }
        i = i + 1;
    }
    proof {
        assert(b@.take(n as int) =~= b@);
    }
    let last = Color::parse_bytes(current.as_slice());
    let ghost p = comma_pieces(b@);
    match last {
        Ok(c) => {
            if ok {
                done.push(c);
                assert(done@ =~= color_list(b@));
                Some(done)
            } else {
                None
            }
        },
        Err(_) => {
            assert(!is_color_text(p[p.len() - 1]));
            None
        },
    }
}

/// The parsed color `s`, or `fallback` when it is absent.
pub open spec fn color_or(s: Option<Seq<u8>>, fallback: Color) -> Color {
    match s {
        Some(b) => color_of_text(b),
        None => fallback,
    }
}

/// Every given color option is valid.
pub open spec fn color_options_valid(
    border: Option<Seq<u8>>,
    background: Option<Seq<u8>>,
    axis_label: Option<Seq<u8>>,
    waveform: Option<Seq<u8>>,
) -> bool {
    &&& (border matches Some(b) ==> is_color_text(b))
    &&& (background matches Some(b) ==> is_color_text(b))
    &&& (axis_label matches Some(b) ==> is_color_text(b))
    &&& (waveform matches Some(b) ==> all_color_text(comma_pieces(b)))
}

/// The bytes of an optional text.
pub open spec fn opt_bytes(s: Option<&str>) -> Option<Seq<u8>> {
    match s {
        Some(t) => Some(t.spec_bytes()),
        None => None,
    }
}

fn parse_color_option(value: Option<&str>, fallback: Color) -> (r: Option<Color>)
    ensures
        r is Some <==> (value matches Some(t) ==> is_color_text(t.spec_bytes())),
        r matches Some(c) ==> c == color_or(opt_bytes(value), fallback),
{
    match value {
        Some(text) => match Color::parse(text) {
            Ok(c) => Some(c),
            Err(_) => None,
        },
        None => Some(fallback),
    }
}

/// Builds the render palette from a color scheme and color overrides; the
/// waveform colors are a comma-separated list.
pub fn resolve_colors(
    scheme: &str,
    border: Option<&str>,
    background: Option<&str>,
    axis_label: Option<&str>,
    waveform: Option<&str>,
) -> (r: Result<WaveformColors, String>)
    ensures
        scheme_named(ascii_lower(scheme@)) is None ==> (r matches Err(m) && m@ == "Unknown color scheme: "@
            + scheme@),
        scheme_named(ascii_lower(scheme@)) is Some ==> (r is Ok <==> color_options_valid(
            opt_bytes(border),
            opt_bytes(background),
            opt_bytes(axis_label),
            opt_bytes(waveform),
        )),
        scheme_named(ascii_lower(scheme@)) is Some && r is Err ==> r->Err_0@ == "Invalid color value"@,
        r matches Ok(c) ==> {
            let s = scheme_named(ascii_lower(scheme@)).unwrap();
            &&& c.border == color_or(opt_bytes(border), palette_border(s))
            &&& c.background == color_or(opt_bytes(background), palette_background(s))
            &&& c.axis_label == color_or(opt_bytes(axis_label), palette_axis_label(s))
            &&& c.waveform@ == (match waveform {
                Some(t) => color_list(t.spec_bytes()),
                None => palette_waveform(s),
            })
        },
{
    let chosen = match ColorScheme::parse(scheme) {
        Ok(s) => s,
        Err(e) => {
            return Err(e.to_string());
        },
    };
    let palette = chosen.palette();
    let invalid = "Invalid color value";
    proof {
        reveal_strlit("Invalid color value");
    }
    let border_color = match parse_color_option(border, palette.border) {
        Some(c) => c,
        None => {
            return Err(String::from_str(invalid));
        },
    };
    let background_color = match parse_color_option(background, palette.background) {
        Some(c) => c,
        None => {
            return Err(String::from_str(invalid));
        },
    };
    let axis_color = match parse_color_option(axis_label, palette.axis_label) {
        Some(c) => c,
        None => {
            return Err(String::from_str(invalid));
        },
    };
    let waveform_colors = match waveform {
        Some(text) => match parse_color_list(text) {
            Some(list) => list,
            None => {
                return Err(String::from_str(invalid));
            },
        },
        None => palette.waveform,
    };
    Ok(WaveformColors { border: border_color, background: background_color, waveform: waveform_colors, axis_label: axis_color })
}

/// The pipelines of the command-line tool.
#[derive(Clone, Copy, Debug, PartialEq, Eq, Structural)]
pub enum RunPlan {
    /// Decode audio and write it as WAV.
    TranscodeToWav,
    /// Generate waveform data from audio.
    GenerateWaveform,
    /// Convert waveform data between formats.
    ConvertWaveform,
    /// Resample waveform data to a coarser scale.
    ResampleWaveform,
    /// Render a waveform image from audio or waveform data.
    RenderImage,
}

/// The pipeline an input and an output format select, if any.
pub open spec fn run_plan_of(input: CliFormat, output: CliFormat, has_resample: bool) -> Option<RunPlan> {
    let audio = input is Mp3 || input is Wav || input is Flac || input is Ogg || input is Opus || input is Raw;
    let data = input is Dat || input is Json;
    if audio && output is Wav {
        Some(RunPlan::TranscodeToWav)
    } else if audio && (output is Dat || output is Json) {
        Some(RunPlan::GenerateWaveform)
    } else if data && (output is Dat || output is Json || output is Txt) && !has_resample {
        Some(RunPlan::ConvertWaveform)
    } else if data && (output is Dat || output is Json) && has_resample {
        Some(RunPlan::ResampleWaveform)
    } else if (audio || data) && output is Png {
        Some(RunPlan::RenderImage)
    } else {
        None
    }
}

/// Chooses the pipeline for an input and an output format.
pub fn plan_run(input: CliFormat, output: CliFormat, has_resample: bool) -> (r: Result<RunPlan, String>)
    ensures
        run_plan_of(input, output, has_resample) matches Some(p) ==> r == Ok::<RunPlan, String>(p),
        (input is Mp3 || input is Wav || input is Flac || input is Ogg || input is Opus || input is Raw
            || input is Dat || input is Json) && output is Png ==> r == Ok::<RunPlan, String>(RunPlan::RenderImage),
        run_plan_of(input, output, has_resample) is None ==> (r matches Err(m) && m@ == "Can't generate "@
            + cli_format_name(output) + " format output from "@ + cli_format_name(input)
            + " format input"@),
{
    let audio = input.is_audio_input();
    let data = input.is_waveform_input();
    let to_data = output == CliFormat::Dat || output == CliFormat::Json;
    if audio && output == CliFormat::Wav {
        Ok(RunPlan::TranscodeToWav)
    } else if audio && to_data {
        Ok(RunPlan::GenerateWaveform)
    } else if data && (to_data || output == CliFormat::Txt) && !has_resample {
        Ok(RunPlan::ConvertWaveform)
    } else if data && to_data && has_resample {
        Ok(RunPlan::ResampleWaveform)
    } else if (audio || data) && output == CliFormat::Png {
        Ok(RunPlan::RenderImage)
    } else {
        let mut m = String::from_str("Can't generate ");
        m.append(output.name());
        m.append(" format output from ");
        m.append(input.name());
        m.append(" format input");
        Err(m)
    }
}

} // verus!
