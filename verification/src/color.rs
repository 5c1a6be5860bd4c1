//! Colors, color schemes and rendering palettes.
use vstd::prelude::*;
use vstd::string::StringSliceAdditionalSpecFns;

use crate::error::{Error, is_invalid_argument};
use crate::text::{ascii_lower, lowercase_equals};

verus! {

/// A single RGBA color.
#[derive(Clone, Copy, Debug, PartialEq, Eq, Structural)]
pub struct Color {
    /// Red channel.
    pub red: u8,
    /// Green channel.
    pub green: u8,
    /// Blue channel.
    pub blue: u8,
    /// Alpha channel, where `255` is fully opaque.
    pub alpha: u8,
}

/// Whether `b` is an ASCII hexadecimal digit.
pub open spec fn is_hex_digit(b: u8) -> bool {
    (48 <= b <= 57) || (65 <= b <= 70) || (97 <= b <= 102)
}

/// The value of an ASCII hexadecimal digit.
pub open spec fn hex_value(b: u8) -> int {
    if 48 <= b <= 57 {
        b - 48
    } else if 65 <= b <= 70 {
        b - 55
    } else {
        b - 87
    }
}

/// The byte that two hexadecimal digits at `at` spell.
pub open spec fn hex_pair(b: Seq<u8>, at: int) -> u8 {
    (16 * hex_value(b[at]) + hex_value(b[at + 1])) as u8
}

/// Whether `b` is the text of a color: six or eight hexadecimal digits.
pub open spec fn is_color_text(b: Seq<u8>) -> bool {
    &&& (b.len() == 6 || b.len() == 8)
    &&& forall|i: int| 0 <= i < b.len() ==> is_hex_digit(#[trigger] b[i])
}

/// The color that a valid color text spells; alpha is opaque unless given.
pub open spec fn color_of_text(b: Seq<u8>) -> Color {
    Color {
        red: hex_pair(b, 0),
        green: hex_pair(b, 2),
        blue: hex_pair(b, 4),
        alpha: if b.len() == 8 { hex_pair(b, 6) } else { 255 },
    }
}

/// The error that color parsing reports.
pub open spec fn color_error(e: Error) -> bool {
    is_invalid_argument(e, "color"@, "Invalid color value"@)
}

fn hex_digit(b: u8) -> (r: Option<u8>)
    ensures
        r is Some <==> is_hex_digit(b),
        r matches Some(v) ==> v == hex_value(b),
{
    if 48 <= b && b <= 57 {
        Some(b - 48)
    } else if 65 <= b && b <= 70 {
        Some(b - 55)
    } else if 97 <= b && b <= 102 {
        Some(b - 87)
    } else {
        None
    }
}

impl Color {
    /// Creates an opaque color from RGB values.
    pub fn opaque(red: u8, green: u8, blue: u8) -> (r: Color)
        ensures
            r == (Color { red, green, blue, alpha: 255 }),
    {
        Color { red, green, blue, alpha: 255 }
    }

    /// Creates a color from RGBA values.
    pub fn rgba(red: u8, green: u8, blue: u8, alpha: u8) -> (r: Color)
        ensures
            r == (Color { red, green, blue, alpha }),
    {
        Color { red, green, blue, alpha }
    }

    /// Returns `true` when the color uses transparency.
    pub fn has_alpha(self) -> (r: bool)
        ensures
            r == (self.alpha < 255),
    {
        self.alpha < 255
    }

    /// Parses `RRGGBB` or `RRGGBBAA` hexadecimal color text.
    pub fn parse(s: &str) -> (r: Result<Color, Error>)
        ensures
            r is Ok <==> is_color_text(s.spec_bytes()),
            r matches Ok(c) ==> c == color_of_text(s.spec_bytes()),
            r matches Err(e) ==> color_error(e),
    {
        Color::parse_bytes(s.as_bytes())
    }

    /// Parses `RRGGBB` or `RRGGBBAA` hexadecimal color text given as bytes.
    pub fn parse_bytes(b: &[u8]) -> (r: Result<Color, Error>)
        ensures
            r is Ok <==> is_color_text(b@),
            r matches Ok(c) ==> c == color_of_text(b@),
            r matches Err(e) ==> color_error(e),
    {
        let n = b.len();
        if n != 6 && n != 8 {
            return Err(Error::invalid_argument("color", "Invalid color value"));
        }
        let mut values: Vec<u8> = Vec::new();
        let mut i: usize = 0;
        while i < n
            invariant
                n == b@.len(),
                i <= n,
                values@.len() == i,
                forall|k: int| 0 <= k < i ==> is_hex_digit(#[trigger] b@[k]),
                forall|k: int| 0 <= k < i ==> #[trigger] values@[k] == hex_value(b@[k]),
            decreases n - i,
        {
            match hex_digit(b[i]) {
                Some(v) => values.push(v),
                None => {
                    return Err(Error::invalid_argument("color", "Invalid color value"));
                },
            }
            i = i + 1;
        }
        let red = values[0] * 16 + values[1];
        let green = values[2] * 16 + values[3];
        let blue = values[4] * 16 + values[5];
        let alpha = if n == 8 {
            values[6] * 16 + values[7]
        } else {
            255
        };
        Ok(Color { red, green, blue, alpha })
    }
}

impl std::str::FromStr for Color {
    type Err = Error;

    fn from_str(s: &str) -> (r: Result<Color, Error>)
        ensures
            r is Ok <==> is_color_text(s.spec_bytes()),
            r matches Ok(c) ==> c == color_of_text(s.spec_bytes()),
            r matches Err(e) ==> color_error(e),
    {
        Color::parse(s)
    }
}

/// A named color scheme matching the historical audiowaveform presets.
#[derive(Clone, Copy, Debug, PartialEq, Eq, Structural)]
pub enum ColorScheme {
    /// Audacity-like colors.
    Audacity,
    /// Adobe Audition-like colors.
    Audition,
}

/// Complete color settings for waveform rendering.
#[derive(Debug)]
pub struct WaveformColors {
    /// Border color.
    pub border: Color,
    /// Background color.
    pub background: Color,
    /// Per-channel waveform colors. Channels wrap if there are fewer colors than channels.
    pub waveform: Vec<Color>,
    /// Axis-label color.
    pub axis_label: Color,
}

/// The Audacity-inspired palette.
pub open spec fn is_audacity(c: WaveformColors) -> bool {
    &&& c.border == Color { red: 0, green: 0, blue: 0, alpha: 255 }
    &&& c.background == Color { red: 214, green: 214, blue: 214, alpha: 255 }
    &&& c.waveform@ == seq![Color { red: 63, green: 77, blue: 155, alpha: 255 }]
    &&& c.axis_label == Color { red: 0, green: 0, blue: 0, alpha: 255 }
}

/// The Adobe Audition-inspired palette.
pub open spec fn is_audition(c: WaveformColors) -> bool {
    &&& c.border == Color { red: 157, green: 157, blue: 157, alpha: 255 }
    &&& c.background == Color { red: 0, green: 63, blue: 34, alpha: 255 }
    &&& c.waveform@ == seq![Color { red: 134, green: 252, blue: 199, alpha: 255 }]
    &&& c.axis_label == Color { red: 190, green: 190, blue: 190, alpha: 255 }
}

/// The border color of a scheme's palette.
pub open spec fn palette_border(s: ColorScheme) -> Color {
    match s {
        ColorScheme::Audacity => Color { red: 0, green: 0, blue: 0, alpha: 255 },
        ColorScheme::Audition => Color { red: 157, green: 157, blue: 157, alpha: 255 },
    }
}

/// The background color of a scheme's palette.
pub open spec fn palette_background(s: ColorScheme) -> Color {
    match s {
        ColorScheme::Audacity => Color { red: 214, green: 214, blue: 214, alpha: 255 },
        ColorScheme::Audition => Color { red: 0, green: 63, blue: 34, alpha: 255 },
    }
}

/// The waveform colors of a scheme's palette.
pub open spec fn palette_waveform(s: ColorScheme) -> Seq<Color> {
    match s {
        ColorScheme::Audacity => seq![Color { red: 63, green: 77, blue: 155, alpha: 255 }],
        ColorScheme::Audition => seq![Color { red: 134, green: 252, blue: 199, alpha: 255 }],
    }
}

/// The axis-label color of a scheme's palette.
pub open spec fn palette_axis_label(s: ColorScheme) -> Color {
    match s {
        ColorScheme::Audacity => Color { red: 0, green: 0, blue: 0, alpha: 255 },
        ColorScheme::Audition => Color { red: 190, green: 190, blue: 190, alpha: 255 },
    }
}

/// The palette of a scheme.
pub open spec fn is_palette_of(scheme: ColorScheme, c: WaveformColors) -> bool {
    &&& c.border == palette_border(scheme)
    &&& c.background == palette_background(scheme)
    &&& c.waveform@ == palette_waveform(scheme)
    &&& c.axis_label == palette_axis_label(scheme)
}

/// The scheme a lowercase name selects.
pub open spec fn scheme_named(e: Seq<char>) -> Option<ColorScheme> {
    if e == "audacity"@ {
        Some(ColorScheme::Audacity)
    } else if e == "audition"@ {
        Some(ColorScheme::Audition)
    } else {
        None
    }
}

impl ColorScheme {
    /// Returns the full color palette associated with the scheme.
    pub fn palette(self) -> (r: WaveformColors)
        ensures
            is_palette_of(self, r),
    {
        match self {
            ColorScheme::Audacity => WaveformColors::audacity(),
            ColorScheme::Audition => WaveformColors::audition(),
        }
    }

    /// Parses a scheme name, ignoring ASCII case.
    pub fn parse(s: &str) -> (r: Result<ColorScheme, Error>)
        ensures
            scheme_named(ascii_lower(s@)) matches Some(c) ==> r == Ok::<ColorScheme, Error>(c),
            scheme_named(ascii_lower(s@)) is None ==> (r matches Err(e) && is_invalid_argument(
                e,
                "colors"@,
                "Unknown color scheme: "@ + s@,
            )),
    {
        if lowercase_equals(s, "audacity") {
            Ok(ColorScheme::Audacity)
        } else if lowercase_equals(s, "audition") {
            Ok(ColorScheme::Audition)
        } else {
            let mut message = String::from_str("Unknown color scheme: ");
            message.append(s);
            Err(Error::invalid_argument_owned("colors", message))
        }
    }
}

impl std::str::FromStr for ColorScheme {
    type Err = Error;

    fn from_str(s: &str) -> (r: Result<ColorScheme, Error>)
        ensures
            scheme_named(ascii_lower(s@)) matches Some(c) ==> r == Ok::<ColorScheme, Error>(c),
            scheme_named(ascii_lower(s@)) is None ==> (r matches Err(e) && is_invalid_argument(
                e,
                "colors"@,
                "Unknown color scheme: "@ + s@,
            )),
    {
        ColorScheme::parse(s)
    }
}

impl WaveformColors {
    /// Returns the Audacity-inspired palette.
    pub fn audacity() -> (r: WaveformColors)
        ensures
            is_audacity(r),
    {
        let mut waveform: Vec<Color> = Vec::new();
        waveform.push(Color::opaque(63, 77, 155));
        WaveformColors {
            border: Color::opaque(0, 0, 0),
            background: Color::opaque(214, 214, 214),
            waveform,
            axis_label: Color::opaque(0, 0, 0),
        }
    }

    /// Returns the Adobe Audition-inspired palette.
    pub fn audition() -> (r: WaveformColors)
        ensures
            is_audition(r),
    {
        let mut waveform: Vec<Color> = Vec::new();
        waveform.push(Color::opaque(134, 252, 199));
        WaveformColors {
            border: Color::opaque(157, 157, 157),
            background: Color::opaque(0, 63, 34),
            waveform,
            axis_label: Color::opaque(190, 190, 190),
        }
    }

    /// Returns `true` when any configured color uses transparency.
    pub fn has_alpha(&self) -> (r: bool)
        ensures
            r == (self.border.alpha < 255 || self.background.alpha < 255 || self.axis_label.alpha
                < 255 || exists|i: int| 0 <= i < self.waveform@.len() && #[trigger] self.waveform@[i].alpha < 255),
    {
        if self.border.has_alpha() || self.background.has_alpha() || self.axis_label.has_alpha() {
            return true;
        }
        let n = self.waveform.len();
        let mut i: usize = 0;
        while i < n
            invariant
                n == self.waveform@.len(),
                i <= n,
                forall|k: int| 0 <= k < i ==> !(#[trigger] self.waveform@[k].alpha < 255),
            decreases n - i,
        {
            if self.waveform[i].has_alpha() {
                return true;
            }
            i = i + 1;
        }
        false
    }
}

impl Clone for WaveformColors {
    fn clone(&self) -> (r: WaveformColors)
        ensures
            r.border == self.border,
            r.background == self.background,
            r.waveform@ == self.waveform@,
            r.axis_label == self.axis_label,
    {
        let waveform = self.waveform.clone();
        assert(waveform@ =~= self.waveform@);
        WaveformColors {
            border: self.border,
            background: self.background,
            waveform,
            axis_label: self.axis_label,
        }
    }
}

impl Default for WaveformColors {
    fn default() -> (r: WaveformColors)
        ensures
            is_audacity(r),
    {
        WaveformColors::audacity()
    }
}

} // verus!
