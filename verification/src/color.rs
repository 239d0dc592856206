use vstd::prelude::*;

verus! {

/// A terminal background color: one 8-bit channel each for red, green and
/// blue. Produced by successfully parsing a terminal's reply to the OSC 11
/// background-color query.
#[derive(Clone, Copy, Debug, PartialEq, Eq, Structural)]
pub struct RgbColor {
    pub red: u8,
    pub green: u8,
    pub blue: u8,
}

/// Whether a background color reads as light or dark; `Unknown` stands for
/// a terminal whose color could not be obtained at all.
#[derive(Clone, Copy, Debug, PartialEq, Eq, Structural)]
pub enum BackgroundStyle {
    Light,
    Dark,
    Unknown,
}

/// The square of a color's HSP perceptual brightness, scaled by 4000.
///
/// HSP brightness is the square root of the weighted sum of the squared
/// channels, with weights 299/1000 (red), 587/1000 (green) and 114/1000
/// (blue). Scaling the squared sum by 4000 clears every denominator, so the
/// brightness order of two colors is exactly the order of these integers.
pub open spec fn hsp_scaled_sq(c: RgbColor) -> int {
    1196 * ((c.red as int) * (c.red as int)) + 2348 * ((c.green as int) * (c.green as int)) + 456
        * ((c.blue as int) * (c.blue as int))
}

/// The classification threshold on the same scale as [`hsp_scaled_sq`]:
/// 4000 times the square of 255/2.
pub open spec fn light_threshold_scaled_sq() -> int {
    65025000
}

/// A color is `Light` exactly when its HSP brightness strictly exceeds
/// 255/2, which on the scaled-square side is a strict comparison against
/// [`light_threshold_scaled_sq`]; every other color, the threshold itself
/// included, is `Dark`. No color classifies as `Unknown`.
pub open spec fn classify(c: RgbColor) -> BackgroundStyle {
    if hsp_scaled_sq(c) > light_threshold_scaled_sq() {
        BackgroundStyle::Light
    } else {
        BackgroundStyle::Dark
    }
}

/// Classifies a color as light or dark by its HSP perceptual brightness.
pub fn hsp(color: RgbColor) -> (style: BackgroundStyle)
    ensures
        style == classify(color),
{
    let r: u32 = color.red as u32;
    let g: u32 = color.green as u32;
    let b: u32 = color.blue as u32;
    assert(r * r <= 65025 && g * g <= 65025 && b * b <= 65025) by (nonlinear_arith)
        requires
            r <= 255,
            g <= 255,
            b <= 255,
    ;
    let sum: u32 = 1196 * (r * r) + 2348 * (g * g) + 456 * (b * b);
    if sum > 65025000 {
        BackgroundStyle::Light
    } else {
        BackgroundStyle::Dark
    }
}

/// Classification is total: every representable color is `Light` or `Dark`,
/// and it is `Light` exactly when it is not `Dark`.
pub proof fn lemma_classify_total(c: RgbColor)
    ensures
        classify(c) == BackgroundStyle::Light || classify(c) == BackgroundStyle::Dark,
        (classify(c) == BackgroundStyle::Light) <==> !(classify(c) == BackgroundStyle::Dark),
{
}

/// The threshold for `Light` is a strict inequality: a color at or below
/// the threshold — one whose HSP brightness would be exactly 255/2
/// included — classifies as `Dark`.
pub proof fn lemma_threshold_is_dark(c: RgbColor)
    ensures
        hsp_scaled_sq(c) == light_threshold_scaled_sq() ==> classify(c) == BackgroundStyle::Dark,
        hsp_scaled_sq(c) <= light_threshold_scaled_sq() <==> classify(c) == BackgroundStyle::Dark,
{
}

/// The lowercase hexadecimal digit for a value below sixteen.
pub open spec fn hex_char(d: int) -> char {
    if d == 0 {
        '0'
    } else if d == 1 {
        '1'
    } else if d == 2 {
        '2'
    } else if d == 3 {
        '3'
    } else if d == 4 {
        '4'
    } else if d == 5 {
        '5'
    } else if d == 6 {
        '6'
    } else if d == 7 {
        '7'
    } else if d == 8 {
        '8'
    } else if d == 9 {
        '9'
    } else if d == 10 {
        'a'
    } else if d == 11 {
        'b'
    } else if d == 12 {
        'c'
    } else if d == 13 {
        'd'
    } else if d == 14 {
        'e'
    } else {
        'f'
    }
}

/// The two lowercase hexadecimal digits of a byte, high digit first.
pub open spec fn hex_byte(b: u8) -> Seq<char> {
    seq![hex_char(b as int / 16), hex_char(b as int % 16)]
}

/// The rendering of a color as a lowercase `#rrggbb` string.
pub open spec fn hex_render(c: RgbColor) -> Seq<char> {
    seq!['#'] + hex_byte(c.red) + hex_byte(c.green) + hex_byte(c.blue)
}

fn hex_digit_str(d: u8) -> (s: &'static str)
    requires
        d < 16,
    ensures
        s@ == seq![hex_char(d as int)],
{
    proof {
        reveal_strlit("0");
        reveal_strlit("1");
        reveal_strlit("2");
        reveal_strlit("3");
        reveal_strlit("4");
        reveal_strlit("5");
        reveal_strlit("6");
        reveal_strlit("7");
        reveal_strlit("8");
        reveal_strlit("9");
        reveal_strlit("a");
        reveal_strlit("b");
        reveal_strlit("c");
        reveal_strlit("d");
        reveal_strlit("e");
        reveal_strlit("f");
    }
    let s: &'static str = match d {
        0 => "0",
        1 => "1",
        2 => "2",
        3 => "3",
        4 => "4",
        5 => "5",
        6 => "6",
        7 => "7",
        8 => "8",
        9 => "9",
        10 => "a",
        11 => "b",
        12 => "c",
        13 => "d",
        14 => "e",
        _ => "f",
    };
    proof {
        assert(s@ =~= seq![hex_char(d as int)]);
    }
    s
}

fn push_hex_byte(out: &mut String, b: u8)
    ensures
        final(out)@ == old(out)@ + hex_byte(b),
{
    out.append(hex_digit_str(b / 16));
    out.append(hex_digit_str(b % 16));
    proof {
        assert(out@ =~= old(out)@ + hex_byte(b));
    }
}

impl RgbColor {
    /// Renders the color as a lowercase `#rrggbb` hexadecimal string.
    pub fn to_hex(&self) -> (s: String)
        ensures
            s@ == hex_render(*self),
    {
        proof {
            reveal_strlit("#");
        }
        let mut s = String::from_str("#");
        push_hex_byte(&mut s, self.red);
        push_hex_byte(&mut s, self.green);
        push_hex_byte(&mut s, self.blue);
        proof {
            assert(s@ =~= hex_render(*self));
        }
        s
    }
}

/// The textual name of a style: `light`, `dark` or `unknown`.
pub open spec fn style_text(s: BackgroundStyle) -> Seq<char> {
    match s {
        BackgroundStyle::Light => "light"@,
        BackgroundStyle::Dark => "dark"@,
        BackgroundStyle::Unknown => "unknown"@,
    }
}

impl BackgroundStyle {
    /// Renders the style as the token `light`, `dark` or `unknown`.
    pub fn to_text(&self) -> (s: String)
        ensures
            s@ == style_text(*self),
    {
        match self {
            BackgroundStyle::Light => String::from_str("light"),
            BackgroundStyle::Dark => String::from_str("dark"),
            BackgroundStyle::Unknown => String::from_str("unknown"),
        }
    }
}

impl From<RgbColor> for BackgroundStyle {
    /// The conversion a caller uses when it has a color in hand; a caller
    /// that failed to obtain a color uses `Unknown` directly instead.
    fn from(rgb: RgbColor) -> (style: Self)
        ensures
            style == classify(rgb),
    {
        hsp(rgb)
    }
}

impl vstd::std_specs::convert::FromSpecImpl<RgbColor> for BackgroundStyle {
    open spec fn obeys_from_spec() -> bool {
        true
    }

    open spec fn from_spec(rgb: RgbColor) -> Self {
        classify(rgb)
    }
}

impl Default for RgbColor {
    /// The all-zero (black) color.
    fn default() -> (c: Self)
        ensures
            c.red == 0 && c.green == 0 && c.blue == 0,
    {
        RgbColor { red: 0, green: 0, blue: 0 }
    }
}

} // verus!
