//! Terminal colours: the ANSI escape sequences that set the colour of the
//! text that follows.
use vstd::prelude::*;

verus! {

/// A terminal colour.
#[derive(Debug, Clone, Copy, PartialEq, Eq, Structural)]
pub enum Color {
    Black,
    DarkGray,
    Red,
    LightRed,
    Green,
    LightGreen,
    Yellow,
    LightYellow,
    Blue,
    LightBlue,
    Purple,
    LightPurple,
    Magenta,
    LightMagenta,
    Cyan,
    LightCyan,
    White,
    LightGray,
    Default,
}

/// The ANSI code of a colour and whether it is the light variant.
pub open spec fn spec_code(c: Color) -> (u8, bool) {
    match c {
        Color::Black => (0, false),
        Color::DarkGray => (0, true),
        Color::Red => (1, false),
        Color::LightRed => (1, true),
        Color::Green => (2, false),
        Color::LightGreen => (2, true),
        Color::Yellow => (3, false),
        Color::LightYellow => (3, true),
        Color::Blue => (4, false),
        Color::LightBlue => (4, true),
        Color::Purple | Color::Magenta => (5, false),
        Color::LightPurple | Color::LightMagenta => (5, true),
        Color::Cyan => (6, false),
        Color::LightCyan => (6, true),
        Color::White => (7, false),
        Color::LightGray => (7, true),
        Color::Default => (9, false),
    }
}

/// The parameter that selects a colour as the foreground: 90 and up for the
/// light variants, 30 and up for the others.
pub open spec fn spec_fg(c: Color) -> u8 {
    let (code, light) = spec_code(c);
    if light {
        (code + 90) as u8
    } else {
        (code + 30) as u8
    }
}

impl Color {
    /// The ANSI code of the colour and whether it is the light variant.
    pub fn code(self) -> (r: (u8, bool))
        ensures
            r == spec_code(self),
    {
        match self {
            Color::Black => (0, false),
            Color::DarkGray => (0, true),
            Color::Red => (1, false),
            Color::LightRed => (1, true),
            Color::Green => (2, false),
            Color::LightGreen => (2, true),
            Color::Yellow => (3, false),
            Color::LightYellow => (3, true),
            Color::Blue => (4, false),
            Color::LightBlue => (4, true),
            Color::Purple | Color::Magenta => (5, false),
            Color::LightPurple | Color::LightMagenta => (5, true),
            Color::Cyan => (6, false),
            Color::LightCyan => (6, true),
            Color::White => (7, false),
            Color::LightGray => (7, true),
            Color::Default => (9, false),
        }
    }

    /// The parameter that selects the colour as the foreground.
    pub fn fg(self) -> (r: u8)
        ensures
            r == spec_fg(self),
            30 <= r <= 39 || 90 <= r <= 97,
    {
        let (code, light) = self.code();
        if light {
            code + 90
        } else {
            code + 30
        }
    }
}

/// `c` and `d` name the same colour: they are equal, or purple and magenta
/// (light or not), which the terminal does not tell apart.
pub open spec fn same_colour(c: Color, d: Color) -> bool {
    ||| c == d
    ||| (c == Color::Purple || c == Color::Magenta) && (d == Color::Purple || d == Color::Magenta)
    ||| (c == Color::LightPurple || c == Color::LightMagenta) && (d == Color::LightPurple || d
        == Color::LightMagenta)
}

/// The eight base colours of the ANSI standard, in the order of their codes.
pub open spec fn ansi_base_colours() -> Seq<Color> {
    seq![
        Color::Black,
        Color::Red,
        Color::Green,
        Color::Yellow,
        Color::Blue,
        Color::Magenta,
        Color::Cyan,
        Color::White,
    ]
}

/// The light variants of the base colours, in the same order.
pub open spec fn ansi_light_colours() -> Seq<Color> {
    seq![
        Color::DarkGray,
        Color::LightRed,
        Color::LightGreen,
        Color::LightYellow,
        Color::LightBlue,
        Color::LightMagenta,
        Color::LightCyan,
        Color::LightGray,
    ]
}

/// The ANSI standard numbers the base colours 0 to 7 in the order black,
/// red, green, yellow, blue, magenta, cyan, white: the `i`-th base colour
/// has foreground parameter `30 + i`, and its light variant `90 + i`.
pub proof fn law_ansi_colour_order(i: int)
    requires
        0 <= i < 8,
    ensures
        spec_fg(ansi_base_colours()[i]) == 30 + i,
        spec_fg(ansi_light_colours()[i]) == 90 + i,
        spec_code(ansi_base_colours()[i]) == (i as u8, false),
        spec_code(ansi_light_colours()[i]) == (i as u8, true),
{
}

/// Colours that the terminal tells apart have different foreground
/// parameters, and the default colour has parameter 39.
pub proof fn law_colours_distinct(c: Color, d: Color)
    ensures
        spec_fg(c) == spec_fg(d) <==> same_colour(c, d),
        spec_fg(Color::Default) == 39,
{
}

/// The bytes `ESC [ <fg> ; 1 m` that make the text that follows bold and of
/// the colour whose foreground parameter is `fg` (two decimal digits).
pub open spec fn spec_start_sequence(fg: u8) -> Seq<u8> {
    seq![0x1bu8, 0x5bu8, (0x30 + fg / 10) as u8, (0x30 + fg % 10) as u8, 0x3bu8, 0x31u8, 0x6du8]
}

/// The bytes `ESC [ 0 m` that reset the colour.
pub open spec fn spec_end_sequence() -> Seq<u8> {
    seq![0x1bu8, 0x5bu8, 0x30u8, 0x6du8]
}

/// A value shown in a colour: the start sequence of the colour, the value,
/// then the reset sequence.
pub struct WithFg<T>(Color, T);

impl<T> WithFg<T> {
    /// The colour.
    pub closed spec fn spec_color(&self) -> Color {
        self.0
    }

    /// The value.
    pub closed spec fn spec_value(&self) -> T {
        self.1
    }

    /// `value` in the colour `color`.
    pub fn new(color: Color, value: T) -> (r: Self)
        ensures
            r.spec_color() == color,
            r.spec_value() == value,
    {
        WithFg(color, value)
    }

    /// The colour.
    pub fn color(&self) -> (r: Color)
        ensures
            r == self.spec_color(),
    {
        self.0
    }

    /// The value.
    pub fn value(&self) -> (r: &T)
        ensures
            *r == self.spec_value(),
    {
        &self.1
    }

    /// The colour and the value, taken apart.
    pub fn into_parts(self) -> (r: (Color, T))
        ensures
            r.0 == self.spec_color(),
            r.1 == self.spec_value(),
    {
        (self.0, self.1)
    }

    /// The bytes written before the value.
    pub fn start_sequence(&self) -> (r: Vec<u8>)
        ensures
            r@ == spec_start_sequence(spec_fg(self.spec_color())),
    {
        let fg = self.0.fg();
        let mut v: Vec<u8> = Vec::new();
        v.push(0x1b);
        v.push(0x5b);
        v.push(0x30 + fg / 10);
        v.push(0x30 + fg % 10);
        v.push(0x3b);
        v.push(0x31);
        v.push(0x6d);
        v
    }

    /// The bytes written after the value.
    pub fn end_sequence(&self) -> (r: Vec<u8>)
        ensures
            r@ == spec_end_sequence(),
    {
        let mut v: Vec<u8> = Vec::new();
        v.push(0x1b);
        v.push(0x5b);
        v.push(0x30);
        v.push(0x6d);
        v
    }
}

} // verus!
