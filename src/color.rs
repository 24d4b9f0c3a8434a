//! The sixteen terminal colors, for the text and for its background.
use crate::ansi::{escape_seq, Ansi};
use crate::key::FromKey;
use crate::text::{begins_with, chars_of, lowercase, lowered, opt_view, rest_is};
use vstd::prelude::*;

verus! {

/// A terminal color.
#[derive(Clone, Copy, Debug, PartialEq, Eq, Structural)]
pub enum Color {
    Black,
    Red,
    Green,
    Yellow,
    Blue,
    Magenta,
    Cyan,
    White,
    BrightBlack,
    BrightRed,
    BrightGreen,
    BrightYellow,
    BrightBlue,
    BrightMagenta,
    BrightCyan,
    BrightWhite,
    /// The full reset, `/`: all attributes off.
    Reset,
}

/// The color that a lowercase name stands for; `/` is the full reset.
pub open spec fn color_named(s: Seq<char>) -> Option<Color> {
    if s == "black"@ {
        Some(Color::Black)
    } else if s == "red"@ {
        Some(Color::Red)
    } else if s == "green"@ {
        Some(Color::Green)
    } else if s == "yellow"@ {
        Some(Color::Yellow)
    } else if s == "blue"@ {
        Some(Color::Blue)
    } else if s == "magenta"@ {
        Some(Color::Magenta)
    } else if s == "cyan"@ {
        Some(Color::Cyan)
    } else if s == "white"@ {
        Some(Color::White)
    } else if s == "bright black"@ {
        Some(Color::BrightBlack)
    } else if s == "bright red"@ {
        Some(Color::BrightRed)
    } else if s == "bright green"@ {
        Some(Color::BrightGreen)
    } else if s == "bright yellow"@ {
        Some(Color::BrightYellow)
    } else if s == "bright blue"@ {
        Some(Color::BrightBlue)
    } else if s == "bright magenta"@ {
        Some(Color::BrightMagenta)
    } else if s == "bright cyan"@ {
        Some(Color::BrightCyan)
    } else if s == "bright white"@ {
        Some(Color::BrightWhite)
    } else if s == "/"@ {
        Some(Color::Reset)
    } else {
        None
    }
}

/// The lowercase name of a color (`/` for the reset).
pub open spec fn color_name(c: Color) -> Seq<char> {
    match c {
        Color::Black => "black"@,
        Color::Red => "red"@,
        Color::Green => "green"@,
        Color::Yellow => "yellow"@,
        Color::Blue => "blue"@,
        Color::Magenta => "magenta"@,
        Color::Cyan => "cyan"@,
        Color::White => "white"@,
        Color::BrightBlack => "bright black"@,
        Color::BrightRed => "bright red"@,
        Color::BrightGreen => "bright green"@,
        Color::BrightYellow => "bright yellow"@,
        Color::BrightBlue => "bright blue"@,
        Color::BrightMagenta => "bright magenta"@,
        Color::BrightCyan => "bright cyan"@,
        Color::BrightWhite => "bright white"@,
        Color::Reset => "/"@,
    }
}

/// The SGR parameter that sets the text to this color.
pub open spec fn fg_value(c: Color) -> u8 {
    match c {
        Color::Black => 30,
        Color::Red => 31,
        Color::Green => 32,
        Color::Yellow => 33,
        Color::Blue => 34,
        Color::Magenta => 35,
        Color::Cyan => 36,
        Color::White => 37,
        Color::BrightBlack => 90,
        Color::BrightRed => 91,
        Color::BrightGreen => 92,
        Color::BrightYellow => 93,
        Color::BrightBlue => 94,
        Color::BrightMagenta => 95,
        Color::BrightCyan => 96,
        Color::BrightWhite => 97,
        Color::Reset => 0,
    }
}

/// The SGR parameter that sets the background to this color.
pub open spec fn bg_value(c: Color) -> u8 {
    match c {
        Color::Black => 40,
        Color::Red => 41,
        Color::Green => 42,
        Color::Yellow => 43,
        Color::Blue => 44,
        Color::Magenta => 45,
        Color::Cyan => 46,
        Color::White => 47,
        Color::BrightBlack => 100,
        Color::BrightRed => 101,
        Color::BrightGreen => 102,
        Color::BrightYellow => 103,
        Color::BrightBlue => 104,
        Color::BrightMagenta => 105,
        Color::BrightCyan => 106,
        Color::BrightWhite => 107,
        Color::Reset => 0,
    }
}

/// `k` begins with `on `, the mark of a background color.
pub open spec fn is_background_key(k: Seq<char>) -> bool {
    "on "@.len() <= k.len() && k.take("on "@.len() as int) == "on "@
}

/// The escape sequence for a lowercase key that names a color, if it does:
/// `name` sets the text color, `on name` the background color. The reset
/// `/` has no background form.
pub open spec fn color_fragment(k: Seq<char>) -> Option<Seq<char>> {
    if is_background_key(k) {
        match color_named(k.skip("on "@.len() as int)) {
            Some(Color::Reset) => None,
            Some(c) => Some(escape_seq(bg_value(c) as nat)),
            None => None,
        }
    } else {
        match color_named(k) {
            Some(c) => Some(escape_seq(fg_value(c) as nat)),
            None => None,
        }
    }
}

impl Color {
    /// The SGR parameter for this color as the text color.
    pub fn get_fg_value(&self) -> (r: u8)
        ensures
            r == fg_value(*self),
    {
        match *self {
            Color::Black => 30,
            Color::Red => 31,
            Color::Green => 32,
            Color::Yellow => 33,
            Color::Blue => 34,
            Color::Magenta => 35,
            Color::Cyan => 36,
            Color::White => 37,
            Color::BrightBlack => 90,
            Color::BrightRed => 91,
            Color::BrightGreen => 92,
            Color::BrightYellow => 93,
            Color::BrightBlue => 94,
            Color::BrightMagenta => 95,
            Color::BrightCyan => 96,
            Color::BrightWhite => 97,
            Color::Reset => 0,
        }
    }

    /// The SGR parameter for this color as the background color.
    pub fn get_bg_value(&self) -> (r: u8)
        ensures
            r == bg_value(*self),
    {
        match *self {
            Color::Black => 40,
            Color::Red => 41,
            Color::Green => 42,
            Color::Yellow => 43,
            Color::Blue => 44,
            Color::Magenta => 45,
            Color::Cyan => 46,
            Color::White => 47,
            Color::BrightBlack => 100,
            Color::BrightRed => 101,
            Color::BrightGreen => 102,
            Color::BrightYellow => 103,
            Color::BrightBlue => 104,
            Color::BrightMagenta => 105,
            Color::BrightCyan => 106,
            Color::BrightWhite => 107,
            Color::Reset => 0,
        }
    }

    /// The color whose lowercase name is `name`.
    pub fn from_name(name: &str) -> (r: Option<Color>)
        ensures
            r == color_named(name@),
    {
        let v = chars_of(name);
        proof {
            assert(v@.subrange(0, v@.len() as int) =~= v@);
        }
        Color::name_at(&v, 0)
    }

    fn name_at(v: &Vec<char>, from: usize) -> (r: Option<Color>)
        requires
            from <= v@.len(),
        ensures
            r == color_named(v@.subrange(from as int, v@.len() as int)),
    {
        if rest_is(v, from, "black") {
            Some(Color::Black)
        } else if rest_is(v, from, "red") {
            Some(Color::Red)
        } else if rest_is(v, from, "green") {
            Some(Color::Green)
        } else if rest_is(v, from, "yellow") {
            Some(Color::Yellow)
        } else if rest_is(v, from, "blue") {
            Some(Color::Blue)
        } else if rest_is(v, from, "magenta") {
            Some(Color::Magenta)
        } else if rest_is(v, from, "cyan") {
            Some(Color::Cyan)
        } else if rest_is(v, from, "white") {
            Some(Color::White)
        } else if rest_is(v, from, "bright black") {
            Some(Color::BrightBlack)
        } else if rest_is(v, from, "bright red") {
            Some(Color::BrightRed)
        } else if rest_is(v, from, "bright green") {
            Some(Color::BrightGreen)
        } else if rest_is(v, from, "bright yellow") {
            Some(Color::BrightYellow)
        } else if rest_is(v, from, "bright blue") {
            Some(Color::BrightBlue)
        } else if rest_is(v, from, "bright magenta") {
            Some(Color::BrightMagenta)
        } else if rest_is(v, from, "bright cyan") {
            Some(Color::BrightCyan)
        } else if rest_is(v, from, "bright white") {
            Some(Color::BrightWhite)
        } else if rest_is(v, from, "/") {
            Some(Color::Reset)
        } else {
            None
        }
    }
}

impl FromKey for Color {
    /// The escape sequence for a color key, matched without regard to case.
    fn from_key(key: &str) -> (r: Option<String>)
        ensures
            opt_view(r) == color_fragment(lowered(key@)),
    {
        let low = lowercase(key);
        let v = chars_of(low.as_str());
        if begins_with(&v, "on ") {
            let n = "on ".unicode_len();
            match Color::name_at(&v, n) {
                Some(Color::Reset) => None,
                Some(c) => Some(Ansi::escape(c.get_bg_value())),
                None => None,
            }
        } else {
            proof {
                assert(v@.subrange(0, v@.len() as int) =~= v@);
            }
            match Color::name_at(&v, 0) {
                Some(c) => Some(Ansi::escape(c.get_fg_value())),
                None => None,
            }
        }
    }
}

} // verus!
