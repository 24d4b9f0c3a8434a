//! Text attributes (bold, italic, ...) and the codes that switch each one off.
use crate::ansi::{escape_seq, Ansi};
use crate::key::FromKey;
use crate::text::{chars_of, lowercase, lowered, opt_view, rest_is};
use vstd::prelude::*;

verus! {

/// A text attribute, or the switching off of one.
#[derive(Clone, Copy, Debug, PartialEq, Eq, Structural)]
pub enum Style {
    Bold,
    BoldReset,
    Italic,
    ItalicReset,
    Underline,
    UnderlineReset,
    Dimmed,
    DimmedReset,
    Blink,
    BlinkReset,
    Reverse,
    ReverseReset,
    Hidden,
    HiddenReset,
    Strikethrough,
    StrikethroughReset,
}

/// The style that a lowercase name or one-letter alias stands for; a leading
/// `/` names the reset of that style.
pub open spec fn style_named(s: Seq<char>) -> Option<Style> {
    if s == "bold"@ || s == "b"@ {
        Some(Style::Bold)
    } else if s == "/bold"@ || s == "/b"@ {
        Some(Style::BoldReset)
    } else if s == "italic"@ || s == "i"@ {
        Some(Style::Italic)
    } else if s == "/italic"@ || s == "/i"@ {
        Some(Style::ItalicReset)
    } else if s == "underline"@ || s == "u"@ {
        Some(Style::Underline)
    } else if s == "/underline"@ || s == "/u"@ {
        Some(Style::UnderlineReset)
    } else if s == "dimmed"@ || s == "d"@ {
        Some(Style::Dimmed)
    } else if s == "/dimmed"@ || s == "/d"@ {
        Some(Style::DimmedReset)
    } else if s == "blink"@ || s == "l"@ {
        Some(Style::Blink)
    } else if s == "/blink"@ || s == "/l"@ {
        Some(Style::BlinkReset)
    } else if s == "reverse"@ || s == "r"@ {
        Some(Style::Reverse)
    } else if s == "/reverse"@ || s == "/r"@ {
        Some(Style::ReverseReset)
    } else if s == "hidden"@ || s == "h"@ {
        Some(Style::Hidden)
    } else if s == "/hidden"@ || s == "/h"@ {
        Some(Style::HiddenReset)
    } else if s == "strikethrough"@ || s == "s"@ {
        Some(Style::Strikethrough)
    } else if s == "/strikethrough"@ || s == "/s"@ {
        Some(Style::StrikethroughReset)
    } else {
        None
    }
}

/// The SGR parameter of a style.
pub open spec fn style_value(s: Style) -> u8 {
    match s {
        Style::Bold => 1,
        Style::BoldReset => 22,
        Style::Italic => 3,
        Style::ItalicReset => 23,
        Style::Underline => 4,
        Style::UnderlineReset => 24,
        Style::Dimmed => 2,
        Style::DimmedReset => 22,
        Style::Blink => 5,
        Style::BlinkReset => 25,
        Style::Reverse => 7,
        Style::ReverseReset => 27,
        Style::Hidden => 8,
        Style::HiddenReset => 28,
        Style::Strikethrough => 9,
        Style::StrikethroughReset => 29,
    }
}

/// The escape sequence for a lowercase key that names a style, if it does.
pub open spec fn style_fragment(k: Seq<char>) -> Option<Seq<char>> {
    match style_named(k) {
        Some(s) => Some(escape_seq(style_value(s) as nat)),
        None => None,
    }
}

impl Style {
    /// The SGR parameter of this style.
    pub fn get_value(&self) -> (r: u8)
        ensures
            r == style_value(*self),
    {
        match *self {
            Style::Bold => 1,
            Style::BoldReset => 22,
            Style::Italic => 3,
            Style::ItalicReset => 23,
            Style::Underline => 4,
            Style::UnderlineReset => 24,
            Style::Dimmed => 2,
            Style::DimmedReset => 22,
            Style::Blink => 5,
            Style::BlinkReset => 25,
            Style::Reverse => 7,
            Style::ReverseReset => 27,
            Style::Hidden => 8,
            Style::HiddenReset => 28,
            Style::Strikethrough => 9,
            Style::StrikethroughReset => 29,
        }
    }

    /// The style whose lowercase name or alias is `name`.
    pub fn from_name(name: &str) -> (r: Option<Style>)
        ensures
            r == style_named(name@),
    {
        let v = chars_of(name);
        proof {
            assert(v@.subrange(0, v@.len() as int) =~= v@);
        }
        if rest_is(&v, 0, "bold") || rest_is(&v, 0, "b") {
            Some(Style::Bold)
        } else if rest_is(&v, 0, "/bold") || rest_is(&v, 0, "/b") {
            Some(Style::BoldReset)
        } else if rest_is(&v, 0, "italic") || rest_is(&v, 0, "i") {
            Some(Style::Italic)
        } else if rest_is(&v, 0, "/italic") || rest_is(&v, 0, "/i") {
            Some(Style::ItalicReset)
        } else if rest_is(&v, 0, "underline") || rest_is(&v, 0, "u") {
            Some(Style::Underline)
        } else if rest_is(&v, 0, "/underline") || rest_is(&v, 0, "/u") {
            Some(Style::UnderlineReset)
        } else if rest_is(&v, 0, "dimmed") || rest_is(&v, 0, "d") {
            Some(Style::Dimmed)
        } else if rest_is(&v, 0, "/dimmed") || rest_is(&v, 0, "/d") {
            Some(Style::DimmedReset)
        } else if rest_is(&v, 0, "blink") || rest_is(&v, 0, "l") {
            Some(Style::Blink)
        } else if rest_is(&v, 0, "/blink") || rest_is(&v, 0, "/l") {
            Some(Style::BlinkReset)
        } else if rest_is(&v, 0, "reverse") || rest_is(&v, 0, "r") {
            Some(Style::Reverse)
        } else if rest_is(&v, 0, "/reverse") || rest_is(&v, 0, "/r") {
            Some(Style::ReverseReset)
        } else if rest_is(&v, 0, "hidden") || rest_is(&v, 0, "h") {
            Some(Style::Hidden)
        } else if rest_is(&v, 0, "/hidden") || rest_is(&v, 0, "/h") {
            Some(Style::HiddenReset)
        } else if rest_is(&v, 0, "strikethrough") || rest_is(&v, 0, "s") {
            Some(Style::Strikethrough)
        } else if rest_is(&v, 0, "/strikethrough") || rest_is(&v, 0, "/s") {
            Some(Style::StrikethroughReset)
        } else {
            None
        }
    }
}

impl FromKey for Style {
    /// The escape sequence for a style key, matched without regard to case.
    fn from_key(key: &str) -> (r: Option<String>)
        ensures
            opt_view(r) == style_fragment(lowered(key@)),
    {
        let low = lowercase(key);
        match Style::from_name(low.as_str()) {
            Some(s) => Some(Ansi::escape(s.get_value())),
            None => None,
        }
    }
}

} // verus!
