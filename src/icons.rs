//! Glyphs that can be printed beside a message.
use crate::key::FromKey;
use crate::text::{lowercase, lowered, opt_view, text_equal};
use vstd::prelude::*;

verus! {

/// A glyph for the terminal.
#[derive(Clone, Copy, Debug, PartialEq, Eq, Structural)]
pub enum LogIcon {
    /// A check mark, for things that went well.
    Tick,
    /// A cross, for things that went wrong.
    Cross,
    /// A fancy `i`, for information.
    Info,
    /// A warning triangle.
    Warning,
    /// A heart.
    Heart,
}

/// The icon that a lowercase name stands for.
pub open spec fn icon_named(s: Seq<char>) -> Option<LogIcon> {
    if s == "tick"@ {
        Some(LogIcon::Tick)
    } else if s == "cross"@ {
        Some(LogIcon::Cross)
    } else if s == "info"@ {
        Some(LogIcon::Info)
    } else if s == "warn"@ {
        Some(LogIcon::Warning)
    } else if s == "heart"@ {
        Some(LogIcon::Heart)
    } else {
        None
    }
}

/// The glyph of an icon.
pub open spec fn icon_glyph(i: LogIcon) -> Seq<char> {
    match i {
        LogIcon::Tick => "✔"@,
        LogIcon::Cross => "✖"@,
        LogIcon::Info => "ℹ"@,
        LogIcon::Warning => "⚠"@,
        LogIcon::Heart => "♥"@,
    }
}

/// The glyph for a lowercase key that names an icon, if it does.
pub open spec fn icon_fragment(k: Seq<char>) -> Option<Seq<char>> {
    match icon_named(k) {
        Some(i) => Some(icon_glyph(i)),
        None => None,
    }
}

impl LogIcon {
    /// The glyph of this icon.
    pub fn to_str(&self) -> (r: &'static str)
        ensures
            r@ == icon_glyph(*self),
    {
        match *self {
            LogIcon::Tick => "✔",
            LogIcon::Cross => "✖",
            LogIcon::Info => "ℹ",
            LogIcon::Warning => "⚠",
            LogIcon::Heart => "♥",
        }
    }

    /// The glyph for an icon key, matched without regard to case.
    pub fn from_key(key: &str) -> (r: Option<String>)
        ensures
            opt_view(r) == icon_fragment(lowered(key@)),
    {
        <LogIcon as FromKey>::from_key(key)
    }

    /// The icon whose lowercase name is `name`.
    pub fn from_name(name: &str) -> (r: Option<LogIcon>)
        ensures
            r == icon_named(name@),
    {
        if text_equal(name, "tick") {
            Some(LogIcon::Tick)
        } else if text_equal(name, "cross") {
            Some(LogIcon::Cross)
        } else if text_equal(name, "info") {
            Some(LogIcon::Info)
        } else if text_equal(name, "warn") {
            Some(LogIcon::Warning)
        } else if text_equal(name, "heart") {
            Some(LogIcon::Heart)
        } else {
            None
        }
    }
}

impl FromKey for LogIcon {
    /// The glyph for an icon key, matched without regard to case.
    fn from_key(key: &str) -> (r: Option<String>)
        ensures
            opt_view(r) == icon_fragment(lowered(key@)),
    {
        let low = lowercase(key);
        match LogIcon::from_name(low.as_str()) {
            Some(i) => Some(String::from_str(i.to_str())),
            None => None,
        }
    }
}

} // verus!
