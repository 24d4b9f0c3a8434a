//! Keys: the text of a tag, its normal form, and what it resolves to.
use crate::ansi::{escape_seq, Ansi};
use crate::color::{color_fragment, Color};
use crate::icons::{icon_fragment, LogIcon};
use crate::style::{style_fragment, Style};
use crate::text::{chars_of, lowered, opt_view, push_char, text_equal};
use vstd::prelude::*;

verus! {

/// A table that resolves a key to the text that replaces it.
pub trait FromKey {
    /// The replacement for `key`, or `None` where the table has no entry.
    fn from_key(key: &str) -> Option<String>;
}

/// `raw` without one leading `<` and one trailing `>`, where they are present.
pub open spec fn strip_delims(raw: Seq<char>) -> Seq<char> {
    let a = if raw.len() > 0 && raw[0] == '<' {
        raw.skip(1)
    } else {
        raw
    };
    if a.len() > 0 && a.last() == '>' {
        a.drop_last()
    } else {
        a
    }
}

/// `_` and `-` read as spaces.
pub open spec fn dash_to_space(c: char) -> char {
    if c == '_' || c == '-' {
        ' '
    } else {
        c
    }
}

/// The normal form of a key: delimiters stripped and, unless the text
/// already holds a space, every `_` and `-` turned into a space.
pub open spec fn normalize(raw: Seq<char>) -> Seq<char> {
    let k = strip_delims(raw);
    if k.contains(' ') {
        k
    } else {
        k.map_values(|c: char| dash_to_space(c))
    }
}

/// The full reset, `ESC [ 0 m`.
pub open spec fn reset_fragment() -> Seq<char> {
    escape_seq(0)
}

/// What the built-in tables make of a normalized key: the reset for `/`,
/// else the first match among colors, styles and icons, compared without
/// regard to case.
pub open spec fn builtin_fragment(clean: Seq<char>) -> Option<Seq<char>> {
    if clean == "/"@ {
        Some(reset_fragment())
    } else if color_fragment(lowered(clean)) is Some {
        color_fragment(lowered(clean))
    } else if style_fragment(lowered(clean)) is Some {
        style_fragment(lowered(clean))
    } else {
        icon_fragment(lowered(clean))
    }
}

/// The text that replaces the key `raw`: its built-in fragment, or `raw`
/// itself where no table knows it.
pub open spec fn key_text(raw: Seq<char>) -> Seq<char> {
    match builtin_fragment(normalize(raw)) {
        Some(f) => f,
        None => raw,
    }
}

/// The text of one tag, such as `<on_bright-green>`, with its normal form.
pub struct Key {
    contents: String,
    clean: String,
}

impl View for Key {
    type V = Seq<char>;

    closed spec fn view(&self) -> Seq<char> {
        self.contents@
    }
}

impl Key {
    #[verifier::type_invariant]
    spec fn clean_matches(&self) -> bool {
        self.clean@ == normalize(self.contents@)
    }

    /// A key over the given text.
    pub fn new(value: &str) -> (k: Key)
        ensures
            k@ == value@,
    {
        let clean = Key::clean(value);
        Key { contents: String::from_str(value), clean }
    }

    /// The text of the key as it was given.
    pub fn contents(&self) -> (r: &str)
        ensures
            r@ == self@,
    {
        self.contents.as_str()
    }

    /// The normal form of `key`.
    pub fn clean(key: &str) -> (r: String)
        ensures
            r@ == normalize(key@),
    {
        let v = chars_of(key);
        let mut start: usize = 0;
        let mut end: usize = v.len();
        if end > 0 && v[0] == '<' {
            start = 1;
        }
        if end > start && v[end - 1] == '>' {
            end = end - 1;
        }
        let ghost k = v@.subrange(start as int, end as int);
        proof {
            let a = if v@.len() > 0 && v@[0] == '<' {
                v@.skip(1)
            } else {
                v@
            };
            assert(a =~= v@.subrange(start as int, v@.len() as int));
            if a.len() > 0 && a.last() == '>' {
                assert(a.drop_last() =~= k);
            } else {
                assert(a =~= k);
            }
            assert(strip_delims(key@) == k);
        }
        let mut has_space = false;
        let mut i: usize = start;
        while i < end
            invariant
                start <= i <= end <= v@.len(),
                k == v@.subrange(start as int, end as int),
                has_space == (exists|j: int| start <= j < i && v@[j] == ' '),
            decreases end - i,
        {
            if v[i] == ' ' {
                has_space = true;
            }
            i = i + 1;
        }
        proof {
            if has_space {
                let j = choose|j: int| start <= j < end && v@[j] == ' ';
                assert(k[j - start] == ' ');
            } else {
                assert forall|j: int| 0 <= j < k.len() implies k[j] != ' ' by {
                    assert(k[j] == v@[start + j]);
                }
            }
            assert(has_space == k.contains(' '));
        }
        let mut out = String::new();
        let mut i: usize = start;
        while i < end
            invariant
                start <= i <= end <= v@.len(),
                k == v@.subrange(start as int, end as int),
                has_space == k.contains(' '),
                out@ == (if has_space {
                    k.take(i - start)
                } else {
                    k.take(i - start).map_values(|c: char| dash_to_space(c))
                }),
            decreases end - i,
        {
            let c = v[i];
            if !has_space && (c == '_' || c == '-') {
                push_char(&mut out, ' ');
            } else {
                push_char(&mut out, c);
            }
            proof {
                assert(k.take(i + 1 - start) =~= k.take(i - start).push(c));
                assert(k.take(i + 1 - start).map_values(|c: char| dash_to_space(c))
                    =~= k.take(i - start).map_values(|c: char| dash_to_space(c)).push(dash_to_space(c)));
            }
            i = i + 1;
        }
        proof {
            assert(k.take(end - start) =~= k);
        }
        out
    }

    /// The color escape sequence of this key, if it names a color.
    pub fn as_color(&self) -> (r: Option<String>)
        ensures
            opt_view(r) == color_fragment(lowered(normalize(self@))),
    {
        proof {
            use_type_invariant(self);
        }
        Color::from_key(self.clean.as_str())
    }

    /// The style escape sequence of this key, if it names a style.
    pub fn as_style(&self) -> (r: Option<String>)
        ensures
            opt_view(r) == style_fragment(lowered(normalize(self@))),
    {
        proof {
            use_type_invariant(self);
        }
        Style::from_key(self.clean.as_str())
    }

    /// The glyph of this key, if it names an icon.
    pub fn as_icon(&self) -> (r: Option<String>)
        ensures
            opt_view(r) == icon_fragment(lowered(normalize(self@))),
    {
        proof {
            use_type_invariant(self);
        }
        LogIcon::from_key(self.clean.as_str())
    }

    /// What the built-in tables make of this key, if any knows it.
    pub fn resolve(&self) -> (r: Option<String>)
        ensures
            opt_view(r) == builtin_fragment(normalize(self@)),
    {
        proof {
            use_type_invariant(self);
        }
        if text_equal(self.clean.as_str(), "/") {
            return Some(Ansi::escape(0));
        }
        let c = self.as_color();
        if c.is_some() {
            return c;
        }
        let s = self.as_style();
        if s.is_some() {
            return s;
        }
        self.as_icon()
    }

    /// The text that replaces this key: its fragment, or the key itself.
    pub fn to_ansi(&self) -> (r: String)
        ensures
            r@ == key_text(self@),
    {
        match self.resolve() {
            Some(f) => f,
            None => self.contents.clone(),
        }
    }
}

} // verus!
