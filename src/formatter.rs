//! The rewriter: every tag of a text replaced by what it resolves to.
use crate::custom::{expand_keys, tag_of, CustomStyle};
use crate::key::{builtin_fragment, normalize, Key};
use crate::key_list::{tags, tags_from, KeyList};
use crate::text::{chars_of, push_range, text_of};
use vstd::prelude::*;

verus! {

/// The custom styles of a formatter: for each, its tag and its keys.
pub type Styles = Seq<(Seq<char>, Seq<Seq<char>>)>;

/// The expansion of the first style called up by `tag`, if any is.
pub open spec fn custom_text(styles: Styles, tag: Seq<char>) -> Option<Seq<char>>
    decreases styles.len(),
{
    if styles.len() == 0 {
        None
    } else if styles[0].0 == tag {
        Some(expand_keys(styles[0].1))
    } else {
        custom_text(styles.drop_first(), tag)
    }
}

/// The text that replaces `tag`: the built-in tables first, then the custom
/// styles, and else the tag itself.
pub open spec fn tag_text(styles: Styles, tag: Seq<char>) -> Seq<char> {
    match builtin_fragment(normalize(tag)) {
        Some(f) => f,
        None => match custom_text(styles, tag) {
            Some(x) => x,
            None => tag,
        },
    }
}

/// `s` from `from` on, with each of the given spans replaced by its text.
pub open spec fn rewrite(s: Seq<char>, spans: Seq<(int, int)>, from: int, styles: Styles) -> Seq<
    char,
>
    decreases spans.len(),
{
    if spans.len() == 0 {
        s.subrange(from, s.len() as int)
    } else {
        s.subrange(from, spans[0].0) + tag_text(styles, s.subrange(spans[0].0, spans[0].1))
            + rewrite(s, spans.drop_first(), spans[0].1, styles)
    }
}

/// `s` with every tag replaced by its text and all else kept as it was.
pub open spec fn colorized(s: Seq<char>, styles: Styles) -> Seq<char> {
    rewrite(s, tags(s), 0, styles)
}

/// Resolves tags, with custom styles on top of the built-in tables.
pub struct Formatter {
    custom_styles: Vec<CustomStyle>,
}

impl View for Formatter {
    type V = Styles;

    /// The custom styles, in the order they were added.
    closed spec fn view(&self) -> Styles {
        self.custom_styles@.map_values(|c: CustomStyle| c@)
    }
}

impl Formatter {
    /// A formatter with no custom styles.
    pub fn new() -> (r: Formatter)
        ensures
            r@ == Seq::<(Seq<char>, Seq<Seq<char>>)>::empty(),
    {
        let r = Formatter { custom_styles: Vec::new() };
        proof {
            assert(r@ =~= Seq::<(Seq<char>, Seq<Seq<char>>)>::empty());
        }
        r
    }

    /// Adds a style called up by `<key>` that stands for `colors`.
    pub fn new_style(&mut self, key: &str, colors: Vec<&str>) -> (r: &mut Formatter)
        ensures
            (*r)@ == old(self)@.push((tag_of(key@), colors@.map_values(|c: &str| c@))),
            *final(self) == *final(r),
    {
        let style = CustomStyle::new(key, colors);
        let ghost before = self.custom_styles@;
        self.custom_styles.push(style);
        proof {
            assert(self.custom_styles@.map_values(|c: CustomStyle| c@) =~= before.map_values(
                |c: CustomStyle| c@,
            ).push(style@));
        }
        self
    }

    /// The first custom style that `key` calls up, if any does: the earliest
    /// added style whose tag is the text of `key`.
    fn as_style(&self, key: &Key) -> (r: Option<&CustomStyle>)
        ensures
            match r {
                Some(st) => exists|i: int|
                    {
                        &&& 0 <= i < self@.len()
                        &&& #[trigger] self@[i] == st@
                        &&& self@[i].0 == key@
                        &&& forall|j: int| 0 <= j < i ==> self@[j].0 != key@
                    },
                None => forall|j: int| 0 <= j < self@.len() ==> self@[j].0 != key@,
            },
            match r {
                Some(st) => custom_text(self@, key@) == Some(expand_keys(st@.1)),
                None => custom_text(self@, key@) is None,
            },
    {
        let ghost all = self@;
        let mut i: usize = 0;
        proof {
            assert(all.skip(0) =~= all);
        }
        while i < self.custom_styles.len()
            invariant
                i <= self.custom_styles@.len(),
                all == self@,
                all == self.custom_styles@.map_values(|c: CustomStyle| c@),
                custom_text(all, key@) == custom_text(all.skip(i as int), key@),
                forall|j: int| 0 <= j < i ==> all[j].0 != key@,
            decreases self.custom_styles@.len() - i,
        {
            let st = &self.custom_styles[i];
            proof {
                assert(all[i as int] == st@);
                assert(all.skip(i as int)[0] == st@);
                assert(all.skip(i as int).drop_first() =~= all.skip(i + 1));
            }
            if text_is_key(st.key(), key) {
                return Some(st);
            }
            i = i + 1;
        }
        proof {
            assert(all.skip(i as int).len() == 0);
        }
        None
    }

    /// The text that replaces `key`.
    fn fragment(&self, key: &Key) -> (r: String)
        ensures
            r@ == tag_text(self@, key@),
    {
        match key.resolve() {
            Some(f) => f,
            None => match self.as_style(key) {
                Some(st) => st.expand(),
                None => String::from_str(key.contents()),
            },
        }
    }

    /// `input` with every tag replaced by its text: its built-in fragment,
    /// else the expansion of the custom style it calls up, else the tag as
    /// it stands. All text outside tags is kept as it was.
    pub fn colorize(&self, input: &str) -> (r: String)
        ensures
            r@ == colorized(input@, self@),
    {
        let ghost s = input@;
        let chars = chars_of(input);
        let n = chars.len();
        let mut scan = KeyList::new(input);
        let mut out = String::new();
        let mut last: usize = 0;
        proof {
            assert(out@ + rewrite(s, tags_from(s, 0), 0, self@) =~= colorized(s, self@));
        }
        loop
            invariant
                s == input@,
                chars@ == s,
                n == s.len(),
                scan@.0 == s,
                0 <= last <= scan@.1 <= n,
                out@ + rewrite(s, tags_from(s, scan@.1), last as int, self@) == colorized(s, self@),
            decreases n - scan@.1,
        {
            let ghost before = tags_from(s, scan@.1);
            match scan.next_span() {
                Some(t) => {
                    let (p, e) = t;
                    let ghost prev = out@;
                    push_range(&mut out, &chars, last, p);
                    let text = text_of(&chars, p, e);
                    let k = Key::new(text.as_str());
                    let f = self.fragment(&k);
                    out.append(f.as_str());
                    proof {
                        assert(before[0] == (p as int, e as int));
                        assert(before.drop_first() =~= tags_from(s, scan@.1));
                        assert(out@ + rewrite(s, tags_from(s, scan@.1), e as int, self@) =~= prev
                            + rewrite(s, before, last as int, self@));
                    }
                    last = e;
                },
                None => {
                    let ghost prev = out@;
                    push_range(&mut out, &chars, last, n);
                    proof {
                        assert(rewrite(s, before, last as int, self@) == s.subrange(last as int, n as int));
                    }
                    return out;
                },
            }
        }
    }
}

impl Default for Formatter {
    fn default() -> (r: Formatter)
        ensures
            r@ == Seq::<(Seq<char>, Seq<Seq<char>>)>::empty(),
    {
        Formatter::new()
    }
}

/// Whether the tag of a style is the text of `key`.
fn text_is_key(tag: &str, key: &Key) -> (r: bool)
    ensures
        r == (tag@ == key@),
{
    crate::text::text_equal(tag, key.contents())
}

/// `input` with every tag replaced by what the built-in tables make of it;
/// tags that no table knows are kept as they stand.
pub fn colorize_string(input: &str) -> (r: String)
    ensures
        r@ == colorized(input@, Seq::empty()),
{
    let f = Formatter::new();
    f.colorize(input)
}

} // verus!
