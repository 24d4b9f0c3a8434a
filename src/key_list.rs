//! The tag scanner: finds each `<...>` span of a text, left to right.
use crate::key::Key;
use crate::text::{chars_of, text_of};
use vstd::prelude::*;

verus! {

/// The first position at or after `i` that holds `<`, or the length of `s`.
pub open spec fn next_open(s: Seq<char>, i: int) -> int
    decreases s.len() - i,
{
    if i >= s.len() {
        s.len() as int
    } else if s[i] == '<' {
        i
    } else {
        next_open(s, i + 1)
    }
}

/// The first position at or after `i` that holds `<` or `>`, or the length of `s`.
pub open spec fn next_angle(s: Seq<char>, i: int) -> int
    decreases s.len() - i,
{
    if i >= s.len() {
        s.len() as int
    } else if s[i] == '<' || s[i] == '>' {
        i
    } else {
        next_angle(s, i + 1)
    }
}

/// The tags of `s` from position `i` on, as half-open spans `[start, end)`.
///
/// From the next `<`, the first `<` or `>` after it decides: a `>` closes a
/// tag; a `<` makes the first one a false opening, which is passed over as
/// text, and the search starts again from the second. A `<` that nothing
/// follows up to the end is text too.
pub open spec fn tags_from(s: Seq<char>, i: int) -> Seq<(int, int)>
    decreases s.len() - i,
    via tags_from_decreases
{
    let p = next_open(s, i);
    if p >= s.len() {
        Seq::empty()
    } else {
        let q = next_angle(s, p + 1);
        if q >= s.len() {
            Seq::empty()
        } else if s[q] == '<' {
            tags_from(s, q)
        } else {
            seq![(p, q + 1)] + tags_from(s, q + 1)
        }
    }
}

#[via_fn]
proof fn tags_from_decreases(s: Seq<char>, i: int) {
    let p = next_open(s, i);
    if p < s.len() {
        if i > s.len() {
            assert(p == s.len());
        }
        lemma_next_open_bounds(s, i);
        lemma_next_angle_bounds(s, p + 1);
    }
}

/// The tags of the whole of `s`.
pub open spec fn tags(s: Seq<char>) -> Seq<(int, int)> {
    tags_from(s, 0)
}

/// The texts of the given spans of `s`.
pub open spec fn span_texts(s: Seq<char>, spans: Seq<(int, int)>) -> Seq<Seq<char>> {
    spans.map_values(|t: (int, int)| s.subrange(t.0, t.1))
}

proof fn lemma_next_open_bounds(s: Seq<char>, i: int)
    requires
        i <= s.len(),
    ensures
        i <= next_open(s, i) <= s.len(),
    decreases s.len() - i,
{
    if i < s.len() && s[i] != '<' {
        lemma_next_open_bounds(s, i + 1);
    }
}

proof fn lemma_next_angle_bounds(s: Seq<char>, i: int)
    requires
        i <= s.len(),
    ensures
        i <= next_angle(s, i) <= s.len(),
    decreases s.len() - i,
{
    if i < s.len() && !(s[i] == '<' || s[i] == '>') {
        lemma_next_angle_bounds(s, i + 1);
    }
}

pub proof fn lemma_next_open_at(s: Seq<char>, i: int, j: int)
    requires
        0 <= i <= j <= s.len(),
        forall|k: int| i <= k < j ==> s[k] != '<',
        j == s.len() || s[j] == '<',
    ensures
        next_open(s, i) == j,
    decreases j - i,
{
    if i < j {
        lemma_next_open_at(s, i + 1, j);
    }
}

pub proof fn lemma_next_angle_at(s: Seq<char>, i: int, j: int)
    requires
        0 <= i <= j <= s.len(),
        forall|k: int| i <= k < j ==> s[k] != '<' && s[k] != '>',
        j == s.len() || s[j] == '<' || s[j] == '>',
    ensures
        next_angle(s, i) == j,
    decreases j - i,
{
    if i < j {
        lemma_next_angle_at(s, i + 1, j);
    }
}

/// A scan over a text that hands out its tags one at a time.
pub struct KeyList {
    chars: Vec<char>,
    pos: usize,
}

impl View for KeyList {
    type V = (Seq<char>, int);

    /// The text scanned, and the position from which the scan goes on.
    closed spec fn view(&self) -> (Seq<char>, int) {
        (self.chars@, self.pos as int)
    }
}

impl KeyList {
    /// A scan over `input` from its start.
    pub fn new(input: &str) -> (r: KeyList)
        ensures
            r@ == (input@, 0int),
    {
        KeyList { chars: chars_of(input), pos: 0 }
    }

    /// The span of the next tag, and the scan moved past it.
    pub fn next_span(&mut self) -> (r: Option<(usize, usize)>)
        ensures
            final(self)@.0 == old(self)@.0,
            match r {
                Some(t) => {
                    &&& old(self)@.1 <= t.0 < t.1 == final(self)@.1 <= old(self)@.0.len()
                    &&& tags_from(old(self)@.0, old(self)@.1) == seq![(t.0 as int, t.1 as int)]
                        + tags_from(final(self)@.0, final(self)@.1)
                },
                None => {
                    &&& tags_from(old(self)@.0, old(self)@.1) == Seq::<(int, int)>::empty()
                    &&& tags_from(final(self)@.0, final(self)@.1) == Seq::<(int, int)>::empty()
                },
            },
    {
        let ghost s = self.chars@;
        let n = self.chars.len();
        if self.pos >= n {
            self.pos = n;
            return None;
        }
        loop
            invariant
                self.chars@ == s,
                n == s.len(),
                old(self)@.0 == s,
                old(self).pos <= self.pos < n,
                tags_from(s, old(self).pos as int) == tags_from(s, self.pos as int),
            decreases n - self.pos,
        {
            let mut p = self.pos;
            while p < n && self.chars[p] != '<'
                invariant
                    self.chars@ == s,
                    n == s.len(),
                    self.pos <= p <= n,
                    forall|k: int| self.pos <= k < p ==> s[k] != '<',
                decreases n - p,
            {
                p = p + 1;
            }
            proof {
                lemma_next_open_at(s, self.pos as int, p as int);
            }
            if p >= n {
                self.pos = n;
                return None;
            }
            let mut q = p + 1;
            while q < n && self.chars[q] != '<' && self.chars[q] != '>'
                invariant
                    self.chars@ == s,
                    n == s.len(),
                    p < q <= n,
                    forall|k: int| p + 1 <= k < q ==> s[k] != '<' && s[k] != '>',
                decreases n - q,
            {
                q = q + 1;
            }
            proof {
                lemma_next_angle_at(s, p + 1, q as int);
            }
            if q >= n {
                self.pos = n;
                return None;
            }
            if self.chars[q] == '<' {
                self.pos = q;
            } else {
                self.pos = q + 1;
                return Some((p, q + 1));
            }
        }
    }

    /// The next tag, and the scan moved past it.
    pub fn next_key(&mut self) -> (r: Option<Key>)
        ensures
            final(self)@.0 == old(self)@.0,
            match r {
                Some(k) => {
                    let ts = tags_from(old(self)@.0, old(self)@.1);
                    &&& ts.len() > 0
                    &&& old(self)@.1 < final(self)@.1 <= old(self)@.0.len()
                    &&& k@ == old(self)@.0.subrange(ts[0].0, ts[0].1)
                    &&& tags_from(final(self)@.0, final(self)@.1) == ts.drop_first()
                },
                None => {
                    &&& tags_from(old(self)@.0, old(self)@.1) == Seq::<(int, int)>::empty()
                    &&& tags_from(final(self)@.0, final(self)@.1) == Seq::<(int, int)>::empty()
                },
            },
    {
        match self.next_span() {
            Some(t) => {
                let text = text_of(&self.chars, t.0, t.1);
                let k = Key::new(text.as_str());
                proof {
                    let ts = tags_from(old(self)@.0, old(self)@.1);
                    assert(ts.drop_first() =~= tags_from(self@.0, self@.1));
                }
                Some(k)
            },
            None => None,
        }
    }

    /// Every tag that the scan has still to hand out, in order.
    pub fn keys(self) -> (r: Vec<Key>)
        ensures
            r@.map_values(|k: Key| k@) == span_texts(self@.0, tags_from(self@.0, self@.1)),
    {
        let ghost s = self@.0;
        let ghost all = tags_from(self@.0, self@.1);
        let mut scan = self;
        let mut out: Vec<Key> = Vec::new();
        loop
            invariant
                scan@.0 == s,
                out@.map_values(|k: Key| k@) + span_texts(s, tags_from(s, scan@.1)) == span_texts(s, all),
            ensures
                out@.map_values(|k: Key| k@) == span_texts(s, all),
            decreases s.len() - scan@.1,
        {
            let ghost before = tags_from(s, scan@.1);
            let ghost old_pos = scan@.1;
            match scan.next_key() {
                Some(k) => {
                    proof {
                        assert(before =~= seq![before[0]] + before.drop_first());
                        assert(span_texts(s, before) =~= seq![k@] + span_texts(s, before.drop_first()));
                        assert(out@.push(k).map_values(|k: Key| k@) =~= out@.map_values(|k: Key| k@).push(k@));
                    }
                    out.push(k);
                    proof {
                        assert(out@.map_values(|k: Key| k@) + span_texts(s, tags_from(s, scan@.1)) =~= span_texts(s, all));
                    }
                },
                None => {
                    proof {
                        assert(out@.map_values(|k: Key| k@) =~= out@.map_values(|k: Key| k@) + span_texts(s, before));
                    }
                    break;
                },
            }
        }
        out
    }
}

} // verus!
