//! What holds of resolution and rewriting across keys and calls.
use crate::ansi::{decimal, digit_char, escape_seq};
use crate::color::{bg_value, color_fragment, color_name, color_named, fg_value, Color};
use crate::custom::tag_of;
use crate::formatter::{colorized, rewrite, tag_text, Styles};
use crate::key::{builtin_fragment, dash_to_space, normalize, reset_fragment, strip_delims};
use crate::style::{style_value, Style};
use crate::key_list::{lemma_next_angle_at, lemma_next_open_at, tags, tags_from};
use crate::text::{ascii_lower, ascii_lower_char, ascii_only, lowered};
use vstd::prelude::*;

verus! {

/// No `<` or `>` among the characters of `w`.
pub open spec fn angle_free(w: Seq<char>) -> bool {
    forall|i: int| 0 <= i < w.len() ==> #[trigger] w[i] != '<' && w[i] != '>'
}

proof fn lemma_strip_tag(w: Seq<char>)
    ensures
        strip_delims(tag_of(w)) == w,
{
    let t = tag_of(w);
    assert(t.skip(1) =~= w + seq!['>']);
    assert((w + seq!['>']).drop_last() =~= w);
}

/// The tags of `tag_of(w)` followed by `rest`, where `w` holds no angle bracket.
proof fn lemma_tag_then(w: Seq<char>, rest: Seq<char>)
    requires
        angle_free(w),
    ensures
        tags_from(tag_of(w) + rest, 0) == seq![(0int, (w.len() + 2) as int)] + tags_from(
            tag_of(w) + rest,
            (w.len() + 2) as int,
        ),
{
    let s = tag_of(w) + rest;
    let e = (w.len() + 1) as int;
    assert(s[0] == '<');
    lemma_next_open_at(s, 0, 0);
    assert forall|k: int| 1 <= k < e implies s[k] != '<' && s[k] != '>' by {
        assert(s[k] == w[k - 1]);
    }
    assert(s[e] == '>');
    lemma_next_angle_at(s, 1, e);
}

proof fn lemma_tags_end(s: Seq<char>)
    ensures
        tags_from(s, s.len() as int) == Seq::<(int, int)>::empty(),
{
}

/// A text that is one tag, `<w>` with no angle bracket in `w`, becomes the
/// text of that tag.
pub proof fn lemma_single_tag(w: Seq<char>, styles: Styles)
    requires
        angle_free(w),
    ensures
        colorized(tag_of(w), styles) == tag_text(styles, tag_of(w)),
{
    let t = tag_of(w);
    lemma_tag_then(w, Seq::empty());
    assert(t + Seq::<char>::empty() =~= t);
    lemma_tags_end(t);
    let ts = tags(t);
    assert(ts == seq![(0int, t.len() as int)]);
    assert(ts.drop_first() =~= Seq::<(int, int)>::empty());
    assert(t.subrange(0, 0) =~= Seq::<char>::empty());
    assert(t.subrange(0, t.len() as int) =~= t);
    assert(t.subrange(t.len() as int, t.len() as int) =~= Seq::<char>::empty());
    let n = t.len() as int;
    assert(rewrite(t, ts.drop_first(), n, styles) == t.subrange(n, n));
    assert(rewrite(t, ts, 0, styles) == t.subrange(0, 0) + tag_text(styles, t.subrange(0, n))
        + rewrite(t, ts.drop_first(), n, styles));
    assert(rewrite(t, ts, 0, styles) =~= tag_text(styles, t));
}

/// A tag written twice in a row is replaced twice by the same text: a key
/// resolves to the same fragment each time it is met.
pub proof fn lemma_repeated_tag(w: Seq<char>, styles: Styles)
    requires
        angle_free(w),
    ensures
        colorized(tag_of(w) + tag_of(w), styles) == tag_text(styles, tag_of(w)) + tag_text(
            styles,
            tag_of(w),
        ),
{
    let t = tag_of(w);
    let s = t + t;
    let n = t.len() as int;
    lemma_tag_then(w, t);
    // The second tag starts where the first ends.
    assert(s[n] == '<');
    lemma_next_open_at(s, n, n);
    assert forall|k: int| n + 1 <= k < 2 * n - 1 implies s[k] != '<' && s[k] != '>' by {
        assert(s[k] == w[k - n - 1]);
    }
    assert(s[2 * n - 1] == '>');
    lemma_next_angle_at(s, n + 1, 2 * n - 1);
    lemma_tags_end(s);
    let ts = tags(s);
    assert(tags_from(s, n) == seq![(n, 2 * n)]);
    assert(ts =~= seq![(0int, n), (n, 2 * n)]);
    assert(ts.drop_first() =~= seq![(n, 2 * n)]);
    assert(ts.drop_first().drop_first() =~= Seq::<(int, int)>::empty());
    assert(s.subrange(0, 0) =~= Seq::<char>::empty());
    assert(s.subrange(0, n) =~= t);
    assert(s.subrange(n, n) =~= Seq::<char>::empty());
    assert(s.subrange(n, 2 * n) =~= t);
    assert(s.subrange(2 * n, s.len() as int) =~= Seq::<char>::empty());
    let t2 = ts.drop_first();
    assert(rewrite(s, t2.drop_first(), 2 * n, styles) == s.subrange(2 * n, s.len() as int));
    assert(rewrite(s, t2, n, styles) == s.subrange(n, n) + tag_text(styles, s.subrange(n, 2 * n))
        + rewrite(s, t2.drop_first(), 2 * n, styles));
    assert(rewrite(s, ts, 0, styles) == s.subrange(0, 0) + tag_text(styles, s.subrange(0, n))
        + rewrite(s, t2, n, styles));
    assert(rewrite(s, ts, 0, styles) =~= tag_text(styles, t) + tag_text(styles, t));
}

/// Writing `_` or `-` between the words of a key, or spaces, makes no
/// difference: `<on_bright-green>` and `<on bright green>` have one normal form.
pub proof fn lemma_separators_as_spaces(w: Seq<char>)
    requires
        !w.contains(' '),
    ensures
        normalize(tag_of(w)) == normalize(tag_of(w.map_values(|c: char| dash_to_space(c)))),
{
    let m = w.map_values(|c: char| dash_to_space(c));
    lemma_strip_tag(w);
    lemma_strip_tag(m);
    if m.contains(' ') {
        assert(normalize(tag_of(m)) == m);
    } else {
        assert forall|i: int| 0 <= i < w.len() implies w[i] != '_' && w[i] != '-' by {
            if w[i] == '_' || w[i] == '-' {
                assert(m[i] == ' ');
            }
        }
        assert(m =~= w);
    }
}

/// Small letters, spaces and `/` only.
pub open spec fn plain_words(n: Seq<char>) -> bool {
    forall|i: int|
        0 <= i < n.len() ==> ('a' <= #[trigger] n[i] && n[i] <= 'z') || n[i] == ' ' || n[i] == '/'
}

proof fn lemma_plain_words(n: Seq<char>)
    requires
        plain_words(n),
    ensures
        angle_free(n),
        ascii_only(n),
        ascii_lower(n) == n,
        normalize(tag_of(n)) == n,
        lowered(n) == n,
{
    assert(ascii_lower(n) =~= n);
    lemma_strip_tag(n);
    assert(n.map_values(|c: char| dash_to_space(c)) =~= n);
}

proof fn lemma_color_name(c: Color)
    ensures
        plain_words(color_name(c)),
        plain_words("on "@ + color_name(c)),
        color_named(color_name(c)) == Some(c),
        builtin_fragment(color_name(c)) == Some(escape_seq(fg_value(c) as nat)),
        c != Color::Reset ==> builtin_fragment("on "@ + color_name(c)) == Some(
            escape_seq(bg_value(c) as nat),
        ),
{
    reveal_strlit("on ");
    reveal_strlit("/");
    reveal_strlit("black");
    reveal_strlit("red");
    reveal_strlit("green");
    reveal_strlit("yellow");
    reveal_strlit("blue");
    reveal_strlit("magenta");
    reveal_strlit("cyan");
    reveal_strlit("white");
    reveal_strlit("bright black");
    reveal_strlit("bright red");
    reveal_strlit("bright green");
    reveal_strlit("bright yellow");
    reveal_strlit("bright blue");
    reveal_strlit("bright magenta");
    reveal_strlit("bright cyan");
    reveal_strlit("bright white");
    let n = color_name(c);
    let b = "on "@ + n;
    match c {
        Color::Reset => assert(color_named("/"@) == Some(Color::Reset)),
        Color::Black => assert(color_named("black"@) == Some(Color::Black)),
        Color::Red => assert(color_named("red"@) == Some(Color::Red)),
        Color::Green => {
            assert("green"@[0] != "black"@[0]);
            assert(color_named("green"@) == Some(Color::Green));
        },
        Color::Yellow => assert(color_named("yellow"@) == Some(Color::Yellow)),
        Color::Blue => assert(color_named("blue"@) == Some(Color::Blue)),
        Color::Magenta => assert(color_named("magenta"@) == Some(Color::Magenta)),
        Color::Cyan => {
            assert("cyan"@[0] != "blue"@[0]);
            assert(color_named("cyan"@) == Some(Color::Cyan));
        },
        Color::White => {
            assert("white"@[0] != "black"@[0]);
            assert("white"@[0] != "green"@[0]);
            assert(color_named("white"@) == Some(Color::White));
        },
        Color::BrightBlack => assert(color_named("bright black"@) == Some(Color::BrightBlack)),
        Color::BrightRed => assert(color_named("bright red"@) == Some(Color::BrightRed)),
        Color::BrightGreen => {
            assert("bright green"@[7] != "bright black"@[7]);
            assert(color_named("bright green"@) == Some(Color::BrightGreen));
        },
        Color::BrightYellow => assert(color_named("bright yellow"@) == Some(Color::BrightYellow)),
        Color::BrightBlue => assert(color_named("bright blue"@) == Some(Color::BrightBlue)),
        Color::BrightMagenta => assert(color_named("bright magenta"@) == Some(Color::BrightMagenta)),
        Color::BrightCyan => {
            assert("bright cyan"@[7] != "bright blue"@[7]);
            assert(color_named("bright cyan"@) == Some(Color::BrightCyan));
        },
        Color::BrightWhite => {
            assert("bright white"@[7] != "bright black"@[7]);
            assert("bright white"@[7] != "bright green"@[7]);
            assert(color_named("bright white"@) == Some(Color::BrightWhite));
        },
    }
    assert(b.take(3) =~= "on "@);
    assert(b.skip(3) =~= n);
    assert(!("on "@.len() <= n.len() && n.take(3) == "on "@)) by {
        if "on "@.len() <= n.len() && n.take(3) == "on "@ {
            assert(n.take(3)[0] == 'o');
        }
    }
    lemma_plain_words(n);
    lemma_plain_words(b);
    assert(b != "/"@) by {
        assert(b.len() != "/"@.len());
    }
}

/// Every color name in a tag gives that color's text code, and with `on `
/// before it, its background code; `</>` gives the full reset, which has no
/// background form.
pub proof fn lemma_color_tags(c: Color, styles: Styles)
    ensures
        colorized(tag_of(color_name(c)), styles) == escape_seq(fg_value(c) as nat),
        c != Color::Reset ==> colorized(tag_of("on "@ + color_name(c)), styles) == escape_seq(
            bg_value(c) as nat,
        ),
{
    let n = color_name(c);
    let b = "on "@ + n;
    lemma_color_name(c);
    lemma_plain_words(n);
    lemma_plain_words(b);
    lemma_single_tag(n, styles);
    lemma_single_tag(b, styles);
}

proof fn lemma_lower_char(c: char)
    ensures
        ascii_lower_char(c) == '<' <==> c == '<',
        ascii_lower_char(c) == '>' <==> c == '>',
        ascii_lower_char(c) == ' ' <==> c == ' ',
        ascii_lower_char(c) == '/' <==> c == '/',
        ascii_lower_char(dash_to_space(c)) == dash_to_space(ascii_lower_char(c)),
        (c as u32) < 128 ==> (ascii_lower_char(c) as u32) < 128,
{
}

proof fn lemma_lower_normalize(t: Seq<char>)
    requires
        ascii_only(t),
    ensures
        ascii_only(normalize(t)),
        ascii_lower(normalize(t)) == normalize(ascii_lower(t)),
{
    let l = ascii_lower(t);
    assert forall|i: int| 0 <= i < t.len() implies #[trigger] l[i] == ascii_lower_char(t[i]) by {}
    if t.len() > 0 {
        lemma_lower_char(t[0]);
    }
    let a = if t.len() > 0 && t[0] == '<' {
        t.skip(1)
    } else {
        t
    };
    let la = if l.len() > 0 && l[0] == '<' {
        l.skip(1)
    } else {
        l
    };
    assert(la =~= ascii_lower(a));
    if a.len() > 0 {
        lemma_lower_char(a.last());
    }
    let k = strip_delims(t);
    let lk = strip_delims(l);
    assert(lk =~= ascii_lower(k));
    assert(ascii_only(k)) by {
        assert forall|i: int| 0 <= i < k.len() implies (#[trigger] k[i] as u32) < 128 by {
            if t.len() > 0 && t[0] == '<' {
                assert(k[i] == t[i + 1]);
            } else {
                assert(k[i] == t[i]);
            }
        }
    }
    assert(k.contains(' ') <==> lk.contains(' ')) by {
        if k.contains(' ') {
            let i = choose|i: int| 0 <= i < k.len() && k[i] == ' ';
            assert(lk[i] == ' ');
        }
        if lk.contains(' ') {
            let i = choose|i: int| 0 <= i < lk.len() && lk[i] == ' ';
            lemma_lower_char(k[i]);
        }
    }
    let m = k.map_values(|c: char| dash_to_space(c));
    let lm = lk.map_values(|c: char| dash_to_space(c));
    assert forall|i: int| 0 <= i < k.len() implies #[trigger] lm[i] == ascii_lower(m)[i] by {
        lemma_lower_char(k[i]);
    }
    assert(lm =~= ascii_lower(m));
    assert(ascii_only(m)) by {
        assert forall|i: int| 0 <= i < m.len() implies (#[trigger] m[i] as u32) < 128 by {
            assert((k[i] as u32) < 128);
        }
    }
}

/// Keys that differ only in the case of their letters resolve alike in the
/// built-in tables: `<CYAN>` is `<cyan>`.
pub proof fn lemma_case_insensitive(t1: Seq<char>, t2: Seq<char>)
    requires
        ascii_only(t1),
        ascii_only(t2),
        ascii_lower(t1) == ascii_lower(t2),
    ensures
        builtin_fragment(normalize(t1)) == builtin_fragment(normalize(t2)),
{
    lemma_lower_normalize(t1);
    lemma_lower_normalize(t2);
    let c1 = normalize(t1);
    let c2 = normalize(t2);
    assert(lowered(c1) == lowered(c2));
    reveal_strlit("/");
    assert(c1 == "/"@ <==> c2 == "/"@) by {
        if c1 == "/"@ {
            assert(ascii_lower(c2).len() == 1);
            assert(ascii_lower(c1)[0] == '/');
            lemma_lower_char(c2[0]);
            assert(c2 =~= "/"@);
        }
        if c2 == "/"@ {
            assert(ascii_lower(c1).len() == 1);
            assert(ascii_lower(c2)[0] == '/');
            lemma_lower_char(c1[0]);
            assert(c1 =~= "/"@);
        }
    }
}

proof fn lemma_decimal_nonempty(n: nat)
    ensures
        decimal(n).len() >= 1,
    decreases n,
{
    if n >= 10 {
        lemma_decimal_nonempty(n / 10);
    }
}

/// No style, nor the reset of one, clears all attributes: each has its own
/// code, never the `0` of `</>`.
pub proof fn lemma_style_is_not_full_reset(s: Style)
    ensures
        escape_seq(style_value(s) as nat) != reset_fragment(),
{
    let v = style_value(s) as nat;
    let e = escape_seq(v);
    let z = reset_fragment();
    assert(decimal(0) == seq!['0']);
    if v < 10 {
        assert(decimal(v) == seq![digit_char(v as int)]);
        assert(e[2] == digit_char(v as int));
        assert(z[2] == '0');
    } else {
        lemma_decimal_nonempty(v / 10);
        assert(decimal(v) == decimal(v / 10) + seq![digit_char((v % 10) as int)]);
        assert(e.len() != z.len());
    }
}

/// Normalizing a tag's key twice gives what normalizing it once gives, and a
/// key that already holds a space is kept as written.
pub proof fn lemma_normalize_idempotent(w: Seq<char>)
    requires
        angle_free(w),
    ensures
        normalize(normalize(tag_of(w))) == normalize(tag_of(w)),
        w.contains(' ') ==> normalize(tag_of(w)) == w,
{
    lemma_strip_tag(w);
    let n1 = normalize(tag_of(w));
    let m = w.map_values(|c: char| dash_to_space(c));
    assert(angle_free(n1)) by {
        assert forall|i: int| 0 <= i < n1.len() implies #[trigger] n1[i] != '<' && n1[i] != '>' by {
            assert(w[i] != '<' && w[i] != '>');
        }
    }
    if n1.len() > 0 {
        assert(n1[0] != '<');
        assert(n1.last() != '>') by {
            assert(n1[n1.len() - 1] != '>');
        }
    }
    assert(strip_delims(n1) == n1);
    if !n1.contains(' ') && !w.contains(' ') {
        assert forall|i: int| 0 <= i < w.len() implies w[i] != '_' && w[i] != '-' by {
            if w[i] == '_' || w[i] == '-' {
                assert(n1[i] == ' ');
            }
        }
        assert(n1 =~= w);
        assert(n1.map_values(|c: char| dash_to_space(c)) =~= n1);
    }
}

/// Text with no `<` in it comes out exactly as it went in.
pub proof fn lemma_text_without_tags(s: Seq<char>, styles: Styles)
    requires
        !s.contains('<'),
    ensures
        colorized(s, styles) == s,
{
    lemma_next_open_at(s, 0, s.len() as int);
    assert(tags(s) == Seq::<(int, int)>::empty());
    assert(s.subrange(0, s.len() as int) =~= s);
}

} // verus!
