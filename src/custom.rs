//! Custom styles: a name that stands for a list of keys.
use crate::key::{key_text, Key};
use vstd::prelude::*;

verus! {

/// The texts of the given keys, one after the other.
pub open spec fn expand_keys(colors: Seq<Seq<char>>) -> Seq<char>
    decreases colors.len(),
{
    if colors.len() == 0 {
        Seq::empty()
    } else {
        expand_keys(colors.drop_last()) + key_text(colors.last())
    }
}

/// The tag `<name>`.
pub open spec fn tag_of(name: Seq<char>) -> Seq<char> {
    seq!['<'] + name + seq!['>']
}

/// A named combination of keys, such as `<lol>` for `green`, `bold`, `on_blue`.
pub struct CustomStyle {
    key: String,
    colors: Vec<String>,
}

impl View for CustomStyle {
    type V = (Seq<char>, Seq<Seq<char>>);

    /// The tag that calls the style up, and its keys in order.
    closed spec fn view(&self) -> (Seq<char>, Seq<Seq<char>>) {
        (self.key@, self.colors@.map_values(|c: String| c@))
    }
}

impl CustomStyle {
    /// A style called up by `<key>` that stands for `colors`, in that order.
    pub fn new(key: &str, colors: Vec<&str>) -> (r: CustomStyle)
        ensures
            r@.0 == tag_of(key@),
            r@.1 == colors@.map_values(|c: &str| c@),
    {
        let mut tag = String::from_str("<");
        tag.append(key);
        tag.append(">");
        proof {
            reveal_strlit("<");
            reveal_strlit(">");
            assert(tag@ =~= tag_of(key@));
        }
        let mut owned: Vec<String> = Vec::new();
        let mut i: usize = 0;
        while i < colors.len()
            invariant
                i <= colors@.len(),
                owned@.map_values(|c: String| c@) == colors@.take(i as int).map_values(|c: &str| c@),
            decreases colors@.len() - i,
        {
            let c: &str = colors[i];
            let st = String::from_str(c);
            let ghost before = owned@;
            owned.push(st);
            proof {
                assert(colors@.take(i + 1) =~= colors@.take(i as int).push(c));
                assert(owned@ == before.push(st));
                assert(owned@.map_values(|c: String| c@) =~= before.map_values(|c: String| c@).push(st@));
                assert(colors@.take(i + 1).map_values(|c: &str| c@) =~= colors@.take(i as int).map_values(|c: &str| c@).push(c@));
            }
            i = i + 1;
        }
        proof {
            assert(colors@.take(colors@.len() as int) =~= colors@);
        }
        CustomStyle { key: tag, colors: owned }
    }

    /// The tag that calls this style up, `<name>`.
    pub fn key(&self) -> (r: &str)
        ensures
            r@ == self@.0,
    {
        self.key.as_str()
    }

    /// The text of every key of the style, in order.
    pub fn expand(&self) -> (r: String)
        ensures
            r@ == expand_keys(self@.1),
    {
        let ghost colors = self@.1;
        let mut out = String::new();
        let mut i: usize = 0;
        while i < self.colors.len()
            invariant
                i <= self.colors@.len(),
                colors == self.colors@.map_values(|c: String| c@),
                out@ == expand_keys(colors.take(i as int)),
            decreases self.colors@.len() - i,
        {
            let k = Key::new(self.colors[i].as_str());
            let text = k.to_ansi();
            out.append(text.as_str());
            proof {
                assert(colors.take(i + 1).drop_last() =~= colors.take(i as int));
            }
            i = i + 1;
        }
        proof {
            assert(colors.take(colors.len() as int) =~= colors);
        }
        out
    }
}

} // verus!
