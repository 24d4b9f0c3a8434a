//! The escape sequences that the terminal understands.
use vstd::prelude::*;

verus! {

/// The character for the decimal digit `d` (`0 <= d < 10`).
pub open spec fn digit_char(d: int) -> char {
    if d == 0 {
        '0'
    } else if d == 1 {
        '1'
    } else if d == 2 {
        '2'
    } else if d == 3 {
        '3'
    } else if d == 4 {
        '4'
    } else if d == 5 {
        '5'
    } else if d == 6 {
        '6'
    } else if d == 7 {
        '7'
    } else if d == 8 {
        '8'
    } else {
        '9'
    }
}

/// The decimal notation of `n`, without leading zeros.
pub open spec fn decimal(n: nat) -> Seq<char>
    decreases n,
{
    if n < 10 {
        seq![digit_char(n as int)]
    } else {
        decimal(n / 10) + seq![digit_char((n % 10) as int)]
    }
}

/// The select-graphic-rendition sequence `ESC [ code m`.
pub open spec fn escape_seq(code: nat) -> Seq<char> {
    seq!['\u{1b}', '['] + decimal(code) + seq!['m']
}

/// Builds terminal escape sequences.
pub struct Ansi {}

pub(crate) fn digit_text(d: u8) -> (r: &'static str)
    requires
        d < 10,
    ensures
        r@ == seq![digit_char(d as int)],
{
    proof {
        reveal_strlit("0");
        reveal_strlit("1");
        reveal_strlit("2");
        reveal_strlit("3");
        reveal_strlit("4");
        reveal_strlit("5");
        reveal_strlit("6");
        reveal_strlit("7");
        reveal_strlit("8");
        reveal_strlit("9");
    }
    match d {
        0 => "0",
        1 => "1",
        2 => "2",
        3 => "3",
        4 => "4",
        5 => "5",
        6 => "6",
        7 => "7",
        8 => "8",
        _ => "9",
    }
}

impl Ansi {
    /// Wraps an SGR parameter in the escape and terminator characters.
    pub fn escape(code: u8) -> (r: String)
        ensures
            r@ == escape_seq(code as nat),
    {
        proof {
            reveal_strlit("\x1B[");
            reveal_strlit("m");
        }
        let mut s = String::from_str("\x1B[");
        if code >= 100 {
            s.append(digit_text(code / 100));
        }
        if code >= 10 {
            s.append(digit_text((code / 10) % 10));
        }
        s.append(digit_text(code % 10));
        s.append("m");
        proof {
            let n = code as nat;
            if n >= 100 {
                assert(n / 10 >= 10);
                assert((n / 10) / 10 == n / 100);
                assert(n / 100 < 10);
                assert(decimal(n / 100) == seq![digit_char((n / 100) as int)]);
                assert(decimal(n / 10) == decimal(n / 100) + seq![digit_char(((n / 10) % 10) as int)]);
                assert(decimal(n) =~= seq![digit_char((n / 100) as int), digit_char(((n / 10) % 10) as int), digit_char((n % 10) as int)]);
            } else if n >= 10 {
                assert(n / 10 < 10);
                assert((n / 10) % 10 == n / 10);
                assert(decimal(n / 10) == seq![digit_char((n / 10) as int)]);
                assert(decimal(n) =~= seq![digit_char((n / 10) as int), digit_char((n % 10) as int)]);
            } else {
                assert(n % 10 == n);
            }
        }
        assert(s@ =~= escape_seq(code as nat));
        s
    }
}

} // verus!
