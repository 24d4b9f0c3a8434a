//! The time of day that prefixes a log line.
use crate::ansi::{digit_char, digit_text};
use crate::formatter::{colorize_string, colorized};
use vstd::prelude::*;

verus! {

/// `n` (below 100) in two digits, with a leading zero.
pub open spec fn two_digits(n: int) -> Seq<char> {
    seq![digit_char(n / 10), digit_char(n % 10)]
}

/// The marked-up stamp for `secs` seconds since the Unix epoch:
/// `<dimmed>HH:MM:SS AM: </>`, `PM` past the hour 12.
pub open spec fn stamp_text(secs: int) -> Seq<char> {
    let hours = (secs % 86400) / 3600;
    let minutes = (secs % 3600) / 60;
    let seconds = secs % 60;
    "<dimmed>"@ + two_digits(hours) + seq![':'] + two_digits(minutes) + seq![':'] + two_digits(
        seconds,
    ) + seq![' '] + (if hours > 12 {
        "PM"@
    } else {
        "AM"@
    }) + ": </>"@
}

fn push_two_digits(out: &mut String, n: u64)
    requires
        n < 100,
    ensures
        final(out)@ == old(out)@ + two_digits(n as int),
{
    out.append(digit_text((n / 10) as u8));
    out.append(digit_text((n % 10) as u8));
    proof {
        assert(final(out)@ =~= old(out)@ + two_digits(n as int));
    }
}

/// The stamp for `secs` seconds since the Unix epoch, with its tags resolved.
pub fn format_timestamp(secs: u64) -> (r: String)
    ensures
        r@ == colorized(stamp_text(secs as int), Seq::empty()),
{
    let hours = (secs % 86400) / 3600;
    let minutes = (secs % 3600) / 60;
    let seconds = secs % 60;
    let mut stamp = String::from_str("<dimmed>");
    push_two_digits(&mut stamp, hours);
    stamp.append(":");
    push_two_digits(&mut stamp, minutes);
    stamp.append(":");
    push_two_digits(&mut stamp, seconds);
    stamp.append(" ");
    if hours > 12 {
        stamp.append("PM");
    } else {
        stamp.append("AM");
    }
    stamp.append(": </>");
    proof {
        reveal_strlit(":");
        reveal_strlit(" ");
        assert(stamp@ =~= stamp_text(secs as int));
    }
    colorize_string(stamp.as_str())
}

} // verus!
