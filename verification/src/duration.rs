//! Rendering a playback duration as hours, minutes and seconds.

use vstd::prelude::*;
use vstd::string::StringExecFns;
use crate::text::{push_two_digits, two_digits};

verus! {

/// A number of whole seconds as `HH:MM:SS`: the hours, the minutes of the
/// hour and the seconds of the minute, each with at least two digits.
pub open spec fn duration_text(total_seconds: nat) -> Seq<char> {
    two_digits(total_seconds / 3600) + seq![':'] + two_digits(total_seconds % 3600 / 60) + seq![':']
        + two_digits(total_seconds % 60)
}

/// Renders a number of whole seconds as `HH:MM:SS`.
pub fn format_duration(total_seconds: u64) -> (text: String)
    ensures
        text@ == duration_text(total_seconds as nat),
{
    let hours = total_seconds / 3600;
    let minutes = total_seconds % 3600 / 60;
    let seconds = total_seconds % 60;
    let mut text = String::new();
    proof {
        reveal_strlit(":");
        assert(":"@ =~= seq![':']);
    }
    push_two_digits(&mut text, hours);
    text.append(":");
    push_two_digits(&mut text, minutes);
    text.append(":");
    push_two_digits(&mut text, seconds);
    proof {
        assert(text@ =~= duration_text(total_seconds as nat));
    }
    text
}

} // verus!
