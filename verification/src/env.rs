//! Reading the lines of an environment file.

use vstd::prelude::*;
use vstd::string::StrSliceExecFns;
use crate::text::{to_chars, trim, trimmed};

verus! {

/// The number of characters of a text before the first `c`, and the length
/// of the text where `c` does not occur.
pub open spec fn position_of(s: Seq<char>, c: char) -> nat
    decreases s.len(),
{
    if s.len() == 0 || s[0] == c {
        0
    } else {
        1 + position_of(s.drop_first(), c)
    }
}

/// The variable that a line sets: none for a blank line, for a line that
/// starts with `#` and for a line without `=`; else the name before the
/// first `=` and the value behind it, both trimmed.
pub open spec fn env_entry(line: Seq<char>) -> Option<(Seq<char>, Seq<char>)> {
    let at = position_of(line, '=') as int;
    if trimmed(line).len() == 0 || line[0] == '#' || at >= line.len() {
        None
    } else {
        Some((trimmed(line.subrange(0, at)), trimmed(line.subrange(at + 1, line.len() as int))))
    }
}

/// Reads the variable that a line of an environment file sets.
pub fn parse_env_line(line: &str) -> (entry: Option<(String, String)>)
    ensures
        match entry {
            Some(pair) => env_entry(line@) == Some((pair.0@, pair.1@)),
            None => env_entry(line@) is None,
        },
{
    if trim(line).as_str().is_empty() {
        return None;
    }
    let chars = to_chars(line);
    let n = chars.len();
    proof {
        if n == 0 {
            assert(trimmed(line@).len() == 0) by {
                reveal_with_fuel(crate::text::trim_start, 2);
                reveal_with_fuel(crate::text::trim_end, 2);
            }
        }
    }
    if chars[0] == '#' {
        return None;
    }
    let mut at: usize = 0;
    proof {
        assert(line@.subrange(0, n as int) =~= line@);
    }
    while at < n && chars[at] != '='
        invariant
            chars@ == line@,
            n == chars@.len(),
            at <= n,
            position_of(line@, '=') == at + position_of(line@.subrange(at as int, n as int), '='),
        decreases n - at,
    {
        proof {
            let rest = line@.subrange(at as int, n as int);
            assert(rest[0] == chars@[at as int]);
            assert(rest.drop_first() =~= line@.subrange(at + 1, n as int));
        }
        at = at + 1;
    }
    proof {
        let rest = line@.subrange(at as int, n as int);
        if at < n {
            assert(rest[0] == chars@[at as int]);
        }
        assert(position_of(rest, '=') == 0);
    }
    if at == n {
        return None;
    }
    let key = trim(line.substring_char(0, at));
    let value = trim(line.substring_char(at + 1, n));
    Some((key, value))
}

} // verus!
