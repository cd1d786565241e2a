//! Small operations on text that the rest of the library is stated over:
//! decimal numbers, trimming, lower case and substring search.

use vstd::prelude::*;
use vstd::string::StrSliceExecFns;
use vstd::string::StringExecFns;

verus! {

/// The character of a decimal digit.
pub open spec fn digit_char(digit: nat) -> char {
    if digit == 0 {
        '0'
    } else if digit == 1 {
        '1'
    } else if digit == 2 {
        '2'
    } else if digit == 3 {
        '3'
    } else if digit == 4 {
        '4'
    } else if digit == 5 {
        '5'
    } else if digit == 6 {
        '6'
    } else if digit == 7 {
        '7'
    } else if digit == 8 {
        '8'
    } else {
        '9'
    }
}

/// The decimal digits of a number, without leading zeros.
pub open spec fn decimal(n: nat) -> Seq<char>
    decreases n,
{
    if n < 10 {
        seq![digit_char(n)]
    } else {
        decimal(n / 10).push(digit_char(n % 10))
    }
}

/// The decimal digits of a number, with a leading zero when there would be
/// one digit only.
pub open spec fn two_digits(n: nat) -> Seq<char> {
    if n < 10 {
        seq!['0'] + decimal(n)
    } else {
        decimal(n)
    }
}

/// The text of one decimal digit.
fn digit_text(digit: u64) -> (text: &'static str)
    requires
        digit < 10,
    ensures
        text@ == seq![digit_char(digit as nat)],
{
    proof {
        reveal_strlit("0");
        reveal_strlit("1");
        reveal_strlit("2");
        reveal_strlit("3");
        reveal_strlit("4");
        reveal_strlit("5");
        reveal_strlit("6");
        reveal_strlit("7");
        reveal_strlit("8");
        reveal_strlit("9");
    }
    let text = if digit == 0 {
        "0"
    } else if digit == 1 {
        "1"
    } else if digit == 2 {
        "2"
    } else if digit == 3 {
        "3"
    } else if digit == 4 {
        "4"
    } else if digit == 5 {
        "5"
    } else if digit == 6 {
        "6"
    } else if digit == 7 {
        "7"
    } else if digit == 8 {
        "8"
    } else {
        "9"
    };
    assert(text@ =~= seq![digit_char(digit as nat)]);
    text
}

/// Appends the decimal digits of `n` to `out`.
pub fn push_decimal(out: &mut String, n: u64)
    ensures
        final(out)@ == old(out)@ + decimal(n as nat),
    decreases n,
{
    if n >= 10 {
        push_decimal(out, n / 10);
    }
    out.append(digit_text(n % 10));
    proof {
        if n >= 10 {
            assert(old(out)@ + decimal((n / 10) as nat) + seq![digit_char((n % 10) as nat)] =~= old(
                out,
            )@ + decimal(n as nat));
        }
    }
}

/// Appends the decimal digits of `n` to `out`, at least two of them.
pub fn push_two_digits(out: &mut String, n: u64)
    ensures
        final(out)@ == old(out)@ + two_digits(n as nat),
{
    if n < 10 {
        out.append("0");
        proof {
            reveal_strlit("0");
            assert("0"@ =~= seq!['0']);
            assert(old(out)@ + seq!['0'] + decimal(n as nat) =~= old(out)@ + (seq!['0'] + decimal(
                n as nat,
            )));
        }
    }
    push_decimal(out, n);
}

/// The characters of a text, one by one.
pub fn to_chars(text: &str) -> (chars: Vec<char>)
    ensures
        chars@ == text@,
{
    let n = text.unicode_len();
    let mut chars: Vec<char> = Vec::new();
    let mut i: usize = 0;
    while i < n
        invariant
            n == text@.len(),
            i <= n,
            chars@ == text@.subrange(0, i as int),
        decreases n - i,
    {
        chars.push(text.get_char(i));
        proof {
            assert(chars@ =~= text@.subrange(0, i + 1));
        }
        i = i + 1;
    }
    proof {
        assert(text@.subrange(0, n as int) =~= text@);
    }
    chars
}

/// Whether a character is white space: a character with the Unicode property
/// `White_Space`.
pub open spec fn is_space(c: char) -> bool {
    let code = c as u32;
    ||| 0x09 <= code <= 0x0D
    ||| code == 0x20
    ||| code == 0x85
    ||| code == 0xA0
    ||| code == 0x1680
    ||| 0x2000 <= code <= 0x200A
    ||| code == 0x2028
    ||| code == 0x2029
    ||| code == 0x202F
    ||| code == 0x205F
    ||| code == 0x3000
}

/// Whether a character is white space.
pub fn char_is_space(c: char) -> (r: bool)
    ensures
        r == is_space(c),
{
    let code = c as u32;
    (0x09 <= code && code <= 0x0D) || code == 0x20 || code == 0x85 || code == 0xA0 || code == 0x1680
        || (0x2000 <= code && code <= 0x200A) || code == 0x2028 || code == 0x2029 || code == 0x202F
        || code == 0x205F || code == 0x3000
}

/// A text without the white space at its start.
pub open spec fn trim_start(s: Seq<char>) -> Seq<char>
    decreases s.len(),
{
    if s.len() > 0 && is_space(s.first()) {
        trim_start(s.drop_first())
    } else {
        s
    }
}

/// A text without the white space at its end.
pub open spec fn trim_end(s: Seq<char>) -> Seq<char>
    decreases s.len(),
{
    if s.len() > 0 && is_space(s.last()) {
        trim_end(s.drop_last())
    } else {
        s
    }
}

/// A text without the white space at its start and at its end.
pub open spec fn trimmed(s: Seq<char>) -> Seq<char> {
    trim_end(trim_start(s))
}

/// The text without the white space at its start and at its end.
pub fn trim(text: &str) -> (r: String)
    ensures
        r@ == trimmed(text@),
{
    let chars = to_chars(text);
    let n = chars.len();
    let mut from: usize = 0;
    proof {
        assert(text@.subrange(0, n as int) =~= text@);
    }
    while from < n && char_is_space(chars[from])
        invariant
            chars@ == text@,
            n == chars@.len(),
            from <= n,
            trim_start(text@) == trim_start(text@.subrange(from as int, n as int)),
        decreases n - from,
    {
        proof {
            let rest = text@.subrange(from as int, n as int);
            assert(rest.first() == chars@[from as int]);
            assert(rest.drop_first() =~= text@.subrange(from + 1, n as int));
        }
        from = from + 1;
    }
    proof {
        let rest = text@.subrange(from as int, n as int);
        if from < n {
            assert(rest.first() == chars@[from as int]);
        }
        assert(trim_start(text@) == rest);
    }
    let mut to: usize = n;
    while to > from && char_is_space(chars[to - 1])
        invariant
            chars@ == text@,
            n == chars@.len(),
            from <= to <= n,
            trimmed(text@) == trim_end(text@.subrange(from as int, to as int)),
        decreases to - from,
    {
        proof {
            let rest = text@.subrange(from as int, to as int);
            assert(rest.last() == chars@[to - 1]);
            assert(rest.drop_last() =~= text@.subrange(from as int, to - 1));
        }
        to = to - 1;
    }
    proof {
        let rest = text@.subrange(from as int, to as int);
        if to > from {
            assert(rest.last() == chars@[to - 1]);
        }
        assert(trimmed(text@) == rest);
    }
    text.substring_char(from, to).to_owned()
}

/// Whether `needle` stands in `hay` at index `at`.
pub open spec fn occurs_at(hay: Seq<char>, needle: Seq<char>, at: int) -> bool {
    0 <= at && at + needle.len() <= hay.len() && hay.subrange(at, at + needle.len()) == needle
}

/// Whether `needle` stands somewhere in `hay`.
pub open spec fn contains_text(hay: Seq<char>, needle: Seq<char>) -> bool {
    exists|at: int| occurs_at(hay, needle, at)
}

/// Whether `needle` stands in `hay` at index `at`.
fn matches_at(hay: &Vec<char>, needle: &Vec<char>, at: usize) -> (r: bool)
    requires
        at + needle@.len() <= hay@.len(),
    ensures
        r == occurs_at(hay@, needle@, at as int),
{
    let m = needle.len();
    let n = hay.len();
    let mut k: usize = 0;
    while k < m
        invariant
            m == needle@.len(),
            n == hay@.len(),
            at + m <= n,
            k <= m,
            forall|j: int| 0 <= j < k ==> hay@[at + j] == needle@[j],
        decreases m - k,
    {
        if hay[at + k] != needle[k] {
            proof {
                let part = hay@.subrange(at as int, at + m);
                assert(part[k as int] == hay@[at + k]);
            }
            return false;
        }
        k = k + 1;
    }
    proof {
        assert(hay@.subrange(at as int, at + m) =~= needle@);
    }
    true
}

/// Whether `needle` stands somewhere in `hay`.
pub fn contains_chars(hay: &Vec<char>, needle: &Vec<char>) -> (r: bool)
    ensures
        r == contains_text(hay@, needle@),
{
    let n = hay.len();
    let m = needle.len();
    if m > n {
        return false;
    }
    let mut at: usize = 0;
    loop
        invariant
            n == hay@.len(),
            m == needle@.len(),
            m <= n,
            at <= n - m,
            forall|j: int| 0 <= j < at ==> !occurs_at(hay@, needle@, j),
        decreases n - m - at,
    {
        if matches_at(hay, needle, at) {
            return true;
        }
        if at == n - m {
            return false;
        }
        at = at + 1;
    }
}

/// A character with an upper-case ASCII letter turned into its lower case.
pub open spec fn ascii_lower(c: char) -> char {
    if 'A' <= c <= 'Z' {
        ((c as u8) + 32) as char
    } else {
        c
    }
}

/// A text with its upper-case ASCII letters turned into lower case.
pub open spec fn ascii_lowercase(s: Seq<char>) -> Seq<char> {
    s.map_values(|c: char| ascii_lower(c))
}

/// The characters with the upper-case ASCII letters turned into lower case.
pub fn to_ascii_lowercase(chars: &Vec<char>) -> (lower: Vec<char>)
    ensures
        lower@ == ascii_lowercase(chars@),
{
    let mut lower: Vec<char> = Vec::new();
    let mut i: usize = 0;
    while i < chars.len()
        invariant
            i <= chars@.len(),
            lower@.len() == i,
            forall|j: int| 0 <= j < i ==> lower@[j] == ascii_lower(chars@[j]),
        decreases chars@.len() - i,
    {
        let c = chars[i];
        let l = if 'A' <= c && c <= 'Z' {
            ((c as u8) + 32) as char
        } else {
            c
        };
        lower.push(l);
        i = i + 1;
    }
    proof {
        assert(lower@ =~= ascii_lowercase(chars@));
    }
    lower
}

/// Whether a character is one of the ten ASCII digits.
pub open spec fn is_digit(c: char) -> bool {
    '0' <= c <= '9'
}

/// Whether a text is made of ASCII digits only.
pub open spec fn all_digits(s: Seq<char>) -> bool {
    forall|i: int| 0 <= i < s.len() ==> is_digit(#[trigger] s[i])
}

/// The number that a text of ASCII digits spells.
pub open spec fn digits_value(s: Seq<char>) -> nat
    decreases s.len(),
{
    if s.len() == 0 {
        0
    } else {
        digits_value(s.drop_last()) * 10 + (s.last() as u8 - '0' as u8) as nat
    }
}

/// The digits of a text that may start with a sign.
pub open spec fn unsigned_part(s: Seq<char>) -> Seq<char> {
    if s.len() > 0 && (s[0] == '-' || s[0] == '+') {
        s.drop_first()
    } else {
        s
    }
}

/// The 32-bit integer that a text spells: an optional sign, then at least one
/// ASCII digit, in all a number that 32 bits hold. Any other text spells none.
pub open spec fn parsed_i32(s: Seq<char>) -> Option<i32> {
    let body = unsigned_part(s);
    let value = if s.len() > 0 && s[0] == '-' {
        -(digits_value(body) as int)
    } else {
        digits_value(body) as int
    };
    if body.len() > 0 && all_digits(body) && i32::MIN <= value <= i32::MAX {
        Some(value as i32)
    } else {
        None
    }
}

/// Reads a 32-bit integer in decimal notation.
pub fn parse_i32(text: &str) -> (r: Option<i32>)
    ensures
        r == parsed_i32(text@),
{
    let chars = to_chars(text);
    let n = chars.len();
    if n == 0 {
        return None;
    }
    let negative = chars[0] == '-';
    let start: usize = if chars[0] == '-' || chars[0] == '+' {
        1
    } else {
        0
    };
    if start == n {
        return None;
    }
    let ghost body = unsigned_part(text@);
    proof {
        assert(body =~= text@.subrange(start as int, n as int));
    }
    let mut acc: i64 = 0;
    let mut i: usize = start;
    let mut overflow = false;
    proof {
        assert(body.subrange(0, 0) =~= Seq::<char>::empty());
    }
    while i < n
        invariant
            chars@ == text@,
            n == chars@.len(),
            start <= i <= n,
            body == text@.subrange(start as int, n as int),
            body == unsigned_part(text@),
            all_digits(body.subrange(0, i - start)),
            !overflow ==> acc == digits_value(body.subrange(0, i - start)) && 0 <= acc
                <= 0x8000_0000,
            overflow ==> digits_value(body.subrange(0, i - start)) > 0x8000_0000,
        decreases n - i,
    {
        let c = chars[i];
        if !('0' <= c && c <= '9') {
            proof {
                assert(body[i - start] == c);
            }
            return None;
        }
        proof {
            let before = body.subrange(0, i - start);
            let after = body.subrange(0, i - start + 1);
            assert(after.drop_last() =~= before);
            assert(after.last() == c);
            assert forall|j: int| 0 <= j < after.len() implies is_digit(#[trigger] after[j]) by {
                if j < before.len() {
                    assert(after[j] == before[j]);
                }
            }
        }
        if !overflow {
            acc = acc * 10 + (c as u8 - '0' as u8) as i64;
            if acc > 0x8000_0000 {
                overflow = true;
            }
        }
        i = i + 1;
    }
    proof {
        assert(body.subrange(0, n - start) =~= body);
    }
    if overflow {
        return None;
    }
    if negative {
        Some((-acc) as i32)
    } else if acc > 0x7FFF_FFFF {
        None
    } else {
        Some(acc as i32)
    }
}

/// A 32-bit integer in decimal notation, filled with zeros to a width of
/// two: a minus sign counts towards the width.
pub open spec fn padded_i32(n: int) -> Seq<char> {
    if n < 0 {
        seq!['-'] + decimal((-n) as nat)
    } else {
        two_digits(n as nat)
    }
}

/// Appends `n` in decimal notation, filled with zeros to a width of two.
pub fn push_padded_i32(out: &mut String, n: i32)
    ensures
        final(out)@ == old(out)@ + padded_i32(n as int),
{
    if n < 0 {
        out.append("-");
        proof {
            reveal_strlit("-");
            assert("-"@ =~= seq!['-']);
        }
        let magnitude: u64 = (-(n as i64)) as u64;
        push_decimal(out, magnitude);
        proof {
            assert(old(out)@ + seq!['-'] + decimal(magnitude as nat) =~= old(out)@ + (seq!['-']
                + decimal(magnitude as nat)));
        }
    } else {
        push_two_digits(out, n as u64);
    }
}

/// A 64-bit integer in decimal notation.
pub open spec fn decimal_i64(n: int) -> Seq<char> {
    if n < 0 {
        seq!['-'] + decimal((-n) as nat)
    } else {
        decimal(n as nat)
    }
}

/// Appends `n` in decimal notation.
pub fn push_i64(out: &mut String, n: i64)
    ensures
        final(out)@ == old(out)@ + decimal_i64(n as int),
{
    if n < 0 {
        out.append("-");
        proof {
            reveal_strlit("-");
            assert("-"@ =~= seq!['-']);
        }
        let magnitude: u64 = if n == i64::MIN {
            0x8000_0000_0000_0000
        } else {
            (-n) as u64
        };
        push_decimal(out, magnitude);
        proof {
            assert(old(out)@ + seq!['-'] + decimal(magnitude as nat) =~= old(out)@ + (seq!['-']
                + decimal(magnitude as nat)));
        }
    } else {
        push_decimal(out, n as u64);
    }
}

/// A text in which each occurrence of the character `from` gives way to the
/// text `to`.
pub open spec fn replaced_char(s: Seq<char>, from: char, to: Seq<char>) -> Seq<char>
    decreases s.len(),
{
    if s.len() == 0 {
        Seq::empty()
    } else if s.last() == from {
        replaced_char(s.drop_last(), from, to) + to
    } else {
        replaced_char(s.drop_last(), from, to).push(s.last())
    }
}

/// Replaces each occurrence of the character `from` in `text` by `to`.
pub fn replace_char(text: &str, from: char, to: &str) -> (r: String)
    ensures
        r@ == replaced_char(text@, from, to@),
{
    let chars = to_chars(text);
    let mut out = String::new();
    let mut i: usize = 0;
    proof {
        assert(text@.subrange(0, 0) =~= Seq::<char>::empty());
    }
    while i < chars.len()
        invariant
            chars@ == text@,
            i <= chars@.len(),
            out@ == replaced_char(text@.subrange(0, i as int), from, to@),
        decreases chars@.len() - i,
    {
        proof {
            let longer = text@.subrange(0, i + 1);
            assert(longer.drop_last() =~= text@.subrange(0, i as int));
            assert(longer.last() == chars@[i as int]);
            assert(text@.subrange(i as int, i + 1) =~= seq![chars@[i as int]]);
        }
        if chars[i] == from {
            out.append(to);
        } else {
            let ghost before = out@;
            out.append(text.substring_char(i, i + 1));
            proof {
                assert(out@ =~= before.push(chars@[i as int]));
            }
        }
        i = i + 1;
    }
    proof {
        assert(text@.subrange(0, chars@.len() as int) =~= text@);
    }
    out
}

/// Whether two texts are the same but for the case of their ASCII letters.
pub open spec fn same_ignoring_ascii_case(a: Seq<char>, b: Seq<char>) -> bool {
    ascii_lowercase(a) == ascii_lowercase(b)
}

/// Whether two texts are the same but for the case of their ASCII letters.
pub fn eq_ignore_ascii_case(a: &str, b: &str) -> (r: bool)
    ensures
        r == same_ignoring_ascii_case(a@, b@),
{
    let left = to_ascii_lowercase(&to_chars(a));
    let right = to_ascii_lowercase(&to_chars(b));
    if left.len() != right.len() {
        return false;
    }
    let mut i: usize = 0;
    while i < left.len()
        invariant
            left@ == ascii_lowercase(a@),
            right@ == ascii_lowercase(b@),
            left@.len() == right@.len(),
            i <= left@.len(),
            forall|j: int| 0 <= j < i ==> left@[j] == right@[j],
        decreases left@.len() - i,
    {
        if left[i] != right[i] {
            proof {
                assert(left@[i as int] != right@[i as int]);
            }
            return false;
        }
        i = i + 1;
    }
    proof {
        assert(left@ =~= right@);
    }
    true
}

/// Whether one text stands somewhere in another.
pub fn contains_str(hay: &str, needle: &str) -> (r: bool)
    ensures
        r == contains_text(hay@, needle@),
{
    contains_chars(&to_chars(hay), &to_chars(needle))
}

/// What `str::to_lowercase` makes of a text: its lower case as Unicode
/// defines it.
pub uninterp spec fn lowercase_of(s: Seq<char>) -> Seq<char>;

/// `str::to_lowercase` of the standard library: the result is the lower case
/// of the text as Unicode defines it, and depends on the text alone.
#[verifier::external_body]
pub(crate) fn to_lowercase(text: &str) -> (r: String)
    ensures
        r@ == lowercase_of(text@),
{
    text.to_lowercase()
}

} // verus!
