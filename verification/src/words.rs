//! Splitting text into words and joining words into text.

use vstd::prelude::*;
use vstd::string::StrSliceExecFns;
use vstd::string::StringExecFns;
use crate::text::{char_is_space, is_space};

verus! {

/// Whether `char::is_alphanumeric` holds of a character: whether Unicode
/// counts it as a letter or a number.
pub uninterp spec fn is_alphanumeric(c: char) -> bool;

/// `char::is_alphanumeric` of the standard library: the result is what
/// Unicode says of the character, and of nothing else.
#[verifier::external_body]
fn char_is_alphanumeric(c: char) -> (r: bool)
    ensures
        r == is_alphanumeric(c),
{
    c.is_alphanumeric()
}

/// What parts the words of a text.
#[derive(Clone, Copy, Debug, PartialEq, Eq, Structural)]
pub enum Separator {
    /// White space.
    Space,
    /// White space, a dot, an underscore or a hyphen.
    SpaceOrPunctuation,
    /// Every character that is neither a letter nor a number.
    NonAlphanumeric,
}

/// Whether a character parts two words.
pub open spec fn separates(kind: Separator, c: char) -> bool {
    match kind {
        Separator::Space => is_space(c),
        Separator::SpaceOrPunctuation => is_space(c) || c == '.' || c == '_' || c == '-',
        Separator::NonAlphanumeric => !is_alphanumeric(c),
    }
}

/// Whether a character parts two words.
pub fn is_separator(kind: Separator, c: char) -> (r: bool)
    ensures
        r == separates(kind, c),
{
    match kind {
        Separator::Space => char_is_space(c),
        Separator::SpaceOrPunctuation => char_is_space(c) || c == '.' || c == '_' || c == '-',
        Separator::NonAlphanumeric => !char_is_alphanumeric(c),
    }
}

/// The number of characters at the start of a text before the first
/// separator.
pub open spec fn run_length(s: Seq<char>, kind: Separator) -> nat
    decreases s.len(),
{
    if s.len() == 0 || separates(kind, s[0]) {
        0
    } else {
        1 + run_length(s.drop_first(), kind)
    }
}

/// A run is no longer than its text.
pub proof fn lemma_run_length_bound(s: Seq<char>, kind: Separator)
    ensures
        run_length(s, kind) <= s.len(),
    decreases s.len(),
{
    if s.len() > 0 && !separates(kind, s[0]) {
        lemma_run_length_bound(s.drop_first(), kind);
    }
}

/// The words of a text: the longest stretches without a separator, in
/// order.
pub open spec fn split_words(s: Seq<char>, kind: Separator) -> Seq<Seq<char>>
    decreases s.len(),
{
    if s.len() == 0 {
        Seq::empty()
    } else if separates(kind, s[0]) {
        split_words(s.drop_first(), kind)
    } else {
        let n = run_length(s, kind) as int;
        proof {
            lemma_run_length_bound(s, kind);
        }
        seq![s.subrange(0, n)] + split_words(s.subrange(n, s.len() as int), kind)
    }
}

/// The stretches of `text` that the ranges mark.
pub open spec fn ranges_view(text: Seq<char>, ranges: Seq<(usize, usize)>) -> Seq<Seq<char>> {
    Seq::new(ranges.len(), |k: int| text.subrange(ranges[k].0 as int, ranges[k].1 as int))
}

/// Whether every range lies in a text of `len` characters.
pub open spec fn ranges_within(ranges: Seq<(usize, usize)>, len: nat) -> bool {
    forall|k: int| 0 <= k < ranges.len() ==> (#[trigger] ranges[k]).0 <= ranges[k].1 <= len
}

/// Finds the words of a text, each as the range of its characters.
pub fn split_ranges(chars: &Vec<char>, kind: Separator) -> (ranges: Vec<(usize, usize)>)
    ensures
        ranges_within(ranges@, chars@.len()),
        ranges_view(chars@, ranges@) == split_words(chars@, kind),
{
    let n = chars.len();
    let mut ranges: Vec<(usize, usize)> = Vec::new();
    let mut i: usize = 0;
    proof {
        assert(chars@.subrange(0, n as int) =~= chars@);
        assert(ranges_view(chars@, ranges@) =~= Seq::<Seq<char>>::empty());
        assert(Seq::<Seq<char>>::empty() + split_words(chars@, kind) =~= split_words(chars@, kind));
    }
    while i < n
        invariant
            n == chars@.len(),
            i <= n,
            ranges_within(ranges@, chars@.len()),
            split_words(chars@, kind) == ranges_view(chars@, ranges@) + split_words(
                chars@.subrange(i as int, n as int),
                kind,
            ),
        decreases n - i,
    {
        let ghost rest = chars@.subrange(i as int, n as int);
        if is_separator(kind, chars[i]) {
            proof {
                assert(rest[0] == chars@[i as int]);
                assert(rest.drop_first() =~= chars@.subrange(i + 1, n as int));
            }
            i = i + 1;
        } else {
            let mut j: usize = i + 1;
            proof {
                assert(rest[0] == chars@[i as int]);
                assert(rest.drop_first() =~= chars@.subrange(i + 1, n as int));
            }
            while j < n && !is_separator(kind, chars[j])
                invariant
                    n == chars@.len(),
                    i < j <= n,
                    run_length(chars@.subrange(i as int, n as int), kind) == (j - i) + run_length(
                        chars@.subrange(j as int, n as int),
                        kind,
                    ),
                decreases n - j,
            {
                proof {
                    let tail = chars@.subrange(j as int, n as int);
                    assert(tail[0] == chars@[j as int]);
                    assert(tail.drop_first() =~= chars@.subrange(j + 1, n as int));
                }
                j = j + 1;
            }
            proof {
                let tail = chars@.subrange(j as int, n as int);
                if j < n {
                    assert(tail[0] == chars@[j as int]);
                }
                assert(run_length(tail, kind) == 0);
                assert(run_length(rest, kind) == j - i);
                assert(rest.subrange(0, j - i) =~= chars@.subrange(i as int, j as int));
                assert(rest.subrange(j - i, rest.len() as int) =~= tail);
                let before = ranges_view(chars@, ranges@);
                let after = ranges_view(chars@, ranges@.push((i, j)));
                assert(after =~= before + seq![chars@.subrange(i as int, j as int)]);
                assert(before + (seq![chars@.subrange(i as int, j as int)] + split_words(tail, kind))
                    =~= after + split_words(tail, kind));
            }
            ranges.push((i, j));
            i = j;
        }
    }
    proof {
        assert(chars@.subrange(n as int, n as int) =~= Seq::<char>::empty());
        assert(ranges_view(chars@, ranges@) + Seq::<Seq<char>>::empty() =~= ranges_view(
            chars@,
            ranges@,
        ));
    }
    ranges
}

/// The number of bytes that a character takes in UTF-8.
pub open spec fn utf8_width(c: char) -> nat {
    let code = c as u32;
    if code < 0x80 {
        1
    } else if code < 0x800 {
        2
    } else if code < 0x1_0000 {
        3
    } else {
        4
    }
}

/// The number of bytes that a text takes in UTF-8.
pub open spec fn utf8_len(s: Seq<char>) -> nat
    decreases s.len(),
{
    if s.len() == 0 {
        0
    } else {
        utf8_len(s.drop_last()) + utf8_width(s.last())
    }
}

/// Whether the stretch of `chars` from `from` to `to` takes at least `least`
/// bytes in UTF-8.
pub(crate) fn utf8_len_at_least(chars: &Vec<char>, from: usize, to: usize, least: usize) -> (r: bool)
    requires
        from <= to <= chars@.len(),
    ensures
        r == (utf8_len(chars@.subrange(from as int, to as int)) >= least),
{
    if least == 0 {
        return true;
    }
    let mut total: usize = 0;
    let mut i: usize = from;
    proof {
        assert(chars@.subrange(from as int, from as int) =~= Seq::<char>::empty());
    }
    while i < to
        invariant
            from <= i <= to <= chars@.len(),
            total == utf8_len(chars@.subrange(from as int, i as int)),
            total < least,
        decreases to - i,
    {
        let code = chars[i] as u32;
        let width: usize = if code < 0x80 {
            1
        } else if code < 0x800 {
            2
        } else if code < 0x1_0000 {
            3
        } else {
            4
        };
        proof {
            let longer = chars@.subrange(from as int, i + 1);
            assert(longer.drop_last() =~= chars@.subrange(from as int, i as int));
            assert(longer.last() == chars@[i as int]);
        }
        if width >= least - total {
            proof {
                lemma_utf8_len_grows(chars@.subrange(from as int, to as int), i + 1 - from);
                assert(chars@.subrange(from as int, to as int).subrange(0, i + 1 - from)
                    =~= chars@.subrange(from as int, i + 1));
            }
            return true;
        }
        total = total + width;
        i = i + 1;
    }
    total >= least
}

/// A longer text takes at least the bytes of its start.
pub proof fn lemma_utf8_len_grows(s: Seq<char>, k: int)
    requires
        0 <= k <= s.len(),
    ensures
        utf8_len(s.subrange(0, k)) <= utf8_len(s),
    decreases s.len() - k,
{
    if k == s.len() {
        assert(s.subrange(0, k) =~= s);
    } else {
        lemma_utf8_len_grows(s, k + 1);
        assert(s.subrange(0, k + 1).drop_last() =~= s.subrange(0, k));
    }
}

/// Words joined into one text, with `glue` between each two.
pub open spec fn join_words(words: Seq<Seq<char>>, glue: Seq<char>) -> Seq<char>
    decreases words.len(),
{
    if words.len() == 0 {
        Seq::empty()
    } else if words.len() == 1 {
        words[0]
    } else {
        join_words(words.drop_last(), glue) + glue + words.last()
    }
}

/// Joins the stretches of `text` that the ranges mark, with `glue` between
/// each two.
pub(crate) fn join_ranges(text: &str, ranges: &Vec<(usize, usize)>, glue: &str) -> (joined: String)
    requires
        ranges_within(ranges@, text@.len()),
    ensures
        joined@ == join_words(ranges_view(text@, ranges@), glue@),
{
    let mut joined = String::new();
    let mut k: usize = 0;
    let ghost words = ranges_view(text@, ranges@);
    proof {
        assert(words.subrange(0, 0) =~= Seq::<Seq<char>>::empty());
    }
    while k < ranges.len()
        invariant
            ranges_within(ranges@, text@.len()),
            words == ranges_view(text@, ranges@),
            k <= ranges@.len(),
            joined@ == join_words(words.subrange(0, k as int), glue@),
        decreases ranges@.len() - k,
    {
        let (from, to) = ranges[k];
        proof {
            let longer = words.subrange(0, k + 1);
            assert(longer.drop_last() =~= words.subrange(0, k as int));
            assert(longer.last() == text@.subrange(from as int, to as int));
            if k == 0 {
                assert(longer[0] == longer.last());
                assert(Seq::<char>::empty() + longer.last() =~= longer.last());
            }
        }
        if k > 0 {
            joined.append(glue);
        }
        joined.append(text.substring_char(from, to));
        k = k + 1;
    }
    proof {
        assert(words.subrange(0, ranges@.len() as int) =~= words);
    }
    joined
}

} // verus!
