//! Turning the name of a video file into a title to search for.

use vstd::prelude::*;
use vstd::string::StrSliceExecFns;
use crate::paths::file_extension;
use crate::series::{groups_view, pattern_groups, regex_accepts, regex_captures};
use crate::text::{ascii_lower, ascii_lowercase, to_chars};
use crate::words::{
    join_ranges, join_words, ranges_view, ranges_within, split_ranges, split_words, utf8_len,
    utf8_len_at_least, Separator,
};

verus! {

/// A text without `suffix` at its end, and the text itself where it does
/// not end so.
pub open spec fn strip_suffix(s: Seq<char>, suffix: Seq<char>) -> Seq<char> {
    if suffix.len() <= s.len() && s.subrange(s.len() - suffix.len(), s.len() as int) == suffix {
        s.subrange(0, s.len() - suffix.len())
    } else {
        s
    }
}

/// A text without the dots at its end.
pub open spec fn trim_end_dots(s: Seq<char>) -> Seq<char>
    decreases s.len(),
{
    if s.len() > 0 && s.last() == '.' {
        trim_end_dots(s.drop_last())
    } else {
        s
    }
}

/// A file name without its extension and without the dots before it.
pub open spec fn base_name(filename: Seq<char>, extension: Seq<char>) -> Seq<char> {
    trim_end_dots(strip_suffix(filename, extension))
}

/// The words that take more than one byte.
pub open spec fn keep_long(words: Seq<Seq<char>>) -> Seq<Seq<char>>
    decreases words.len(),
{
    if words.len() == 0 {
        Seq::empty()
    } else if utf8_len(words.last()) > 1 {
        keep_long(words.drop_last()).push(words.last())
    } else {
        keep_long(words.drop_last())
    }
}

/// Whether a word counts in the last resort: it takes more than one byte
/// and is not the extension, whatever the case of its ASCII letters.
pub open spec fn is_meaningful(word: Seq<char>, extension: Seq<char>) -> bool {
    utf8_len(word) > 1 && ascii_lowercase(word) != ascii_lowercase(extension)
}

/// The first `limit` words that count in the last resort.
pub open spec fn first_meaningful(words: Seq<Seq<char>>, extension: Seq<char>, limit: nat) -> Seq<
    Seq<char>,
>
    decreases words.len(),
{
    if limit == 0 || words.len() == 0 {
        Seq::empty()
    } else if is_meaningful(words[0], extension) {
        seq![words[0]] + first_meaningful(words.drop_first(), extension, (limit - 1) as nat)
    } else {
        first_meaningful(words.drop_first(), extension, limit)
    }
}

/// The title that stands before a year: the first group of the match, with
/// its words parted by single spaces; empty where there is no match.
pub open spec fn year_title(groups: Option<Seq<Option<Seq<char>>>>) -> Seq<char> {
    match groups {
        Some(found) => {
            if found.len() > 1 && found[1] is Some {
                join_words(split_words(found[1]->Some_0, Separator::SpaceOrPunctuation), " "@)
            } else {
                Seq::empty()
            }
        },
        None => Seq::empty(),
    }
}

/// The best candidate so far and the number of its words, after one more
/// text with a pattern blanked out was looked at: the text wins where it
/// holds more long words.
pub open spec fn better_candidate(best: (Seq<char>, nat), blanked: Option<Seq<char>>) -> (Seq<char>, nat) {
    match blanked {
        None => best,
        Some(text) => {
            let words = keep_long(split_words(text, Separator::Space));
            if words.len() > best.1 {
                (join_words(words, " "@), words.len())
            } else {
                best
            }
        },
    }
}

/// The best candidate among the texts with one pattern each blanked out,
/// starting from the name itself with no word.
pub open spec fn best_candidate(name: Seq<char>, blanked: Seq<Option<Seq<char>>>) -> (Seq<char>, nat)
    decreases blanked.len(),
{
    if blanked.len() == 0 {
        (name, 0)
    } else {
        better_candidate(best_candidate(name, blanked.drop_last()), blanked.last())
    }
}

/// The title to search for, given the file name, its extension, what the
/// year pattern finds in the base name and the base name with each of the
/// clutter patterns blanked out.
///
/// What stands before a year is the title, if it is not empty. Else the best
/// candidate is the title, unless it takes less than three bytes: then the
/// first three words of the base name that count are.
pub open spec fn cleaned_name(
    filename: Seq<char>,
    extension: Seq<char>,
    year_groups: Option<Seq<Option<Seq<char>>>>,
    blanked: Seq<Option<Seq<char>>>,
) -> Seq<char> {
    let name = base_name(filename, extension);
    let title = year_title(year_groups);
    let best = best_candidate(name, blanked).0;
    if title.len() > 0 {
        title
    } else if utf8_len(best) < 3 {
        join_words(
            first_meaningful(split_words(name, Separator::NonAlphanumeric), extension, 3),
            " "@,
        )
    } else {
        best
    }
}

/// The texts as sequences of characters.
pub open spec fn texts_view(texts: Vec<Option<String>>) -> Seq<Option<Seq<char>>> {
    Seq::new(
        texts@.len(),
        |i: int|
            match texts@[i] {
                Some(text) => Some(text@),
                None => None,
            },
    )
}

/// The file name without its extension and without the dots before it.
pub fn strip_name(filename: &str, extension: &str) -> (name: String)
    ensures
        name@ == base_name(filename@, extension@),
{
    let chars = to_chars(filename);
    let suffix = to_chars(extension);
    let n = chars.len();
    let m = suffix.len();
    let mut end: usize = n;
    if m <= n {
        let mut k: usize = 0;
        let mut same = true;
        while k < m
            invariant
                n == chars@.len(),
                m == suffix@.len(),
                m <= n,
                k <= m,
                same ==> forall|j: int| 0 <= j < k ==> chars@[n - m + j] == suffix@[j],
                !same ==> chars@.subrange(n - m, n as int) != suffix@,
            decreases m - k,
        {
            if chars[n - m + k] != suffix[k] {
                proof {
                    assert(chars@.subrange(n - m, n as int)[k as int] == chars@[n - m + k]);
                }
                same = false;
            }
            k = k + 1;
        }
        if same {
            proof {
                assert(chars@.subrange(n - m, n as int) =~= suffix@);
            }
            end = n - m;
        }
    }
    let ghost stripped = strip_suffix(filename@, extension@);
    proof {
        assert(stripped =~= filename@.subrange(0, end as int));
    }
    while end > 0 && chars[end - 1] == '.'
        invariant
            chars@ == filename@,
            end <= chars@.len(),
            trim_end_dots(stripped) == trim_end_dots(filename@.subrange(0, end as int)),
        decreases end,
    {
        proof {
            let part = filename@.subrange(0, end as int);
            assert(part.last() == chars@[end - 1]);
            assert(part.drop_last() =~= filename@.subrange(0, end - 1));
        }
        end = end - 1;
    }
    proof {
        let part = filename@.subrange(0, end as int);
        if end > 0 {
            assert(part.last() == chars@[end - 1]);
        }
    }
    filename.substring_char(0, end).to_owned()
}

/// The ranges of the words that take more than one byte.
fn long_ranges(chars: &Vec<char>, ranges: &Vec<(usize, usize)>) -> (kept: Vec<(usize, usize)>)
    requires
        ranges_within(ranges@, chars@.len()),
    ensures
        ranges_within(kept@, chars@.len()),
        ranges_view(chars@, kept@) == keep_long(ranges_view(chars@, ranges@)),
{
    let mut kept: Vec<(usize, usize)> = Vec::new();
    let mut k: usize = 0;
    let ghost words = ranges_view(chars@, ranges@);
    proof {
        assert(words.subrange(0, 0) =~= Seq::<Seq<char>>::empty());
        assert(ranges_view(chars@, kept@) =~= Seq::<Seq<char>>::empty());
    }
    while k < ranges.len()
        invariant
            ranges_within(ranges@, chars@.len()),
            ranges_within(kept@, chars@.len()),
            words == ranges_view(chars@, ranges@),
            k <= ranges@.len(),
            ranges_view(chars@, kept@) == keep_long(words.subrange(0, k as int)),
        decreases ranges@.len() - k,
    {
        let (from, to) = ranges[k];
        proof {
            let longer = words.subrange(0, k + 1);
            assert(longer.drop_last() =~= words.subrange(0, k as int));
            assert(longer.last() == chars@.subrange(from as int, to as int));
        }
        if utf8_len_at_least(chars, from, to, 2) {
            proof {
                assert(ranges_view(chars@, kept@.push((from, to))) =~= ranges_view(
                    chars@,
                    kept@,
                ).push(chars@.subrange(from as int, to as int)));
            }
            kept.push((from, to));
        }
        k = k + 1;
    }
    proof {
        assert(words.subrange(0, ranges@.len() as int) =~= words);
    }
    kept
}

/// Whether the stretch of `chars` from `from` to `to` is `other`, whatever
/// the case of the ASCII letters.
fn equals_ignoring_case(chars: &Vec<char>, from: usize, to: usize, other: &Vec<char>) -> (r: bool)
    requires
        from <= to <= chars@.len(),
    ensures
        r == (ascii_lowercase(chars@.subrange(from as int, to as int)) == ascii_lowercase(other@)),
{
    let ghost word = chars@.subrange(from as int, to as int);
    if to - from != other.len() {
        proof {
            assert(ascii_lowercase(word).len() != ascii_lowercase(other@).len());
        }
        return false;
    }
    let mut k: usize = 0;
    while k < other.len()
        invariant
            from <= to <= chars@.len(),
            word == chars@.subrange(from as int, to as int),
            to - from == other@.len(),
            k <= other@.len(),
            forall|j: int| 0 <= j < k ==> ascii_lower(word[j]) == ascii_lower(other@[j]),
        decreases other@.len() - k,
    {
        let a = chars[from + k];
        let b = other[k];
        let la = if 'A' <= a && a <= 'Z' {
            ((a as u8) + 32) as char
        } else {
            a
        };
        let lb = if 'A' <= b && b <= 'Z' {
            ((b as u8) + 32) as char
        } else {
            b
        };
        if la != lb {
            proof {
                assert(word[k as int] == a);
                assert(ascii_lowercase(word)[k as int] != ascii_lowercase(other@)[k as int]);
            }
            return false;
        }
        k = k + 1;
    }
    proof {
        assert(ascii_lowercase(word) =~= ascii_lowercase(other@));
    }
    true
}

/// The ranges of the first `limit` words that count in the last resort.
fn meaningful_ranges(
    chars: &Vec<char>,
    ranges: &Vec<(usize, usize)>,
    extension: &Vec<char>,
    limit: usize,
) -> (kept: Vec<(usize, usize)>)
    requires
        ranges_within(ranges@, chars@.len()),
    ensures
        ranges_within(kept@, chars@.len()),
        ranges_view(chars@, kept@) == first_meaningful(
            ranges_view(chars@, ranges@),
            extension@,
            limit as nat,
        ),
{
    let mut kept: Vec<(usize, usize)> = Vec::new();
    let mut k: usize = 0;
    let ghost words = ranges_view(chars@, ranges@);
    proof {
        assert(words.subrange(0, words.len() as int) =~= words);
        assert(ranges_view(chars@, kept@) =~= Seq::<Seq<char>>::empty());
        assert(Seq::<Seq<char>>::empty() + first_meaningful(words, extension@, limit as nat)
            =~= first_meaningful(words, extension@, limit as nat));
    }
    while k < ranges.len() && kept.len() < limit
        invariant
            ranges_within(ranges@, chars@.len()),
            ranges_within(kept@, chars@.len()),
            words == ranges_view(chars@, ranges@),
            k <= ranges@.len(),
            kept@.len() <= limit,
            first_meaningful(words, extension@, limit as nat) == ranges_view(chars@, kept@)
                + first_meaningful(
                words.subrange(k as int, words.len() as int),
                extension@,
                (limit - kept@.len()) as nat,
            ),
        decreases ranges@.len() - k,
    {
        let (from, to) = ranges[k];
        let ghost rest = words.subrange(k as int, words.len() as int);
        proof {
            assert(rest[0] == chars@.subrange(from as int, to as int));
            assert(rest.drop_first() =~= words.subrange(k + 1, words.len() as int));
        }
        if utf8_len_at_least(chars, from, to, 2) && !equals_ignoring_case(
            chars,
            from,
            to,
            extension,
        ) {
            proof {
                let before = ranges_view(chars@, kept@);
                let after = ranges_view(chars@, kept@.push((from, to)));
                assert(after =~= before + seq![rest[0]]);
                let tail = first_meaningful(
                    rest.drop_first(),
                    extension@,
                    (limit - kept@.len() - 1) as nat,
                );
                assert(before + (seq![rest[0]] + tail) =~= after + tail);
            }
            kept.push((from, to));
        }
        k = k + 1;
    }
    proof {
        let rest = words.subrange(k as int, words.len() as int);
        assert(first_meaningful(rest, extension@, (limit - kept@.len()) as nat) =~= Seq::<
            Seq<char>,
        >::empty());
        assert(ranges_view(chars@, kept@) + Seq::<Seq<char>>::empty() =~= ranges_view(
            chars@,
            kept@,
        ));
    }
    kept
}

/// The pattern of a title followed by a year of the twentieth or the
/// twenty-first century.
pub open spec fn year_pattern() -> Seq<char> {
    r"^(.*?)\b(19|20)\d{2}\b"@
}

/// The patterns of what clutters a file name: the resolution, the codec, the
/// source, the audio format, subtitles and dubbing, the edition, repacks,
/// other formats, and parts and episodes.
pub open spec fn clutter_patterns() -> Seq<Seq<char>> {
    seq![
        r"(?i)\b\d{3,4}p\b"@,
        r"(?i)\b(?:x264|x265|h264|h265)\b"@,
        r"(?i)\b(?:bluray|brrip|dvdrip|hdrip|webrip|web-dl|hdcam|hdts|cam|ts|tc|r5|dvdscr|dvdscreener|screener)\b"@,
        r"(?i)\b(?:aac|ac3|dts|dd5\.1|mp3|flac|truehd|atmos)\b"@,
        r"(?i)\b(?:subs|subbed|dubbed|multi|dual)\b"@,
        r"(?i)\b(?:extended|unrated|director(?:'s)? cut|theatrical|special edition|ultimate edition|collector(?:'s)? edition)\b"@,
        r"(?i)\b(?:repack|proper|rerip|real)\b"@,
        r"(?i)\b(?:hevc|hdr|uhd|4k|3d|imax)\b"@,
        r"(?i)\b(?:part|pt|season|s|episode|e|ep|vol|volume|v)\d+\b"@,
    ]
}

/// The clutter pattern at `index`.
fn clutter_pattern(index: usize) -> (pattern: &'static str)
    requires
        index < 9,
    ensures
        clutter_patterns().len() == 9,
        pattern@ == clutter_patterns()[index as int],
{
    if index == 0 {
        r"(?i)\b\d{3,4}p\b"
    } else if index == 1 {
        r"(?i)\b(?:x264|x265|h264|h265)\b"
    } else if index == 2 {
        r"(?i)\b(?:bluray|brrip|dvdrip|hdrip|webrip|web-dl|hdcam|hdts|cam|ts|tc|r5|dvdscr|dvdscreener|screener)\b"
    } else if index == 3 {
        r"(?i)\b(?:aac|ac3|dts|dd5\.1|mp3|flac|truehd|atmos)\b"
    } else if index == 4 {
        r"(?i)\b(?:subs|subbed|dubbed|multi|dual)\b"
    } else if index == 5 {
        r"(?i)\b(?:extended|unrated|director(?:'s)? cut|theatrical|special edition|ultimate edition|collector(?:'s)? edition)\b"
    } else if index == 6 {
        r"(?i)\b(?:repack|proper|rerip|real)\b"
    } else if index == 7 {
        r"(?i)\b(?:hevc|hdr|uhd|4k|3d|imax)\b"
    } else {
        r"(?i)\b(?:part|pt|season|s|episode|e|ep|vol|volume|v)\d+\b"
    }
}

/// What `regex::Regex::replace_all` makes of `text`: every match of the
/// compiled `pattern`, from left to right and without overlap, gives way to
/// `replacement`, in which `$` refers to capture groups.
pub uninterp spec fn regex_replaced(pattern: Seq<char>, text: Seq<char>, replacement: Seq<char>) -> Seq<
    char,
>;

/// `regex::Regex::new` on `pattern`, then `Regex::replace_all` on `text`
/// with `replacement`, copied into a string. The result is the error of `new`
/// exactly where the pattern is not accepted, and else the text that
/// `replace_all` gives, which depends on the three texts alone.
#[verifier::external_body]
fn regex_replace_all(pattern: &str, text: &str, replacement: &str) -> (r: Result<String, regex::Error>)
    ensures
        r is Ok <==> regex_accepts(pattern@),
        r is Ok ==> r->Ok_0@ == regex_replaced(pattern@, text@, replacement@),
{
    let re = regex::Regex::new(pattern)?;
    Ok(re.replace_all(text, replacement).into_owned())
}

/// The text with every match of the pattern replaced by a space, and
/// nothing where the pattern is not accepted.
pub open spec fn pattern_blanked(pattern: Seq<char>, text: Seq<char>) -> Option<Seq<char>> {
    if regex_accepts(pattern) {
        Some(regex_replaced(pattern, text, " "@))
    } else {
        None
    }
}

/// The text with each of the clutter patterns blanked out, one text for each
/// pattern.
pub open spec fn blanked_all(text: Seq<char>) -> Seq<Option<Seq<char>>> {
    Seq::new(clutter_patterns().len(), |k: int| pattern_blanked(clutter_patterns()[k], text))
}

/// The title to search for, given the file name, its extension, what the
/// year pattern finds in the base name, and the base name with each clutter
/// pattern blanked out.
pub fn clean_name_from_matches(
    filename: &str,
    extension: &str,
    year_groups: &Option<Vec<Option<String>>>,
    blanked: &Vec<Option<String>>,
) -> (title: String)
    ensures
        title@ == cleaned_name(
            filename@,
            extension@,
            match *year_groups {
                Some(groups) => Some(groups_view(groups)),
                None => None,
            },
            texts_view(*blanked),
        ),
{
    let name = strip_name(filename, extension);
    if let Some(groups) = year_groups {
        if groups.len() > 1 {
            if let Some(before_year) = &groups[1] {
                let chars = to_chars(before_year.as_str());
                let ranges = split_ranges(&chars, Separator::SpaceOrPunctuation);
                let cleaned = join_ranges(before_year.as_str(), &ranges, " ");
                if !cleaned.as_str().is_empty() {
                    return cleaned;
                }
            }
        }
    }
    let ghost texts = texts_view(*blanked);
    let mut best = name.clone();
    let mut max_words: usize = 0;
    let mut k: usize = 0;
    proof {
        assert(texts.subrange(0, 0) =~= Seq::<Option<Seq<char>>>::empty());
    }
    while k < blanked.len()
        invariant
            texts == texts_view(*blanked),
            k <= blanked@.len(),
            (best@, max_words as nat) == best_candidate(name@, texts.subrange(0, k as int)),
        decreases blanked@.len() - k,
    {
        proof {
            let longer = texts.subrange(0, k + 1);
            assert(longer.drop_last() =~= texts.subrange(0, k as int));
            assert(longer.last() == texts[k as int]);
        }
        if let Some(text) = &blanked[k] {
            let chars = to_chars(text.as_str());
            let ranges = split_ranges(&chars, Separator::Space);
            let kept = long_ranges(&chars, &ranges);
            if kept.len() > max_words {
                max_words = kept.len();
                best = join_ranges(text.as_str(), &kept, " ");
            }
        }
        k = k + 1;
    }
    proof {
        assert(texts.subrange(0, blanked@.len() as int) =~= texts);
    }
    let best_chars = to_chars(best.as_str());
    proof {
        assert(best_chars@.subrange(0, best_chars@.len() as int) =~= best_chars@);
    }
    if utf8_len_at_least(&best_chars, 0, best_chars.len(), 3) {
        return best;
    }
    let name_chars = to_chars(name.as_str());
    let ranges = split_ranges(&name_chars, Separator::NonAlphanumeric);
    let extension_chars = to_chars(extension);
    let kept = meaningful_ranges(&name_chars, &ranges, &extension_chars, 3);
    join_ranges(name.as_str(), &kept, " ")
}

/// Turns the name of a video file into a title to search for: what stands
/// before a year, or else the name without what clutters it.
///
/// The extension is what the platform takes for one; for that extension the
/// result is the title defined above.
pub fn clean_video_name(filename: &str) -> (title: String)
    ensures
        exists|extension: Seq<char>|
            title@ == #[trigger] cleaned_name(
                filename@,
                extension,
                pattern_groups(year_pattern(), base_name(filename@, extension)),
                blanked_all(base_name(filename@, extension)),
            ),
{
    let extension = match file_extension(filename) {
        Some(extension) => extension,
        None => String::new(),
    };
    let name = strip_name(filename, extension.as_str());
    let year_groups = match regex_captures(r"^(.*?)\b(19|20)\d{2}\b", name.as_str()) {
        Ok(groups) => groups,
        Err(_) => None,
    };
    let mut blanked: Vec<Option<String>> = Vec::new();
    let mut k: usize = 0;
    while k < 9
        invariant
            k <= 9,
            clutter_patterns().len() == 9,
            blanked@.len() == k,
            forall|j: int|
                0 <= j < k ==> texts_view(blanked)[j] == pattern_blanked(
                    #[trigger] clutter_patterns()[j],
                    name@,
                ),
        decreases 9 - k,
    {
        let text = match regex_replace_all(clutter_pattern(k), name.as_str(), " ") {
            Ok(text) => Some(text),
            Err(_) => None,
        };
        blanked.push(text);
        k = k + 1;
    }
    let title = clean_name_from_matches(filename, extension.as_str(), &year_groups, &blanked);
    proof {
        assert(texts_view(blanked) =~= blanked_all(name@));
        let found = match year_groups {
            Some(groups) => Some(groups_view(groups)),
            None => None,
        };
        assert(found == pattern_groups(year_pattern(), name@));
        assert(title@ == cleaned_name(
            filename@,
            extension@,
            pattern_groups(year_pattern(), base_name(filename@, extension@)),
            blanked_all(base_name(filename@, extension@)),
        ));
    }
    title
}

} // verus!
