//! Reading a series title, a season and an episode out of a file name.

use vstd::prelude::*;
use crate::text::{parse_i32, parsed_i32, trim, trimmed};

verus! {

/// What a file name says of the series it belongs to.
#[derive(Debug)]
pub struct SeriesInfo {
    pub series_title: String,
    pub season: i32,
    pub episode: i32,
    pub is_series: bool,
}

/// A `SeriesInfo` with its title as a sequence of characters.
pub struct SeriesInfoView {
    pub series_title: Seq<char>,
    pub season: i32,
    pub episode: i32,
    pub is_series: bool,
}

impl View for SeriesInfo {
    type V = SeriesInfoView;

    open spec fn view(&self) -> SeriesInfoView {
        SeriesInfoView {
            series_title: self.series_title@,
            season: self.season,
            episode: self.episode,
            is_series: self.is_series,
        }
    }
}

/// The four shapes of a series file name, in the order in which they are
/// tried.
#[derive(Clone, Copy, Debug, PartialEq, Eq, Structural)]
pub enum SeriesPattern {
    /// A title, then `S`, a season, `E` and an episode.
    SeasonEpisode,
    /// A title, then a season and an episode in Chinese notation.
    ChineseSeasonEpisode,
    /// A title, then an episode in Chinese notation, of the first season.
    ChineseEpisode,
    /// A title, then `E` and an episode, of the first season.
    Episode,
}

impl SeriesPattern {
    /// The regular expression of the shape.
    pub open spec fn spec_regex(self) -> Seq<char> {
        match self {
            SeriesPattern::SeasonEpisode => r"(?i)(.+?)[\s.]*S(\d{1,2})E(\d{1,2})"@,
            SeriesPattern::ChineseSeasonEpisode => r"(.+?)第(\d{1,2})季第(\d{1,2})集"@,
            SeriesPattern::ChineseEpisode => r"(.+?)第(\d{1,2})集"@,
            SeriesPattern::Episode => r"(?i)(.+?)[\s.]*E(\d{1,2})"@,
        }
    }

    /// Whether the shape holds a season: if not, the season is the first.
    pub open spec fn spec_has_season(self) -> bool {
        self == SeriesPattern::SeasonEpisode || self == SeriesPattern::ChineseSeasonEpisode
    }

    /// The regular expression of the shape.
    pub fn regex(self) -> (pattern: &'static str)
        ensures
            pattern@ == self.spec_regex(),
    {
        match self {
            SeriesPattern::SeasonEpisode => r"(?i)(.+?)[\s.]*S(\d{1,2})E(\d{1,2})",
            SeriesPattern::ChineseSeasonEpisode => r"(.+?)第(\d{1,2})季第(\d{1,2})集",
            SeriesPattern::ChineseEpisode => r"(.+?)第(\d{1,2})集",
            SeriesPattern::Episode => r"(?i)(.+?)[\s.]*E(\d{1,2})",
        }
    }

    /// Whether the shape holds a season.
    pub fn has_season(self) -> (r: bool)
        ensures
            r == self.spec_has_season(),
    {
        match self {
            SeriesPattern::SeasonEpisode => true,
            SeriesPattern::ChineseSeasonEpisode => true,
            SeriesPattern::ChineseEpisode => false,
            SeriesPattern::Episode => false,
        }
    }
}

/// The error with which the regex crate refuses a pattern.
#[verifier::external_type_specification]
#[verifier::external_body]
pub struct ExRegexError(regex::Error);

/// Whether `regex::Regex::new` compiles `pattern`.
pub uninterp spec fn regex_accepts(pattern: Seq<char>) -> bool;

/// What `regex::Regex::captures` finds of the compiled `pattern` in `text`:
/// nothing where the pattern matches nowhere, and else the capture groups of
/// the leftmost match, the whole match first, each with the text it matched
/// if it took part.
pub uninterp spec fn regex_groups(pattern: Seq<char>, text: Seq<char>) -> Option<
    Seq<Option<Seq<char>>>,
>;

/// The capture groups as sequences of characters.
pub open spec fn groups_view(groups: Vec<Option<String>>) -> Seq<Option<Seq<char>>> {
    Seq::new(
        groups@.len(),
        |i: int|
            match groups@[i] {
                Some(text) => Some(text@),
                None => None,
            },
    )
}

/// `regex::Regex::new` on `pattern`, then `Regex::captures` on `text`, with
/// the groups that `Captures::iter` hands out copied into strings. The
/// result is the error of `new` exactly where the pattern is not accepted,
/// and else what `captures` finds, which depends on the two texts alone.
#[verifier::external_body]
pub(crate) fn regex_captures(pattern: &str, text: &str) -> (r: Result<Option<Vec<Option<String>>>, regex::Error>)
    ensures
        r is Ok <==> regex_accepts(pattern@),
        r is Ok ==> (match r->Ok_0 {
            Some(groups) => Some(groups_view(groups)),
            None => None,
        }) == regex_groups(pattern@, text@),
{
    let re = regex::Regex::new(pattern)?;
    Ok(
        re.captures(text).map(
            |caps| caps.iter().map(|group| group.map(|m| m.as_str().to_string())).collect(),
        ),
    )
}

/// What the pattern finds in the text, and nothing where the pattern is not
/// accepted.
pub open spec fn pattern_groups(pattern: Seq<char>, text: Seq<char>) -> Option<
    Seq<Option<Seq<char>>>,
> {
    if regex_accepts(pattern) {
        regex_groups(pattern, text)
    } else {
        None
    }
}

/// The text of the group at `index`, empty where the group is absent.
pub open spec fn group_text(groups: Seq<Option<Seq<char>>>, index: int) -> Seq<char> {
    if 0 <= index < groups.len() && groups[index] is Some {
        groups[index]->Some_0
    } else {
        Seq::empty()
    }
}

/// The number that the group at `index` spells, and 1 where it spells none.
pub open spec fn group_number(groups: Seq<Option<Seq<char>>>, index: int) -> i32 {
    match parsed_i32(group_text(groups, index)) {
        Some(value) => value,
        None => 1,
    }
}

/// What the groups of a match of the shape `pattern` say: the first group,
/// trimmed, is the title; the season is the second group where the shape has
/// one, and else 1; the episode is the last group.
pub open spec fn series_of_groups(pattern: SeriesPattern, groups: Seq<Option<Seq<char>>>) -> SeriesInfoView {
    SeriesInfoView {
        series_title: trimmed(group_text(groups, 1)),
        season: if pattern.spec_has_season() {
            group_number(groups, 2)
        } else {
            1
        },
        episode: if pattern.spec_has_season() {
            group_number(groups, 3)
        } else {
            group_number(groups, 2)
        },
        is_series: true,
    }
}

/// What is said of a file name that has none of the shapes.
pub open spec fn no_series() -> SeriesInfoView {
    SeriesInfoView { series_title: Seq::empty(), season: 1, episode: 1, is_series: false }
}

/// What a file name says, given what each shape, in order, finds in it: the
/// first shape that matches decides.
pub open spec fn series_of_matches(
    first: Option<Seq<Option<Seq<char>>>>,
    second: Option<Seq<Option<Seq<char>>>>,
    third: Option<Seq<Option<Seq<char>>>>,
    fourth: Option<Seq<Option<Seq<char>>>>,
) -> SeriesInfoView {
    if first is Some {
        series_of_groups(SeriesPattern::SeasonEpisode, first->Some_0)
    } else if second is Some {
        series_of_groups(SeriesPattern::ChineseSeasonEpisode, second->Some_0)
    } else if third is Some {
        series_of_groups(SeriesPattern::ChineseEpisode, third->Some_0)
    } else if fourth is Some {
        series_of_groups(SeriesPattern::Episode, fourth->Some_0)
    } else {
        no_series()
    }
}

/// What a file name says of its series: the four shapes are tried on it in
/// order, and the first that matches decides.
pub open spec fn series_of_name(filename: Seq<char>) -> SeriesInfoView {
    series_of_matches(
        pattern_groups(SeriesPattern::SeasonEpisode.spec_regex(), filename),
        pattern_groups(SeriesPattern::ChineseSeasonEpisode.spec_regex(), filename),
        pattern_groups(SeriesPattern::ChineseEpisode.spec_regex(), filename),
        pattern_groups(SeriesPattern::Episode.spec_regex(), filename),
    )
}

/// The text of the group at `index`, empty where the group is absent.
fn group_at(groups: &Vec<Option<String>>, index: usize) -> (text: String)
    ensures
        text@ == group_text(groups_view(*groups), index as int),
{
    if index < groups.len() {
        match &groups[index] {
            Some(text) => text.clone(),
            None => String::new(),
        }
    } else {
        String::new()
    }
}

/// The number that the group at `index` spells, and 1 where it spells none.
fn number_at(groups: &Vec<Option<String>>, index: usize) -> (value: i32)
    ensures
        value == group_number(groups_view(*groups), index as int),
{
    let text = group_at(groups, index);
    match parse_i32(text.as_str()) {
        Some(value) => value,
        None => 1,
    }
}

/// Builds the series information from the capture groups of a match of the
/// shape `pattern`.
pub fn series_info_from_groups(pattern: SeriesPattern, groups: &Vec<Option<String>>) -> (info: SeriesInfo)
    ensures
        info@ == series_of_groups(pattern, groups_view(*groups)),
{
    let title = group_at(groups, 1);
    let series_title = trim(title.as_str());
    if pattern.has_season() {
        SeriesInfo {
            series_title,
            season: number_at(groups, 2),
            episode: number_at(groups, 3),
            is_series: true,
        }
    } else {
        SeriesInfo { series_title, season: 1, episode: number_at(groups, 2), is_series: true }
    }
}

/// Tries one shape on a file name.
fn try_pattern(pattern: SeriesPattern, filename: &str) -> (info: Option<SeriesInfo>)
    ensures
        match pattern_groups(pattern.spec_regex(), filename@) {
            Some(groups) => info is Some && info->Some_0@ == series_of_groups(pattern, groups),
            None => info is None,
        },
{
    match regex_captures(pattern.regex(), filename) {
        Ok(Some(groups)) => Some(series_info_from_groups(pattern, &groups)),
        Ok(None) => None,
        Err(_) => None,
    }
}

/// Reads the series, the season and the episode out of a file name. The
/// four shapes are tried in order and the first that matches decides; a name
/// of no shape is no series.
pub fn parse_series_info(filename: &str) -> (info: SeriesInfo)
    ensures
        info@ == series_of_name(filename@),
{
    if let Some(info) = try_pattern(SeriesPattern::SeasonEpisode, filename) {
        return info;
    }
    if let Some(info) = try_pattern(SeriesPattern::ChineseSeasonEpisode, filename) {
        return info;
    }
    if let Some(info) = try_pattern(SeriesPattern::ChineseEpisode, filename) {
        return info;
    }
    if let Some(info) = try_pattern(SeriesPattern::Episode, filename) {
        return info;
    }
    SeriesInfo { series_title: String::new(), season: 1, episode: 1, is_series: false }
}

} // verus!
