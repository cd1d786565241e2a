//! What is decided around a lookup in the movie database: the addresses to
//! ask, which of the answers fits a name, and what is kept of an answer.

use vstd::prelude::*;
use vstd::string::StringExecFns;
use crate::text::{
    contains_str, contains_text, decimal_i64, eq_ignore_ascii_case, lowercase_of, push_i64,
    replace_char, replaced_char, same_ignoring_ascii_case, to_lowercase,
};
use crate::words::join_words;

verus! {

/// The address that searches the movies for `query`.
pub open spec fn movie_search_url_text(api_key: Seq<char>, query: Seq<char>) -> Seq<char> {
    "https://api.themoviedb.org/3/search/movie?api_key="@ + api_key + "&query="@ + query
        + "&language=zh-CN"@
}

/// The address that searches the series for `query`.
pub open spec fn tv_search_url_text(api_key: Seq<char>, query: Seq<char>) -> Seq<char> {
    "https://api.themoviedb.org/3/search/tv?api_key="@ + api_key + "&query="@ + query
        + "&language=zh-CN"@
}

/// The address of one season of a series.
pub open spec fn season_url_text(series_id: i64, season: i32, api_key: Seq<char>) -> Seq<char> {
    "https://api.themoviedb.org/3/tv/"@ + decimal_i64(series_id as int) + "/season/"@ + decimal_i64(
        season as int,
    ) + "?api_key="@ + api_key + "&language=zh-CN"@
}

/// The address of the list of genres.
pub open spec fn genre_list_url_text(api_key: Seq<char>) -> Seq<char> {
    "https://api.themoviedb.org/3/genre/movie/list?api_key="@ + api_key + "&language=zh-CN"@
}

/// The address of a poster, empty where the answer names none.
pub open spec fn poster_url_text(path: Option<Seq<char>>) -> Seq<char> {
    match path {
        Some(path) => "https://image.tmdb.org/t/p/w500"@ + path,
        None => Seq::empty(),
    }
}

/// The address that searches the movies for `query`.
pub fn movie_search_url(api_key: &str, query: &str) -> (url: String)
    ensures
        url@ == movie_search_url_text(api_key@, query@),
{
    let mut url = "https://api.themoviedb.org/3/search/movie?api_key=".to_owned();
    url.append(api_key);
    url.append("&query=");
    url.append(query);
    url.append("&language=zh-CN");
    url
}

/// The address that searches the series for `query`.
pub fn tv_search_url(api_key: &str, query: &str) -> (url: String)
    ensures
        url@ == tv_search_url_text(api_key@, query@),
{
    let mut url = "https://api.themoviedb.org/3/search/tv?api_key=".to_owned();
    url.append(api_key);
    url.append("&query=");
    url.append(query);
    url.append("&language=zh-CN");
    url
}

/// The address of one season of a series.
pub fn season_url(series_id: i64, season: i32, api_key: &str) -> (url: String)
    ensures
        url@ == season_url_text(series_id, season, api_key@),
{
    let mut url = "https://api.themoviedb.org/3/tv/".to_owned();
    push_i64(&mut url, series_id);
    url.append("/season/");
    push_i64(&mut url, season as i64);
    url.append("?api_key=");
    url.append(api_key);
    url.append("&language=zh-CN");
    url
}

/// The address of the list of genres.
pub fn genre_list_url(api_key: &str) -> (url: String)
    ensures
        url@ == genre_list_url_text(api_key@),
{
    let mut url = "https://api.themoviedb.org/3/genre/movie/list?api_key=".to_owned();
    url.append(api_key);
    url.append("&language=zh-CN");
    url
}

/// The address of a poster, empty where the answer names none.
pub fn poster_url(path: Option<&str>) -> (url: String)
    ensures
        url@ == poster_url_text(
            match path {
                Some(path) => Some(path@),
                None => None,
            },
        ),
{
    match path {
        Some(path) => {
            let mut url = "https://image.tmdb.org/t/p/w500".to_owned();
            url.append(path);
            url
        },
        None => String::new(),
    }
}

/// The name under which a series is searched and cached: its title with
/// each dot turned into a space.
pub fn series_search_name(series_title: &str) -> (name: String)
    ensures
        name@ == replaced_char(series_title@, '.', seq![' ']),
{
    proof {
        reveal_strlit(" ");
        assert(" "@ =~= seq![' ']);
    }
    replace_char(series_title, '.', " ")
}

/// Whether the text of the best match says that there is none: it is empty,
/// or it is `null` in any case of letters.
pub fn is_no_match(best_match: &str) -> (r: bool)
    ensures
        r == (best_match@.len() == 0 || same_ignoring_ascii_case(best_match@, "null"@)),
{
    best_match.is_empty() || eq_ignore_ascii_case(best_match, "null")
}

/// The two titles of one answer to a search; a title that the answer lacks
/// is empty.
#[derive(Debug)]
pub struct Candidate {
    pub title: String,
    pub original_title: String,
}

/// Whether one of the titles of an answer is the name, whatever the case of
/// the ASCII letters.
pub open spec fn is_exact(candidate: Candidate, name: Seq<char>) -> bool {
    same_ignoring_ascii_case(candidate.title@, name) || same_ignoring_ascii_case(
        candidate.original_title@,
        name,
    )
}

/// Whether one of the titles of an answer holds the name, both in lower
/// case.
pub open spec fn is_loose(candidate: Candidate, name: Seq<char>) -> bool {
    contains_text(lowercase_of(candidate.title@), lowercase_of(name)) || contains_text(
        lowercase_of(candidate.original_title@),
        lowercase_of(name),
    )
}

/// Whether `index` is the first place at which `flags` holds.
pub open spec fn is_first_true(flags: Seq<bool>, index: int) -> bool {
    &&& 0 <= index < flags.len()
    &&& flags[index]
    &&& forall|j: int| 0 <= j < index ==> !flags[j]
}

/// Whether `flags` holds nowhere.
pub open spec fn none_true(flags: Seq<bool>) -> bool {
    forall|j: int| 0 <= j < flags.len() ==> !flags[j]
}

/// Whether `index` is the answer to take, given for each answer whether it
/// fits exactly and whether it fits loosely: the first that fits exactly; if
/// none does, the first that fits loosely; if none does, the first answer.
pub open spec fn is_picked(exact: Seq<bool>, loose: Seq<bool>, index: int) -> bool {
    ||| is_first_true(exact, index)
    ||| none_true(exact) && is_first_true(loose, index)
    ||| none_true(exact) && none_true(loose) && index == 0 && exact.len() > 0
}

/// The first place at which `flags` holds.
pub fn first_true(flags: &Vec<bool>) -> (r: Option<usize>)
    ensures
        match r {
            Some(index) => is_first_true(flags@, index as int),
            None => none_true(flags@),
        },
{
    let mut i: usize = 0;
    while i < flags.len()
        invariant
            i <= flags@.len(),
            forall|j: int| 0 <= j < i ==> !flags@[j],
        decreases flags@.len() - i,
    {
        if flags[i] {
            return Some(i);
        }
        i = i + 1;
    }
    None
}

/// Picks the answer to take, given for each answer whether it fits exactly
/// and whether it fits loosely. There is none only where there is no answer.
pub fn pick_match(exact: &Vec<bool>, loose: &Vec<bool>) -> (r: Option<usize>)
    ensures
        match r {
            Some(index) => is_picked(exact@, loose@, index as int),
            None => exact@.len() == 0 && none_true(loose@),
        },
{
    if let Some(index) = first_true(exact) {
        return Some(index);
    }
    if let Some(index) = first_true(loose) {
        return Some(index);
    }
    if exact.len() > 0 {
        Some(0)
    } else {
        None
    }
}

/// Whether each answer fits the name exactly.
pub open spec fn exact_flags(candidates: Seq<Candidate>, name: Seq<char>) -> Seq<bool> {
    Seq::new(candidates.len(), |i: int| is_exact(candidates[i], name))
}

/// Whether each answer fits the name loosely.
pub open spec fn loose_flags(candidates: Seq<Candidate>, name: Seq<char>) -> Seq<bool> {
    Seq::new(candidates.len(), |i: int| is_loose(candidates[i], name))
}

/// Picks, among the answers to a search, the one that fits the name: the
/// first with a title that is the name; else the first with a title that
/// holds the name; else the first of all.
pub fn match_candidates(candidates: &Vec<Candidate>, name: &str) -> (r: Option<usize>)
    ensures
        candidates@.len() == 0 <==> r is None,
        r is Some ==> r->Some_0 < candidates@.len() && is_picked(
            exact_flags(candidates@, name@),
            loose_flags(candidates@, name@),
            r->Some_0 as int,
        ),
{
    let lowered_name = to_lowercase(name);
    let mut exact: Vec<bool> = Vec::new();
    let mut loose: Vec<bool> = Vec::new();
    let mut i: usize = 0;
    while i < candidates.len()
        invariant
            i <= candidates@.len(),
            lowered_name@ == lowercase_of(name@),
            exact@.len() == i,
            loose@.len() == i,
            forall|j: int| 0 <= j < i ==> exact@[j] == is_exact(candidates@[j], name@),
            forall|j: int| 0 <= j < i ==> loose@[j] == is_loose(candidates@[j], name@),
        decreases candidates@.len() - i,
    {
        let candidate = &candidates[i];
        let title = candidate.title.as_str();
        let second = candidate.original_title.as_str();
        exact.push(eq_ignore_ascii_case(title, name) || eq_ignore_ascii_case(second, name));
        let lowered_title = to_lowercase(title);
        let lowered_second = to_lowercase(second);
        loose.push(
            contains_str(lowered_title.as_str(), lowered_name.as_str()) || contains_str(
                lowered_second.as_str(),
                lowered_name.as_str(),
            ),
        );
        i = i + 1;
    }
    proof {
        assert(exact@ =~= exact_flags(candidates@, name@));
        assert(loose@ =~= loose_flags(candidates@, name@));
    }
    pick_match(&exact, &loose)
}

/// One entry of the list of genres, with what the entry lacks left out.
#[derive(Debug)]
pub struct Genre {
    pub id: Option<i64>,
    pub name: Option<String>,
}

/// Whether a genre is one of those asked for.
pub open spec fn is_wanted(genre: Genre, ids: Seq<i64>) -> bool {
    genre.id is Some && ids.contains(genre.id->Some_0)
}

/// The names of the genres asked for, in the order of the list; a genre
/// without a name gives none.
pub open spec fn wanted_names(genres: Seq<Genre>, ids: Seq<i64>) -> Seq<Seq<char>>
    decreases genres.len(),
{
    if genres.len() == 0 {
        Seq::empty()
    } else if is_wanted(genres.last(), ids) && genres.last().name is Some {
        wanted_names(genres.drop_last(), ids).push(genres.last().name->Some_0@)
    } else {
        wanted_names(genres.drop_last(), ids)
    }
}

/// Whether `id` is among `ids`.
fn contains_id(ids: &Vec<i64>, id: i64) -> (r: bool)
    ensures
        r == ids@.contains(id),
{
    let mut i: usize = 0;
    while i < ids.len()
        invariant
            i <= ids@.len(),
            forall|j: int| 0 <= j < i ==> ids@[j] != id,
        decreases ids@.len() - i,
    {
        if ids[i] == id {
            return true;
        }
        i = i + 1;
    }
    false
}

/// The names of the genres asked for, joined by an ideographic comma.
pub fn genre_names(genres: &Vec<Genre>, ids: &Vec<i64>) -> (names: String)
    ensures
        names@ == join_words(wanted_names(genres@, ids@), "、"@),
{
    let mut names = String::new();
    let mut count: usize = 0;
    let mut i: usize = 0;
    proof {
        assert(genres@.subrange(0, 0) =~= Seq::<Genre>::empty());
    }
    while i < genres.len()
        invariant
            i <= genres@.len(),
            count <= i,
            count == wanted_names(genres@.subrange(0, i as int), ids@).len(),
            names@ == join_words(wanted_names(genres@.subrange(0, i as int), ids@), "、"@),
        decreases genres@.len() - i,
    {
        let genre = &genres[i];
        proof {
            let longer = genres@.subrange(0, i + 1);
            assert(longer.drop_last() =~= genres@.subrange(0, i as int));
            assert(longer.last() == genres@[i as int]);
        }
        let wanted = match genre.id {
            Some(id) => contains_id(ids, id),
            None => false,
        };
        if wanted {
            if let Some(name) = &genre.name {
                let ghost before = wanted_names(genres@.subrange(0, i as int), ids@);
                proof {
                    let after = before.push(name@);
                    assert(after.drop_last() =~= before);
                    assert(after.last() == name@);
                    if before.len() == 0 {
                        assert(after[0] == name@);
                        assert(Seq::<char>::empty() + name@ =~= name@);
                    }
                }
                if count > 0 {
                    names.append("、");
                }
                names.append(name.as_str());
                count = count + 1;
            }
        }
        i = i + 1;
    }
    proof {
        assert(genres@.subrange(0, genres@.len() as int) =~= genres@);
    }
    names
}

/// Finds the first episode of a season with the number `episode`, given the
/// number of each episode of the season, where it has one.
pub fn find_episode(numbers: &Vec<Option<u64>>, episode: u32) -> (r: Option<usize>)
    ensures
        match r {
            Some(index) => index < numbers@.len() && numbers@[index as int] == Some(episode as u64)
                && forall|j: int| 0 <= j < index ==> numbers@[j] != Some(episode as u64),
            None => forall|j: int| 0 <= j < numbers@.len() ==> numbers@[j] != Some(episode as u64),
        },
{
    let mut i: usize = 0;
    while i < numbers.len()
        invariant
            i <= numbers@.len(),
            forall|j: int| 0 <= j < i ==> numbers@[j] != Some(episode as u64),
        decreases numbers@.len() - i,
    {
        match numbers[i] {
            Some(number) => {
                if number == episode as u64 {
                    return Some(i);
                }
            },
            None => {},
        }
        i = i + 1;
    }
    None
}

} // verus!
