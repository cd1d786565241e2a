//! Choosing, among the subtitle files found beside a video, the one that
//! fits it best.

use vstd::prelude::*;
use vstd::string::StringExecFns;
use crate::paths::{file_extension, file_stem};
use crate::series::{parse_series_info, series_of_name, SeriesInfo, SeriesInfoView};
use crate::text::{
    ascii_lowercase, contains_chars, contains_text, padded_i32, push_padded_i32, to_ascii_lowercase,
    to_chars,
};
use crate::video::VideoInfo;

verus! {

/// The marks in a file name that tell a Chinese subtitle.
pub open spec fn language_keywords() -> Seq<Seq<char>> {
    seq!["zh"@, "chs"@, "cht"@, "cn"@, "chinese"@, "chr"@, "简体"@, "简中"@, "繁中"@]
}

/// Whether a file stem, in lower case, holds one of the language marks.
pub open spec fn has_language_mark(stem: Seq<char>) -> bool {
    exists|k: int|
        0 <= k < language_keywords().len() && contains_text(
            ascii_lowercase(stem),
            #[trigger] language_keywords()[k],
        )
}

/// The tag of an episode in a file name: `S`, the season, `E` and the
/// episode, each with at least two digits.
pub open spec fn episode_tag(season: i32, episode: i32) -> Seq<char> {
    seq!['S'] + padded_i32(season as int) + seq!['E'] + padded_i32(episode as int)
}

/// How well a subtitle with the given file stem fits a video: 3 where the
/// stem is the video's; else 2 where it holds a language mark and, for an
/// episode of a series, the episode's tag too; else 1; and 0 for a file
/// without a stem.
pub open spec fn subtitle_score(video_stem: Seq<char>, series: SeriesInfoView, stem: Option<Seq<char>>) -> nat {
    match stem {
        None => 0,
        Some(stem) => {
            if stem == video_stem {
                3
            } else if series.is_series {
                if contains_text(stem, episode_tag(series.season, series.episode))
                    && has_language_mark(stem) {
                    2
                } else {
                    1
                }
            } else if has_language_mark(stem) {
                2
            } else {
                1
            }
        },
    }
}

/// The stems as sequences of characters.
pub open spec fn stems_view(stems: Vec<Option<String>>) -> Seq<Option<Seq<char>>> {
    Seq::new(
        stems@.len(),
        |i: int|
            match stems@[i] {
                Some(text) => Some(text@),
                None => None,
            },
    )
}

/// Whether `index` is the place of the best subtitle: none fits better, and
/// none behind it fits as well.
pub open spec fn is_best_subtitle(
    video_stem: Seq<char>,
    series: SeriesInfoView,
    stems: Seq<Option<Seq<char>>>,
    index: int,
) -> bool {
    &&& 0 <= index < stems.len()
    &&& forall|j: int|
        0 <= j < stems.len() ==> subtitle_score(video_stem, series, #[trigger] stems[j])
            <= subtitle_score(video_stem, series, stems[index])
    &&& forall|j: int|
        index < j < stems.len() ==> subtitle_score(video_stem, series, #[trigger] stems[j])
            < subtitle_score(video_stem, series, stems[index])
}

/// The language marks.
fn keyword_list() -> (keywords: Vec<Vec<char>>)
    ensures
        keywords@.len() == language_keywords().len(),
        forall|k: int| 0 <= k < keywords@.len() ==> (#[trigger] keywords@[k])@ == language_keywords()[k],
{
    let mut keywords: Vec<Vec<char>> = Vec::new();
    keywords.push(to_chars("zh"));
    keywords.push(to_chars("chs"));
    keywords.push(to_chars("cht"));
    keywords.push(to_chars("cn"));
    keywords.push(to_chars("chinese"));
    keywords.push(to_chars("chr"));
    keywords.push(to_chars("简体"));
    keywords.push(to_chars("简中"));
    keywords.push(to_chars("繁中"));
    keywords
}

/// Whether a file stem, in lower case, holds one of the language marks.
pub fn stem_has_language_mark(stem: &str) -> (r: bool)
    ensures
        r == has_language_mark(stem@),
{
    let chars = to_chars(stem);
    let lower = to_ascii_lowercase(&chars);
    let keywords = keyword_list();
    let mut k: usize = 0;
    while k < keywords.len()
        invariant
            lower@ == ascii_lowercase(stem@),
            keywords@.len() == language_keywords().len(),
            forall|j: int|
                0 <= j < keywords@.len() ==> (#[trigger] keywords@[j])@ == language_keywords()[j],
            k <= keywords@.len(),
            forall|j: int|
                0 <= j < k ==> !contains_text(
                    ascii_lowercase(stem@),
                    #[trigger] language_keywords()[j],
                ),
        decreases keywords@.len() - k,
    {
        if contains_chars(&lower, &keywords[k]) {
            return true;
        }
        k = k + 1;
    }
    false
}

/// The tag of an episode in a file name.
pub fn format_episode_tag(season: i32, episode: i32) -> (tag: String)
    ensures
        tag@ == episode_tag(season, episode),
{
    let mut tag = String::new();
    proof {
        reveal_strlit("S");
        reveal_strlit("E");
        assert("S"@ =~= seq!['S']);
        assert("E"@ =~= seq!['E']);
    }
    tag.append("S");
    push_padded_i32(&mut tag, season);
    tag.append("E");
    push_padded_i32(&mut tag, episode);
    proof {
        assert(tag@ =~= episode_tag(season, episode));
    }
    tag
}

/// Scores one subtitle by its file stem against the video's stem and what
/// the video's name says of its series.
pub fn score_subtitle(video_stem: &str, series: &SeriesInfo, stem: Option<&str>) -> (score: u8)
    ensures
        score == subtitle_score(
            video_stem@,
            series@,
            match stem {
                Some(text) => Some(text@),
                None => None,
            },
        ),
{
    match stem {
        None => 0,
        Some(stem) => {
            if stem.to_owned() == video_stem.to_owned() {
                3
            } else if series.is_series {
                let tag = format_episode_tag(series.season, series.episode);
                let hay = to_chars(stem);
                let needle = to_chars(tag.as_str());
                if contains_chars(&hay, &needle) && stem_has_language_mark(stem) {
                    2
                } else {
                    1
                }
            } else if stem_has_language_mark(stem) {
                2
            } else {
                1
            }
        },
    }
}

/// Chooses the place of the subtitle that fits best: the last of those with
/// the highest score, and none where there is no subtitle.
pub fn best_subtitle(video_stem: &str, series: &SeriesInfo, stems: &Vec<Option<String>>) -> (best: Option<usize>)
    ensures
        stems@.len() == 0 <==> best is None,
        best is Some ==> is_best_subtitle(
            video_stem@,
            series@,
            stems_view(*stems),
            best->Some_0 as int,
        ),
{
    if stems.len() == 0 {
        return None;
    }
    let ghost view = stems_view(*stems);
    let mut best: usize = 0;
    let mut best_score: u8 = 0;
    let mut i: usize = 0;
    while i < stems.len()
        invariant
            view == stems_view(*stems),
            0 < stems@.len(),
            i <= stems@.len(),
            i == 0 ==> best == 0 && best_score == 0,
            i > 0 ==> best < i && best_score == subtitle_score(video_stem@, series@, view[best as int]),
            forall|j: int|
                0 <= j < i ==> subtitle_score(video_stem@, series@, #[trigger] view[j])
                    <= best_score,
            forall|j: int|
                best < j < i ==> subtitle_score(video_stem@, series@, #[trigger] view[j])
                    < best_score,
        decreases stems@.len() - i,
    {
        let score = match &stems[i] {
            Some(text) => score_subtitle(video_stem, series, Some(text.as_str())),
            None => score_subtitle(video_stem, series, None),
        };
        if score >= best_score {
            best = i;
            best_score = score;
        }
        i = i + 1;
    }
    Some(best)
}

/// Chooses the subtitle file that fits a video best, by the stems of the
/// file names: none where there is no file or the video's path has no file
/// name; else one of the files given, the best by the stems that the platform
/// reads out of the paths.
pub fn choose_best_subtitle(video: &VideoInfo, subtitles: Vec<String>) -> (best: Option<String>)
    ensures
        subtitles@.len() == 0 ==> best is None,
        best is Some ==> exists|video_stem: Seq<char>, stems: Seq<Option<Seq<char>>>, i: int|
            #![trigger is_best_subtitle(video_stem, series_of_name(video_stem), stems, i)]
            stems.len() == subtitles@.len() && is_best_subtitle(
                video_stem,
                series_of_name(video_stem),
                stems,
                i,
            ) && subtitles@[i] == best->Some_0,
{
    let video_stem = file_stem(video.path.as_str());
    let mut candidates: Vec<(String, Option<String>)> = Vec::new();
    let mut i: usize = 0;
    while i < subtitles.len()
        invariant
            i <= subtitles@.len(),
            candidates@.len() == i,
            forall|j: int| 0 <= j < i ==> (#[trigger] candidates@[j]).0 == subtitles@[j],
        decreases subtitles@.len() - i,
    {
        let stem = file_stem(subtitles[i].as_str());
        candidates.push((subtitles[i].clone(), stem));
        i = i + 1;
    }
    let known = match &video_stem {
        Some(stem) => Some(stem.as_str()),
        None => None,
    };
    let best = choose_by_stems(known, &candidates);
    proof {
        if best is Some {
            let index = choose|i: int|
                #![trigger candidates@[i]]
                is_best_subtitle(
                    known->Some_0@,
                    series_of_name(known->Some_0@),
                    candidate_stems(candidates@),
                    i,
                ) && candidates@[i].0 == best->Some_0;
            assert(candidates@[index].0 == subtitles@[index]);
            assert(is_best_subtitle(
                known->Some_0@,
                series_of_name(known->Some_0@),
                candidate_stems(candidates@),
                index,
            ));
        }
    }
    best
}

/// The stems of the candidates as sequences of characters.
pub open spec fn candidate_stems(candidates: Seq<(String, Option<String>)>) -> Seq<Option<Seq<char>>> {
    Seq::new(
        candidates.len(),
        |i: int|
            match candidates[i].1 {
                Some(text) => Some(text@),
                None => None,
            },
    )
}

/// Chooses among subtitle files, each given with the stem of its name, the
/// one that fits a video with the given stem best: none where the video has
/// no stem or there is no file, and else the last of the files with the
/// highest score.
pub fn choose_by_stems(video_stem: Option<&str>, candidates: &Vec<(String, Option<String>)>) -> (best:
    Option<String>)
    ensures
        best is Some <==> video_stem is Some && candidates@.len() > 0,
        best is Some ==> exists|i: int|
            #![trigger candidates@[i]]
            is_best_subtitle(
                video_stem->Some_0@,
                series_of_name(video_stem->Some_0@),
                candidate_stems(candidates@),
                i,
            ) && candidates@[i].0 == best->Some_0,
{
    let video_stem = match video_stem {
        Some(stem) => stem,
        None => {
            return None;
        },
    };
    let series = parse_series_info(video_stem);
    let mut stems: Vec<Option<String>> = Vec::new();
    let mut i: usize = 0;
    while i < candidates.len()
        invariant
            i <= candidates@.len(),
            stems@.len() == i,
            forall|j: int| 0 <= j < i ==> stems@[j] == candidates@[j].1,
        decreases candidates@.len() - i,
    {
        let stem = match &candidates[i].1 {
            Some(text) => Some(text.clone()),
            None => None,
        };
        stems.push(stem);
        i = i + 1;
    }
    proof {
        assert(stems_view(stems) =~= candidate_stems(candidates@));
    }
    match best_subtitle(video_stem, &series, &stems) {
        Some(index) => {
            let best = candidates[index].0.clone();
            proof {
                assert(candidates@[index as int].0 == best);
            }
            Some(best)
        },
        None => None,
    }
}

/// Whether a file with the given extension is a subtitle file: the
/// extension is `srt`, `ass` or `vtt`, in lower case.
pub fn is_subtitle_extension(extension: &str) -> (r: bool)
    ensures
        r == (extension@ == "srt"@ || extension@ == "ass"@ || extension@ == "vtt"@),
{
    let owned = extension.to_owned();
    owned == "srt".to_owned() || owned == "ass".to_owned() || owned == "vtt".to_owned()
}

/// Finds the subtitle for a video among the files of the subtitle folder:
/// the file that fits best among those with a subtitle extension, and a
/// failure where there is none.
pub fn find_subtitles(video: &VideoInfo, files: Vec<String>) -> (r: Result<String, String>)
    ensures
        files@.len() == 0 ==> r is Err,
        r is Ok ==> exists|i: int| 0 <= i < files@.len() && files@[i] == r->Ok_0,
        r is Err ==> r->Err_0@ == "No suitable subtitles found."@,
{
    let mut subtitles: Vec<String> = Vec::new();
    let mut i: usize = 0;
    while i < files.len()
        invariant
            i <= files@.len(),
            forall|k: int|
                0 <= k < subtitles@.len() ==> exists|j: int|
                    0 <= j < files@.len() && files@[j] == #[trigger] subtitles@[k],
        decreases files@.len() - i,
    {
        let is_subtitle = match file_extension(files[i].as_str()) {
            Some(extension) => is_subtitle_extension(extension.as_str()),
            None => false,
        };
        if is_subtitle {
            let ghost before = subtitles@;
            subtitles.push(files[i].clone());
            proof {
                assert forall|k: int| 0 <= k < subtitles@.len() implies exists|j: int|
                    0 <= j < files@.len() && files@[j] == #[trigger] subtitles@[k] by {
                    if k < before.len() {
                        assert(subtitles@[k] == before[k]);
                    } else {
                        assert(files@[i as int] == subtitles@[k]);
                    }
                }
            }
        }
        i = i + 1;
    }
    match choose_best_subtitle(video, subtitles) {
        Some(best) => Ok(best),
        None => Err("No suitable subtitles found.".to_owned()),
    }
}

} // verus!
