//! What is decided while a folder is scanned: which files are videos, how a
//! video is identified, and what record is made of it.

use vstd::prelude::*;
use vstd::string::StringSliceAdditionalSpecFns;
use crate::series::SeriesInfo;
use crate::text::{ascii_lowercase, contains_chars, contains_text, lowercase_of, to_ascii_lowercase,
    to_chars, to_lowercase};
use crate::video::VideoInfo;

verus! {

/// Whether a file counts as a video: its extension, in lower case, is one of
/// `mp4`, `mkv`, `avi` and `mov`, and its name, with the ASCII letters in
/// lower case, does not hold `sample`.
pub open spec fn counts_as_video(extension: Seq<char>, file_name: Seq<char>) -> bool {
    let lowered = lowercase_of(extension);
    (lowered == "mp4"@ || lowered == "mkv"@ || lowered == "avi"@ || lowered == "mov"@)
        && !contains_text(ascii_lowercase(file_name), "sample"@)
}

/// Whether a file with the given extension and name counts as a video.
pub fn is_video_file(extension: &str, file_name: &str) -> (r: bool)
    ensures
        r == counts_as_video(extension@, file_name@),
{
    let lowered = to_lowercase(extension);
    let known = lowered == "mp4".to_owned() || lowered == "mkv".to_owned() || lowered
        == "avi".to_owned() || lowered == "mov".to_owned();
    if !known {
        return false;
    }
    let name = to_ascii_lowercase(&to_chars(file_name));
    !contains_chars(&name, &to_chars("sample"))
}

/// The MD5 digest of `data`, as 32 hexadecimal digits in lower case.
pub uninterp spec fn md5_hex(data: Seq<u8>) -> Seq<char>;

/// `md5::compute` on `data`, rendered by the digest's `LowerHex`: the result
/// is the MD5 digest of the bytes in hexadecimal, and depends on the bytes
/// alone.
#[verifier::external_body]
fn md5_hex_digest(data: &[u8]) -> (hex: String)
    ensures
        hex@ == md5_hex(data@),
{
    format!("{:x}", md5::compute(data))
}

/// The identifier of a video: the MD5 digest of its path in UTF-8.
pub fn video_id(path: &str) -> (id: String)
    ensures
        id@ == md5_hex(path.spec_bytes()),
{
    md5_hex_digest(path.as_bytes())
}

/// What the movie database says of a video, each field present where the
/// answer holds it as text.
#[derive(Debug)]
pub struct MovieInfo {
    pub title: Option<String>,
    pub original_title: Option<String>,
    pub overview: Option<String>,
    pub poster_path: Option<String>,
    pub genres: Option<String>,
}

impl MovieInfo {
    /// What is said of a video that the movie database does not know: the
    /// name searched for as both titles, a note in place of the overview, the
    /// stock poster and no genre.
    pub fn not_found(search_name: &str) -> (info: MovieInfo)
        ensures
            info.title is Some && info.title->Some_0@ == search_name@,
            info.original_title is Some && info.original_title->Some_0@ == search_name@,
            info.overview is Some && info.overview->Some_0@ == "未找到匹配的电影信息"@,
            info.poster_path is Some && info.poster_path->Some_0@ == "/assets/no-poster.png"@,
            info.genres is Some && info.genres->Some_0@ == "未分类"@,
    {
        MovieInfo {
            title: Some(search_name.to_owned()),
            original_title: Some(search_name.to_owned()),
            overview: Some("未找到匹配的电影信息".to_owned()),
            poster_path: Some("/assets/no-poster.png".to_owned()),
            genres: Some("未分类".to_owned()),
        }
    }
}

/// The text of a field, or `fallback` where the field is absent.
pub open spec fn text_or(field: Option<String>, fallback: Seq<char>) -> Seq<char> {
    match field {
        Some(text) => text@,
        None => fallback,
    }
}

/// The text of a field, or `fallback` where the field is absent.
pub fn field_or(field: &Option<String>, fallback: &str) -> (text: String)
    ensures
        text@ == text_or(*field, fallback@),
{
    match field {
        Some(text) => text.clone(),
        None => fallback.to_owned(),
    }
}

/// The name under which a video is searched: the title of its series for
/// an episode, and else the name of its file.
pub fn search_name(series: &SeriesInfo, file_name: &str) -> (name: String)
    ensures
        name@ == (if series.is_series {
            series.series_title@
        } else {
            file_name@
        }),
{
    if series.is_series {
        series.series_title.clone()
    } else {
        file_name.to_owned()
    }
}

/// Makes the record of a video that was found in a scan at the time `now`.
///
/// The title is the original title, or the file's name where there is none;
/// the duration is `Unknown` where none could be read; the category tells an
/// episode from a movie; the record starts unplayed and not a favourite.
pub fn new_video(
    id: String,
    file_name: &str,
    path: &str,
    duration: Option<String>,
    info: &MovieInfo,
    series: SeriesInfo,
    now: i64,
) -> (video: VideoInfo)
    ensures
        video.id == id,
        video.title@ == text_or(info.original_title, file_name@),
        video.title_cn@ == text_or(info.title, Seq::empty()),
        video.thumbnail@ == text_or(info.poster_path, Seq::empty()),
        video.duration@ == text_or(duration, "Unknown"@),
        video.path@ == path@,
        video.category@ == (if series.is_series {
            "剧集"@
        } else {
            "电影"@
        }),
        video.description@ == text_or(info.overview, Seq::empty()),
        video.create_time == now,
        video.last_play_time == 0,
        video.play_count == 0,
        !video.favorite,
        video.tags@ == text_or(info.genres, "未分类"@),
        video.is_series == series.is_series,
        video.series_title == series.series_title,
        video.season == series.season,
        video.episode == series.episode,
        video.episode_overview@.len() == 0,
{
    proof {
        reveal_strlit("");
    }
    let category = if series.is_series {
        "剧集"
    } else {
        "电影"
    };
    VideoInfo {
        id,
        title: field_or(&info.original_title, file_name),
        title_cn: field_or(&info.title, ""),
        thumbnail: field_or(&info.poster_path, ""),
        duration: field_or(&duration, "Unknown"),
        path: path.to_owned(),
        category: category.to_owned(),
        description: field_or(&info.overview, ""),
        create_time: now,
        last_play_time: 0,
        play_count: 0,
        favorite: false,
        tags: field_or(&info.genres, "未分类"),
        is_series: series.is_series,
        series_title: series.series_title,
        season: series.season,
        episode: series.episode,
        episode_overview: String::new(),
    }
}

} // verus!
