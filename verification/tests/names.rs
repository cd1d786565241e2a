use media_library::names::{clean_name_from_matches, clean_video_name, strip_name};
use regex::Regex;

/// The same rule, written with the string functions of the standard library.
fn with_std(filename: &str) -> String {
    let extension = std::path::Path::new(filename)
        .extension()
        .and_then(|ext| ext.to_str())
        .unwrap_or("");
    let name = filename
        .strip_suffix(extension)
        .unwrap_or(filename)
        .trim_end_matches('.');
    if let Some(found) = Regex::new(r"^(.*?)\b(19|20)\d{2}\b").unwrap().captures(name) {
        if let Some(title) = found.get(1) {
            let cleaned = title
                .as_str()
                .replace('.', " ")
                .replace('_', " ")
                .replace('-', " ");
            let cleaned = cleaned.split_whitespace().collect::<Vec<_>>().join(" ");
            if !cleaned.is_empty() {
                return cleaned;
            }
        }
    }
    let patterns = [
        r"(?i)\b\d{3,4}p\b",
        r"(?i)\b(?:x264|x265|h264|h265)\b",
        r"(?i)\b(?:bluray|brrip|dvdrip|hdrip|webrip|web-dl|hdcam|hdts|cam|ts|tc|r5|dvdscr|dvdscreener|screener)\b",
        r"(?i)\b(?:aac|ac3|dts|dd5\.1|mp3|flac|truehd|atmos)\b",
        r"(?i)\b(?:subs|subbed|dubbed|multi|dual)\b",
        r"(?i)\b(?:extended|unrated|director(?:'s)? cut|theatrical|special edition|ultimate edition|collector(?:'s)? edition)\b",
        r"(?i)\b(?:repack|proper|rerip|real)\b",
        r"(?i)\b(?:hevc|hdr|uhd|4k|3d|imax)\b",
        r"(?i)\b(?:part|pt|season|s|episode|e|ep|vol|volume|v)\d+\b",
    ];
    let mut best = name.to_string();
    let mut max_words = 0;
    for pattern in patterns {
        let blanked = Regex::new(pattern).unwrap().replace_all(name, " ").to_string();
        let words: Vec<&str> = blanked.split_whitespace().filter(|w| w.len() > 1).collect();
        if words.len() > max_words {
            max_words = words.len();
            best = words.join(" ");
        }
    }
    if best.is_empty() || best.len() < 3 {
        best = name
            .split(|c: char| !c.is_alphanumeric())
            .filter(|s| !s.is_empty())
            .filter(|w| w.len() > 1 && !w.eq_ignore_ascii_case(extension))
            .take(3)
            .collect::<Vec<_>>()
            .join(" ");
    }
    best
}

const NAMES: [&str; 34] = [
    "x-720p-y.mkv",
    "-b.mkv",
    "_.mkv",
    "a1-b2-c3-d4.x",
    "Transformers.One.2024.HDR.2160p.WEB.h265-ETHEL.mkv",
    "The_Matrix-1999.1080p.BluRay.x264.mp4",
    "2001.A.Space.Odyssey.1968.mkv",
    "1917.mkv",
    "2012.mp4",
    "Movie Name 720p x264 AAC.avi",
    "movie.name.bluray.1080p.mkv",
    "Some Show S01E02 720p.mkv",
    "流浪地球.2019.1080p.mp4",
    "流浪地球 1080p.mp4",
    "a.mkv",
    "ab.mkv",
    "é.mkv",
    ".mkv",
    "mkv.mkv",
    "",
    "...",
    "name...",
    "name...mkv",
    "x y z w.mov",
    "a b c d e.mov",
    "MKV mkv Mkv title.mkv",
    "no_extension_here",
    "Director's Cut Extended Film.mkv",
    "film 1080p 720p hdr.mkv",
    "Film\t\twith \u{3000} wide spaces.mkv",
    "dir.with.dots/plain",
    "archive.tar.gz",
    "  padded  .mkv",
    "Ünïcödé Näme vol2 part1.mkv",
];

#[test]
fn titles_agree_with_the_standard_library() {
    for name in NAMES {
        assert_eq!(clean_video_name(name), with_std(name), "{:?}", name);
    }
}

#[test]
fn the_title_before_a_year_wins() {
    assert_eq!(
        clean_video_name("Transformers.One.2024.HDR.2160p.WEB.h265-ETHEL.mkv"),
        "Transformers One"
    );
    assert_eq!(clean_video_name("The_Matrix-1999.1080p.mp4"), "The Matrix");
}

#[test]
fn the_text_with_the_most_words_wins() {
    assert_eq!(
        clean_video_name("Movie Name 720p x264 AAC.avi"),
        "Movie Name 720p x264 AAC"
    );
    assert_eq!(clean_video_name("Film\t\twith  wide   gaps.mkv"), "Film with wide gaps");
    let blanked = vec![
        Some("Movie Name   x264 AAC".to_string()),
        Some("Movie Name 720p   AAC".to_string()),
    ];
    assert_eq!(
        clean_name_from_matches("Movie Name 720p x264 AAC.avi", "avi", &None, &blanked),
        "Movie Name x264 AAC"
    );
}

#[test]
fn blanking_a_pattern_can_part_a_word() {
    assert_eq!(clean_video_name("x-720p-y.mkv"), "x- -y");
}

#[test]
fn the_last_resort_parts_words_at_what_is_no_letter_or_number() {
    assert_eq!(clean_video_name("-b.mkv"), "");
}

#[test]
fn a_short_result_falls_back_to_the_first_words() {
    assert_eq!(clean_video_name("ab.mkv"), "ab");
    assert_eq!(clean_video_name("a.mkv"), "");
    assert_eq!(clean_video_name("mkv.mkv"), "mkv");
    assert_eq!(clean_video_name("é.mkv"), "é");
}

#[test]
fn the_base_name_drops_the_extension_and_its_dots() {
    assert_eq!(strip_name("film.mkv", "mkv"), "film");
    assert_eq!(strip_name("film...mkv", "mkv"), "film");
    assert_eq!(strip_name("film.mkv", ""), "film.mkv");
    assert_eq!(strip_name("film.", ""), "film");
    assert_eq!(strip_name("mkv", "mkv"), "");
    assert_eq!(strip_name("kv", "mkv"), "kv");
    assert_eq!(strip_name("film.mkv", "avi"), "film.mkv");
}

#[test]
fn the_title_is_decided_by_what_the_patterns_found() {
    let year = Some(vec![
        Some("A.Film.1999".to_string()),
        Some("A.Film.".to_string()),
        Some("19".to_string()),
    ]);
    assert_eq!(
        clean_name_from_matches("A.Film.1999.mkv", "mkv", &year, &vec![]),
        "A Film"
    );

    let year = Some(vec![Some("1999".to_string()), Some("".to_string()), Some("19".to_string())]);
    let blanked = vec![
        Some("one two".to_string()),
        None,
        Some("one two three x".to_string()),
        Some("four five six".to_string()),
    ];
    assert_eq!(
        clean_name_from_matches("1999.mkv", "mkv", &year, &blanked),
        "one two three"
    );

    assert_eq!(
        clean_name_from_matches("long name here.mkv", "mkv", &None, &vec![]),
        "long name here"
    );
    assert_eq!(
        clean_name_from_matches("ab-cd_MKV ef gh.mkv", "mkv", &None, &vec![Some("x".to_string())]),
        "ab-cd_MKV ef gh"
    );
    assert_eq!(
        clean_name_from_matches("é.x", "x", &None, &vec![Some(" a b ".to_string())]),
        "é"
    );
    assert_eq!(
        clean_name_from_matches("x-y-zz-MKV-ww-vv-uu.mkv", "mkv", &None, &vec![Some("".to_string())]),
        "x-y-zz-MKV-ww-vv-uu"
    );
    assert_eq!(
        clean_name_from_matches("q.mkv", "mkv", &None, &vec![]),
        ""
    );
    assert_eq!(
        clean_name_from_matches("a-bb-MKV-cc-dd-ee", "mkv", &None, &vec![Some("a".to_string())]),
        "a-bb-MKV-cc-dd-ee"
    );
}
