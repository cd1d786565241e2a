use media_library::series::{
    parse_series_info, series_info_from_groups, SeriesInfo, SeriesPattern,
};
use media_library::subtitles::{
    best_subtitle, choose_best_subtitle, choose_by_stems, format_episode_tag, score_subtitle,
    stem_has_language_mark,
};
use media_library::video::VideoInfo;
use regex::Regex;
use std::path::{Path, PathBuf};

/// The same rule, written with the regex crate's own methods.
fn series_with_regex(filename: &str) -> SeriesInfo {
    let patterns = [
        (r"(?i)(.+?)[\s.]*S(\d{1,2})E(\d{1,2})", true),
        (r"(.+?)第(\d{1,2})季第(\d{1,2})集", true),
        (r"(.+?)第(\d{1,2})集", false),
        (r"(?i)(.+?)[\s.]*E(\d{1,2})", false),
    ];
    for (pattern, has_season) in patterns {
        if let Some(caps) = Regex::new(pattern).unwrap().captures(filename) {
            let number = |i: usize| caps.get(i).unwrap().as_str().parse().unwrap_or(1);
            return SeriesInfo {
                series_title: caps.get(1).unwrap().as_str().trim().to_string(),
                season: if has_season { number(2) } else { 1 },
                episode: if has_season { number(3) } else { number(2) },
                is_series: true,
            };
        }
    }
    SeriesInfo { series_title: String::new(), season: 1, episode: 1, is_series: false }
}

/// The same choice, written with iterators and paths of the standard library.
fn choice_with_std(video_path: &str, subtitles: Vec<PathBuf>) -> Option<PathBuf> {
    let video_stem = Path::new(video_path).file_stem()?.to_string_lossy();
    let keywords = ["zh", "chs", "cht", "cn", "chinese", "chr", "简体", "简中", "繁中"];
    let series = series_with_regex(&video_stem);
    let tag = if series.is_series {
        format!("S{:02}E{:02}", series.season, series.episode)
    } else {
        String::new()
    };
    subtitles.into_iter().max_by_key(|subtitle| {
        match subtitle.file_stem().and_then(|s| s.to_str()) {
            None => 0,
            Some(stem) if stem == video_stem => 3,
            Some(stem) => {
                let marked = keywords.iter().any(|&k| stem.to_ascii_lowercase().contains(k));
                if marked && (!series.is_series || stem.contains(&tag)) {
                    2
                } else {
                    1
                }
            }
        }
    })
}

fn video_at(path: &str) -> VideoInfo {
    VideoInfo {
        id: String::new(),
        title: String::new(),
        title_cn: String::new(),
        thumbnail: String::new(),
        duration: String::new(),
        path: path.to_string(),
        category: String::new(),
        description: String::new(),
        create_time: 0,
        last_play_time: 0,
        play_count: 0,
        favorite: false,
        tags: String::new(),
        is_series: false,
        series_title: String::new(),
        season: 1,
        episode: 1,
        episode_overview: String::new(),
    }
}

fn series(title: &str, season: i32, episode: i32) -> SeriesInfo {
    SeriesInfo { series_title: title.to_string(), season, episode, is_series: true }
}

fn assert_series(info: &SeriesInfo, title: &str, season: i32, episode: i32, is_series: bool) {
    assert_eq!(info.series_title, title);
    assert_eq!(info.season, season);
    assert_eq!(info.episode, episode);
    assert_eq!(info.is_series, is_series);
}

#[test]
fn match_sutitles() {
    let temp_file_path = "C:\\Users\\yzok0\\Videos\\Transformers.One.2024.HDR.2160p.WEB.h265-ETHEL[TGx]\\Transformers.One.2024.HDR.2160p.WEB.h265-ETHEL.mkv";
    let subtitle_stem = "Transformers.One.xx.2024.HDR.2160p.WEB.h265-ETHEL.简体.srt";

    let language_keywords = ["zh", "chs", "cn", "cht", "chinese", "chr", "简体", "简中", "繁中"];
    let _language_pattern = Regex::new(&format!(r"({})", language_keywords.join("|"))).ok();

    let series_info = parse_series_info(temp_file_path);
    if series_info.is_series {
        println!("Series: {:?}", series_info.is_series);
        let series_pattern = format!(
            "[\\s.]*S{:02}E{:02}*{}",
            series_info.season,
            series_info.episode,
            language_keywords.join("|")
        );
        println!("Series pattern: {}", series_pattern);
        let re = Regex::new(&series_pattern).unwrap();
        if re.is_match(subtitle_stem) {
            println!("Matched: {}", subtitle_stem);
        }
    }

    if let Some(ep_pattern) = &_language_pattern {
        if ep_pattern.is_match(subtitle_stem) {
            println!("Episode: {:?}", ep_pattern.captures(subtitle_stem));
        }
    }
}

#[test]
fn series_agree_with_the_regex_crate() {
    for name in [
        "Breaking.Bad.S02E07.1080p.mkv",
        "the wire s1e3",
        "三体 第1季第12集.mp4",
        "甄嬛传第05集",
        "Show.E09.mkv",
        "2001.mkv",
        "",
        "S01E01",
        "xS01E01",
        " x  S1E2",
        "Name.S03E04.E05",
        "Transformers.One.2024.HDR.2160p.WEB.h265-ETHEL.mkv",
        "show.S٠١E٠٢.mkv",
        "节目第٣集",
        "The.Series. . S12E345",
        "\u{3000}宽\u{3000}第7集",
        "aE1",
        "E1",
        "abcse12",
    ] {
        let ours = parse_series_info(name);
        let theirs = series_with_regex(name);
        assert_eq!(ours.series_title, theirs.series_title, "{:?}", name);
        assert_eq!(ours.season, theirs.season, "{:?}", name);
        assert_eq!(ours.episode, theirs.episode, "{:?}", name);
        assert_eq!(ours.is_series, theirs.is_series, "{:?}", name);
    }
}

#[test]
fn choices_agree_with_the_standard_library() {
    let folders: [Vec<&str>; 6] = [
        vec![],
        vec!["/s/Film.2020.eng.srt", "/s/Film.2020.srt", "/s/Film.2020.chs.ass"],
        vec!["/s/a.srt", "/s/b.srt", "/s/c.srt"],
        vec!["/s/Show.S01E02.chs.srt", "/s/Show.S01E03.chs.srt", "/s/Show.S01E02.CHT.srt"],
        vec!["/s/x.CHINESE.vtt", "/s/", "/s/..", "/s/.hidden"],
        vec!["/s/简体.srt", "/s/Show.S01E02.简中.ass", "/s/Show.s01e02.zh.ass"],
    ];
    for video_path in ["/v/Film.2020.mkv", "/v/Show.S01E02.mkv", "/v/c.mkv", "", "/"] {
        for folder in &folders {
            let ours = choose_best_subtitle(
                &video_at(video_path),
                folder.iter().map(|s| s.to_string()).collect(),
            );
            let theirs = choice_with_std(video_path, folder.iter().map(PathBuf::from).collect());
            assert_eq!(ours.map(PathBuf::from), theirs, "{:?} {:?}", video_path, folder);
        }
    }
}

#[test]
fn season_and_episode_in_latin_notation() {
    let info = parse_series_info("Breaking.Bad.S02E07.1080p.mkv");
    assert_series(&info, "Breaking.Bad", 2, 7, true);
    let info = parse_series_info("the wire s1e3");
    assert_series(&info, "the wire", 1, 3, true);
}

#[test]
fn season_and_episode_in_chinese_notation() {
    let info = parse_series_info("三体 第1季第12集.mp4");
    assert_series(&info, "三体", 1, 12, true);
    let info = parse_series_info("甄嬛传第05集");
    assert_series(&info, "甄嬛传", 1, 5, true);
}

#[test]
fn an_episode_alone_is_of_the_first_season() {
    let info = parse_series_info("Show.E09.mkv");
    assert_series(&info, "Show", 1, 9, true);
}

#[test]
fn a_name_of_no_shape_is_no_series() {
    let info = parse_series_info("2001.mkv");
    assert_series(&info, "", 1, 1, false);
    let info = parse_series_info("");
    assert_series(&info, "", 1, 1, false);
}

#[test]
fn the_first_shape_that_matches_decides() {
    let info = parse_series_info("Name.S03E04.E05");
    assert_series(&info, "Name", 3, 4, true);
}

#[test]
fn groups_are_read_with_their_defaults() {
    let groups = vec![
        Some("x".to_string()),
        Some("  A Title \t".to_string()),
        Some("07".to_string()),
        Some("12".to_string()),
    ];
    let info = series_info_from_groups(SeriesPattern::SeasonEpisode, &groups);
    assert_series(&info, "A Title", 7, 12, true);
    let info = series_info_from_groups(SeriesPattern::Episode, &groups);
    assert_series(&info, "A Title", 1, 7, true);

    let groups = vec![Some("x".to_string()), None, Some("٣".to_string())];
    let info = series_info_from_groups(SeriesPattern::ChineseSeasonEpisode, &groups);
    assert_series(&info, "", 1, 1, true);
}

#[test]
fn episode_tags_have_two_digits() {
    assert_eq!(format_episode_tag(1, 2), "S01E02");
    assert_eq!(format_episode_tag(12, 345), "S12E345");
    assert_eq!(format_episode_tag(0, -5), "S00E-5");
    assert_eq!(format_episode_tag(i32::MIN, i32::MAX), "S-2147483648E2147483647");
}

#[test]
fn language_marks_are_found_in_lower_case() {
    assert!(stem_has_language_mark("Movie.CHS"));
    assert!(stem_has_language_mark("Movie.简体"));
    assert!(stem_has_language_mark("a-Chinese-b"));
    assert!(!stem_has_language_mark("Movie.eng"));
    assert!(!stem_has_language_mark(""));
}

#[test]
fn scores_follow_the_priorities() {
    let movie = SeriesInfo { series_title: String::new(), season: 1, episode: 1, is_series: false };
    assert_eq!(score_subtitle("Movie", &movie, None), 0);
    assert_eq!(score_subtitle("Movie", &movie, Some("Movie")), 3);
    assert_eq!(score_subtitle("Movie", &movie, Some("Movie.chs")), 2);
    assert_eq!(score_subtitle("Movie", &movie, Some("Movie.eng")), 1);

    let episode = series("Show", 1, 2);
    assert_eq!(score_subtitle("Show.S01E02", &episode, Some("Show.S01E02")), 3);
    assert_eq!(score_subtitle("Show.S01E02", &episode, Some("Show.S01E02.chs")), 2);
    assert_eq!(score_subtitle("Show.S01E02", &episode, Some("Show.S01E03.chs")), 1);
    assert_eq!(score_subtitle("Show.S01E02", &episode, Some("Show.S01E02.eng")), 1);
    assert_eq!(score_subtitle("Show.S01E02", &episode, Some("show.s01e02.chs")), 1);
}

#[test]
fn the_last_of_the_best_is_chosen() {
    let movie = SeriesInfo { series_title: String::new(), season: 1, episode: 1, is_series: false };
    let stems = vec![
        Some("a.chs".to_string()),
        Some("b.eng".to_string()),
        Some("c.cht".to_string()),
        None,
    ];
    assert_eq!(best_subtitle("Movie", &movie, &stems), Some(2));
    let stems = vec![Some("Movie".to_string()), Some("c.cht".to_string())];
    assert_eq!(best_subtitle("Movie", &movie, &stems), Some(0));
    assert_eq!(best_subtitle("Movie", &movie, &vec![]), None);
    assert_eq!(best_subtitle("Movie", &movie, &vec![None, None]), Some(1));
}

#[test]
fn a_subtitle_is_chosen_by_its_file_stem() {
    let video = video_at("/videos/Movie.2020.mkv");
    let subtitles = vec![
        "/videos/字幕/Movie.2020.eng.srt".to_string(),
        "/videos/字幕/Movie.2020.srt".to_string(),
        "/videos/字幕/Movie.2020.chs.ass".to_string(),
    ];
    assert_eq!(
        choose_best_subtitle(&video, subtitles),
        Some("/videos/字幕/Movie.2020.srt".to_string())
    );
    assert_eq!(choose_best_subtitle(&video, vec![]), None);
    assert_eq!(
        choose_best_subtitle(&video_at(""), vec!["a.srt".to_string()]),
        None
    );
}

#[test]
fn a_file_is_chosen_by_the_stems_given_with_the_files() {
    let candidates = vec![
        ("one".to_string(), Some("Film.eng".to_string())),
        ("two".to_string(), Some("Film.chs".to_string())),
        ("three".to_string(), None),
        ("four".to_string(), Some("Film.cht".to_string())),
        ("five".to_string(), Some("x".to_string())),
    ];
    assert_eq!(choose_by_stems(Some("Film"), &candidates), Some("four".to_string()));
    assert_eq!(choose_by_stems(Some("x"), &candidates), Some("five".to_string()));
    assert_eq!(choose_by_stems(None, &candidates), None);
    assert_eq!(choose_by_stems(Some("Film"), &vec![]), None);
    assert_eq!(
        choose_by_stems(Some("Film"), &vec![("only".to_string(), None)]),
        Some("only".to_string())
    );

    let episodes = vec![
        ("a".to_string(), Some("Show.S01E02.chs".to_string())),
        ("b".to_string(), Some("Show.S01E03.chs".to_string())),
        ("c".to_string(), Some("Show.S01E02.eng".to_string())),
    ];
    assert_eq!(choose_by_stems(Some("Show.S01E02"), &episodes), Some("a".to_string()));
    assert_eq!(choose_by_stems(Some("Show.S01E03"), &episodes), Some("b".to_string()));
}
