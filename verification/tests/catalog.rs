use media_library::cache::{clean_cache, TvShowCache};
use media_library::catalog::{
    field_or, is_video_file, new_video, search_name, video_id, MovieInfo,
};
use media_library::env::parse_env_line;
use media_library::player::{default_settings, mark_played, plan_launch, Launch, Settings};
use media_library::series::SeriesInfo;
use media_library::subtitles::{find_subtitles, is_subtitle_extension};

fn movie() -> SeriesInfo {
    SeriesInfo { series_title: String::new(), season: 1, episode: 1, is_series: false }
}

fn entry(line: &str) -> Option<(String, String)> {
    parse_env_line(line)
}

/// The same rule, written with the string functions of the standard library.
fn entry_with_std(line: &str) -> Option<(String, String)> {
    if line.trim().is_empty() || line.starts_with('#') {
        return None;
    }
    line.split_once('=')
        .map(|(key, value)| (key.trim().to_string(), value.trim().to_string()))
}

#[test]
fn videos_are_told_by_extension_and_name() {
    assert!(is_video_file("mkv", "Film.mkv"));
    assert!(is_video_file("MP4", "Film.MP4"));
    assert!(is_video_file("Avi", "x.Avi"));
    assert!(is_video_file("mov", "x.mov"));
    assert!(!is_video_file("srt", "Film.srt"));
    assert!(!is_video_file("", "Film"));
    assert!(!is_video_file("mkv", "Film-Sample.mkv"));
    assert!(!is_video_file("mkv", "SAMPLE.mkv"));
    assert!(!is_video_file("mkvx", "Film.mkvx"));
}

#[test]
fn a_video_is_identified_by_the_digest_of_its_path() {
    assert_eq!(video_id(""), "d41d8cd98f00b204e9800998ecf8427e");
    assert_eq!(video_id("abc"), "900150983cd24fb0d6963f7d28e17f72");
    assert_eq!(
        video_id("The quick brown fox jumps over the lazy dog"),
        "9e107d9d372bb6826bd81d3542a419d6"
    );
    assert_ne!(video_id("/videos/a.mkv"), video_id("/videos/b.mkv"));
}

#[test]
fn a_video_is_searched_by_its_series_or_its_file() {
    assert_eq!(search_name(&movie(), "Film.mkv"), "Film.mkv");
    let episode =
        SeriesInfo { series_title: "Show".to_string(), season: 2, episode: 3, is_series: true };
    assert_eq!(search_name(&episode, "Show.S02E03.mkv"), "Show");
}

#[test]
fn an_unknown_video_gets_stock_answers() {
    let info = MovieInfo::not_found("Film");
    assert_eq!(info.title.as_deref(), Some("Film"));
    assert_eq!(info.original_title.as_deref(), Some("Film"));
    assert_eq!(info.overview.as_deref(), Some("未找到匹配的电影信息"));
    assert_eq!(info.poster_path.as_deref(), Some("/assets/no-poster.png"));
    assert_eq!(info.genres.as_deref(), Some("未分类"));
    assert_eq!(field_or(&None, "x"), "x");
    assert_eq!(field_or(&Some("y".to_string()), "x"), "y");
}

#[test]
fn a_record_is_made_with_its_defaults() {
    let info = MovieInfo {
        title: None,
        original_title: None,
        overview: None,
        poster_path: None,
        genres: None,
    };
    let video = new_video("id".to_string(), "Film.mkv", "/v/Film.mkv", None, &info, movie(), 42);
    assert_eq!(video.id, "id");
    assert_eq!(video.title, "Film.mkv");
    assert_eq!(video.title_cn, "");
    assert_eq!(video.thumbnail, "");
    assert_eq!(video.duration, "Unknown");
    assert_eq!(video.path, "/v/Film.mkv");
    assert_eq!(video.category, "电影");
    assert_eq!(video.description, "");
    assert_eq!(video.create_time, 42);
    assert_eq!(video.last_play_time, 0);
    assert_eq!(video.play_count, 0);
    assert!(!video.favorite);
    assert_eq!(video.tags, "未分类");
    assert!(!video.is_series);
    assert_eq!(video.episode_overview, "");

    let info = MovieInfo {
        title: Some("电影".to_string()),
        original_title: Some("Film".to_string()),
        overview: Some("about".to_string()),
        poster_path: Some("/p.jpg".to_string()),
        genres: Some("动作".to_string()),
    };
    let episode =
        SeriesInfo { series_title: "Show".to_string(), season: 2, episode: 3, is_series: true };
    let video = new_video(
        "id".to_string(),
        "Show.S02E03.mkv",
        "/v/Show.S02E03.mkv",
        Some("00:45:00".to_string()),
        &info,
        episode,
        7,
    );
    assert_eq!(video.title, "Film");
    assert_eq!(video.title_cn, "电影");
    assert_eq!(video.thumbnail, "/p.jpg");
    assert_eq!(video.duration, "00:45:00");
    assert_eq!(video.category, "剧集");
    assert_eq!(video.description, "about");
    assert_eq!(video.tags, "动作");
    assert!(video.is_series);
    assert_eq!(video.series_title, "Show");
    assert_eq!(video.season, 2);
    assert_eq!(video.episode, 3);
}

#[test]
fn the_settings_start_with_the_system_player() {
    let settings = default_settings();
    assert_eq!(settings.player_path, None);
    assert_eq!(settings.player_type.as_deref(), Some("system"));
    assert_eq!(settings.auto_subtitle, Some(true));
    assert_eq!(settings.subtitle_language.as_deref(), Some("eng"));
    assert_eq!(settings.tmdb_api_key, None);
    assert_eq!(settings.auto_tmdb, Some(false));
    assert!(matches!(plan_launch(&settings, "/v/a.mkv", ""), Launch::SystemDefault));
}

#[test]
fn vlc_is_run_with_its_arguments() {
    let mut settings = Settings {
        player_path: Some("/usr/bin/vlc".to_string()),
        player_type: Some("vlc".to_string()),
        auto_subtitle: Some(true),
        subtitle_language: Some("chi".to_string()),
        tmdb_api_key: None,
        auto_tmdb: None,
    };
    match plan_launch(&settings, "/v/a.mkv", "/v/a.srt") {
        Launch::Player { program, args } => {
            assert_eq!(program, "/usr/bin/vlc");
            assert_eq!(
                args,
                vec!["/v/a.mkv", "--sub-file", "/v/a.srt", "--sub-language", "chi", "--fullscreen"]
            );
        }
        other => panic!("{:?}", other),
    }
    settings.auto_subtitle = None;
    settings.subtitle_language = None;
    match plan_launch(&settings, "/v/a.mkv", "/v/a.srt") {
        Launch::Player { program, args } => {
            assert_eq!(program, "/usr/bin/vlc");
            assert_eq!(args, vec!["/v/a.mkv", "--sub-language", "eng", "--fullscreen"]);
        }
        other => panic!("{:?}", other),
    }
    settings.player_type = Some("mpv".to_string());
    assert!(matches!(plan_launch(&settings, "/v/a.mkv", ""), Launch::Unsupported));
    settings.player_type = None;
    assert!(matches!(plan_launch(&settings, "/v/a.mkv", ""), Launch::Unsupported));
    settings.player_path = Some(String::new());
    assert!(matches!(plan_launch(&settings, "/v/a.mkv", ""), Launch::SystemDefault));
}

#[test]
fn playing_counts_and_dates() {
    let info = MovieInfo::not_found("Film");
    let mut video = new_video("id".to_string(), "Film.mkv", "/v/Film.mkv", None, &info, movie(), 1);
    mark_played(&mut video, 100);
    mark_played(&mut video, 200);
    assert_eq!(video.play_count, 2);
    assert_eq!(video.last_play_time, 200);
    assert_eq!(video.create_time, 1);
    assert_eq!(video.title, "Film");
}

#[test]
fn environment_lines_set_a_name_to_a_value() {
    assert_eq!(entry("KEY=value"), Some(("KEY".to_string(), "value".to_string())));
    assert_eq!(entry("  KEY = a = b  "), Some(("KEY".to_string(), "a = b".to_string())));
    assert_eq!(entry("=x"), Some((String::new(), "x".to_string())));
    assert_eq!(entry("x="), Some(("x".to_string(), String::new())));
    assert_eq!(entry(""), None);
    assert_eq!(entry("   \t"), None);
    assert_eq!(entry("# KEY=value"), None);
    assert_eq!(entry(" # KEY=value"), Some(("# KEY".to_string(), "value".to_string())));
    assert_eq!(entry("no equals sign"), None);
    for line in [
        "", " ", "#", "#=", "a=b", " a = b ", "=", "==", "a", "\u{3000}a\u{3000}=\u{a0}b\u{a0}",
        "键=值", " #x=y", "a=b=c", "\t=\t",
    ] {
        assert_eq!(entry(line), entry_with_std(line), "{:?}", line);
    }
}

#[test]
fn subtitle_files_are_told_by_their_extension() {
    assert!(is_subtitle_extension("srt"));
    assert!(is_subtitle_extension("ass"));
    assert!(is_subtitle_extension("vtt"));
    assert!(!is_subtitle_extension("SRT"));
    assert!(!is_subtitle_extension("sub"));
    assert!(!is_subtitle_extension(""));
}

#[test]
fn the_subtitle_is_found_among_the_files_of_the_folder() {
    let info = MovieInfo::not_found("Film");
    let video =
        new_video("id".to_string(), "Film.mkv", "/v/Film.mkv", None, &info, movie(), 1);
    let files = vec![
        "/v/字幕/Film.txt".to_string(),
        "/v/字幕/Film.eng.srt".to_string(),
        "/v/字幕/Film.chs.srt".to_string(),
        "/v/字幕/Film.nfo".to_string(),
    ];
    assert_eq!(find_subtitles(&video, files), Ok("/v/字幕/Film.chs.srt".to_string()));
    assert_eq!(
        find_subtitles(&video, vec!["/v/字幕/Film.txt".to_string()]),
        Err("No suitable subtitles found.".to_string())
    );
    assert_eq!(
        find_subtitles(&video, vec![]),
        Err("No suitable subtitles found.".to_string())
    );
}

#[test]
fn the_cache_keeps_one_answer_for_a_name() {
    let mut cache = TvShowCache::new();
    assert!(cache.get("Show").is_none());
    cache.insert("Show".to_string(), "{\"id\":1}".to_string(), "{}".to_string());
    cache.insert("Other".to_string(), "{\"id\":2}".to_string(), "{}".to_string());
    assert_eq!(cache.get("Show").unwrap().series, "{\"id\":1}");
    cache.insert("Show".to_string(), "{\"id\":3}".to_string(), "{\"n\":1}".to_string());
    assert_eq!(cache.get("Show").unwrap().series, "{\"id\":3}");
    assert_eq!(cache.get("Show").unwrap().season_info, "{\"n\":1}");
    assert_eq!(cache.get("Other").unwrap().series, "{\"id\":2}");
    assert_eq!(cache.entries.len(), 2);
    assert!(cache.get("show").is_none());
    clean_cache(&mut cache);
    assert!(cache.get("Show").is_none());
    assert!(cache.get("Other").is_none());
    assert_eq!(cache.entries.len(), 0);
}
