//! The settings of the application and what they say of how a video is
//! played.

use vstd::prelude::*;
use crate::video::VideoInfo;

verus! {

/// The settings that the user keeps.
#[derive(Debug, Clone)]
pub struct Settings {
    /// The program that plays videos.
    pub player_path: Option<String>,
    /// The kind of that program.
    pub player_type: Option<String>,
    /// Whether a subtitle file is handed to the player.
    pub auto_subtitle: Option<bool>,
    /// The language of subtitles, as a three-letter code.
    pub subtitle_language: Option<String>,
    /// The key for the movie database.
    pub tmdb_api_key: Option<String>,
    /// Whether the movie database is asked during a scan.
    pub auto_tmdb: Option<bool>,
}

/// The settings before the user has saved any: the system's player, with
/// subtitles in English, and without the movie database.
pub fn default_settings() -> (settings: Settings)
    ensures
        settings.player_path is None,
        settings.player_type is Some && settings.player_type->Some_0@ == "system"@,
        settings.auto_subtitle == Some(true),
        settings.subtitle_language is Some && settings.subtitle_language->Some_0@ == "eng"@,
        settings.tmdb_api_key is None,
        settings.auto_tmdb == Some(false),
{
    Settings {
        player_path: None,
        player_type: Some("system".to_owned()),
        auto_subtitle: Some(true),
        subtitle_language: Some("eng".to_owned()),
        tmdb_api_key: None,
        auto_tmdb: Some(false),
    }
}

/// How a video is to be played.
#[derive(Debug)]
pub enum Launch {
    /// Run `program` with `args`.
    Player { program: String, args: Vec<String> },
    /// A player is set whose kind is not supported: nothing is run.
    Unsupported,
    /// No player is set: the system opens the file.
    SystemDefault,
}

/// The arguments for VLC: the file, the subtitle file if subtitles are to
/// be loaded, the subtitle language and full screen.
pub open spec fn vlc_args(path: Seq<char>, subtitle_path: Seq<char>, with_subtitle: bool, language: Seq<char>) -> Seq<
    Seq<char>,
> {
    if with_subtitle {
        seq![path, "--sub-file"@, subtitle_path, "--sub-language"@, language, "--fullscreen"@]
    } else {
        seq![path, "--sub-language"@, language, "--fullscreen"@]
    }
}

/// The texts as sequences of characters.
pub open spec fn args_view(args: Vec<String>) -> Seq<Seq<char>> {
    Seq::new(args@.len(), |i: int| args@[i]@)
}

/// Whether subtitles are to be loaded: only where the settings say so.
pub open spec fn wants_subtitle(settings: Settings) -> bool {
    settings.auto_subtitle == Some(true)
}

/// The language of subtitles: English where the settings name none.
pub open spec fn subtitle_language(settings: Settings) -> Seq<char> {
    match settings.subtitle_language {
        Some(language) => language@,
        None => "eng"@,
    }
}

/// Decides how a video is to be played: by the player of the settings if its
/// path is not empty and its kind is `vlc`; not at all if the path is not
/// empty and the kind is another; and by the system if no path is set.
pub fn plan_launch(settings: &Settings, path: &str, subtitle_path: &str) -> (launch: Launch)
    ensures
        match launch {
            Launch::Player { program, args } => {
                &&& settings.player_path is Some
                &&& program == settings.player_path->Some_0
                &&& program@.len() > 0
                &&& settings.player_type is Some
                &&& settings.player_type->Some_0@ == "vlc"@
                &&& args_view(args) == vlc_args(
                    path@,
                    subtitle_path@,
                    wants_subtitle(*settings),
                    subtitle_language(*settings),
                )
            },
            Launch::Unsupported => {
                &&& settings.player_path is Some
                &&& settings.player_path->Some_0@.len() > 0
                &&& !(settings.player_type is Some && settings.player_type->Some_0@ == "vlc"@)
            },
            Launch::SystemDefault => settings.player_path is None
                || settings.player_path->Some_0@.len() == 0,
        },
{
    let program = match &settings.player_path {
        Some(program) => program,
        None => {
            return Launch::SystemDefault;
        },
    };
    if program.as_str().is_empty() {
        return Launch::SystemDefault;
    }
    let is_vlc = match &settings.player_type {
        Some(kind) => *kind == "vlc".to_owned(),
        None => false,
    };
    if !is_vlc {
        return Launch::Unsupported;
    }
    let with_subtitle = match settings.auto_subtitle {
        Some(flag) => flag,
        None => false,
    };
    let language = match &settings.subtitle_language {
        Some(language) => language.clone(),
        None => "eng".to_owned(),
    };
    let mut args: Vec<String> = Vec::new();
    args.push(path.to_owned());
    if with_subtitle {
        args.push("--sub-file".to_owned());
        args.push(subtitle_path.to_owned());
    }
    args.push("--sub-language".to_owned());
    args.push(language);
    args.push("--fullscreen".to_owned());
    proof {
        assert(args_view(args) =~= vlc_args(
            path@,
            subtitle_path@,
            wants_subtitle(*settings),
            subtitle_language(*settings),
        ));
    }
    Launch::Player { program: program.clone(), args }
}

/// Records that a video is played at the time `now`: it was played once
/// more, and last at `now`.
pub fn mark_played(video: &mut VideoInfo, now: i64)
    requires
        old(video).play_count < i32::MAX,
    ensures
        final(video).play_count == old(video).play_count + 1,
        final(video).last_play_time == now,
        final(video).id == old(video).id,
        final(video).title == old(video).title,
        final(video).title_cn == old(video).title_cn,
        final(video).thumbnail == old(video).thumbnail,
        final(video).duration == old(video).duration,
        final(video).path == old(video).path,
        final(video).category == old(video).category,
        final(video).description == old(video).description,
        final(video).create_time == old(video).create_time,
        final(video).favorite == old(video).favorite,
        final(video).tags == old(video).tags,
        final(video).is_series == old(video).is_series,
        final(video).series_title == old(video).series_title,
        final(video).season == old(video).season,
        final(video).episode == old(video).episode,
        final(video).episode_overview == old(video).episode_overview,
{
    video.play_count = video.play_count + 1;
    video.last_play_time = now;
}

} // verus!
