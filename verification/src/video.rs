//! The record that the library keeps of a video.

use vstd::prelude::*;

verus! {

/// What is known of one video file.
#[derive(Debug, Clone)]
pub struct VideoInfo {
    /// The MD5 of the file's path, in hexadecimal.
    pub id: String,
    /// The title, by default the file's name.
    pub title: String,
    /// The Chinese title, empty where there is none.
    pub title_cn: String,
    /// The address of the poster.
    pub thumbnail: String,
    /// The playback duration as `HH:MM:SS`.
    pub duration: String,
    /// The file's path.
    pub path: String,
    /// The category of the video.
    pub category: String,
    /// The description of the video.
    pub description: String,
    /// When the record was made, in seconds since the epoch.
    pub create_time: i64,
    /// When the video was last played, in seconds since the epoch.
    pub last_play_time: i64,
    /// How often the video was played.
    pub play_count: i32,
    /// Whether the video is a favourite.
    pub favorite: bool,
    /// The genres, separated by commas.
    pub tags: String,
    /// Whether the video is an episode of a series.
    pub is_series: bool,
    /// The title of the series.
    pub series_title: String,
    /// The season of the episode.
    pub season: i32,
    /// The number of the episode.
    pub episode: i32,
    /// The overview of the episode.
    pub episode_overview: String,
}

} // verus!
