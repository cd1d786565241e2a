//! Media-library core: a reader for the EBML structure of Matroska/WebM
//! files that recovers a video's playback duration from the file's bytes,
//! together with the rules the surrounding application applies to file
//! names, subtitles and log records.

pub mod error;
pub mod stream;
pub mod vint;
pub mod metadata;
pub mod prefix;
pub mod logger;
pub mod text;
pub mod words;
pub mod duration;
mod paths;
pub mod series;
pub mod names;
pub mod video;
pub mod subtitles;
pub mod tmdb;
pub mod catalog;
pub mod player;
pub mod env;
pub mod cache;
