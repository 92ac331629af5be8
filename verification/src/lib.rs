//! The decisions behind a portable downloader that turns videos into MP3 files.

pub mod archive;
pub mod browser;
pub mod cache;
pub mod clock;
pub mod double;
pub mod download;
pub mod number;
pub mod order;
pub mod percent;
pub mod release;
pub mod screen;
pub mod semver;
pub mod text;
pub mod update;
pub mod version;
pub mod video;
