//! The settings of one gallery instance.

use vstd::prelude::*;

verus! {

/// Settings read once at start-up and handed to every request.
#[derive(Clone, Debug)]
pub struct Config {
    /// TCP port the gallery listens on.
    pub port: u16,
    /// Directory that holds the video files.
    pub fs_path: String,
    /// URI prefix under which the gallery is mounted.
    pub uri_path: String,
    /// Title shown in the page heading.
    pub instance_name: String,
    /// Number of videos on one page.
    pub video_count: u16,
    /// Whether the listing runs from the greatest name to the least.
    pub sort_descending: bool,
    /// Whether file names are shown as the time they stand for.
    pub parse_timestamps: bool,
    /// Whether static assets are served without caching.
    pub disable_static_cache: bool,
}

/// Why a configuration is refused at start-up.
#[derive(Clone, Copy, Debug, PartialEq, Eq, Structural)]
pub enum ConfigError {
    /// `video_count` is zero: no page could hold an item.
    ZeroPageSize,
}

impl Config {
    /// A configuration that the gallery can run with.
    pub open spec fn valid(&self) -> bool {
        self.video_count > 0
    }

    /// Checks the configuration before the first request is served.
    pub fn validate(&self) -> (r: Result<(), ConfigError>)
        ensures
            r is Ok <==> self.valid(),
            r is Err ==> r == Err::<(), ConfigError>(ConfigError::ZeroPageSize),
    {
        if self.video_count == 0 {
            Err(ConfigError::ZeroPageSize)
        } else {
            Ok(())
        }
    }
}

} // verus!
