use vstd::prelude::*;

verus! {

/// The user's settings.
pub struct AppSettings {
    pub music_directory: String,
    /// "light" or "dark".
    pub theme: String,
    /// Seconds skipped by a seek step.
    pub seek_interval: u64,
}

/// The default seek step, in seconds.
pub const DEFAULT_SEEK_INTERVAL: u64 = 10;

impl AppSettings {
    /// The default settings for a given music directory: dark theme and a
    /// ten-second seek step.
    pub fn with_music_directory(music_directory: String) -> (r: AppSettings)
        ensures
            r.music_directory == music_directory,
            r.theme@ == "dark"@,
            r.seek_interval == 10,
    {
        AppSettings {
            music_directory,
            theme: String::from_str("dark"),
            seek_interval: DEFAULT_SEEK_INTERVAL,
        }
    }
}

} // verus!
