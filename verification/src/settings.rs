//! The settings file in its first form, with the stop keys and the wait
//! strategy written as words.

use vstd::prelude::*;
use vstd::string::*;
use crate::config::ConfigError;

verus! {

/// Settings as the first form of the settings file holds them.
#[derive(Debug, Clone, PartialEq, Eq)]
pub struct Settings {
    /// The names of the keys that, pressed in this order, stop a recording
    /// or a replay.
    pub stop_keystrokes: Vec<String>,
    /// How the delays between actions are chosen: "actual", "none" or
    /// "constant".
    pub wait_strategy: String,
    /// The delay in milliseconds where the strategy is "constant".
    pub constant_wait_ms: u64,
}

/// What was found where the settings file is kept.
#[derive(Debug, Clone, PartialEq, Eq)]
pub enum SettingsFile {
    /// No file.
    Missing,
    /// A file whose text is not a set of settings; with the reader's words.
    Garbled(String),
    /// A file with these settings.
    Holds(Settings),
}

/// The settings to go by, and what is left to do about the file.
#[derive(Debug, Clone, PartialEq, Eq)]
pub struct Loaded {
    pub settings: Settings,
    /// The file is to be written, with these settings.
    pub write_file: bool,
}

/// The settings that hold where there is no file: three presses of escape
/// stop, and the delay is a constant 100 milliseconds.
pub open spec fn is_default(s: Settings) -> bool {
    &&& s.stop_keystrokes@.len() == 3
    &&& s.stop_keystrokes@[0]@ == "Escape"@
    &&& s.stop_keystrokes@[1]@ == "Escape"@
    &&& s.stop_keystrokes@[2]@ == "Escape"@
    &&& s.wait_strategy@ == "constant"@
    &&& s.constant_wait_ms == 100
}

impl Default for Settings {
    fn default() -> (s: Self)
        ensures
            is_default(s),
    {
        let mut stop_keystrokes = Vec::new();
        stop_keystrokes.push("Escape".to_owned());
        stop_keystrokes.push("Escape".to_owned());
        stop_keystrokes.push("Escape".to_owned());
        Settings { stop_keystrokes, wait_strategy: "constant".to_owned(), constant_wait_ms: 100 }
    }
}

/// Decides on the settings from what was found where the file is kept. A
/// file's settings are taken as they are. Without a file the defaults hold
/// and the file is to be written with them. A file that cannot be understood
/// is an error, and the file is left alone.
pub fn load_settings(found: SettingsFile) -> (loaded: Result<Loaded, ConfigError>)
    ensures
        match found {
            SettingsFile::Holds(settings) => loaded matches Ok(l) && l.settings == settings
                && !l.write_file,
            SettingsFile::Missing => loaded matches Ok(l) && is_default(l.settings)
                && l.write_file,
            SettingsFile::Garbled(cause) => loaded matches Err(e) && e.cause@ == cause@,
        },
{
    match found {
        SettingsFile::Holds(settings) => Ok(Loaded { settings, write_file: false }),
        SettingsFile::Missing => Ok(Loaded { settings: Settings::default(), write_file: true }),
        SettingsFile::Garbled(cause) => Err(ConfigError { cause }),
    }
}

} // verus!
