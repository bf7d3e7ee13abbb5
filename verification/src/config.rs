//! Settings that govern a capture session, their defaults, and where the
//! settings and the recordings are kept.

use vstd::prelude::*;
use vstd::string::*;
use crate::keys::Key;
use crate::text::chars_of;

verus! {

/// How the delay in front of each captured action is chosen.
#[derive(Clone, Copy, Debug, PartialEq, Eq, Structural)]
pub enum WaitStrategy {
    /// The time that really passed since the previous captured action.
    Actual,
    /// The same number of milliseconds in front of every action.
    ConstantMS(u64),
}

impl Default for WaitStrategy {
    fn default() -> (out: Self)
        ensures
            out == WaitStrategy::ConstantMS(100),
    {
        WaitStrategy::ConstantMS(100)
    }
}

/// The settings of a session. They are read once, before the session starts.
#[derive(Debug, PartialEq, Eq)]
pub struct Config {
    /// The key presses that, typed in this order, end a capture. With none,
    /// a capture never ends by itself.
    pub stop_keystrokes: Vec<Key>,
    pub wait_strategy: WaitStrategy,
    /// For how many seconds to count down before a session starts.
    pub countdown_seconds: u64,
    /// Whether to record moves of the pointer while no button is held.
    pub record_non_drag_mouse_moves: bool,
    /// The delay, in milliseconds, that every recording begins with. The time
    /// until the first action is never measured.
    pub recording_initial_wait_ms: u64,
}

/// What a capture goes by, as plain values: the part of the settings that
/// decides what a recording holds.
pub struct CaptureConfig {
    pub stop_keystrokes: Seq<Key>,
    pub wait_strategy: WaitStrategy,
    pub record_non_drag_mouse_moves: bool,
    pub initial_wait_ms: u64,
}

impl View for Config {
    type V = CaptureConfig;

    open spec fn view(&self) -> CaptureConfig {
        CaptureConfig {
            stop_keystrokes: self.stop_keystrokes@,
            wait_strategy: self.wait_strategy,
            record_non_drag_mouse_moves: self.record_non_drag_mouse_moves,
            initial_wait_ms: self.recording_initial_wait_ms,
        }
    }
}

impl Clone for Config {
    fn clone(&self) -> (copy: Self)
        ensures
            copy@ == self@,
            copy.countdown_seconds == self.countdown_seconds,
    {
        Config {
            stop_keystrokes: self.stop_keystrokes.clone(),
            wait_strategy: self.wait_strategy,
            countdown_seconds: self.countdown_seconds,
            record_non_drag_mouse_moves: self.record_non_drag_mouse_moves,
            recording_initial_wait_ms: self.recording_initial_wait_ms,
        }
    }
}

/// The settings as a settings file gives them: each one may be missing.
#[derive(Clone, Debug, PartialEq, Eq)]
pub struct StoredConfig {
    pub stop_keystrokes: Option<Vec<Key>>,
    pub wait_strategy: Option<WaitStrategy>,
    pub countdown_seconds: Option<u64>,
    pub record_non_drag_mouse_moves: Option<bool>,
    pub recording_initial_wait_ms: Option<u64>,
}

/// The stop gesture that holds where none is configured: escape, three times.
pub open spec fn default_stop_pattern() -> Seq<Key> {
    seq![Key::Escape, Key::Escape, Key::Escape]
}

/// The settings that hold where a settings file is silent.
pub open spec fn is_default(cfg: Config) -> bool {
    &&& cfg.stop_keystrokes@ == default_stop_pattern()
    &&& cfg.wait_strategy == WaitStrategy::ConstantMS(100)
    &&& cfg.countdown_seconds == 3
    &&& cfg.record_non_drag_mouse_moves == false
    &&& cfg.recording_initial_wait_ms == 100
}

pub fn default_stop_keystrokes() -> (keys: Vec<Key>)
    ensures
        keys@ == default_stop_pattern(),
{
    let mut keys = Vec::new();
    keys.push(Key::Escape);
    keys.push(Key::Escape);
    keys.push(Key::Escape);
    assert(keys@ =~= default_stop_pattern());
    keys
}

pub fn default_countdown_seconds() -> (seconds: u64)
    ensures
        seconds == 3,
{
    3
}

pub fn default_record_non_drag_mouse_moves() -> (record: bool)
    ensures
        !record,
{
    false
}

pub fn default_recording_initial_wait_ms() -> (ms: u64)
    ensures
        ms == 100,
{
    100
}

impl Default for Config {
    fn default() -> (cfg: Self)
        ensures
            is_default(cfg),
    {
        Config {
            stop_keystrokes: default_stop_keystrokes(),
            wait_strategy: WaitStrategy::ConstantMS(100),
            countdown_seconds: 3,
            record_non_drag_mouse_moves: false,
            recording_initial_wait_ms: 100,
        }
    }
}

/// `cfg` takes each setting that `stored` gives and the default for each one
/// that it leaves out.
pub open spec fn filled_from(cfg: Config, stored: StoredConfig) -> bool {
    &&& cfg.stop_keystrokes@ == (match stored.stop_keystrokes {
        Some(keys) => keys@,
        None => default_stop_pattern(),
    })
    &&& cfg.wait_strategy == (match stored.wait_strategy {
        Some(strategy) => strategy,
        None => WaitStrategy::ConstantMS(100),
    })
    &&& cfg.countdown_seconds == (match stored.countdown_seconds {
        Some(seconds) => seconds,
        None => 3,
    })
    &&& cfg.record_non_drag_mouse_moves == (match stored.record_non_drag_mouse_moves {
        Some(record) => record,
        None => false,
    })
    &&& cfg.recording_initial_wait_ms == (match stored.recording_initial_wait_ms {
        Some(ms) => ms,
        None => 100,
    })
}

/// What was found where the settings file is kept.
#[derive(Clone, Debug, PartialEq, Eq)]
pub enum ConfigFile {
    /// No file.
    Missing,
    /// A file whose text is not a set of settings; with the reader's words.
    Garbled(String),
    /// A file with these settings.
    Holds(StoredConfig),
}

/// The settings to go by, and what is left to do about the file.
#[derive(Debug, PartialEq, Eq)]
pub struct LoadedConfig {
    pub config: Config,
    /// The file is to be written, with these settings.
    pub write_file: bool,
}

/// The settings file cannot be understood. No session runs on it.
#[derive(Clone, Debug, PartialEq, Eq)]
pub struct ConfigError {
    /// The reader's words.
    pub cause: String,
}

impl Config {
    /// The settings that `stored` gives, each one that it leaves out at its
    /// default.
    pub fn fill(stored: StoredConfig) -> (cfg: Config)
        ensures
            filled_from(cfg, stored),
    {
        Config {
            stop_keystrokes: match stored.stop_keystrokes {
                Some(keys) => keys,
                None => default_stop_keystrokes(),
            },
            wait_strategy: match stored.wait_strategy {
                Some(strategy) => strategy,
                None => WaitStrategy::default(),
            },
            countdown_seconds: match stored.countdown_seconds {
                Some(seconds) => seconds,
                None => default_countdown_seconds(),
            },
            record_non_drag_mouse_moves: match stored.record_non_drag_mouse_moves {
                Some(record) => record,
                None => default_record_non_drag_mouse_moves(),
            },
            recording_initial_wait_ms: match stored.recording_initial_wait_ms {
                Some(ms) => ms,
                None => default_recording_initial_wait_ms(),
            },
        }
    }

    /// Decides on the settings of a session from what was found where the
    /// settings file is kept. A file's settings are taken, each one that it
    /// leaves out at its default. Without a file the defaults hold and the
    /// file is to be written with them. A file that cannot be understood is
    /// an error, and the file is left alone.
    pub fn load(found: ConfigFile) -> (loaded: Result<LoadedConfig, ConfigError>)
        ensures
            match found {
                ConfigFile::Holds(stored) => loaded matches Ok(l) && filled_from(l.config, stored)
                    && !l.write_file,
                ConfigFile::Missing => loaded matches Ok(l) && is_default(l.config)
                    && l.write_file,
                ConfigFile::Garbled(cause) => loaded matches Err(e) && e.cause@ == cause@,
            },
    {
        match found {
            ConfigFile::Holds(stored) => Ok(
                LoadedConfig { config: Config::fill(stored), write_file: false },
            ),
            ConfigFile::Missing => Ok(
                LoadedConfig { config: Config::default(), write_file: true },
            ),
            ConfigFile::Garbled(cause) => Err(ConfigError { cause }),
        }
    }
}

/// `rel` appended to the path `base`, by the rules of paths whose separator
/// is `/`: a `rel` that starts at the root stands alone, and a separator is
/// put between the two unless `base` is empty or ends with one.
pub open spec fn joined(base: Seq<char>, rel: Seq<char>) -> Seq<char> {
    if rel.len() > 0 && rel[0] == '/' {
        rel
    } else if base.len() == 0 || base.last() == '/' {
        base + rel
    } else {
        base + seq!['/'] + rel
    }
}

/// The path `rel` as seen from the directory `base`.
pub fn join(base: &str, rel: &str) -> (path: String)
    ensures
        path@ == joined(base@, rel@),
{
    if rel.unicode_len() > 0 && rel.get_char(0) == '/' {
        return rel.to_owned();
    }
    let base_len = base.unicode_len();
    let mut path = base.to_owned();
    if base_len > 0 && base.get_char(base_len - 1) != '/' {
        proof {
            reveal_strlit("/");
        }
        path.append("/");
        assert("/"@ =~= seq!['/']);
    }
    path.append(rel);
    path
}

/// The directory that holds the settings file, below the home directory `home`.
pub fn macronizer_path(home: &str) -> (path: String)
    ensures
        path@ == joined(home@, ".config/macronizer"@),
{
    join(home, ".config/macronizer")
}

/// The directory that holds the recordings, below the home directory `home`.
pub fn macros_path(home: &str) -> (path: String)
    ensures
        path@ == joined(joined(home@, ".config/macronizer"@), "macros"@),
{
    let dir = macronizer_path(home);
    join(dir.as_str(), "macros")
}

/// The settings file, below the home directory `home`.
pub fn settings_path(home: &str) -> (path: String)
    ensures
        path@ == joined(joined(home@, ".config/macronizer"@), "settings.toml"@),
{
    let dir = macronizer_path(home);
    join(dir.as_str(), "settings.toml")
}

/// The file that holds the recording called `name`, below the home directory
/// `home`.
pub fn macro_path(home: &str, name: &str) -> (path: String)
    ensures
        path@ == joined(
            joined(joined(home@, ".config/macronizer"@), "macros"@),
            name@ + ".toml"@,
        ),
{
    let dir = macros_path(home);
    let mut file = name.to_owned();
    file.append(".toml");
    join(dir.as_str(), file.as_str())
}

/// Where the last dot stands in `name`, if there is a dot.
pub open spec fn last_dot(name: Seq<char>) -> Option<int>
    decreases name.len(),
{
    if name.len() == 0 {
        None
    } else if name.last() == '.' {
        Some(name.len() - 1)
    } else {
        last_dot(name.drop_last())
    }
}

/// The name of the recording that the file called `file` holds: what stands
/// in front of the last dot. A file without an extension holds none, and one
/// whose only dot is its first character has none; nor is `..` a file.
pub open spec fn recording_name(file: Seq<char>) -> Option<Seq<char>> {
    if file == seq!['.', '.'] {
        None
    } else {
        match last_dot(file) {
            Some(at) => if at > 0 {
                Some(file.take(at))
            } else {
                None
            },
            None => None,
        }
    }
}

/// The name of the recording that a file of the recordings' directory holds,
/// from the file's name; nothing for a file that holds no recording.
pub fn macro_name(file: &str) -> (name: Option<String>)
    ensures
        match name {
            Some(name) => recording_name(file@) == Some(name@),
            None => recording_name(file@) is None,
        },
{
    let chars = chars_of(file);
    let n = chars.len();
    if n == 2 && chars[0] == '.' && chars[1] == '.' {
        assert(file@ =~= seq!['.', '.']);
        return None;
    }
    let mut i: usize = n;
    assert(chars@.take(n as int) =~= chars@);
    while i > 0 && chars[i - 1] != '.'
        invariant
            i <= n,
            n == chars.len(),
            last_dot(chars@) == last_dot(chars@.take(i as int)),
        decreases i,
    {
        assert(chars@.take(i as int).drop_last() =~= chars@.take(i - 1));
        i = i - 1;
    }
    if i <= 1 {
        assert(last_dot(chars@.take(i as int)) == if i == 1 {
            Some(0int)
        } else {
            None
        });
        None
    } else {
        Some(file.substring_char(0, i - 1).to_owned())
    }
}

/// The file of a recording gives back the recording's name, whatever the
/// name, as long as it is not empty.
pub proof fn lemma_macro_file_names_its_recording(name: Seq<char>)
    requires
        name.len() > 0,
    ensures
        recording_name(name + ".toml"@) == Some(name),
{
    reveal_strlit(".toml");
    let ext = ".toml"@;
    let file = name + ext;
    let n = name.len() as int;
    assert(file.len() == n + 5);
    assert(file[n] == '.');
    assert(file[n + 1] == 't' && file[n + 2] == 'o' && file[n + 3] == 'm' && file[n + 4] == 'l');
    let f4 = file.drop_last();
    let f3 = f4.drop_last();
    let f2 = f3.drop_last();
    let f1 = f2.drop_last();
    assert(file.last() == 'l');
    assert(f4.last() == 'm');
    assert(f3.last() == 'o');
    assert(f2.last() == 't');
    assert(f1.last() == '.');
    assert(last_dot(f1) == Some(n));
    assert(last_dot(f2) == Some(n));
    assert(last_dot(f3) == Some(n));
    assert(last_dot(f4) == Some(n));
    assert(last_dot(file) == Some(n));
    assert(file.take(n) =~= name);
}

} // verus!
