//! User settings: the hotkey, the engine and voice, the speed and whether
//! the reader starts at login; their defaults; and where they are kept.
use vstd::prelude::*;

verus! {

/// The user's settings. `speed` is in thousandths of normal speed.
#[derive(Debug, Clone)]
pub struct Config {
    pub hotkey: String,
    /// "edge" (neural voices, online) or "native" (offline).
    pub engine: String,
    /// Voice name as the engine reports it; empty for the engine's default.
    pub voice: String,
    pub speed: i32,
    pub autostart: bool,
}

/// The engine used when the settings name none.
pub open spec fn default_engine_spec() -> Seq<char> {
    "edge"@
}

/// The engine used when the settings name none.
pub fn default_engine() -> (e: String)
    ensures
        e@ == default_engine_spec(),
{
    String::from_str("edge")
}

/// The speed used when the settings give none: normal speed.
pub fn default_speed() -> (s: i32)
    ensures
        s == 1000,
{
    1000
}

impl Default for Config {
    /// Alt+R, the Edge engine with its default voice, normal speed, started
    /// at login.
    fn default() -> (c: Self)
        ensures
            c.hotkey@ == "alt+r"@,
            c.engine@ == default_engine_spec(),
            c.voice@ == Seq::<char>::empty(),
            c.speed == 1000,
            c.autostart,
    {
        Config {
            hotkey: String::from_str("alt+r"),
            engine: default_engine(),
            voice: String::new(),
            speed: 1000,
            autostart: true,
        }
    }
}

impl Config {
    /// The settings read from a stored file, where the engine, the voice and
    /// the speed may be missing: a missing engine is "edge", a missing voice
    /// is empty, a missing speed is normal speed.
    pub fn from_stored(
        hotkey: String,
        engine: Option<String>,
        voice: Option<String>,
        speed: Option<i32>,
        autostart: bool,
    ) -> (c: Config)
        ensures
            c.hotkey == hotkey,
            c.engine@ == (match engine {
                Some(e) => e@,
                None => default_engine_spec(),
            }),
            c.voice@ == (match voice {
                Some(v) => v@,
                None => Seq::<char>::empty(),
            }),
            c.speed == (match speed {
                Some(s) => s,
                None => 1000,
            }),
            c.autostart == autostart,
    {
        let engine = match engine {
            Some(e) => e,
            None => default_engine(),
        };
        let voice = match voice {
            Some(v) => v,
            None => String::new(),
        };
        let speed = match speed {
            Some(s) => s,
            None => default_speed(),
        };
        Config { hotkey, engine, voice, speed, autostart }
    }
}

/// Why the settings file has no place.
#[derive(Debug, PartialEq, Eq, Structural)]
pub enum ConfigError {
    /// The platform reports no data directory.
    NoDataDir,
}

/// The platform's per-user data directory, by `dirs::data_dir`, as text
/// (a path that is not valid Unicode has its invalid parts replaced by
/// U+FFFD). It depends on the platform and the environment, so nothing is
/// stated of it.
#[verifier::external_body]
fn platform_data_dir() -> Option<String> {
    dirs::data_dir().map(|p| p.to_string_lossy().into_owned())
}

/// Characters that separate path components on some platform.
pub open spec fn is_separator(c: char) -> bool {
    c == '/' || c == '\\'
}

/// A plain path component: not empty, not `.` or `..`, and free of
/// separators and drive colons, so that joining it never replaces the base
/// and no normalisation removes it.
pub open spec fn plain_component(name: Seq<char>) -> bool {
    &&& name.len() > 0
    &&& name != seq!['.']
    &&& name != seq!['.', '.']
    &&& forall|i: int| 0 <= i < name.len() ==> !is_separator(#[trigger] name[i]) && name[i] != ':'
}

/// Whether `s` ends with `suffix`.
pub open spec fn ends_with(s: Seq<char>, suffix: Seq<char>) -> bool {
    suffix.len() <= s.len() && s.subrange(s.len() - suffix.len(), s.len() as int) == suffix
}

/// A bare drive: one ASCII letter and a colon, such as `C:`.
pub open spec fn bare_drive(s: Seq<char>) -> bool {
    &&& s.len() == 2
    &&& (('A' <= s[0] && s[0] <= 'Z') || ('a' <= s[0] && s[0] <= 'z'))
    &&& s[1] == ':'
}

/// Whether `s` starts like a Windows verbatim path (`\\?`).
pub open spec fn verbatim_like(s: Seq<char>) -> bool {
    s.len() >= 3 && s[0] == '\\' && s[1] == '\\' && s[2] == '?'
}

/// `joined` is `base` extended by the plain component `name`, as
/// `Path::join` extends it: an empty base gives the name alone; a base
/// ending in `/` is followed directly by the name; a base ending in `\` or
/// a bare drive is followed by the name either directly (Windows) or after
/// `/` (elsewhere); any other base gets exactly one separator (the
/// platform's) before the name.
pub open spec fn path_joined(base: Seq<char>, name: Seq<char>, joined: Seq<char>) -> bool {
    if base.len() == 0 {
        joined == name
    } else if base.last() == '/' {
        joined == base + name
    } else if base.last() == '\\' || bare_drive(base) {
        joined == base + name || joined == base.push('/') + name
    } else {
        exists|sep: char| is_separator(sep) && joined == base.push(sep) + name
    }
}

/// `base` joined with the plain component `name`, by `Path::join`: the
/// platform's separator is added unless `base` is empty, already ends with
/// a separator, or is a bare drive on Windows. Whatever the base, the path
/// is extended by `name`, so the result ends with it. A Windows verbatim
/// base (`\\?\...`) is rebuilt from its components by `Path::join`; of
/// a base that starts like one, nothing more is stated.
#[verifier::external_body]
fn path_join(base: &str, name: &str) -> (joined: String)
    requires
        plain_component(name@),
    ensures
        ends_with(joined@, name@),
        !verbatim_like(base@) ==> path_joined(base@, name@, joined@),
{
    std::path::Path::new(base).join(name).to_string_lossy().into_owned()
}

/// The directory name of the reader's data, inside the data directory.
pub open spec fn app_dir_name() -> Seq<char> {
    "TTSRead"@
}

/// The file name of the settings, inside the reader's data directory.
pub open spec fn config_file_name() -> Seq<char> {
    "config.json"@
}

/// `joined` is what joining `name` to `base` gives, as far as it is known:
/// exactly for a base that does not start like a verbatim path, and only
/// that it ends with `name` for one that does.
pub open spec fn joined_from(base: Seq<char>, name: Seq<char>, joined: Seq<char>) -> bool {
    &&& ends_with(joined, name)
    &&& !verbatim_like(base) ==> path_joined(base, name, joined)
}

/// Joining a component that does not start with `\` or `?` to a base that
/// does not start like a verbatim path gives a path that does not either.
proof fn lemma_join_not_verbatim(base: Seq<char>, name: Seq<char>, joined: Seq<char>)
    requires
        !verbatim_like(base),
        name.len() > 0,
        name[0] != '\\',
        name[0] != '?',
        path_joined(base, name, joined),
    ensures
        !verbatim_like(joined),
{
    if base.len() >= 3 {
        if base.last() != '/' && base.last() != '\\' && !bare_drive(base) {
            let sep = choose|sep: char| is_separator(sep) && joined == base.push(sep) + name;
            assert(joined[0] == base[0] && joined[1] == base[1] && joined[2] == base[2]);
        } else {
            assert(joined[0] == base[0] && joined[1] == base[1] && joined[2] == base[2]);
        }
    } else if base.len() == 2 {
        if base.last() != '/' && base.last() != '\\' && !bare_drive(base) {
            let sep = choose|sep: char| is_separator(sep) && joined == base.push(sep) + name;
            assert(joined[2] == sep);
        } else if joined == base + name {
            assert(joined[2] == name[0]);
        } else if joined == base.push('/') + name {
            assert(joined[2] == '/');
        }
    } else if base.len() == 1 {
        if base.last() != '/' && base.last() != '\\' && !bare_drive(base) {
            let sep = choose|sep: char| is_separator(sep) && joined == base.push(sep) + name;
            assert(joined[1] == sep);
            assert(joined.len() >= 3 ==> joined[2] == name[0]);
        } else if joined == base + name {
            assert(joined[1] == name[0]);
        } else if joined == base.push('/') + name {
            assert(joined[1] == '/');
            assert(joined.len() >= 3 ==> joined[2] == name[0]);
        }
    } else {
        assert(joined[0] == name[0]);
    }
}

/// The reader's data directory inside the platform data directory `base`
/// (none when the platform reports none): "TTSRead" joined to the base.
pub fn app_data_dir_in(base: Option<String>) -> (r: Result<String, ConfigError>)
    ensures
        base is None <==> r is Err,
        r is Err ==> r == Err::<String, ConfigError>(ConfigError::NoDataDir),
        match (base, r) {
            (Some(b), Ok(d)) => joined_from(b@, app_dir_name(), d@),
            _ => true,
        },
{
    match base {
        None => Err(ConfigError::NoDataDir),
        Some(b) => {
            proof {
                reveal_strlit("TTSRead");
            }
            Ok(path_join(b.as_str(), "TTSRead"))
        },
    }
}

/// The settings file inside the platform data directory `base`:
/// "config.json" joined to "TTSRead" joined to the base.
pub fn config_path_in(base: Option<String>) -> (r: Result<String, ConfigError>)
    ensures
        base is None <==> r is Err,
        r is Err ==> r == Err::<String, ConfigError>(ConfigError::NoDataDir),
        match (base, r) {
            (Some(b), Ok(p)) => {
                &&& exists|d: Seq<char>|
                    joined_from(b@, app_dir_name(), d) && joined_from(d, config_file_name(), p@)
                &&& !verbatim_like(b@) ==> exists|d: Seq<char>|
                    path_joined(b@, app_dir_name(), d) && path_joined(d, config_file_name(), p@)
            },
            _ => true,
        },
{
    let ghost gb = base;
    match app_data_dir_in(base) {
        Err(e) => Err(e),
        Ok(d) => {
            proof {
                reveal_strlit("config.json");
                reveal_strlit("TTSRead");
                if let Some(b) = gb {
                    if !verbatim_like(b@) {
                        lemma_join_not_verbatim(b@, app_dir_name(), d@);
                    }
                }
            }
            let p = path_join(d.as_str(), "config.json");
            proof {
                if let Some(b) = gb {
                    assert(joined_from(b@, app_dir_name(), d@) && joined_from(d@, config_file_name(), p@));
                    if !verbatim_like(b@) {
                        assert(path_joined(b@, app_dir_name(), d@) && path_joined(d@, config_file_name(), p@));
                    }
                }
            }
            Ok(p)
        },
    }
}

/// The reader's data directory: "TTSRead" inside the platform's data
/// directory, which depends on the environment and is not named here; an
/// error when the platform reports none.
pub fn app_data_dir() -> (r: Result<String, ConfigError>)
    ensures
        match r {
            Ok(d) => exists|b: Seq<char>| joined_from(b, app_dir_name(), d@),
            Err(e) => e == ConfigError::NoDataDir,
        },
{
    let base = platform_data_dir();
    let ghost gb = base;
    let r = app_data_dir_in(base);
    let ghost gr = r;
    proof {
        if let (Some(b), Ok(d)) = (gb, gr) {
            assert(joined_from(b@, app_dir_name(), d@));
        }
    }
    r
}

/// The settings file: "config.json" inside the reader's data directory.
pub fn config_path() -> (r: Result<String, ConfigError>)
    ensures
        match r {
            Ok(p) => exists|b: Seq<char>, d: Seq<char>|
                joined_from(b, app_dir_name(), d) && joined_from(d, config_file_name(), p@),
            Err(e) => e == ConfigError::NoDataDir,
        },
{
    let base = platform_data_dir();
    let ghost gb = base;
    let r = config_path_in(base);
    let ghost gr = r;
    proof {
        if let (Some(b), Ok(p)) = (gb, gr) {
            let d = choose|d: Seq<char>|
                joined_from(b@, app_dir_name(), d) && joined_from(d, config_file_name(), p@);
            assert(joined_from(b@, app_dir_name(), d) && joined_from(d, config_file_name(), p@));
        }
    }
    r
}

} // verus!
