//! Decisions at the start of the program: what to do, which configuration, where the log lies.
use vstd::prelude::*;
use vstd::string::*;
use crate::config::CacheConfig;
use crate::text;

verus! {

/// What the program is asked to do.
#[derive(Debug, Clone, Copy, PartialEq, Eq, Structural)]
pub enum Command {
    Help,
    /// Write a configuration.
    Init { demo: bool, force: bool },
    /// Serve requests.
    Serve { demo: bool },
}

/// What the arguments ask for: the first one names a command, and flags may stand anywhere.
pub open spec fn command_of(args: Seq<Seq<char>>) -> Command {
    if args.len() > 0 && (args[0] == "--help"@ || args[0] == "-h"@ || args[0] == "help"@) {
        Command::Help
    } else if args.len() > 0 && args[0] == "init"@ {
        Command::Init { demo: args.contains("--demo"@), force: args.contains("--force"@) }
    } else {
        Command::Serve { demo: args.contains("--demo"@) }
    }
}

fn has(args: &Vec<String>, flag: &str) -> (r: bool)
    ensures
        r == text::texts(args@).contains(flag@),
{
    let r = text::listed(args, flag);
    proof {
        let all = text::texts(args@);
        if r {
            let i = choose|i: int| 0 <= i < args@.len() && (#[trigger] args@[i])@ == flag@;
            assert(all[i] == flag@);
        }
        if all.contains(flag@) {
            let i = choose|i: int| 0 <= i < all.len() && all[i] == flag@;
            assert(args@[i]@ == flag@);
        }
    }
    r
}

/// What the arguments ask for.
pub fn parse_args(args: &Vec<String>) -> (r: Command)
    ensures
        r == command_of(text::texts(args@)),
{
    if args.len() > 0 {
        let first = args[0].as_str();
        assert(text::texts(args@)[0] == first@);
        if text::same(first, "--help") || text::same(first, "-h") || text::same(first, "help") {
            return Command::Help;
        }
        if text::same(first, "init") {
            return Command::Init { demo: has(args, "--demo"), force: has(args, "--force") };
        }
    }
    Command::Serve { demo: has(args, "--demo") }
}

/// Under which directory the files of a user lie.
#[derive(Debug, Clone, Copy, PartialEq, Eq, Structural)]
pub enum UserBase {
    /// The one that the XDG variable names.
    Xdg,
    /// One in the home directory.
    Home,
    Unknown,
}

/// Under which directory the files of a user lie. `xdg_absolute` says whether the path in the XDG
/// variable is absolute, where it is set; a relative one does not count.
pub fn user_base(xdg_absolute: Option<bool>, has_home: bool) -> (r: UserBase)
    ensures
        r == (if xdg_absolute == Some(true) {
            UserBase::Xdg
        } else if has_home {
            UserBase::Home
        } else {
            UserBase::Unknown
        }),
{
    match xdg_absolute {
        Some(true) => UserBase::Xdg,
        _ => if has_home {
            UserBase::Home
        } else {
            UserBase::Unknown
        },
    }
}

/// Which configuration counts.
#[derive(Debug, Clone, Copy, PartialEq, Eq, Structural)]
pub enum ConfigSource {
    /// The one that is named explicitly.
    Explicit,
    /// The one that is named explicitly, which does not exist.
    ExplicitMissing,
    /// The one below the working directory.
    Local,
    /// The one of the user.
    User,
    Missing,
}

/// Which configuration counts: one that is named explicitly comes first, then the local one, then
/// that of the user. The arguments say which of them exist; `None` says that there is no such
/// path.
pub fn config_source(explicit: Option<bool>, local: bool, user: Option<bool>) -> (r: ConfigSource)
    ensures
        r == (match explicit {
            Some(true) => ConfigSource::Explicit,
            Some(false) => ConfigSource::ExplicitMissing,
            None => if local {
                ConfigSource::Local
            } else if user == Some(true) {
                ConfigSource::User
            } else {
                ConfigSource::Missing
            },
        }),
{
    match explicit {
        Some(true) => ConfigSource::Explicit,
        Some(false) => ConfigSource::ExplicitMissing,
        None => if local {
            ConfigSource::Local
        } else {
            match user {
                Some(true) => ConfigSource::User,
                _ => ConfigSource::Missing,
            }
        },
    }
}

/// What is said of an explicitly named configuration that does not exist.
pub fn explicit_missing_text(path: &str) -> (r: String)
    ensures
        r@ == "LLMUX_CONFIG zeigt auf '"@ + path@ + "', aber die Datei existiert nicht"@,
{
    let mut s = "LLMUX_CONFIG zeigt auf '".to_owned();
    s.append(path);
    s.append("', aber die Datei existiert nicht");
    s
}

/// What is said where there is no configuration. `dir` and `file` are those of the user, where
/// there are any.
pub open spec fn missing_text(dir: Option<Seq<char>>, file: Option<Seq<char>>) -> Seq<char> {
    let searched = match file {
        Some(f) => " und "@ + f,
        None => Seq::empty(),
    };
    let d = match dir {
        Some(d) => d,
        None => "~/.config/llmux"@,
    };
    let f = match file {
        Some(f) => f,
        None => "~/.config/llmux/llmux.yaml"@,
    };
    "Keine Konfiguration gefunden. Gesucht: ./config/llmux.yaml"@ + searched
        + ".\nLege eine an, z. B.:\n  mkdir -p "@ + d + "\n  cp config/llmux.example.yaml "@ + f
        + "\noder setze LLMUX_CONFIG=/pfad/zur/llmux.yaml."@
}

/// What is said where there is no configuration.
pub fn config_missing_text(dir: Option<&str>, file: Option<&str>) -> (r: String)
    ensures
        r@ == missing_text(
            match dir {
                Some(d) => Some(d@),
                None => None,
            },
            match file {
                Some(f) => Some(f@),
                None => None,
            },
        ),
{
    let mut s = "Keine Konfiguration gefunden. Gesucht: ./config/llmux.yaml".to_owned();
    match file {
        Some(f) => {
            s.append(" und ");
            s.append(f);
        },
        None => {},
    }
    let ghost searched = match file {
        Some(f) => " und "@ + f@,
        None => Seq::empty(),
    };
    assert(s@ =~= "Keine Konfiguration gefunden. Gesucht: ./config/llmux.yaml"@ + searched);
    s.append(".\nLege eine an, z. B.:\n  mkdir -p ");
    match dir {
        Some(d) => {
            s.append(d);
        },
        None => {
            s.append("~/.config/llmux");
        },
    }
    s.append("\n  cp config/llmux.example.yaml ");
    match file {
        Some(f) => {
            s.append(f);
        },
        None => {
            s.append("~/.config/llmux/llmux.yaml");
        },
    }
    s.append("\noder setze LLMUX_CONFIG=/pfad/zur/llmux.yaml.");
    s
}

/// Where the log lies.
#[derive(Debug, Clone, Copy, PartialEq, Eq, Structural)]
pub enum LogPlace {
    /// Where it is explicitly said to lie.
    Explicit,
    /// In the data directory of the user.
    UserData,
    /// Below the working directory.
    Local,
}

/// Where the log lies: where it is explicitly said to, else beside the configuration.
pub fn log_place(explicit: bool, config_of_user: bool, has_data_dir: bool) -> (r: LogPlace)
    ensures
        r == (if explicit {
            LogPlace::Explicit
        } else if config_of_user && has_data_dir {
            LogPlace::UserData
        } else {
            LogPlace::Local
        }),
{
    if explicit {
        LogPlace::Explicit
    } else if config_of_user && has_data_dir {
        LogPlace::UserData
    } else {
        LogPlace::Local
    }
}

/// Whether a configuration is written: never over an existing one without being told to.
pub fn writes_config(present: bool, force: bool) -> (r: bool)
    ensures
        r == (!present || force),
{
    !present || force
}

/// The seconds between two evictions, at least one; none where nothing is cached.
pub fn eviction_interval(cache: &CacheConfig) -> (r: Option<u64>)
    ensures
        r == (if !cache.enabled {
            None
        } else if cache.eviction_interval_seconds < 1 {
            Some(1u64)
        } else {
            Some(cache.eviction_interval_seconds)
        }),
{
    if !cache.enabled {
        None
    } else if cache.eviction_interval_seconds < 1 {
        Some(1)
    } else {
        Some(cache.eviction_interval_seconds)
    }
}

/// A host and a port as an address.
pub fn address(host: &str, port: u16) -> (r: String)
    ensures
        r@ == host@ + ":"@ + text::decimal(port as nat),
{
    let mut s = host.to_owned();
    s.append(":");
    let p = text::number(port as u64);
    s.append(p.as_str());
    s
}

proof fn lemma_command_words()
    ensures
        "--help"@ != "-h"@,
        "--help"@ != "help"@,
        "--help"@ != "init"@,
        "-h"@ != "help"@,
        "-h"@ != "init"@,
        "help"@ != "init"@,
{
    reveal_strlit("--help");
    reveal_strlit("-h");
    reveal_strlit("help");
    reveal_strlit("init");
    assert("--help"@.len() == 6);
    assert("-h"@.len() == 2);
    assert("help"@.len() == 4);
    assert("init"@.len() == 4);
    assert("help"@[0] != "init"@[0]);
}

/// What the first argument means: help in one of three spellings, or setting up; without such a
/// word the service starts. The flags count wherever they stand.
pub proof fn law_commands(args: Seq<Seq<char>>)
    ensures
        args.len() > 0 && (args[0] == "--help"@ || args[0] == "-h"@ || args[0] == "help"@)
            ==> command_of(args) == Command::Help,
        args.len() > 0 && args[0] == "init"@ ==> command_of(args) == (Command::Init {
            demo: exists|i: int| 0 <= i < args.len() && #[trigger] args[i] == "--demo"@,
            force: exists|i: int| 0 <= i < args.len() && #[trigger] args[i] == "--force"@,
        }),
        args.len() == 0 || (args[0] != "--help"@ && args[0] != "-h"@ && args[0] != "help"@
            && args[0] != "init"@) ==> command_of(args) == (Command::Serve {
            demo: exists|i: int| 0 <= i < args.len() && #[trigger] args[i] == "--demo"@,
        }),
{
    lemma_command_words();
}

} // verus!
