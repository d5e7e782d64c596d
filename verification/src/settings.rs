//! Settings that the program takes from environment variables.

use vstd::prelude::*;

verus! {

/// File that the configuration is read from, unless the environment names one.
pub open spec fn config_path(var: Option<String>) -> Seq<char> {
    match var {
        Some(path) => path@,
        None => "rtus.toml"@,
    }
}

/// Picks the file that the configuration is read from; `var` is the variable
/// that may name one.
pub fn rtus_path(var: Option<String>) -> (r: String)
    ensures
        r@ == config_path(var),
{
    match var {
        Some(path) => path,
        None => "rtus.toml".to_owned(),
    }
}

/// Whether the value of an environment variable switches an option on.
pub open spec fn switched_on(var: Option<String>) -> bool {
    match var {
        Some(value) => value@ == "1"@,
        None => false,
    }
}

/// Decides whether the value of an environment variable switches an option on.
pub fn is_switched_on(var: &Option<String>) -> (r: bool)
    ensures
        r == switched_on(*var),
{
    match var {
        Some(value) => *value == "1".to_owned(),
        None => false,
    }
}

/// How much the program logs.
#[derive(Clone, Copy, Debug, PartialEq, Eq, Structural)]
pub enum LogLevel {
    Trace,
    Debug,
    Info,
    Warn,
    Error,
}

/// The level that the value of an environment variable asks for.
pub open spec fn requested_level(var: Option<String>) -> LogLevel {
    match var {
        Some(value) => if value@ == "trace"@ {
            LogLevel::Trace
        } else if value@ == "debug"@ {
            LogLevel::Debug
        } else if value@ == "warn"@ {
            LogLevel::Warn
        } else if value@ == "error"@ {
            LogLevel::Error
        } else {
            LogLevel::Info
        },
        None => LogLevel::Info,
    }
}

/// Picks the log level; `var` is the variable that may ask for one.
pub fn log_level(var: &Option<String>) -> (r: LogLevel)
    ensures
        r == requested_level(*var),
{
    match var {
        Some(value) => if *value == "trace".to_owned() {
            LogLevel::Trace
        } else if *value == "debug".to_owned() {
            LogLevel::Debug
        } else if *value == "warn".to_owned() {
            LogLevel::Warn
        } else if *value == "error".to_owned() {
            LogLevel::Error
        } else {
            LogLevel::Info
        },
        None => LogLevel::Info,
    }
}

/// The configuration is read from the file that the environment names, and from
/// `rtus.toml` if it names none.
pub proof fn law_named_file_is_read(path: String)
    ensures
        config_path(Some(path)) == path@,
        config_path(None) == "rtus.toml"@,
{
}

/// The value `1` switches an option on, and nothing else does.
pub proof fn law_only_one_switches_on(value: String)
    ensures
        switched_on(Some(value)) <==> value@ == "1"@,
        !switched_on(None),
{
}

/// Each of four names asks for its level; any other value, or none, means `Info`.
pub proof fn law_level_is_the_one_named(value: String)
    ensures
        value@ == "trace"@ ==> requested_level(Some(value)) == LogLevel::Trace,
        value@ == "debug"@ ==> requested_level(Some(value)) == LogLevel::Debug,
        value@ == "warn"@ ==> requested_level(Some(value)) == LogLevel::Warn,
        value@ == "error"@ ==> requested_level(Some(value)) == LogLevel::Error,
        value@ != "trace"@ && value@ != "debug"@ && value@ != "warn"@ && value@ != "error"@
            ==> requested_level(Some(value)) == LogLevel::Info,
        requested_level(None) == LogLevel::Info,
{
    reveal_strlit("trace");
    reveal_strlit("debug");
    reveal_strlit("warn");
    reveal_strlit("error");
    assert("trace"@[0] == 't' && "debug"@[0] == 'd' && "warn"@[0] == 'w' && "error"@[0] == 'e');
}

} // verus!
