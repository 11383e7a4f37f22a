//! The verbosity decision of the logging component: which filtering level
//! the process runs with, given the environment's override and the
//! configured level. Reading the environment and installing subscribers is
//! the process shell's work; the decision itself is made here.

use vstd::prelude::*;

use crate::text::{eq_ignore_ascii_case, upper_chars};

verus! {

/// The filtering levels, coarsest first.
#[derive(Debug, Clone, Copy, PartialEq, Eq, Structural)]
pub enum LogLevel {
    Off,
    Error,
    Warn,
    Info,
    Debug,
    Trace,
}

/// The level a name denotes: the level names compared without regard to
/// ASCII case, or the numeric forms zero through five, coarsest first;
/// `None` for an unrecognized name.
pub open spec fn level_of(s: Seq<char>) -> Option<LogLevel> {
    let u = upper_chars(s);
    if u == "OFF"@ || u == "0"@ {
        Some(LogLevel::Off)
    } else if u == "ERROR"@ || u == "1"@ {
        Some(LogLevel::Error)
    } else if u == "WARN"@ || u == "2"@ {
        Some(LogLevel::Warn)
    } else if u == "INFO"@ || u == "3"@ {
        Some(LogLevel::Info)
    } else if u == "DEBUG"@ || u == "4"@ {
        Some(LogLevel::Debug)
    } else if u == "TRACE"@ || u == "5"@ {
        Some(LogLevel::Trace)
    } else {
        None
    }
}

/// Parse a level name or its numeric form, case-insensitively.
pub fn parse_level(s: &str) -> (r: Option<LogLevel>)
    ensures
        r == level_of(s@),
{
    proof {
        reveal_strlit("OFF");
        reveal_strlit("ERROR");
        reveal_strlit("WARN");
        reveal_strlit("INFO");
        reveal_strlit("DEBUG");
        reveal_strlit("TRACE");
        reveal_strlit("0");
        reveal_strlit("1");
        reveal_strlit("2");
        reveal_strlit("3");
        reveal_strlit("4");
        reveal_strlit("5");
    }
    if eq_ignore_ascii_case(s, "OFF") || eq_ignore_ascii_case(s, "0") {
        Some(LogLevel::Off)
    } else if eq_ignore_ascii_case(s, "ERROR") || eq_ignore_ascii_case(s, "1") {
        Some(LogLevel::Error)
    } else if eq_ignore_ascii_case(s, "WARN") || eq_ignore_ascii_case(s, "2") {
        Some(LogLevel::Warn)
    } else if eq_ignore_ascii_case(s, "INFO") || eq_ignore_ascii_case(s, "3") {
        Some(LogLevel::Info)
    } else if eq_ignore_ascii_case(s, "DEBUG") || eq_ignore_ascii_case(s, "4") {
        Some(LogLevel::Debug)
    } else if eq_ignore_ascii_case(s, "TRACE") || eq_ignore_ascii_case(s, "5") {
        Some(LogLevel::Trace)
    } else {
        None
    }
}

/// The level the process runs with. The environment's override always
/// takes precedence over the configuration; an unrecognized or absent
/// value at either source falls back to `Info`.
pub open spec fn filtering_level_spec(env_override: Option<Seq<char>>, configured: Option<
    Seq<char>,
>) -> LogLevel {
    match env_override {
        Some(s) => match level_of(s) {
            Some(l) => l,
            None => LogLevel::Info,
        },
        None => match configured {
            Some(s) => match level_of(s) {
                Some(l) => l,
                None => LogLevel::Info,
            },
            None => LogLevel::Info,
        },
    }
}

/// Decide the filtering level from the environment's override (if set) and
/// the configured level (if any).
pub fn get_filtering_level(env_override: Option<&str>, configured: Option<&str>) -> (r: LogLevel)
    ensures
        r == filtering_level_spec(
            match env_override {
                Some(s) => Some(s@),
                None => None,
            },
            match configured {
                Some(s) => Some(s@),
                None => None,
            },
        ),
{
    if let Some(rust_log) = env_override {
        if let Some(level) = parse_level(rust_log) {
            level
        } else {
            LogLevel::Info
        }
    } else {
        if let Some(config) = configured {
            if let Some(level) = parse_level(config) {
                level
            } else {
                LogLevel::Info
            }
        } else {
            LogLevel::Info
        }
    }
}

} // verus!
