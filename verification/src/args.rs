//! The run's configuration, parsed from a plain token list: bucket and key,
//! the placeholder to substitute, a log level, and the command to hand the
//! buffer to. The first token names the running program and is skipped; a
//! known flag takes the next token as its value; the first token that is no
//! known flag starts the command, which runs to the end of the list.

use vstd::prelude::*;
use crate::text::str_eq;

verus! {

/// Verbosity of the progress reporting.
#[derive(Clone, Copy, Debug, PartialEq, Eq, Structural)]
pub enum LogLevel {
    Trace,
    Debug,
    Info,
    Warn,
    Error,
}

/// Why a token list was rejected.
#[derive(Clone, Copy, Debug, PartialEq, Eq, Structural)]
pub enum ArgError {
    /// A flag came last, with no token left for its value.
    MissingValue,
    /// The value after the log-level flag names no level.
    InvalidLogLevel,
    /// The token list ended before any command token.
    MissingCommand,
}

/// The parsed configuration of one run.
#[derive(Debug)]
pub struct RunArgs {
    /// Bucket holding the object; absent when left to the environment.
    pub bucket: Option<String>,
    /// Key of the object; absent when left to the environment.
    pub key: Option<String>,
    /// The token to replace with the buffer's path.
    pub memfd_placeholder: String,
    /// Verbosity of the progress reporting.
    pub log_level: LogLevel,
    /// The program to hand the buffer to, then its arguments.
    pub command: Vec<String>,
}

/// The configuration as plain sequences, for stating what parsing returns.
pub struct ArgsModel {
    pub bucket: Option<Seq<char>>,
    pub key: Option<Seq<char>>,
    pub placeholder: Seq<char>,
    pub level: LogLevel,
    pub command: Seq<Seq<char>>,
}

/// The level a token names, lower case only.
pub open spec fn level_of(s: Seq<char>) -> Option<LogLevel> {
    if s == "trace"@ {
        Some(LogLevel::Trace)
    } else if s == "debug"@ {
        Some(LogLevel::Debug)
    } else if s == "info"@ {
        Some(LogLevel::Info)
    } else if s == "warn"@ {
        Some(LogLevel::Warn)
    } else if s == "error"@ {
        Some(LogLevel::Error)
    } else {
        None
    }
}

/// What stands before any token is read: no bucket, no key, the default
/// placeholder, reporting at the info level, no command.
pub open spec fn initial_model() -> ArgsModel {
    ArgsModel {
        bucket: None,
        key: None,
        placeholder: "{{memfd}}"@,
        level: LogLevel::Info,
        command: Seq::empty(),
    }
}

/// What parsing the tokens from position `i` on returns, having already
/// gathered `acc`: each known flag consumes the next token as its value, the
/// first other token starts the command.
pub open spec fn spec_parse(toks: Seq<Seq<char>>, i: int, acc: ArgsModel) -> Result<
    ArgsModel,
    ArgError,
>
    decreases toks.len() - i,
    when 0 <= i
{
    if i >= toks.len() {
        Err(ArgError::MissingCommand)
    } else if toks[i] == "--bucket"@ {
        if i + 1 < toks.len() {
            spec_parse(toks, i + 2, ArgsModel { bucket: Some(toks[i + 1]), ..acc })
        } else {
            Err(ArgError::MissingValue)
        }
    } else if toks[i] == "--key"@ {
        if i + 1 < toks.len() {
            spec_parse(toks, i + 2, ArgsModel { key: Some(toks[i + 1]), ..acc })
        } else {
            Err(ArgError::MissingValue)
        }
    } else if toks[i] == "--memfd-placeholder"@ {
        if i + 1 < toks.len() {
            spec_parse(toks, i + 2, ArgsModel { placeholder: toks[i + 1], ..acc })
        } else {
            Err(ArgError::MissingValue)
        }
    } else if toks[i] == "--log-level"@ {
        if i + 1 < toks.len() {
            match level_of(toks[i + 1]) {
                Some(level) => spec_parse(toks, i + 2, ArgsModel { level, ..acc }),
                None => Err(ArgError::InvalidLogLevel),
            }
        } else {
            Err(ArgError::MissingValue)
        }
    } else {
        Ok(ArgsModel { command: toks.skip(i), ..acc })
    }
}

/// The view of an optional string.
pub open spec fn opt_str_view(o: Option<String>) -> Option<Seq<char>> {
    match o {
        Some(s) => Some(s@),
        None => None,
    }
}

/// The parsed configuration carries exactly the model's values.
pub open spec fn args_match(a: RunArgs, m: ArgsModel) -> bool {
    &&& opt_str_view(a.bucket) == m.bucket
    &&& opt_str_view(a.key) == m.key
    &&& a.memfd_placeholder@ == m.placeholder
    &&& a.log_level == m.level
    &&& a.command.deep_view() == m.command
}

/// The level a token names, lower case only.
pub fn parse_log_level(s: &str) -> (r: Option<LogLevel>)
    ensures
        r == level_of(s@),
{
    if str_eq(s, "trace") {
        Some(LogLevel::Trace)
    } else if str_eq(s, "debug") {
        Some(LogLevel::Debug)
    } else if str_eq(s, "info") {
        Some(LogLevel::Info)
    } else if str_eq(s, "warn") {
        Some(LogLevel::Warn)
    } else if str_eq(s, "error") {
        Some(LogLevel::Error)
    } else {
        None
    }
}

/// Parse a full token list, the running program's own name first.
pub fn parse_args(argv: &Vec<String>) -> (r: Result<RunArgs, ArgError>)
    requires
        argv@.len() >= 1,
    ensures
        match r {
            Ok(a) => spec_parse(argv.deep_view(), 1, initial_model()) matches Ok(m) && args_match(
                a,
                m,
            ),
            Err(e) => spec_parse(argv.deep_view(), 1, initial_model()) == Err::<
                ArgsModel,
                ArgError,
            >(e),
        },
{
    let ghost toks = argv.deep_view();
    let n = argv.len();
    let mut bucket: Option<String> = None;
    let mut key: Option<String> = None;
    let mut placeholder: String = String::from_str("{{memfd}}");
    let mut level: LogLevel = LogLevel::Info;
    let mut i: usize = 1;
    let ghost acc0 = ArgsModel {
        bucket: opt_str_view(bucket),
        key: opt_str_view(key),
        placeholder: placeholder@,
        level,
        command: Seq::empty(),
    };
    proof {
        assert(acc0 == initial_model());
    }
    while i < n
        invariant
            n == argv@.len(),
            toks == argv.deep_view(),
            toks.len() == n,
            1 <= i <= n,
            spec_parse(toks, 1, initial_model()) == spec_parse(
                toks,
                i as int,
                ArgsModel {
                    bucket: opt_str_view(bucket),
                    key: opt_str_view(key),
                    placeholder: placeholder@,
                    level,
                    command: Seq::empty(),
                },
            ),
        decreases n - i,
    {
        proof {
            assert(toks[i as int] == argv@[i as int]@);
            if i + 1 < n {
                assert(toks[i as int + 1] == argv@[i as int + 1]@);
            }
        }
        if str_eq(argv[i].as_str(), "--bucket") {
            if i + 1 < n {
                bucket = Some(argv[i + 1].clone());
                i = i + 2;
            } else {
                return Err(ArgError::MissingValue);
            }
        } else if str_eq(argv[i].as_str(), "--key") {
            if i + 1 < n {
                key = Some(argv[i + 1].clone());
                i = i + 2;
            } else {
                return Err(ArgError::MissingValue);
            }
        } else if str_eq(argv[i].as_str(), "--memfd-placeholder") {
            if i + 1 < n {
                placeholder = argv[i + 1].clone();
                i = i + 2;
            } else {
                return Err(ArgError::MissingValue);
            }
        } else if str_eq(argv[i].as_str(), "--log-level") {
            if i + 1 < n {
                match parse_log_level(argv[i + 1].as_str()) {
                    Some(parsed) => {
                        level = parsed;
                        i = i + 2;
                    },
                    None => {
                        return Err(ArgError::InvalidLogLevel);
                    },
                }
            } else {
                return Err(ArgError::MissingValue);
            }
        } else {
            let mut command: Vec<String> = Vec::new();
            let mut j: usize = i;
            while j < n
                invariant
                    n == argv@.len(),
                    toks == argv.deep_view(),
                    toks.len() == n,
                    i <= j <= n,
                    command.deep_view() == toks.subrange(i as int, j as int),
                decreases n - j,
            {
                let item = argv[j].clone();
                proof {
                    assert(toks[j as int] == argv@[j as int]@);
                    assert(item@ == argv@[j as int]@);
                    assert(item.deep_view() == toks[j as int]);
                }
                let ghost pre_view = command@;
                let ghost pre_deep = command.deep_view();
                command.push(item);
                proof {
                    assert(command@ =~= pre_view.push(item));
                    assert forall|k: int| 0 <= k < pre_deep.len() implies #[trigger] command.deep_view()[k]
                        == pre_deep[k] by {
                        assert(command@[k] == pre_view[k]);
                    }
                    assert(command.deep_view()[pre_deep.len() as int] == item.deep_view());
                    assert(command.deep_view() =~~= toks.subrange(i as int, j as int + 1));
                }
                j = j + 1;
            }
            proof {
                assert(toks.subrange(i as int, n as int) =~~= toks.skip(i as int));
            }
            return Ok(
                RunArgs { bucket, key, memfd_placeholder: placeholder, log_level: level, command },
            );
        }
    }
    Err(ArgError::MissingCommand)
}

} // verus!
