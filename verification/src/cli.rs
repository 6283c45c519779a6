//! The command line: which subcommand runs, and how it logs.
use vstd::prelude::*;
use crate::text::string_of;

verus! {

pub const CLI_NAME: &'static str = "kb-vibe-cli";

pub const CHAT_LOG_FILE_NAME: &'static str = "chat.log";

/// The log file when no subcommand runs and debug logging is on.
pub const CLI_LOG_FILE_NAME: &'static str = "cli.log";

/// The environment variable that turns on logging to standard output.
pub const KB_VIBE_LOG_STDOUT: &'static str = "KB_VIBE_LOG_STDOUT";

/// The environment variable that sets the log level.
pub const LOG_LEVEL: &'static str = "KB_VIBE_LOG_LEVEL";

/// The log level when none is set: `LevelFilter::ERROR` as text.
pub const DEFAULT_FILTER: &'static str = "error";

/// Log files larger than this are started afresh.
pub const MAX_FILE_SIZE: u64 = 10 * 1024 * 1024;

/// The subcommands.
#[derive(Debug, Clone, Copy, PartialEq, Eq, Structural)]
pub enum CliRootCommand {
    Chat,
}

/// The command line's arguments.
#[derive(Debug, Clone, Copy, PartialEq, Eq, Structural)]
pub struct Cli {
    pub subcommand: Option<CliRootCommand>,
    pub verbose: u8,
}

impl Default for Cli {
    fn default() -> (r: Self)
        ensures
            r.subcommand is None,
            r.verbose == 0,
    {
        Cli { subcommand: None, verbose: 0 }
    }
}

/// How to log.
#[derive(Debug)]
pub struct LogArgs<T> {
    pub log_level: Option<String>,
    pub log_to_stdout: bool,
    pub log_file_path: Option<T>,
    pub delete_old_log_file: bool,
}

/// The log level for a verbosity count (each `-v` counts one): none without
/// `-v`, then `WARN`, `INFO`, `DEBUG`, and `TRACE` from four on (the names of
/// `tracing::Level`).
pub open spec fn verbosity_level(verbose: u8) -> Option<Seq<char>> {
    if verbose == 0 {
        None
    } else if verbose == 1 {
        Some("WARN"@)
    } else if verbose == 2 {
        Some("INFO"@)
    } else if verbose == 3 {
        Some("DEBUG"@)
    } else {
        Some("TRACE"@)
    }
}

impl Cli {
    /// How the command logs: the level from the verbosity; to `chat.log` for
    /// the chat, else to `cli.log` only when `debug_enabled` (the most detailed
    /// level logged is at least debug); to standard output when
    /// `stdout_requested` (the environment asks for it) or with `-v`; old logs
    /// kept.
    pub fn log_args(&self, debug_enabled: bool, stdout_requested: bool) -> (r: LogArgs<String>)
        ensures
            match r.log_level {
                Some(l) => verbosity_level(self.verbose) == Some(l@),
                None => verbosity_level(self.verbose) is None,
            },
            r.log_file_path is Some <==> (self.subcommand == Some(CliRootCommand::Chat) || debug_enabled),
            r.log_file_path matches Some(p) ==> p@ == if self.subcommand == Some(CliRootCommand::Chat) {
                CHAT_LOG_FILE_NAME@
            } else {
                CLI_LOG_FILE_NAME@
            },
            r.log_to_stdout == (stdout_requested || self.verbose > 0),
            !r.delete_old_log_file,
    {
        let log_level = if self.verbose > 0 {
            Some(
                if self.verbose == 1 {
                    string_of("WARN")
                } else if self.verbose == 2 {
                    string_of("INFO")
                } else if self.verbose == 3 {
                    string_of("DEBUG")
                } else {
                    string_of("TRACE")
                },
            )
        } else {
            None
        };
        let log_file_path = match self.subcommand {
            Some(CliRootCommand::Chat) => Some(string_of(CHAT_LOG_FILE_NAME)),
            _ => if debug_enabled {
                Some(string_of(CLI_LOG_FILE_NAME))
            } else {
                None
            },
        };
        assert(self.subcommand is Some ==> self.subcommand == Some(CliRootCommand::Chat));
        LogArgs {
            log_level,
            log_file_path,
            log_to_stdout: stdout_requested || self.verbose > 0,
            delete_old_log_file: false,
        }
    }
}

/// What to do with the log file before logging to it.
#[derive(Debug, Clone, Copy, PartialEq, Eq, Structural)]
pub struct LogFilePlan {
    /// Remove the old file first.
    pub remove_old: bool,
    /// Start the file empty (else append to it).
    pub truncate: bool,
}

/// What to do with the log file, given whether old logs go and the size of
/// the file if it exists: old logs go on request (the file is emptied) or when
/// the file is larger than [`MAX_FILE_SIZE`]; otherwise the log is appended.
pub fn log_file_plan(delete_old_log_file: bool, existing_size: Option<u64>) -> (r: LogFilePlan)
    ensures
        r.truncate == delete_old_log_file,
        r.remove_old == (delete_old_log_file || (existing_size matches Some(n) && n > MAX_FILE_SIZE)),
{
    if delete_old_log_file {
        LogFilePlan { remove_old: true, truncate: true }
    } else {
        match existing_size {
            Some(n) => LogFilePlan { remove_old: n > MAX_FILE_SIZE, truncate: false },
            None => LogFilePlan { remove_old: false, truncate: false },
        }
    }
}

/// The log level in force: the one set, else the one from the environment,
/// else [`DEFAULT_FILTER`].
pub fn resolve_log_level(set_level: Option<String>, env_level: Option<String>) -> (r: String)
    ensures
        r@ == match (set_level, env_level) {
            (Some(l), _) => l@,
            (None, Some(l)) => l@,
            (None, None) => DEFAULT_FILTER@,
        },
{
    match set_level {
        Some(l) => l,
        None => match env_level {
            Some(l) => l,
            None => string_of(DEFAULT_FILTER),
        },
    }
}

} // verus!
