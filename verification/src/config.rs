use vstd::prelude::*;
use vstd::string::StringExecFns;

verus! {

/// The log file path used when the configuration file does not supply one.
pub fn default_log_path() -> (s: String)
    ensures
        s@ == "~/qquotes.log"@,
{
    String::from_str("~/qquotes.log")
}

/// The data file path used when the configuration file does not supply one.
pub fn default_data_path() -> (s: String)
    ensures
        s@ == "~/qquotes_data.json"@,
{
    String::from_str("~/qquotes_data.json")
}

/// The resolved application settings: where the log is appended and where
/// the data file lives.
pub struct AppConfig {
    pub log_path: String,
    pub data_path: String,
}

/// Resolves the settings read from the optional configuration file: each
/// key falls back to its default individually when it is absent.
pub fn resolve_config(log_path: Option<String>, data_path: Option<String>) -> (c: AppConfig)
    ensures
        c.log_path@ == (match log_path {
            Some(p) => p@,
            None => "~/qquotes.log"@,
        }),
        c.data_path@ == (match data_path {
            Some(p) => p@,
            None => "~/qquotes_data.json"@,
        }),
{
    let lp = match log_path {
        Some(p) => p,
        None => default_log_path(),
    };
    let dp = match data_path {
        Some(p) => p,
        None => default_data_path(),
    };
    AppConfig { log_path: lp, data_path: dp }
}

/// Verbosity of the terminal logger, selected by the number of repeated
/// verbose flags.
#[derive(Clone, Copy, Debug, PartialEq, Eq, Structural)]
pub enum LogLevel {
    Error,
    Warn,
    Trace,
}

/// No verbose flag shows errors only, one adds warnings, and two or more
/// show everything.
pub fn term_log_level(verbose_count: u64) -> (l: LogLevel)
    ensures
        l == (if verbose_count == 0 {
            LogLevel::Error
        } else if verbose_count == 1 {
            LogLevel::Warn
        } else {
            LogLevel::Trace
        }),
{
    if verbose_count == 0 {
        LogLevel::Error
    } else if verbose_count == 1 {
        LogLevel::Warn
    } else {
        LogLevel::Trace
    }
}

} // verus!
