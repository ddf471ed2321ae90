//! The immutable application settings: where configurations and
//! routing scripts live, who owns written configuration files, and how
//! logging is routed. The caller collects them once — typically from
//! the command line — and passes them explicitly.

use vstd::prelude::*;

verus! {

/// Where log records go.
#[derive(Clone, Copy, Debug, PartialEq, Eq, Structural, Default)]
pub enum LogOutput {
    /// The system log.
    #[default]
    Syslog,
    /// Standard output.
    Stdout,
}

/// Log severity threshold.
#[derive(Clone, Copy, Debug, PartialEq, Eq, Structural)]
pub enum LogLevel {
    Error,
    Warn,
    Info,
    Debug,
    Trace,
}

/// The application's immutable settings.
pub struct AppSettings {
    /// Log severity threshold.
    pub log_level: LogLevel,
    /// Where log records go.
    pub log_output: LogOutput,
    /// The application directory holding `configs` and `scripts`.
    pub app_dir: String,
    /// Owner of written configuration files.
    pub config_owner: String,
    /// Owner group of written configuration files.
    pub config_owner_group: String,
}

/// The configured log severity.
pub fn get_log_level_output(s: &AppSettings) -> (r: LogLevel)
    ensures
        r == s.log_level,
{
    s.log_level
}

/// The configured log destination.
pub fn get_log_output(s: &AppSettings) -> (r: LogOutput)
    ensures
        r == s.log_output,
{
    s.log_output
}

/// The directory holding the tunnel configurations.
pub fn get_configs_dir(s: &AppSettings) -> (r: String)
    ensures
        r@ == s.app_dir@ + "/configs"@,
{
    let mut r = s.app_dir.clone();
    r.append("/configs");
    r
}

/// The directory holding the routing scripts.
pub fn get_scripts_dir(s: &AppSettings) -> (r: String)
    ensures
        r@ == s.app_dir@ + "/scripts"@,
{
    let mut r = s.app_dir.clone();
    r.append("/scripts");
    r
}

/// The configured owner of written configuration files.
pub fn get_config_file_owner(s: &AppSettings) -> (r: &str)
    ensures
        r@ == s.config_owner@,
{
    s.config_owner.as_str()
}

/// The configured owner group of written configuration files.
pub fn get_config_file_owner_group(s: &AppSettings) -> (r: &str)
    ensures
        r@ == s.config_owner_group@,
{
    s.config_owner_group.as_str()
}

} // verus!
