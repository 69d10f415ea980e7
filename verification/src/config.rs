//! The configuration the core consumes. File reading and TOML decoding live
//! outside the library; the library only holds the decoded plain values and
//! their defaults.

use vstd::prelude::*;
use vstd::string::StringExecFns;
use crate::message::BlockedResponse;

verus! {

/// Where the server listens, where it forwards, and how it denies.
pub struct ServerConfig {
    /// Listen address for the DNS server.
    pub listen_addr: String,
    /// Listen port for the DNS server.
    pub listen_port: u16,
    /// Upstream DNS servers, as `host:port`; the core uses the first.
    pub upstream_dns: Vec<String>,
    /// Reply to give for blocked names.
    pub blocked_response: BlockedResponse,
}

/// Where blocklists come from.
pub struct BlocklistConfig {
    /// Remote URLs to download blocklists from.
    pub remote_lists: Vec<String>,
    /// Local blocklist file paths.
    pub local_lists: Vec<String>,
    /// Path of the custom blocklist file.
    pub custom_list: String,
    /// Whether `*.` tokens declare wildcard entries; when false they are
    /// dropped during parsing.
    pub enable_wildcards: bool,
}

/// Logging knobs. The sinks themselves live outside the library.
pub struct LoggingConfig {
    /// Whether blocked queries are logged.
    pub log_blocked: bool,
    /// Log file path.
    pub log_path: String,
    /// Log level name.
    pub log_level: String,
}

/// Automatic blocklist update knobs.
pub struct UpdaterConfig {
    /// Whether automatic updates run.
    pub enabled: bool,
    /// Update schedule, in cron format.
    pub schedule: String,
    /// Time zone name for the schedule.
    pub timezone: String,
}

/// The whole configuration.
pub struct Config {
    pub server: ServerConfig,
    pub blocklist: BlocklistConfig,
    pub logging: LoggingConfig,
    pub updater: UpdaterConfig,
}

/// Default listen address.
pub fn default_listen_addr() -> (r: String)
    ensures
        r@ == "127.0.0.1"@,
{
    String::from_str("127.0.0.1")
}

/// Default listen port.
pub fn default_listen_port() -> (r: u16)
    ensures
        r == 53,
{
    53
}

/// Default upstream resolver list.
pub fn default_upstream_dns() -> (r: Vec<String>)
    ensures
        r@.len() == 1,
        r@[0]@ == "1.1.1.1:53"@,
{
    let mut v: Vec<String> = Vec::new();
    v.push(String::from_str("1.1.1.1:53"));
    v
}

/// Default reply for blocked names.
pub fn default_blocked_response() -> (r: BlockedResponse)
    ensures
        r is Refused,
{
    BlockedResponse::Refused
}

/// Default custom blocklist path.
pub fn default_custom_list() -> (r: String)
    ensures
        r@ == "/etc/skypier/custom-blocklist.txt"@,
{
    String::from_str("/etc/skypier/custom-blocklist.txt")
}

/// Default for the boolean knobs that start switched on.
pub fn default_true() -> (r: bool)
    ensures
        r == true,
{
    true
}

/// Default log file path.
pub fn default_log_path() -> (r: String)
    ensures
        r@ == "/var/log/skypier/blackhole.log"@,
{
    String::from_str("/var/log/skypier/blackhole.log")
}

/// Default log level.
pub fn default_log_level() -> (r: String)
    ensures
        r@ == "info"@,
{
    String::from_str("info")
}

/// Default update schedule: daily at midnight.
pub fn default_update_schedule() -> (r: String)
    ensures
        r@ == "0 0 * * *"@,
{
    String::from_str("0 0 * * *")
}

/// Default time zone for the update schedule.
pub fn default_timezone() -> (r: String)
    ensures
        r@ == "EST"@,
{
    String::from_str("EST")
}

impl Config {
    /// The configuration with every knob at its default.
    pub fn default() -> (r: Self)
        ensures
            r.server.listen_addr@ == "127.0.0.1"@,
            r.server.listen_port == 53,
            r.server.upstream_dns@.len() == 1,
            r.server.upstream_dns@[0]@ == "1.1.1.1:53"@,
            r.server.blocked_response is Refused,
            r.blocklist.remote_lists@.len() == 0,
            r.blocklist.local_lists@.len() == 0,
            r.blocklist.custom_list@ == "/etc/skypier/custom-blocklist.txt"@,
            r.blocklist.enable_wildcards == true,
            r.logging.log_blocked == true,
            r.logging.log_path@ == "/var/log/skypier/blackhole.log"@,
            r.logging.log_level@ == "info"@,
            r.updater.enabled == true,
            r.updater.schedule@ == "0 0 * * *"@,
            r.updater.timezone@ == "EST"@,
    {
        Config {
            server: ServerConfig {
                listen_addr: default_listen_addr(),
                listen_port: default_listen_port(),
                upstream_dns: default_upstream_dns(),
                blocked_response: default_blocked_response(),
            },
            blocklist: BlocklistConfig {
                remote_lists: Vec::new(),
                local_lists: Vec::new(),
                custom_list: default_custom_list(),
                enable_wildcards: default_true(),
            },
            logging: LoggingConfig {
                log_blocked: default_true(),
                log_path: default_log_path(),
                log_level: default_log_level(),
            },
            updater: UpdaterConfig {
                enabled: default_true(),
                schedule: default_update_schedule(),
                timezone: default_timezone(),
            },
        }
    }
}

} // verus!
