//! Settings of the guard layers and of the monitors.
//!
//! Real-valued settings are held in fixed point: an integer counts units of
//! one billionth, so that comparisons on them are exact.

use crate::error::Error;
use crate::text::{ascii_upper, concat, to_upper};
use vstd::prelude::*;

verus! {

/// The fixed-point representation of 1.
pub const FIXED_ONE: u64 = 1_000_000_000;

/// Severity of a log line, from least to most severe.
#[derive(Debug, Clone, Copy, PartialEq, Eq, PartialOrd, Ord, Hash)]
pub enum LogLevel {
    /// Everything.
    Debug,
    /// Informational messages.
    Info,
    /// Normal operation messages.
    Notice,
    /// Warnings.
    Warn,
    /// Errors only.
    Error,
}

impl Default for LogLevel {
    fn default() -> (r: Self)
        ensures
            r == LogLevel::Notice,
    {
        LogLevel::Notice
    }
}

/// The level that a name stands for, letter case aside.
pub open spec fn spec_level_of(s: Seq<char>) -> Option<LogLevel> {
    let u = to_upper(s);
    if u == "DEBUG"@ {
        Some(LogLevel::Debug)
    } else if u == "INFO"@ {
        Some(LogLevel::Info)
    } else if u == "NOTICE"@ {
        Some(LogLevel::Notice)
    } else if u == "WARN"@ || u == "WARNING"@ {
        Some(LogLevel::Warn)
    } else if u == "ERROR"@ || u == "ERR"@ {
        Some(LogLevel::Error)
    } else {
        None
    }
}

impl LogLevel {
    /// Position in the order of severity, `Debug` being 0.
    pub open spec fn spec_rank(self) -> nat {
        match self {
            LogLevel::Debug => 0,
            LogLevel::Info => 1,
            LogLevel::Notice => 2,
            LogLevel::Warn => 3,
            LogLevel::Error => 4,
        }
    }

    /// Position in the order of severity, `Debug` being 0.
    pub fn rank(self) -> (r: u8)
        ensures
            r == self.spec_rank(),
    {
        match self {
            LogLevel::Debug => 0,
            LogLevel::Info => 1,
            LogLevel::Notice => 2,
            LogLevel::Warn => 3,
            LogLevel::Error => 4,
        }
    }

    /// The upper-case name of the level.
    pub fn name(self) -> (r: &'static str)
        ensures
            r@ == match self {
                LogLevel::Debug => "DEBUG"@,
                LogLevel::Info => "INFO"@,
                LogLevel::Notice => "NOTICE"@,
                LogLevel::Warn => "WARN"@,
                LogLevel::Error => "ERROR"@,
            },
    {
        match self {
            LogLevel::Debug => "DEBUG",
            LogLevel::Info => "INFO",
            LogLevel::Notice => "NOTICE",
            LogLevel::Warn => "WARN",
            LogLevel::Error => "ERROR",
        }
    }

    /// Reads a level from its name, ignoring ASCII letter case. `WARNING` and
    /// `ERR` are accepted too. Any other text is a configuration error that
    /// quotes it.
    pub fn from_name(s: &str) -> (r: Result<LogLevel, Error>)
        ensures
            match r {
                Ok(level) => spec_level_of(s@) == Some(level),
                Err(e) => spec_level_of(s@) is None && (e matches Error::Config(m) && m@
                    == "invalid log level: "@ + s@),
            },
    {
        let u = ascii_upper(s);
        let u = u.as_str();
        if u.eq("DEBUG") {
            Ok(LogLevel::Debug)
        } else if u.eq("INFO") {
            Ok(LogLevel::Info)
        } else if u.eq("NOTICE") {
            Ok(LogLevel::Notice)
        } else if u.eq("WARN") || u.eq("WARNING") {
            Ok(LogLevel::Warn)
        } else if u.eq("ERROR") || u.eq("ERR") {
            Ok(LogLevel::Error)
        } else {
            Err(Error::Config(concat("invalid log level: ", s)))
        }
    }
}

impl std::str::FromStr for LogLevel {
    type Err = Error;

    /// Reads a level from its name, as `from_name` does: letter case
    /// aside, the five names and `WARNING` and `ERR` give their level, and
    /// any other text is a configuration error that quotes it.
    fn from_str(s: &str) -> (r: Result<LogLevel, Error>)
        ensures
            match r {
                Ok(level) => spec_level_of(s@) == Some(level),
                Err(e) => spec_level_of(s@) is None && (e matches Error::Config(m) && m@
                    == "invalid log level: "@ + s@),
            },
    {
        LogLevel::from_name(s)
    }
}

/// Sizes and lifetimes of the guard layers.
#[derive(Debug, Clone, PartialEq)]
pub struct VanguardsConfig {
    /// Number of first-hop guards; 0 leaves the daemon's default.
    pub num_layer1_guards: u8,
    /// Target size of the second layer.
    pub num_layer2_guards: u8,
    /// Target size of the third layer; 0 disables it.
    pub num_layer3_guards: u8,
    /// Lifetime of first-hop guards in days; 0 leaves the daemon's default.
    pub layer1_lifetime_days: u16,
    /// Shortest lifetime of a second-layer guard, in hours.
    pub min_layer2_lifetime_hours: u32,
    /// Longest lifetime of a second-layer guard, in hours.
    pub max_layer2_lifetime_hours: u32,
    /// Shortest lifetime of a third-layer guard, in hours.
    pub min_layer3_lifetime_hours: u32,
    /// Longest lifetime of a third-layer guard, in hours.
    pub max_layer3_lifetime_hours: u32,
}

pub fn default_num_layer1_guards() -> (r: u8)
    ensures
        r == 2,
{
    2
}

pub fn default_num_layer2_guards() -> (r: u8)
    ensures
        r == 4,
{
    4
}

pub fn default_num_layer3_guards() -> (r: u8)
    ensures
        r == 8,
{
    8
}

pub fn default_min_layer2_lifetime_hours() -> (r: u32)
    ensures
        r == 24,
{
    24
}

pub fn default_max_layer2_lifetime_hours() -> (r: u32)
    ensures
        r == 1080,
{
    1080
}

pub fn default_min_layer3_lifetime_hours() -> (r: u32)
    ensures
        r == 1,
{
    1
}

pub fn default_max_layer3_lifetime_hours() -> (r: u32)
    ensures
        r == 48,
{
    48
}

impl Default for VanguardsConfig {
    fn default() -> (r: Self)
        ensures
            r == (VanguardsConfig {
                num_layer1_guards: 2,
                num_layer2_guards: 4,
                num_layer3_guards: 8,
                layer1_lifetime_days: 0,
                min_layer2_lifetime_hours: 24,
                max_layer2_lifetime_hours: 1080,
                min_layer3_lifetime_hours: 1,
                max_layer3_lifetime_hours: 48,
            }),
    {
        VanguardsConfig {
            num_layer1_guards: default_num_layer1_guards(),
            num_layer2_guards: default_num_layer2_guards(),
            num_layer3_guards: default_num_layer3_guards(),
            layer1_lifetime_days: 0,
            min_layer2_lifetime_hours: default_min_layer2_lifetime_hours(),
            max_layer2_lifetime_hours: default_max_layer2_lifetime_hours(),
            min_layer3_lifetime_hours: default_min_layer3_lifetime_hours(),
            max_layer3_lifetime_hours: default_max_layer3_lifetime_hours(),
        }
    }
}

/// Limits of the bandwidth monitor. A limit of 0 switches its check off.
#[derive(Debug, Clone, PartialEq)]
pub struct BandguardsConfig {
    /// Most megabytes a circuit may carry.
    pub circ_max_megabytes: u64,
    /// Greatest age of a circuit, in hours.
    pub circ_max_age_hours: u32,
    /// Most kilobytes a directory circuit may carry.
    pub circ_max_hsdesc_kilobytes: u32,
    /// Most kilobytes a service introduction circuit may carry.
    pub circ_max_serv_intro_kilobytes: u32,
    /// Seconds without a working circuit before a warning.
    pub circ_max_disconnected_secs: u32,
    /// Seconds without a guard connection before a warning.
    pub conn_max_disconnected_secs: u32,
}

pub fn default_circ_max_age_hours() -> (r: u32)
    ensures
        r == 24,
{
    24
}

pub fn default_circ_max_hsdesc_kilobytes() -> (r: u32)
    ensures
        r == 30,
{
    30
}

pub fn default_circ_max_disconnected_secs() -> (r: u32)
    ensures
        r == 30,
{
    30
}

pub fn default_conn_max_disconnected_secs() -> (r: u32)
    ensures
        r == 15,
{
    15
}

impl Default for BandguardsConfig {
    fn default() -> (r: Self)
        ensures
            r == (BandguardsConfig {
                circ_max_megabytes: 0,
                circ_max_age_hours: 24,
                circ_max_hsdesc_kilobytes: 30,
                circ_max_serv_intro_kilobytes: 0,
                circ_max_disconnected_secs: 30,
                conn_max_disconnected_secs: 15,
            }),
    {
        BandguardsConfig {
            circ_max_megabytes: 0,
            circ_max_age_hours: default_circ_max_age_hours(),
            circ_max_hsdesc_kilobytes: default_circ_max_hsdesc_kilobytes(),
            circ_max_serv_intro_kilobytes: 0,
            circ_max_disconnected_secs: default_circ_max_disconnected_secs(),
            conn_max_disconnected_secs: default_conn_max_disconnected_secs(),
        }
    }
}

/// Thresholds of the rendezvous-point monitor.
#[derive(Debug, Clone, PartialEq)]
pub struct RendguardConfig {
    /// Total uses below which no relay counts as overused.
    pub use_global_start_count: u32,
    /// Total uses at which all counts are halved.
    pub use_scale_at_count: u32,
    /// Uses of one relay below which it does not count as overused.
    pub use_relay_start_count: u32,
    /// Greatest tolerated ratio of a relay's share of uses to its share of
    /// bandwidth, in fixed point.
    pub use_max_use_to_bw_ratio: u64,
    /// Share of uses, in percent and fixed point, granted to relays that are
    /// not in the consensus.
    pub use_max_consensus_weight_churn: u64,
    /// Whether circuits through an overused relay are closed.
    pub close_circuits_on_overuse: bool,
}

pub fn default_use_global_start_count() -> (r: u32)
    ensures
        r == 1000,
{
    1000
}

pub fn default_use_scale_at_count() -> (r: u32)
    ensures
        r == 20000,
{
    20000
}

pub fn default_use_relay_start_count() -> (r: u32)
    ensures
        r == 100,
{
    100
}

pub fn default_use_max_use_to_bw_ratio() -> (r: u64)
    ensures
        r == 5 * FIXED_ONE,
{
    5 * FIXED_ONE
}

pub fn default_use_max_consensus_weight_churn() -> (r: u64)
    ensures
        r == FIXED_ONE,
{
    FIXED_ONE
}

pub fn default_close_circuits_on_overuse() -> (r: bool)
    ensures
        r,
{
    true
}

impl Default for RendguardConfig {
    fn default() -> (r: Self)
        ensures
            r == (RendguardConfig {
                use_global_start_count: 1000,
                use_scale_at_count: 20000,
                use_relay_start_count: 100,
                use_max_use_to_bw_ratio: (5 * FIXED_ONE) as u64,
                use_max_consensus_weight_churn: FIXED_ONE,
                close_circuits_on_overuse: true,
            }),
    {
        RendguardConfig {
            use_global_start_count: default_use_global_start_count(),
            use_scale_at_count: default_use_scale_at_count(),
            use_relay_start_count: default_use_relay_start_count(),
            use_max_use_to_bw_ratio: default_use_max_use_to_bw_ratio(),
            use_max_consensus_weight_churn: default_use_max_consensus_weight_churn(),
            close_circuits_on_overuse: default_close_circuits_on_overuse(),
        }
    }
}

/// Settings of the buffer of daemon log lines.
#[derive(Debug, Clone, PartialEq)]
pub struct LogguardConfig {
    /// Whether protocol warnings of the daemon are passed on.
    pub protocol_warns: bool,
    /// Most log lines kept.
    pub dump_limit: usize,
    /// Least severity of the log lines kept.
    pub dump_level: LogLevel,
}

pub fn default_protocol_warns() -> (r: bool)
    ensures
        r,
{
    true
}

pub fn default_dump_limit() -> (r: usize)
    ensures
        r == 25,
{
    25
}

impl Default for LogguardConfig {
    fn default() -> (r: Self)
        ensures
            r == (LogguardConfig {
                protocol_warns: true,
                dump_limit: 25,
                dump_level: LogLevel::Notice,
            }),
    {
        LogguardConfig {
            protocol_warns: default_protocol_warns(),
            dump_limit: default_dump_limit(),
            dump_level: LogLevel::Notice,
        }
    }
}

/// All settings.
#[derive(Debug, Clone, PartialEq)]
pub struct Config {
    /// Address of the daemon's control port.
    pub control_ip: String,
    /// Control port, if one is configured.
    pub control_port: Option<u16>,
    /// Path of the control socket, if one is configured.
    pub control_socket: Option<String>,
    /// Control password, if one is configured.
    pub control_pass: Option<String>,
    /// Path of the state file.
    pub state_file: String,
    /// Least severity that is logged.
    pub loglevel: LogLevel,
    /// Where log lines go; `None` is standard output.
    pub logfile: Option<String>,
    /// Most reconnection attempts; `None` is no limit.
    pub retry_limit: Option<u32>,
    /// Whether to leave after the guard layers have been set once.
    pub one_shot_vanguards: bool,
    /// Whether circuits that look attacked are closed.
    pub close_circuits: bool,
    /// Whether the guard layers are managed.
    pub enable_vanguards: bool,
    /// Whether the bandwidth monitor runs.
    pub enable_bandguards: bool,
    /// Whether the rendezvous-point monitor runs.
    pub enable_rendguard: bool,
    /// Whether daemon log lines are buffered.
    pub enable_logguard: bool,
    /// Whether build timeouts are checked.
    pub enable_cbtverify: bool,
    /// Whether circuit paths are checked.
    pub enable_pathverify: bool,
    /// Guard layer settings.
    pub vanguards: VanguardsConfig,
    /// Bandwidth monitor settings.
    pub bandguards: BandguardsConfig,
    /// Rendezvous-point monitor settings.
    pub rendguard: RendguardConfig,
    /// Log buffer settings.
    pub logguard: LogguardConfig,
}

pub fn default_control_ip() -> (r: String)
    ensures
        r@ == "127.0.0.1"@,
{
    String::from_str("127.0.0.1")
}

pub fn default_state_file() -> (r: String)
    ensures
        r@ == "vanguards.state"@,
{
    String::from_str("vanguards.state")
}

pub fn default_close_circuits() -> (r: bool)
    ensures
        r,
{
    true
}

pub fn default_enable_vanguards() -> (r: bool)
    ensures
        r,
{
    true
}

pub fn default_enable_bandguards() -> (r: bool)
    ensures
        r,
{
    true
}

pub fn default_enable_rendguard() -> (r: bool)
    ensures
        r,
{
    true
}

pub fn default_enable_logguard() -> (r: bool)
    ensures
        r,
{
    true
}

impl Default for Config {
    fn default() -> (r: Self)
        ensures
            r.control_ip@ == "127.0.0.1"@,
            r.control_port is None,
            r.control_socket is None,
            r.control_pass is None,
            r.state_file@ == "vanguards.state"@,
            r.loglevel == LogLevel::Notice,
            r.logfile is None,
            r.retry_limit is None,
            !r.one_shot_vanguards,
            r.close_circuits,
            r.enable_vanguards,
            r.enable_bandguards,
            r.enable_rendguard,
            r.enable_logguard,
            !r.enable_cbtverify,
            !r.enable_pathverify,
            r.vanguards.num_layer2_guards == 4,
            r.vanguards.num_layer3_guards == 8,
            r.spec_validate() is None,
    {
        Config {
            control_ip: default_control_ip(),
            control_port: None,
            control_socket: None,
            control_pass: None,
            state_file: default_state_file(),
            loglevel: LogLevel::default(),
            logfile: None,
            retry_limit: None,
            one_shot_vanguards: false,
            close_circuits: default_close_circuits(),
            enable_vanguards: default_enable_vanguards(),
            enable_bandguards: default_enable_bandguards(),
            enable_rendguard: default_enable_rendguard(),
            enable_logguard: default_enable_logguard(),
            enable_cbtverify: false,
            enable_pathverify: false,
            vanguards: VanguardsConfig::default(),
            bandguards: BandguardsConfig::default(),
            rendguard: RendguardConfig::default(),
            logguard: LogguardConfig::default(),
        }
    }
}

impl Config {
    /// The complaint about the first rule that the settings break, if any:
    /// each layer's shortest lifetime is at most its longest, and the
    /// tolerated use-to-bandwidth ratio is positive.
    pub open spec fn spec_validate(self) -> Option<Seq<char>> {
        if self.vanguards.min_layer2_lifetime_hours > self.vanguards.max_layer2_lifetime_hours {
            Some("min_layer2_lifetime_hours must be <= max_layer2_lifetime_hours"@)
        } else if self.vanguards.min_layer3_lifetime_hours
            > self.vanguards.max_layer3_lifetime_hours {
            Some("min_layer3_lifetime_hours must be <= max_layer3_lifetime_hours"@)
        } else if self.rendguard.use_max_use_to_bw_ratio == 0 {
            Some("use_max_use_to_bw_ratio must be positive"@)
        } else {
            None
        }
    }

    /// Checks the settings against the rules of `spec_validate` and reports
    /// the first broken one as a configuration error.
    pub fn validate(&self) -> (r: Result<(), Error>)
        ensures
            match r {
                Ok(_) => self.spec_validate() is None,
                Err(e) => (e matches Error::Config(m) && self.spec_validate() == Some(m@)),
            },
    {
        if self.vanguards.min_layer2_lifetime_hours > self.vanguards.max_layer2_lifetime_hours {
            return Err(
                Error::Config(
                    String::from_str(
                        "min_layer2_lifetime_hours must be <= max_layer2_lifetime_hours",
                    ),
                ),
            );
        }
        if self.vanguards.min_layer3_lifetime_hours > self.vanguards.max_layer3_lifetime_hours {
            return Err(
                Error::Config(
                    String::from_str(
                        "min_layer3_lifetime_hours must be <= max_layer3_lifetime_hours",
                    ),
                ),
            );
        }
        if self.rendguard.use_max_use_to_bw_ratio == 0 {
            return Err(Error::Config(String::from_str("use_max_use_to_bw_ratio must be positive")));
        }
        Ok(())
    }
}

/// What the command line can set. An absent value or an unset switch leaves
/// the setting as it is.
#[derive(Debug, Clone)]
pub struct CliArgs {
    /// Path of the state file.
    pub state_file: Option<String>,
    /// Where to write a default configuration file.
    pub generate_config: Option<String>,
    /// Name of the least severity that is logged.
    pub loglevel: Option<String>,
    /// Where log lines go.
    pub logfile: Option<String>,
    /// Path of the configuration file.
    pub config_file: String,
    /// Address of the daemon's control port.
    pub control_ip: Option<String>,
    /// Control port.
    pub control_port: Option<u16>,
    /// Path of the control socket.
    pub control_socket: Option<String>,
    /// Control password.
    pub control_pass: Option<String>,
    /// Most reconnection attempts.
    pub retry_limit: Option<u32>,
    /// Leave after the guard layers have been set once.
    pub one_shot_vanguards: bool,
    /// Do not manage the guard layers.
    pub disable_vanguards: bool,
    /// Do not run the bandwidth monitor.
    pub disable_bandguards: bool,
    /// Do not run the rendezvous-point monitor.
    pub disable_rendguard: bool,
    /// Do not buffer daemon log lines.
    pub disable_logguard: bool,
    /// Check build timeouts.
    pub enable_cbtverify: bool,
    /// Check circuit paths.
    pub enable_pathverify: bool,
}

impl CliArgs {
    /// The settings that result from laying the command line over `c`.
    pub open spec fn spec_apply(self, c: Config) -> Config {
        Config {
            state_file: match self.state_file {
                Some(s) => s,
                None => c.state_file,
            },
            loglevel: match self.loglevel {
                Some(name) => match spec_level_of(name@) {
                    Some(level) => level,
                    None => c.loglevel,
                },
                None => c.loglevel,
            },
            logfile: if self.logfile is Some {
                self.logfile
            } else {
                c.logfile
            },
            control_ip: match self.control_ip {
                Some(s) => s,
                None => c.control_ip,
            },
            control_port: if self.control_port is Some {
                self.control_port
            } else {
                c.control_port
            },
            control_socket: if self.control_socket is Some {
                self.control_socket
            } else {
                c.control_socket
            },
            control_pass: if self.control_pass is Some {
                self.control_pass
            } else {
                c.control_pass
            },
            retry_limit: if self.retry_limit is Some {
                self.retry_limit
            } else {
                c.retry_limit
            },
            one_shot_vanguards: c.one_shot_vanguards || self.one_shot_vanguards,
            enable_vanguards: c.enable_vanguards && !self.disable_vanguards,
            enable_bandguards: c.enable_bandguards && !self.disable_bandguards,
            enable_rendguard: c.enable_rendguard && !self.disable_rendguard,
            enable_logguard: c.enable_logguard && !self.disable_logguard,
            enable_cbtverify: c.enable_cbtverify || self.enable_cbtverify,
            enable_pathverify: c.enable_pathverify || self.enable_pathverify,
            ..c
        }
    }

    /// The settings after the file names and the log level were laid over `c`.
    pub open spec fn spec_apply_files(self, c: Config) -> Config {
        Config {
            state_file: match self.state_file {
                Some(s) => s,
                None => c.state_file,
            },
            loglevel: match self.loglevel {
                Some(name) => match spec_level_of(name@) {
                    Some(level) => level,
                    None => c.loglevel,
                },
                None => c.loglevel,
            },
            logfile: if self.logfile is Some {
                self.logfile
            } else {
                c.logfile
            },
            ..c
        }
    }

    /// The settings after the control channel's values were laid over `c`.
    pub open spec fn spec_apply_control(self, c: Config) -> Config {
        Config {
            control_ip: match self.control_ip {
                Some(s) => s,
                None => c.control_ip,
            },
            control_port: if self.control_port is Some {
                self.control_port
            } else {
                c.control_port
            },
            control_socket: if self.control_socket is Some {
                self.control_socket
            } else {
                c.control_socket
            },
            control_pass: if self.control_pass is Some {
                self.control_pass
            } else {
                c.control_pass
            },
            retry_limit: if self.retry_limit is Some {
                self.retry_limit
            } else {
                c.retry_limit
            },
            ..c
        }
    }

    /// The settings after the switches were laid over `c`.
    pub open spec fn spec_apply_switches(self, c: Config) -> Config {
        Config {
            one_shot_vanguards: c.one_shot_vanguards || self.one_shot_vanguards,
            enable_vanguards: c.enable_vanguards && !self.disable_vanguards,
            enable_bandguards: c.enable_bandguards && !self.disable_bandguards,
            enable_rendguard: c.enable_rendguard && !self.disable_rendguard,
            enable_logguard: c.enable_logguard && !self.disable_logguard,
            enable_cbtverify: c.enable_cbtverify || self.enable_cbtverify,
            enable_pathverify: c.enable_pathverify || self.enable_pathverify,
            ..c
        }
    }

    fn apply_files(&self, config: &mut Config)
        ensures
            *final(config) == self.spec_apply_files(*old(config)),
    {
        if let Some(state_file) = &self.state_file {
            config.state_file = state_file.clone();
        }
        if let Some(loglevel) = &self.loglevel {
            if let Ok(level) = LogLevel::from_name(loglevel.as_str()) {
                config.loglevel = level;
            }
        }
        if let Some(logfile) = &self.logfile {
            config.logfile = Some(logfile.clone());
        }
    }

    fn apply_control(&self, config: &mut Config)
        ensures
            *final(config) == self.spec_apply_control(*old(config)),
    {
        if let Some(control_ip) = &self.control_ip {
            config.control_ip = control_ip.clone();
        }
        if let Some(control_port) = self.control_port {
            config.control_port = Some(control_port);
        }
        if let Some(control_socket) = &self.control_socket {
            config.control_socket = Some(control_socket.clone());
        }
        if let Some(control_pass) = &self.control_pass {
            config.control_pass = Some(control_pass.clone());
        }
        if let Some(retry_limit) = self.retry_limit {
            config.retry_limit = Some(retry_limit);
        }
    }

    fn apply_switches(&self, config: &mut Config)
        ensures
            *final(config) == self.spec_apply_switches(*old(config)),
    {
        config.one_shot_vanguards = config.one_shot_vanguards || self.one_shot_vanguards;
        config.enable_vanguards = config.enable_vanguards && !self.disable_vanguards;
        config.enable_bandguards = config.enable_bandguards && !self.disable_bandguards;
        config.enable_rendguard = config.enable_rendguard && !self.disable_rendguard;
        config.enable_logguard = config.enable_logguard && !self.disable_logguard;
        config.enable_cbtverify = config.enable_cbtverify || self.enable_cbtverify;
        config.enable_pathverify = config.enable_pathverify || self.enable_pathverify;
    }

    /// Lays the command line over `config`: every value that is present
    /// replaces the setting, every switch that is set turns its feature on or
    /// off, and a log level that cannot be read is ignored.
    pub fn apply_to(&self, config: &mut Config)
        ensures
            *final(config) == self.spec_apply(*old(config)),
    {
        self.apply_files(config);
        self.apply_control(config);
        self.apply_switches(config);
    }
}

} // verus!
