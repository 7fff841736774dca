//! Configuration model: polling interval, server descriptor, CORS policy,
//! recognized user logins and the disk-quota mode, with validation.

use vstd::prelude::*;
use crate::text::lower_of;
use crate::text::lowercase;
use crate::text::str_eq;

verus! {

/// How the disk quota is acquired each cycle: fixed figures from the
/// configuration, or the stdout of an external sampling command.
#[derive(Debug)]
pub enum DiskConfig {
    Fixed { offset: u64, capacity: u64, soft_threshold: u64, hard_threshold: u64 },
    Command { command: String },
}

/// The CORS policy the presentation layer applies.
#[derive(Debug)]
pub enum Cors {
    AllowAny,
    Whitelist { whitelist: Vec<String> },
}

/// One recognized user login, used for owner attribution.
#[derive(Debug)]
pub struct UserConfig {
    pub login: String,
}

impl UserConfig {
    pub fn new(login: &str) -> (u: UserConfig)
        ensures
            u.login@ == login@,
    {
        UserConfig { login: login.to_owned() }
    }

    pub fn login(&self) -> (r: &str)
        ensures
            r@ == self.login@,
    {
        self.login.as_str()
    }
}

/// The target server: address, credentials, the names of service databases
/// and the disk-quota mode.
#[derive(Debug)]
pub struct ServerConfig {
    pub host: String,
    pub port: u16,
    pub role: String,
    pub password: String,
    pub service_databases: Vec<String>,
    pub disk: DiskConfig,
}

impl ServerConfig {
    pub fn new(
        host: String,
        port: u16,
        role: String,
        password: String,
        service_databases: Vec<String>,
        disk: DiskConfig,
    ) -> (c: ServerConfig)
        ensures
            c == (ServerConfig { host, port, role, password, service_databases, disk }),
    {
        ServerConfig { host, port, role, password, service_databases, disk }
    }

    pub fn disk(&self) -> (r: &DiskConfig)
        ensures
            r == &self.disk,
    {
        &self.disk
    }

    pub fn host(&self) -> (r: &str)
        ensures
            r@ == self.host@,
    {
        self.host.as_str()
    }

    pub fn port(&self) -> (r: u16)
        ensures
            r == self.port,
    {
        self.port
    }

    pub fn role(&self) -> (r: &str)
        ensures
            r@ == self.role@,
    {
        self.role.as_str()
    }

    pub fn password(&self) -> (r: &str)
        ensures
            r@ == self.password@,
    {
        self.password.as_str()
    }

    pub fn service_databases(&self) -> (r: &Vec<String>)
        ensures
            r == &self.service_databases,
    {
        &self.service_databases
    }
}

/// The whole configuration consumed by the core.
#[derive(Debug)]
pub struct Config {
    pub update_interval: u64,
    pub server: ServerConfig,
    pub cors: Option<Cors>,
    pub users: Vec<UserConfig>,
}

impl Config {
    pub fn new(update_interval: u64, server: ServerConfig, cors: Option<Cors>, users: Vec<
        UserConfig,
    >) -> (c: Config)
        ensures
            c == (Config { update_interval, server, cors, users }),
    {
        Config { update_interval, server, cors, users }
    }

    pub fn update_interval(&self) -> (r: u64)
        ensures
            r == self.update_interval,
    {
        self.update_interval
    }

    pub fn server(&self) -> (r: &ServerConfig)
        ensures
            r == &self.server,
    {
        &self.server
    }

    pub fn cors(&self) -> (r: Option<&Cors>)
        ensures
            r.is_some() == self.cors.is_some(),
            r matches Some(c) ==> self.cors matches Some(d) && c == &d,
    {
        self.cors.as_ref()
    }

    pub fn users(&self) -> (r: &Vec<UserConfig>)
        ensures
            r == &self.users,
    {
        &self.users
    }
}

/// Why a configuration was rejected, or why it could not be loaded.
#[derive(Debug)]
pub enum ConfigError {
    /// The configuration file could not be read.
    Io { message: String },
    /// The configuration file could not be decoded.
    Format { message: String },
    /// A numeric field that must be positive was zero; `field` names it.
    NotPositive { field: String },
    /// Two user entries share the same lowercase login; `login` is the later
    /// entry's login as configured.
    DuplicateLogin { login: String },
}

/// The human-readable description of a configuration error.
pub open spec fn config_error_message(e: ConfigError) -> Seq<char> {
    match e {
        ConfigError::Io { message } => message@,
        ConfigError::Format { message } => message@,
        ConfigError::NotPositive { field } => field@ + " must be greater than zero, but 0 given"@,
        ConfigError::DuplicateLogin { login } => "user list contains duplicate login "@ + login@,
    }
}

impl ConfigError {
    pub fn io_error(message: &str) -> (e: ConfigError)
        ensures
            e matches ConfigError::Io { message: m } && m@ == message@,
    {
        ConfigError::Io { message: message.to_owned() }
    }

    pub fn format_error(message: &str) -> (e: ConfigError)
        ensures
            e matches ConfigError::Format { message: m } && m@ == message@,
    {
        ConfigError::Format { message: message.to_owned() }
    }

    pub fn message(&self) -> (r: String)
        ensures
            r@ == config_error_message(*self),
    {
        match self {
            ConfigError::Io { message } => message.clone(),
            ConfigError::Format { message } => message.clone(),
            ConfigError::NotPositive { field } => field.clone().concat(
                " must be greater than zero, but 0 given",
            ),
            ConfigError::DuplicateLogin { login } => String::from_str(
                "user list contains duplicate login ",
            ).concat(login.as_str()),
        }
    }
}

pub type ConfigResult<T> = Result<T, ConfigError>;

/// Entry `j` repeats the lowercase login of some earlier entry.
pub open spec fn repeats_earlier_login(users: Seq<UserConfig>, j: int) -> bool {
    exists|i: int| 0 <= i < j && #[trigger] lower_of(users[i].login@) == lower_of(users[j].login@)
}

/// The fixed disk figures, if that mode is configured, are all positive.
pub open spec fn disk_config_valid(disk: DiskConfig) -> bool {
    match disk {
        DiskConfig::Fixed { offset, capacity, soft_threshold, hard_threshold } => capacity > 0
            && soft_threshold > 0 && hard_threshold > 0,
        DiskConfig::Command { .. } => true,
    }
}

/// Everything `validate` checks: a positive interval, positive fixed disk
/// figures, and pairwise distinct lowercase logins.
pub open spec fn config_valid(c: Config) -> bool {
    &&& c.update_interval > 0
    &&& disk_config_valid(c.server.disk)
    &&& forall|j: int| 0 <= j < c.users.len() ==> !repeats_earlier_login(c.users@, j)
}

/// Rejects a zero value for the named field.
pub fn validate_number(value: u64, name: &str) -> (r: ConfigResult<()>)
    ensures
        r.is_ok() <==> value > 0,
        r matches Err(e) ==> e matches ConfigError::NotPositive { field } && field@ == name@,
{
    if value > 0 {
        Ok(())
    } else {
        Err(ConfigError::NotPositive { field: name.to_owned() })
    }
}

/// Checks a configuration: the polling interval must be positive; with the
/// fixed disk mode, capacity and both thresholds must be positive; no two
/// user entries may share a lowercase login. The checks run in that order
/// and the first failure is returned.
pub fn validate(config: &Config) -> (r: ConfigResult<()>)
    ensures
        r.is_ok() <==> config_valid(*config),
        r matches Err(e) ==> match e {
            ConfigError::NotPositive { field } => {
                ||| field@ == "update_interval"@ && config.update_interval == 0
                ||| config.update_interval > 0 && (config.server.disk matches DiskConfig::Fixed {
                    capacity,
                    soft_threshold,
                    hard_threshold,
                    ..
                } && {
                    ||| field@ == "capacity"@ && capacity == 0
                    ||| field@ == "soft_threshold"@ && capacity > 0 && soft_threshold == 0
                    ||| field@ == "hard_threshold"@ && capacity > 0 && soft_threshold > 0
                        && hard_threshold == 0
                })
            },
            ConfigError::DuplicateLogin { login } => {
                &&& config.update_interval > 0
                &&& disk_config_valid(config.server.disk)
                &&& exists|j: int|
                    0 <= j < config.users.len() && #[trigger] repeats_earlier_login(
                        config.users@,
                        j,
                    ) && login@ == config.users@[j].login@ && (forall|t: int|
                        0 <= t < j ==> !repeats_earlier_login(config.users@, t))
            },
            _ => false,
        },
{
    validate_number(config.update_interval(), "update_interval")?;

    match config.server().disk() {
        DiskConfig::Fixed { capacity, soft_threshold, hard_threshold, .. } => {
            validate_number(*capacity, "capacity")?;
            validate_number(*soft_threshold, "soft_threshold")?;
            validate_number(*hard_threshold, "hard_threshold")?;
        },
        DiskConfig::Command { .. } => {},
    }

    let n = config.users.len();
    let mut lowers: Vec<String> = Vec::new();
    let mut j: usize = 0;
    while j < n
        invariant
            0 <= j <= n,
            n == config.users.len(),
            config.update_interval > 0,
            disk_config_valid(config.server.disk),
            lowers@.len() == j,
            forall|t: int| 0 <= t < j ==> #[trigger] lowers@[t]@ == lower_of(
                config.users@[t].login@,
            ),
            forall|t: int| 0 <= t < j ==> !repeats_earlier_login(config.users@, t),
        decreases n - j,
    {
        let low = lowercase(config.users[j].login());
        let mut i: usize = 0;
        while i < j
            invariant
                0 <= i <= j < n,
                n == config.users.len(),
                config.update_interval > 0,
                disk_config_valid(config.server.disk),
                lowers@.len() == j,
                low@ == lower_of(config.users@[j as int].login@),
                forall|t: int| 0 <= t < j ==> #[trigger] lowers@[t]@ == lower_of(
                    config.users@[t].login@,
                ),
                forall|t: int| 0 <= t < j ==> !repeats_earlier_login(config.users@, t),
                forall|t: int|
                    0 <= t < i ==> lower_of(#[trigger] config.users@[t].login@) != lower_of(
                        config.users@[j as int].login@,
                    ),
            decreases j - i,
        {
            if str_eq(lowers[i].as_str(), low.as_str()) {
                proof {
                    assert(repeats_earlier_login(config.users@, j as int));
                }
                return Err(ConfigError::DuplicateLogin {
                    login: config.users[j].login().to_owned(),
                });
            }
            i += 1;
        }
        proof {
            assert(!repeats_earlier_login(config.users@, j as int));
        }
        lowers.push(low);
        j += 1;
    }

    Ok(())
}

} // verus!
