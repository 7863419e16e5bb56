//! Application settings, their defaults, the choice of file format by
//! extension, and the once-only global slot.
use vstd::prelude::*;
use vstd::string::*;

use crate::text::same_text;

verus! {

/// The whole application configuration.
#[derive(Debug, Clone)]
pub struct AppConfig {
    pub network: NetworkConfig,
    pub logging: LoggingConfig,
    pub runtime: RuntimeConfig,
    pub tokens: TokenConfig,
    pub dex: DexConfig,
    pub monitoring: MonitoringConfig,
    pub services: ServicesConfig,
}

/// The chain and its RPC endpoints.
#[derive(Debug, Clone)]
pub struct NetworkConfig {
    pub chain_id: u64,
    pub ws_endpoint: String,
    pub http_endpoint: String,
    pub event_backfill_blocks: u64,
    pub ws_retry_secs: u64,
    pub backfill_chunk_size: u64,
}

/// Log level, directory, rotation size and retention.
#[derive(Debug, Clone)]
pub struct LoggingConfig {
    pub config_file: Option<String>,
    pub level: String,
    pub directory: String,
    pub max_size_mb: u64,
    pub retention_hours: u64,
}

/// Concurrency, snapshot directory and the HTTP bind address.
#[derive(Debug, Clone)]
pub struct RuntimeConfig {
    pub max_concurrency: usize,
    pub snapshot_path: String,
    pub http_bind: String,
}

/// The token whitelist, as address texts.
#[derive(Debug, Clone)]
pub struct TokenConfig {
    pub whitelist: Option<Vec<String>>,
}

impl Default for TokenConfig {
    fn default() -> (r: TokenConfig)
        ensures
            r.whitelist is None,
    {
        TokenConfig { whitelist: None }
    }
}

/// The bootstrap files of the DEX handlers.
#[derive(Debug, Clone)]
pub struct DexConfig {
    pub pancake_v2_bootstrap: Option<String>,
    pub pancake_v3_bootstrap: Option<String>,
}

impl Default for DexConfig {
    fn default() -> (r: DexConfig)
        ensures
            r.pancake_v2_bootstrap is None,
            r.pancake_v3_bootstrap is None,
    {
        DexConfig { pancake_v2_bootstrap: None, pancake_v3_bootstrap: None }
    }
}

/// Event delay warnings and statistics intervals.
#[derive(Debug, Clone)]
pub struct MonitoringConfig {
    pub event_delay_warn_ms: u64,
    pub event_stats_interval: u64,
}

impl Default for MonitoringConfig {
    fn default() -> (r: MonitoringConfig)
        ensures
            r.event_delay_warn_ms == 5000,
            r.event_stats_interval == 100,
    {
        MonitoringConfig {
            event_delay_warn_ms: default_warn_delay_ms(),
            event_stats_interval: default_stats_interval(),
        }
    }
}

pub fn default_warn_delay_ms() -> (r: u64)
    ensures
        r == 5000,
{
    5_000
}

pub fn default_stats_interval() -> (r: u64)
    ensures
        r == 100,
{
    100
}

pub fn default_ws_retry_secs() -> (r: u64)
    ensures
        r == 5,
{
    5
}

pub fn default_backfill_chunk_size() -> (r: u64)
    ensures
        r == 500,
{
    500
}

pub fn default_http_bind() -> (r: String)
    ensures
        r@ == "127.0.0.1:8080"@,
{
    String::from_str("127.0.0.1:8080")
}

pub fn default_log_level() -> (r: String)
    ensures
        r@ == "info"@,
{
    String::from_str("info")
}

pub fn default_log_directory() -> (r: String)
    ensures
        r@ == "logs"@,
{
    String::from_str("logs")
}

pub fn default_log_size_mb() -> (r: u64)
    ensures
        r == 100,
{
    100
}

pub fn default_log_retention_hours() -> (r: u64)
    ensures
        r == 24,
{
    24
}

pub fn default_disabled() -> (r: bool)
    ensures
        r == false,
{
    false
}

/// Which services run.
#[derive(Debug, Clone)]
pub struct ServicesConfig {
    pub listener: ListenerServiceConfig,
    pub http: HttpServiceConfig,
    pub metrics: ServiceToggle,
}

impl Default for ServicesConfig {
    fn default() -> (r: ServicesConfig)
        ensures
            !r.listener.enabled && r.listener.sample_events == 0,
            !r.http.enabled,
            !r.metrics.enabled,
    {
        ServicesConfig {
            listener: ListenerServiceConfig::default(),
            http: HttpServiceConfig::default(),
            metrics: ServiceToggle::default(),
        }
    }
}

/// The event listener service.
#[derive(Debug, Clone)]
pub struct ListenerServiceConfig {
    pub enabled: bool,
    pub sample_events: u64,
}

impl Default for ListenerServiceConfig {
    fn default() -> (r: ListenerServiceConfig)
        ensures
            !r.enabled,
            r.sample_events == 0,
    {
        ListenerServiceConfig { enabled: default_disabled(), sample_events: 0 }
    }
}

/// The HTTP service.
#[derive(Debug, Clone)]
pub struct HttpServiceConfig {
    pub enabled: bool,
}

impl Default for HttpServiceConfig {
    fn default() -> (r: HttpServiceConfig)
        ensures
            !r.enabled,
    {
        HttpServiceConfig { enabled: default_disabled() }
    }
}

/// A service that is on or off.
#[derive(Debug, Clone)]
pub struct ServiceToggle {
    pub enabled: bool,
}

impl Default for ServiceToggle {
    fn default() -> (r: ServiceToggle)
        ensures
            !r.enabled,
    {
        ServiceToggle { enabled: default_disabled() }
    }
}

/// The format a configuration file is read in.
#[derive(Debug, Clone, Copy, PartialEq, Eq, Structural)]
pub enum ConfigFormat {
    Yaml,
    Json,
    Toml,
    /// Left to the reader to guess from the file.
    Guess,
}

/// The format by file extension: `yaml`/`yml`, `json`, `toml`/`conf`;
/// anything else, or no extension, is guessed.
pub open spec fn format_spec(extension: Option<Seq<char>>) -> ConfigFormat {
    match extension {
        Some(e) => if e == "yaml"@ || e == "yml"@ {
            ConfigFormat::Yaml
        } else if e == "json"@ {
            ConfigFormat::Json
        } else if e == "toml"@ || e == "conf"@ {
            ConfigFormat::Toml
        } else {
            ConfigFormat::Guess
        },
        None => ConfigFormat::Guess,
    }
}

/// The format a configuration file with this extension is read in.
pub fn config_format(extension: Option<&str>) -> (r: ConfigFormat)
    ensures
        r == format_spec(
            match extension {
                Some(e) => Some(e@),
                None => None,
            },
        ),
{
    match extension {
        Some(e) => if same_text(e, "yaml") || same_text(e, "yml") {
            ConfigFormat::Yaml
        } else if same_text(e, "json") {
            ConfigFormat::Json
        } else if same_text(e, "toml") || same_text(e, "conf") {
            ConfigFormat::Toml
        } else {
            ConfigFormat::Guess
        },
        None => ConfigFormat::Guess,
    }
}

/// Errors of the global configuration.
#[derive(Debug, PartialEq, Eq, Structural)]
pub enum AppConfigError {
    AlreadyInitialized,
    Uninitialized,
}

impl AppConfigError {
    /// The error's message.
    pub fn message(&self) -> (r: String)
        ensures
            r@ == match self {
                AppConfigError::AlreadyInitialized => "配置已初始化"@,
                AppConfigError::Uninitialized => "配置尚未初始化"@,
            },
    {
        match self {
            AppConfigError::AlreadyInitialized => String::from_str("配置已初始化"),
            AppConfigError::Uninitialized => String::from_str("配置尚未初始化"),
        }
    }
}

/// The slot after an initialisation: the first value set stays.
pub open spec fn after_init(slot: Option<AppConfig>, config: AppConfig) -> Option<AppConfig> {
    match slot {
        Some(c) => Some(c),
        None => Some(config),
    }
}

/// Sets the global configuration; only the first call takes effect, later
/// ones fail with `AlreadyInitialized`.
pub fn init_global_config(slot: &mut Option<AppConfig>, config: AppConfig) -> (r: Result<(), AppConfigError>)
    ensures
        *final(slot) == after_init(*old(slot), config),
        *old(slot) is None ==> r is Ok,
        *old(slot) is Some ==> r == Err::<(), AppConfigError>(AppConfigError::AlreadyInitialized),
{
    if slot.is_some() {
        return Err(AppConfigError::AlreadyInitialized);
    }
    *slot = Some(config);
    Ok(())
}

/// The global configuration, once it is set.
pub fn get_config(slot: &Option<AppConfig>) -> (r: Result<&AppConfig, AppConfigError>)
    ensures
        match *slot {
            Some(c) => r matches Ok(v) && *v == c,
            None => r == Err::<&AppConfig, AppConfigError>(AppConfigError::Uninitialized),
        },
{
    match slot {
        Some(c) => Ok(c),
        None => Err(AppConfigError::Uninitialized),
    }
}

/// The global configuration is set once: after a first initialisation a
/// second one changes nothing, so a read gives back the first value.
pub proof fn lemma_config_set_once(first: AppConfig, second: AppConfig)
    ensures
        after_init(after_init(None, first), second) == Some(first),
{
}

} // verus!
