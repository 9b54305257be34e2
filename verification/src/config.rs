//! Configuration model of the service: server, storage, defaults and hooks.
//!
//! Durations are held as whole nanoseconds (`u128`), which represents every
//! value of a standard duration exactly.
use vstd::prelude::*;

use crate::payload::PayloadSchema;

verus! {

/// The largest duration, in nanoseconds (`u64::MAX` seconds plus 999_999_999 ns).
pub const MAX_DURATION_NANOS: u128 = 18_446_744_073_709_551_615_999_999_999u128;

/// Nanoseconds in one second.
pub const NANOS_PER_SEC: u128 = 1_000_000_000u128;

/// Whether `d` is a valid duration in nanoseconds.
pub open spec fn valid_duration(d: u128) -> bool {
    d <= MAX_DURATION_NANOS
}

// --- Default values ---

/// Default bind address.
pub fn default_bind() -> (s: String)
    ensures
        s@ == "127.0.0.1"@,
{
    "127.0.0.1".to_owned()
}

/// Default port.
pub fn default_port() -> (p: u16)
    ensures
        p == 8080,
{
    8080
}

/// Default database path.
pub fn default_db_path() -> (s: String)
    ensures
        s@ == "data/sendword.db"@,
{
    "data/sendword.db".to_owned()
}

/// Default log directory.
pub fn default_logs_dir() -> (s: String)
    ensures
        s@ == "data/logs"@,
{
    "data/logs".to_owned()
}

/// Default retry backoff strategy.
pub fn default_backoff() -> (b: BackoffStrategy)
    ensures
        b == BackoffStrategy::Exponential,
{
    BackoffStrategy::Exponential
}

/// Default initial retry delay: one second.
pub fn default_initial_delay() -> (d: u128)
    ensures
        d == NANOS_PER_SEC,
{
    NANOS_PER_SEC
}

/// Default maximum retry delay: sixty seconds.
pub fn default_max_delay() -> (d: u128)
    ensures
        d == 60 * NANOS_PER_SEC,
{
    60 * NANOS_PER_SEC
}

/// Default rate limit: sixty executions per minute.
pub fn default_rate_limit() -> (r: RateLimitConfig)
    ensures
        r.max_per_minute == 60,
{
    RateLimitConfig { max_per_minute: 60 }
}

/// Default execution timeout: thirty seconds.
pub fn default_timeout() -> (d: u128)
    ensures
        d == 30 * NANOS_PER_SEC,
{
    30 * NANOS_PER_SEC
}

/// Default for flags that are on unless configured otherwise.
pub fn default_true() -> (b: bool)
    ensures
        b,
{
    true
}

// --- Config types ---

/// The whole application configuration.
#[derive(Debug)]
pub struct AppConfig {
    pub server: ServerConfig,
    pub database: DatabaseConfig,
    pub logs: LogsConfig,
    pub defaults: DefaultsConfig,
    pub hooks: Vec<HookConfig>,
}

impl Default for AppConfig {
    fn default() -> (c: Self)
        ensures
            c.server.bind@ == "127.0.0.1"@,
            c.server.port == 8080,
            c.database.path@ == "data/sendword.db"@,
            c.logs.dir@ == "data/logs"@,
            c.defaults.rate_limit.max_per_minute == 60,
            c.defaults.timeout == 30 * NANOS_PER_SEC,
            c.defaults.retries.count == 0,
            c.defaults.retries.backoff == BackoffStrategy::Exponential,
            c.defaults.retries.initial_delay == NANOS_PER_SEC,
            c.defaults.retries.max_delay == 60 * NANOS_PER_SEC,
            c.hooks@.len() == 0,
    {
        AppConfig {
            server: ServerConfig::default(),
            database: DatabaseConfig::default(),
            logs: LogsConfig::default(),
            defaults: DefaultsConfig::default(),
            hooks: Vec::new(),
        }
    }
}

/// Listening address of the HTTP server.
#[derive(Debug)]
pub struct ServerConfig {
    pub bind: String,
    pub port: u16,
}

impl Default for ServerConfig {
    fn default() -> (c: Self)
        ensures
            c.bind@ == "127.0.0.1"@,
            c.port == 8080,
    {
        ServerConfig { bind: default_bind(), port: default_port() }
    }
}

/// Location of the SQLite database.
#[derive(Debug)]
pub struct DatabaseConfig {
    pub path: String,
}

impl Default for DatabaseConfig {
    fn default() -> (c: Self)
        ensures
            c.path@ == "data/sendword.db"@,
    {
        DatabaseConfig { path: default_db_path() }
    }
}

/// Directory that holds the execution logs.
#[derive(Debug)]
pub struct LogsConfig {
    pub dir: String,
}

impl Default for LogsConfig {
    fn default() -> (c: Self)
        ensures
            c.dir@ == "data/logs"@,
    {
        LogsConfig { dir: default_logs_dir() }
    }
}

/// Per-minute execution limit.
#[derive(Clone, Copy, Debug)]
pub struct RateLimitConfig {
    pub max_per_minute: u32,
}

impl Default for RateLimitConfig {
    fn default() -> (c: Self)
        ensures
            c.max_per_minute == 60,
    {
        default_rate_limit()
    }
}

/// How the delay between retries grows.
#[derive(Clone, Copy, Debug, PartialEq, Eq, Structural)]
pub enum BackoffStrategy {
    /// No delay between attempts.
    NoDelay,
    Linear,
    Exponential,
}

impl Default for BackoffStrategy {
    fn default() -> (b: Self)
        ensures
            b == BackoffStrategy::Exponential,
    {
        default_backoff()
    }
}

/// Retry policy for failed executions.
#[derive(Clone, Copy, Debug)]
pub struct RetryConfig {
    pub count: u32,
    pub backoff: BackoffStrategy,
    /// Delay before the first retry, in nanoseconds.
    pub initial_delay: u128,
    /// Upper bound of any retry delay, in nanoseconds.
    pub max_delay: u128,
}

impl Default for RetryConfig {
    fn default() -> (c: Self)
        ensures
            c.count == 0,
            c.backoff == BackoffStrategy::Exponential,
            c.initial_delay == NANOS_PER_SEC,
            c.max_delay == 60 * NANOS_PER_SEC,
    {
        RetryConfig {
            count: 0,
            backoff: default_backoff(),
            initial_delay: default_initial_delay(),
            max_delay: default_max_delay(),
        }
    }
}

/// Global defaults applied to hooks that do not override them.
#[derive(Clone, Copy, Debug)]
pub struct DefaultsConfig {
    pub rate_limit: RateLimitConfig,
    /// Execution timeout, in nanoseconds.
    pub timeout: u128,
    pub retries: RetryConfig,
}

impl Default for DefaultsConfig {
    fn default() -> (c: Self)
        ensures
            c.rate_limit.max_per_minute == 60,
            c.timeout == 30 * NANOS_PER_SEC,
            c.retries.count == 0,
            c.retries.backoff == BackoffStrategy::Exponential,
            c.retries.initial_delay == NANOS_PER_SEC,
            c.retries.max_delay == 60 * NANOS_PER_SEC,
    {
        DefaultsConfig {
            rate_limit: default_rate_limit(),
            timeout: default_timeout(),
            retries: RetryConfig::default(),
        }
    }
}

/// HTTP method of an HTTP executor.
#[derive(Clone, Copy, Debug, PartialEq, Eq, Structural)]
pub enum HttpMethod {
    Get,
    Post,
    Put,
    Patch,
    Delete,
}

/// What a hook runs.
#[derive(Debug)]
pub enum ExecutorConfig {
    Shell { command: String },
    Script { path: String },
    Http {
        method: HttpMethod,
        url: String,
        headers: Vec<(String, String)>,
        body: Option<String>,
        follow_redirects: bool,
    },
}

/// HMAC digest used to sign webhook bodies.
#[derive(Clone, Copy, Debug, PartialEq, Eq, Structural)]
pub enum HmacAlgorithm {
    Sha256,
}

/// How an incoming webhook authenticates.
#[derive(Debug)]
pub enum HookAuthConfig {
    /// Open access: no authentication.
    Open,
    Bearer { token: String },
    Hmac { header: String, algorithm: HmacAlgorithm, secret: String },
}

/// Comparison applied by a payload filter.
#[derive(Clone, Copy, Debug, PartialEq, Eq, Structural)]
pub enum FilterOperator {
    Equals,
    NotEquals,
    Contains,
    Regex,
    Exists,
    Gt,
    Lt,
    Gte,
    Lte,
}

/// A condition on one payload field.
#[derive(Debug)]
pub struct PayloadFilter {
    pub field: String,
    pub operator: FilterOperator,
    pub value: Option<String>,
}

/// A weekly window (days and `HH:MM` bounds) during which a hook may fire.
#[derive(Debug)]
pub struct TimeWindow {
    pub days: Vec<String>,
    pub start_time: String,
    pub end_time: String,
}

/// Limit on triggers per fixed window.
#[derive(Clone, Copy, Debug)]
pub struct TriggerRateLimit {
    pub max_requests: u64,
    /// Window length, in nanoseconds.
    pub window: u128,
}

/// Conditions checked before a trigger creates an execution.
#[derive(Debug)]
pub struct TriggerRules {
    pub payload_filters: Option<Vec<PayloadFilter>>,
    pub time_windows: Option<Vec<TimeWindow>>,
    /// Minimum time between executions, in nanoseconds.
    pub cooldown: Option<u128>,
    pub rate_limit: Option<TriggerRateLimit>,
}

/// What happens when an execution is already running.
#[derive(Clone, Copy, Debug, PartialEq, Eq, Structural)]
pub enum ConcurrencyMode {
    Mutex,
    Queue,
}

/// Concurrency barrier of a hook.
#[derive(Clone, Copy, Debug)]
pub struct ConcurrencyConfig {
    pub mode: ConcurrencyMode,
    pub queue_depth: u32,
}

/// Approval barrier of a hook.
#[derive(Clone, Copy, Debug)]
pub struct ApprovalConfig {
    pub required: bool,
    /// Time after which a pending approval expires, in nanoseconds.
    pub timeout: Option<u128>,
}

/// Outcomes that can trigger a notification.
#[derive(Clone, Copy, Debug, PartialEq, Eq, Structural)]
pub enum NotifyOutcome {
    Success,
    Failure,
    Timeout,
}

/// Completion notification of a hook.
#[derive(Debug)]
pub struct NotificationConfig {
    pub url: String,
    pub on: Vec<NotifyOutcome>,
    pub body: String,
    pub headers: Vec<(String, String)>,
}

/// One configured webhook.
#[derive(Debug)]
pub struct HookConfig {
    pub name: String,
    pub slug: String,
    pub description: String,
    pub enabled: bool,
    pub auth: Option<HookAuthConfig>,
    pub executor: ExecutorConfig,
    pub env: Vec<(String, String)>,
    pub cwd: Option<String>,
    /// Execution timeout, in nanoseconds.
    pub timeout: Option<u128>,
    pub retries: Option<RetryConfig>,
    pub rate_limit: Option<RateLimitConfig>,
    pub payload: Option<PayloadSchema>,
    pub trigger_rules: Option<TriggerRules>,
    pub concurrency: Option<ConcurrencyConfig>,
    pub approval: Option<ApprovalConfig>,
    pub notification: Option<NotificationConfig>,
}

/// How many backups, and how old, are kept.
#[derive(Clone, Copy, Debug)]
pub struct RetentionConfig {
    /// Keep at most this many backups, the newest ones.
    pub max_count: Option<u32>,
    /// Delete backups older than this, in nanoseconds.
    pub max_age: Option<u128>,
}

/// Off-site backups to an S3-compatible object store.
#[derive(Clone, Debug)]
pub struct BackupConfig {
    pub bucket: String,
    /// Region name; empty for the default.
    pub region: String,
    /// Endpoint of an S3-compatible store; empty for AWS itself.
    pub endpoint: String,
    pub access_key: String,
    pub secret_key: String,
    /// Key prefix under which backups are stored; empty for none.
    pub prefix: String,
    /// Cron expression for scheduled backups.
    pub schedule: Option<String>,
    pub retention: RetentionConfig,
}

/// The value of `key` in an environment given as `(name, value)` pairs:
/// the first pair with that name.
pub open spec fn env_lookup(env: Seq<(String, String)>, key: Seq<char>) -> Option<Seq<char>>
    decreases env.len(),
{
    if env.len() == 0 {
        None
    } else if env[0].0@ == key {
        Some(env[0].1@)
    } else {
        env_lookup(env.drop_first(), key)
    }
}

/// Looks `key` up in an environment given as `(name, value)` pairs.
pub fn lookup_env(env: &[(String, String)], key: &str) -> (r: Option<String>)
    ensures
        r matches Some(v) ==> env_lookup(env@, key@) == Some(v@),
        r is None ==> env_lookup(env@, key@) is None,
{
    let mut i: usize = 0;
    assert(env@.skip(0) == env@);
    while i < env.len()
        invariant
            i <= env@.len(),
            env_lookup(env@, key@) == env_lookup(env@.skip(i as int), key@),
        decreases env@.len() - i,
    {
        assert(env@.skip(i as int).drop_first() == env@.skip(i + 1));
        if crate::models::same_text(env[i].0.as_str(), key) {
            return Some(env[i].1.clone());
        }
        i = i + 1;
    }
    None
}

} // verus!
