//! The configuration model and its defaults.

use vstd::prelude::*;
use vstd::string::StringExecFns;

use crate::text::{
    decimal, decimal_text, text_eq, trim_trailing_slashes, without_trailing_slashes,
};

verus! {

/// Where the proxy listens, and how large an inbound body may be.
pub struct ServerConfig {
    pub host: String,
    pub port: u16,
    pub max_body_size: usize,
}

/// One upstream: its URL, whether the client's credentials are kept from
/// it, the key to send instead, and whether token counts are answered for it.
pub struct ProviderConfig {
    pub url: String,
    pub strip_auth: bool,
    pub api_key: Option<String>,
    pub stub_count_tokens: bool,
}

/// One route element: a pattern for the model, a name and a description for
/// the classifier, the provider, and the model to put in the body.
pub struct RouteConfig {
    pub pattern: Option<String>,
    pub name: Option<String>,
    pub description: Option<String>,
    pub provider: String,
    pub model: Option<String>,
}

/// The provider of requests that no route takes.
pub struct DefaultRoute {
    pub provider: String,
}

/// The classifier: whether it is asked, where, with which model, and for
/// how long an answer is waited for.
pub struct AutoRouterConfig {
    pub enabled: bool,
    pub url: String,
    pub model: String,
    pub timeout_ms: u64,
}

/// The metrics log: whether it is written, where, and when and how far it
/// rotates.
pub struct MetricsLogConfig {
    pub enabled: bool,
    pub path: String,
    pub max_size_mb: u64,
    pub max_files: u32,
}

/// What is logged to files.
pub struct LoggingConfig {
    pub metrics: MetricsLogConfig,
}

/// How long records are kept.
pub struct RetentionConfig {
    pub enabled: bool,
    pub minutes: u64,
}

/// The whole configuration. `providers` pairs each provider's name with its
/// settings and stands for a mapping: in a valid configuration (`wf`) no
/// name is given twice. A name is looked up from the front.
pub struct Config {
    pub server: ServerConfig,
    pub providers: Vec<(String, ProviderConfig)>,
    pub routes: Vec<RouteConfig>,
    pub default: DefaultRoute,
    pub auto_router: AutoRouterConfig,
    pub logging: LoggingConfig,
    pub retention: RetentionConfig,
}

/// Records are dropped after the retention time unless configured otherwise.
pub fn default_retention_enabled() -> (enabled: bool)
    ensures
        enabled,
{
    true
}

/// Records are kept for an hour.
pub fn default_retention_minutes() -> (minutes: u64)
    ensures
        minutes == 60,
{
    60
}

/// The log rotates at 50 MiB.
pub fn default_max_size_mb() -> (size: u64)
    ensures
        size == 50,
{
    50
}

/// Five rotated files are kept.
pub fn default_max_files() -> (files: u32)
    ensures
        files == 5,
{
    5
}

/// The proxy listens on the loopback address.
pub fn default_host() -> (host: String)
    ensures
        host@ == "127.0.0.1"@,
{
    "127.0.0.1".to_owned()
}

/// The proxy listens on port 3100.
pub fn default_port() -> (port: u16)
    ensures
        port == 3100,
{
    3100
}

/// An inbound body may have 10 MiB.
pub fn default_max_body_size() -> (size: usize)
    ensures
        size == 10 * 1024 * 1024,
{
    10 * 1024 * 1024
}

/// The name of the default provider.
pub fn default_provider() -> (provider: String)
    ensures
        provider@ == "anthropic"@,
{
    "anthropic".to_owned()
}

/// The classifier is given two seconds.
pub fn default_timeout_ms() -> (timeout: u64)
    ensures
        timeout == 2000,
{
    2000
}

/// The directory of the proxy's own files under the home directory `home`.
pub open spec fn config_dir_text(home: Seq<char>) -> Seq<char> {
    without_trailing_slashes(home) + "/.config/croxy"@
}

/// The directory of the proxy's own files under the home directory `home`.
pub fn config_dir(home: &str) -> (dir: String)
    ensures
        dir@ == config_dir_text(home@),
{
    let mut dir = trim_trailing_slashes(home).to_owned();
    dir.append("/.config/croxy");
    dir
}

/// The configuration file under the home directory `home`.
pub fn default_config_path(home: &str) -> (path: String)
    ensures
        path@ == config_dir_text(home@) + "/config.toml"@,
{
    let mut path = config_dir(home);
    path.append("/config.toml");
    path
}

/// The file that holds the process id of a detached instance.
pub fn pid_path(home: &str) -> (path: String)
    ensures
        path@ == config_dir_text(home@) + "/croxy.pid"@,
{
    let mut path = config_dir(home);
    path.append("/croxy.pid");
    path
}

/// The file that a detached instance writes its messages to.
pub fn log_path(home: &str) -> (path: String)
    ensures
        path@ == config_dir_text(home@) + "/croxy.log"@,
{
    let mut path = config_dir(home);
    path.append("/croxy.log");
    path
}

/// Where the metrics log lies by default: under the home directory, or under
/// `/tmp` where there is none.
pub fn default_metrics_log_path(home: Option<&str>) -> (path: String)
    ensures
        path@ == match home {
            Some(dir) => config_dir_text(dir@) + "/logs/metrics.jsonl"@,
            None => "/tmp/croxy/logs/metrics.jsonl"@,
        },
{
    match home {
        Some(dir) => {
            let mut path = config_dir(dir);
            path.append("/logs/metrics.jsonl");
            path
        },
        None => "/tmp/croxy/logs/metrics.jsonl".to_owned(),
    }
}

/// The name of the `index`-th rotated file of the log at `base`: `base`, a
/// dot and the index.
pub fn rotated_path(base: &str, index: u32) -> (path: String)
    ensures
        path@ == base@ + "."@ + decimal_text(index as nat),
{
    let mut path = base.to_owned();
    path.append(".");
    path.append(decimal(index as u64).as_str());
    path
}

impl Default for RetentionConfig {
    fn default() -> (config: Self)
        ensures
            config.enabled,
            config.minutes == 60,
    {
        RetentionConfig { enabled: default_retention_enabled(), minutes: default_retention_minutes() }
    }
}

impl Default for MetricsLogConfig {
    fn default() -> (config: Self)
        ensures
            !config.enabled,
            config.path@ == "/tmp/croxy/logs/metrics.jsonl"@,
            config.max_size_mb == 50,
            config.max_files == 5,
    {
        MetricsLogConfig {
            enabled: false,
            path: default_metrics_log_path(None),
            max_size_mb: default_max_size_mb(),
            max_files: default_max_files(),
        }
    }
}

impl Default for LoggingConfig {
    fn default() -> (config: Self)
        ensures
            !config.metrics.enabled,
            config.metrics.path@ == "/tmp/croxy/logs/metrics.jsonl"@,
            config.metrics.max_size_mb == 50,
            config.metrics.max_files == 5,
    {
        LoggingConfig { metrics: MetricsLogConfig::default() }
    }
}

impl Default for ServerConfig {
    fn default() -> (config: Self)
        ensures
            config.host@ == "127.0.0.1"@,
            config.port == 3100,
            config.max_body_size == 10 * 1024 * 1024,
    {
        ServerConfig {
            host: default_host(),
            port: default_port(),
            max_body_size: default_max_body_size(),
        }
    }
}

impl Default for DefaultRoute {
    fn default() -> (route: Self)
        ensures
            route.provider@ == "anthropic"@,
    {
        DefaultRoute { provider: default_provider() }
    }
}

impl Default for AutoRouterConfig {
    fn default() -> (config: Self)
        ensures
            !config.enabled,
            config.url@.len() == 0,
            config.model@.len() == 0,
            config.timeout_ms == 2000,
    {
        AutoRouterConfig {
            enabled: false,
            url: String::new(),
            model: String::new(),
            timeout_ms: default_timeout_ms(),
        }
    }
}

impl Default for Config {
    fn default() -> (config: Self)
        ensures
            config.server.host@ == "127.0.0.1"@,
            config.server.port == 3100,
            config.server.max_body_size == 10 * 1024 * 1024,
            config.providers@.len() == 0,
            config.routes@.len() == 0,
            config.default.provider@ == "anthropic"@,
            !config.auto_router.enabled,
            !config.logging.metrics.enabled,
            config.retention.enabled,
            config.retention.minutes == 60,
            config.wf(),
    {
        Config {
            server: ServerConfig::default(),
            providers: Vec::new(),
            routes: Vec::new(),
            default: DefaultRoute::default(),
            auto_router: AutoRouterConfig::default(),
            logging: LoggingConfig::default(),
            retention: RetentionConfig::default(),
        }
    }
}

/// No two providers have the same name.
pub open spec fn distinct_names(providers: Seq<(String, ProviderConfig)>) -> bool {
    forall|i: int, j: int|
        0 <= i < j < providers.len() ==> (#[trigger] providers[i]).0@ != (
        #[trigger] providers[j]).0@
}

/// The settings of the first provider named `name`, if there is one.
pub open spec fn find_provider(providers: Seq<(String, ProviderConfig)>, name: Seq<char>) -> Option<
    ProviderConfig,
>
    decreases providers.len(),
{
    if providers.len() == 0 {
        None
    } else if providers[0].0@ == name {
        Some(providers[0].1)
    } else {
        find_provider(providers.drop_first(), name)
    }
}

/// Where no name is given twice, each provider is the one that is found
/// under its name.
pub proof fn lemma_provider_is_found(providers: Seq<(String, ProviderConfig)>, at: int)
    requires
        distinct_names(providers),
        0 <= at < providers.len(),
    ensures
        find_provider(providers, providers[at].0@) == Some(providers[at].1),
    decreases providers.len(),
{
    if at > 0 {
        let rest = providers.drop_first();
        assert(providers[0].0@ != providers[at].0@);
        assert(rest[at - 1] == providers[at]);
        assert(distinct_names(rest)) by {
            assert forall|i: int, j: int| 0 <= i < j < rest.len() implies (#[trigger] rest[i]).0@
                != (#[trigger] rest[j]).0@ by {
                assert(rest[i] == providers[i + 1]);
                assert(rest[j] == providers[j + 1]);
            }
        }
        lemma_provider_is_found(rest, at - 1);
    }
}

impl Config {
    /// The invariant of a configuration: the providers are a mapping from
    /// name to settings, so no name is given twice.
    pub open spec fn wf(&self) -> bool {
        distinct_names(self.providers@)
    }

    /// Whether the configuration keeps its invariant.
    pub fn is_wf(&self) -> (ok: bool)
        ensures
            ok == self.wf(),
    {
        let mut j: usize = 0;
        while j < self.providers.len()
            invariant
                j <= self.providers.len(),
                forall|a: int, b: int|
                    0 <= a < b < j ==> (#[trigger] self.providers@[a]).0@ != (
                    #[trigger] self.providers@[b]).0@,
            decreases self.providers.len() - j,
        {
            let mut i: usize = 0;
            while i < j
                invariant
                    i <= j < self.providers.len(),
                    forall|a: int|
                        0 <= a < i ==> (#[trigger] self.providers@[a]).0@
                            != self.providers@[j as int].0@,
                decreases j - i,
            {
                if text_eq(self.providers[i].0.as_str(), self.providers[j].0.as_str()) {
                    return false;
                }
                i = i + 1;
            }
            j = j + 1;
        }
        true
    }

    /// Looks a provider up by name.
    pub fn provider(&self, name: &str) -> (found: Option<&ProviderConfig>)
        ensures
            match found {
                Some(settings) => find_provider(self.providers@, name@) == Some(*settings),
                None => find_provider(self.providers@, name@).is_none(),
            },
    {
        let mut at: usize = 0;
        proof {
            assert(self.providers@.skip(0) =~= self.providers@);
        }
        while at < self.providers.len()
            invariant
                at <= self.providers.len(),
                find_provider(self.providers@, name@) == find_provider(
                    self.providers@.skip(at as int),
                    name@,
                ),
            decreases self.providers.len() - at,
        {
            proof {
                let rest = self.providers@.skip(at as int);
                assert(rest[0] == self.providers@[at as int]);
                assert(rest.drop_first() =~= self.providers@.skip(at + 1));
            }
            if text_eq(self.providers[at].0.as_str(), name) {
                return Some(&self.providers[at].1);
            }
            at = at + 1;
        }
        None
    }
}

/// The host at which a local client reaches a listener on `host`: the
/// loopback address where the listener takes every address.
pub open spec fn local_host(host: Seq<char>) -> Seq<char> {
    if host == "0.0.0.0"@ {
        "127.0.0.1"@
    } else if host == "::"@ {
        "::1"@
    } else {
        host
    }
}

/// The address, host and port, at which a local client reaches the
/// configured listener.
pub fn probe_address(server: &ServerConfig) -> (address: String)
    ensures
        address@ == local_host(server.host@) + ":"@ + decimal_text(server.port as nat),
{
    let mut address = if text_eq(server.host.as_str(), "0.0.0.0") {
        "127.0.0.1".to_owned()
    } else if text_eq(server.host.as_str(), "::") {
        "::1".to_owned()
    } else {
        server.host.clone()
    };
    address.append(":");
    address.append(decimal(server.port as u64).as_str());
    address
}

} // verus!
