//! The configuration the broker runs with: adapter driver, app manager,
//! metrics, and their defaults.

use vstd::prelude::*;

use crate::app::App;

verus! {

/// A Redis endpoint.
pub struct Redis {
    pub host: String,
    pub port: u16,
    pub db: i64,
    pub username: Option<String>,
    pub key_prefix: String,
    pub name: String,
    pub sentinels: Option<Vec<RedisSentinel>>,
    pub cluster: Option<Vec<ClusterNode>>,
}

/// One node of a Redis cluster.
pub struct ClusterNode {
    pub host: String,
    pub port: u16,
}

/// A Redis sentinel address.
pub struct RedisSentinel {
    pub host: String,
    pub port: u16,
}

/// Which routing backend runs, and each backend's settings.
pub struct Adapter {
    pub driver: String,
    pub redis: RedisAdapter,
    pub cluster: ClusterAdapter,
    pub nats: NatsAdapter,
}

/// Settings of the Redis-backed horizontal adapter. The raw JSON of the
/// client options is carried as text.
pub struct RedisAdapter {
    pub request_timeout: i64,
    pub prefix: String,
    pub redis_pub_options: String,
    pub redis_sub_options: String,
    pub cluster_mode: bool,
}

/// Settings of the cluster horizontal adapter.
pub struct ClusterAdapter {
    pub request_timeout: i64,
}

/// Settings of the NATS-backed horizontal adapter.
pub struct NatsAdapter {
    pub request_timeout: i64,
    pub prefix: String,
    pub servers: Vec<String>,
    pub user: Option<String>,
    pub password: Option<String>,
    pub token: Option<String>,
    pub timeout: i64,
    pub nodes_number: Option<i64>,
}

/// Where the app credentials come from.
pub struct AppManager {
    pub driver: String,
    pub array: ArrayAppManager,
    pub cache: CacheAppManager,
    pub mysql: MySQLAppManager,
}

/// Credentials held in memory.
pub struct ArrayAppManager {
    pub apps: Vec<App>,
}

/// Whether looked-up credentials are cached, and for how long.
pub struct CacheAppManager {
    pub enabled: bool,
    pub ttl: i64,
}

/// Credentials read from MySQL.
pub struct MySQLAppManager {
    pub table: String,
    pub version: String,
}

/// Prometheus naming.
pub struct Prometheus {
    pub prefix: String,
}

/// The metrics endpoint.
pub struct Metrics {
    pub enabled: bool,
    pub driver: String,
    pub host: String,
    pub prometheus: Prometheus,
    pub port: u16,
}

/// Everything the broker is configured with.
pub struct Options {
    pub adapter: Adapter,
    pub app_manager: AppManager,
    pub debug: bool,
    pub port: u16,
    pub metrics: Metrics,
}

/// The configuration the broker starts with when none is given: the local
/// adapter, an empty in-memory app list, port 6001, and a Prometheus
/// endpoint prepared on port 9601.
pub fn default_options() -> (r: Options)
    ensures
        r.port == 6001,
        r.debug,
        r.adapter.driver@ == "local"@,
        r.adapter.redis.request_timeout == 0,
        !r.adapter.redis.cluster_mode,
        r.adapter.cluster.request_timeout == 0,
        r.adapter.nats.request_timeout == 0,
        r.adapter.nats.servers@.len() == 0,
        r.app_manager.driver@ == "array"@,
        r.app_manager.array.apps@.len() == 0,
        !r.app_manager.cache.enabled,
        r.app_manager.cache.ttl == 0,
        !r.metrics.enabled,
        r.metrics.driver@ == "prometheus"@,
        r.metrics.host@ == "0.0.0.0"@,
        r.metrics.prometheus.prefix@ == "echoxide_"@,
        r.metrics.port == 9601,
{
    Options {
        adapter: Adapter {
            driver: "local".to_owned(),
            redis: RedisAdapter {
                request_timeout: 0,
                prefix: String::new(),
                redis_pub_options: String::new(),
                redis_sub_options: String::new(),
                cluster_mode: false,
            },
            cluster: ClusterAdapter { request_timeout: 0 },
            nats: NatsAdapter {
                request_timeout: 0,
                prefix: String::new(),
                servers: Vec::new(),
                user: None,
                password: None,
                token: None,
                timeout: 0,
                nodes_number: None,
            },
        },
        app_manager: AppManager {
            driver: "array".to_owned(),
            array: ArrayAppManager { apps: Vec::new() },
            cache: CacheAppManager { enabled: false, ttl: 0 },
            mysql: MySQLAppManager { table: String::new(), version: String::new() },
        },
        debug: true,
        port: 6001,
        metrics: Metrics {
            enabled: false,
            driver: "prometheus".to_owned(),
            host: "0.0.0.0".to_owned(),
            prometheus: Prometheus { prefix: "echoxide_".to_owned() },
            port: 9601,
        },
    }
}

} // verus!
