use vstd::prelude::*;
use crate::error::ProxyError;
use crate::net::IpAddress;

verus! {

/// Where and how the proxy listens.
pub struct ServerConfig {
    pub host: IpAddress,
    pub port: u16,
    pub max_connections: usize,
    pub connection_timeout_secs: u64,
    pub keep_alive_timeout_secs: u64,
}

/// Bounds of the connection pool.
pub struct ConnectionPoolConfig {
    pub max_connections_per_target: usize,
    pub max_total_connections: usize,
    pub connection_timeout_secs: u64,
    pub idle_timeout_secs: u64,
    pub cleanup_interval_secs: u64,
}

/// Name resolution settings.
pub struct DnsConfig {
    pub servers: Vec<String>,
    pub timeout_secs: u64,
    pub enable_ipv6: bool,
    pub cache_ttl_secs: u64,
}

/// Logging settings.
pub struct LoggingConfig {
    pub level: String,
    pub structured: bool,
    pub file: Option<String>,
    pub enable_metrics: bool,
}

/// Relay and socket tunables.
pub struct PerformanceConfig {
    pub buffer_size: usize,
    pub tcp_nodelay: bool,
    pub reuse_addr: bool,
    pub keep_alive: bool,
    pub worker_threads: usize,
}

/// Socket marks to apply before connecting; zero disables a mark.
pub struct TrafficMarkConfig {
    pub so_mark: u32,
    pub net_service_type: u32,
}

/// The kind of an outbound, with its parameters.
pub enum OutboundType {
    Direct,
    Socks5 { address: String },
    Vless { address: String, uuid: String, tls: bool },
    Blackhole,
}

/// A named outbound.
pub struct OutboundConfig {
    pub name: String,
    pub kind: OutboundType,
}

impl OutboundConfig {
    /// A direct outbound called `name`.
    pub fn direct(name: &str) -> (r: Self)
        ensures
            r.name@ == name@,
            r.kind is Direct,
    {
        OutboundConfig { name: name.to_owned(), kind: OutboundType::Direct }
    }
}

/// The domain criteria of a configured routing rule.
pub struct DomainLists {
    pub domain: Vec<String>,
    pub domain_suffix: Vec<String>,
    pub domain_keyword: Vec<String>,
    pub domain_regex: Vec<String>,
}

impl Default for DomainLists {
    fn default() -> (r: Self)
        ensures
            r.domain@.len() == 0,
            r.domain_suffix@.len() == 0,
            r.domain_keyword@.len() == 0,
            r.domain_regex@.len() == 0,
    {
        DomainLists { domain: Vec::new(), domain_suffix: Vec::new(), domain_keyword: Vec::new(), domain_regex: Vec::new() }
    }
}

/// A configured routing rule: its own domain criteria and networks, further
/// rule sets it names, and where matching connections go.
pub struct RouterRuleConfig {
    pub outbound: String,
    pub domains: DomainLists,
    pub ip_cidr: Vec<String>,
    pub rule_sets: Vec<String>,
}

/// The configured routing: ordered rules and the default outbound.
pub struct RouterConfig {
    pub default_outbound: String,
    pub rules: Vec<RouterRuleConfig>,
}

impl Default for RouterConfig {
    fn default() -> (r: Self)
        ensures
            r.default_outbound@ == "direct"@,
            r.rules@.len() == 0,
    {
        RouterConfig { default_outbound: "direct".to_owned(), rules: Vec::new() }
    }
}

/// The whole configuration of the proxy.
pub struct Config {
    pub server: ServerConfig,
    pub connection_pool: ConnectionPoolConfig,
    pub dns: DnsConfig,
    pub logging: LoggingConfig,
    pub performance: PerformanceConfig,
    pub traffic_mark: TrafficMarkConfig,
    pub outbounds: Vec<OutboundConfig>,
    pub router: RouterConfig,
}

impl Default for ServerConfig {
    fn default() -> (r: Self)
        ensures
            r.host == IpAddress::V4(0x7f000001),
            r.port == 1080,
            r.max_connections == 1000,
            r.connection_timeout_secs == 30,
            r.keep_alive_timeout_secs == 300,
    {
        ServerConfig {
            host: IpAddress::V4(0x7f000001),
            port: 1080,
            max_connections: 1000,
            connection_timeout_secs: 30,
            keep_alive_timeout_secs: 300,
        }
    }
}

impl Default for ConnectionPoolConfig {
    fn default() -> (r: Self)
        ensures
            r.max_connections_per_target == 10,
            r.max_total_connections == 500,
            r.connection_timeout_secs == 10,
            r.idle_timeout_secs == 300,
            r.cleanup_interval_secs == 60,
    {
        ConnectionPoolConfig {
            max_connections_per_target: 10,
            max_total_connections: 500,
            connection_timeout_secs: 10,
            idle_timeout_secs: 300,
            cleanup_interval_secs: 60,
        }
    }
}

impl Default for DnsConfig {
    fn default() -> (r: Self)
        ensures
            r.servers@.len() == 3,
            r.servers@[0]@ == "8.8.8.8:53"@,
            r.servers@[1]@ == "8.8.4.4:53"@,
            r.servers@[2]@ == "1.1.1.1:53"@,
            r.timeout_secs == 5,
            r.enable_ipv6,
            r.cache_ttl_secs == 300,
    {
        let mut servers: Vec<String> = Vec::new();
        servers.push("8.8.8.8:53".to_owned());
        servers.push("8.8.4.4:53".to_owned());
        servers.push("1.1.1.1:53".to_owned());
        DnsConfig { servers, timeout_secs: 5, enable_ipv6: true, cache_ttl_secs: 300 }
    }
}

impl Default for LoggingConfig {
    fn default() -> (r: Self)
        ensures
            r.level@ == "info"@,
            !r.structured,
            r.file is None,
            !r.enable_metrics,
    {
        LoggingConfig { level: "info".to_owned(), structured: false, file: None, enable_metrics: false }
    }
}

impl Default for PerformanceConfig {
    fn default() -> (r: Self)
        ensures
            r.buffer_size == 65536,
            r.tcp_nodelay,
            r.reuse_addr,
            r.keep_alive,
            r.worker_threads == 0,
    {
        PerformanceConfig { buffer_size: 65536, tcp_nodelay: true, reuse_addr: true, keep_alive: true, worker_threads: 0 }
    }
}

impl Default for TrafficMarkConfig {
    fn default() -> (r: Self)
        ensures
            r.so_mark == 0,
            r.net_service_type == 0,
    {
        TrafficMarkConfig { so_mark: 0, net_service_type: 0 }
    }
}

impl Default for Config {
    fn default() -> (r: Self)
        ensures
            r.server.port == 1080,
            r.server.host == IpAddress::V4(0x7f000001),
            r.connection_pool.max_connections_per_target == 10,
            r.connection_pool.max_total_connections == 500,
            r.performance.buffer_size == 65536,
            r.logging.level@ == "info"@,
            r.outbounds@.len() == 1,
            r.outbounds@[0].name@ == "direct"@,
            r.outbounds@[0].kind is Direct,
            r.router.default_outbound@ == "direct"@,
            r.router.rules@.len() == 0,
    {
        let mut outbounds: Vec<OutboundConfig> = Vec::new();
        outbounds.push(OutboundConfig::direct("direct"));
        Config {
            server: ServerConfig::default(),
            connection_pool: ConnectionPoolConfig::default(),
            dns: DnsConfig::default(),
            logging: LoggingConfig::default(),
            performance: PerformanceConfig::default(),
            traffic_mark: TrafficMarkConfig::default(),
            outbounds,
            router: RouterConfig::default(),
        }
    }
}

/// The log levels the configuration accepts.
pub open spec fn valid_log_level(level: Seq<char>) -> bool {
    level == "trace"@ || level == "debug"@ || level == "info"@ || level == "warn"@ || level == "error"@
}

/// The configuration is usable: a listening port, non-zero pool bounds and
/// buffer, a known log level, and at least one outbound.
pub open spec fn config_valid(c: &Config) -> bool {
    &&& c.server.port != 0
    &&& c.connection_pool.max_connections_per_target > 0
    &&& c.connection_pool.max_total_connections > 0
    &&& c.performance.buffer_size > 0
    &&& valid_log_level(c.logging.level@)
    &&& c.outbounds@.len() > 0
}

impl Config {
    /// Checks the configuration; fails with a protocol error naming the
    /// first problem found.
    pub fn validate(&self) -> (r: Result<(), ProxyError>)
        ensures
            r is Ok <==> config_valid(self),
            r matches Err(e) ==> e is Protocol,
    {
        if self.server.port == 0 {
            return Err(ProxyError::Protocol("Invalid port number".to_string()));
        }
        if self.connection_pool.max_connections_per_target == 0 {
            return Err(ProxyError::Protocol("max_connections_per_target must be > 0".to_string()));
        }
        if self.connection_pool.max_total_connections == 0 {
            return Err(ProxyError::Protocol("max_total_connections must be > 0".to_string()));
        }
        if self.performance.buffer_size == 0 {
            return Err(ProxyError::Protocol("buffer_size must be > 0".to_string()));
        }
        let level = &self.logging.level;
        let known = *level == "trace".to_owned() || *level == "debug".to_owned() || *level
            == "info".to_owned() || *level == "warn".to_owned() || *level == "error".to_owned();
        if !known {
            return Err(ProxyError::Protocol("Invalid log level".to_string()));
        }
        if self.outbounds.len() == 0 {
            return Err(ProxyError::Protocol("At least one outbound must be configured".to_string()));
        }
        Ok(())
    }

    /// The client connection timeout, in seconds.
    pub fn connection_timeout(&self) -> (r: u64)
        ensures
            r == self.server.connection_timeout_secs,
    {
        self.server.connection_timeout_secs
    }

    /// The keep-alive timeout, in seconds.
    pub fn keep_alive_timeout(&self) -> (r: u64)
        ensures
            r == self.server.keep_alive_timeout_secs,
    {
        self.server.keep_alive_timeout_secs
    }

    /// The name resolution timeout, in seconds.
    pub fn dns_timeout(&self) -> (r: u64)
        ensures
            r == self.dns.timeout_secs,
    {
        self.dns.timeout_secs
    }

    /// The pool's dial timeout, in seconds.
    pub fn pool_connection_timeout(&self) -> (r: u64)
        ensures
            r == self.connection_pool.connection_timeout_secs,
    {
        self.connection_pool.connection_timeout_secs
    }

    /// The pool's idle timeout, in seconds.
    pub fn pool_idle_timeout(&self) -> (r: u64)
        ensures
            r == self.connection_pool.idle_timeout_secs,
    {
        self.connection_pool.idle_timeout_secs
    }

    /// The interval of the pool's background sweep, in seconds.
    pub fn cleanup_interval(&self) -> (r: u64)
        ensures
            r == self.connection_pool.cleanup_interval_secs,
    {
        self.connection_pool.cleanup_interval_secs
    }
}

} // verus!
