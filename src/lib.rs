//! A multi-protocol proxy core: rule-based routing of domains and IP
//! addresses to named outbounds, the SOCKS5 wire format, a bounded
//! connection pool with admission control, and the bookkeeping of a
//! bidirectional byte relay.
pub mod config;
pub mod connection_pool;
pub mod error;
pub mod net;
pub mod outbound;
pub mod outside;
pub mod protocol;
pub mod protocols;
pub mod proxy;
pub mod routing;
pub mod traffic_mark;
pub mod zero_copy;

pub use error::ProxyError;
pub use outbound::OutboundManager;
pub use protocol::{Address, Socks5Request, Socks5Response};
pub use protocols::{BlackholeProtocol, DirectProtocol, Protocol, Socks5Protocol, TproxyProtocol, VlessProtocol};
pub use routing::router::{HighPerformanceRouter, RouteRule};
pub use routing::rule_sets::{DomainRuleSet, IpRuleSet, RuleSetManager};
pub use zero_copy::ZeroCopyBuffer;
