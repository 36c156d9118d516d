//! Hostname-to-address resolution core for a dual-stack HTTP client.
//!
//! The library holds the decision logic of the resolver: the override
//! table consulted before any platform lookup, the IP-literal parse that
//! bypasses resolution entirely, and the family-preference partition that
//! orders resolved addresses for Happy-Eyeballs-style connection attempts.
//! The surrounding asynchronous plumbing (spawning the blocking platform
//! lookup, polling, cancellation) lives outside and feeds its outcomes
//! back in as plain values.

pub mod addr;
pub mod addrs;
pub mod laws;
pub mod literal;
pub mod resolver;
pub mod text;

pub use addr::IpAddress;
pub use addr::Ipv4Address;
pub use addr::Ipv6Address;
pub use addr::SockAddr;
pub use addrs::SocketAddrs;
pub use resolver::CustomAddrs;
pub use resolver::CustomResolver;
pub use resolver::InvalidNameError;
pub use resolver::LookupOutcome;
pub use resolver::ResolutionError;
pub use resolver::ResolveStep;
pub use resolver::Settled;
pub use resolver::settle;
