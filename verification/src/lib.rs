//! Service discovery on a local network over UDP multicast: the wire
//! protocol, the bookkeeping of the client and the server, and their
//! configuration, each with a verified contract.

pub mod protocol;
pub mod text;
pub mod error;
pub mod config;
pub mod client;
pub mod server;
pub mod laws;
pub mod discovery;

pub use client::DiscoverClient;
pub use client::DiscoveredDevice;
pub use config::DiscoverConfig;
pub use config::Ipv4Addr;
pub use error::DiscoverError;
pub use server::CustomData;
pub use server::ServerSettings;
pub use discovery::DeviceCollector;
