//! Routes the domains of a development machine to the projects that live on
//! it.
//!
//! A [`DriverRegistry`] knows the kinds of projects, a [`SiteManager`] keeps
//! the parked directories and the linked sites, a [`DnsHandler`] decides which
//! names are answered, and a [`MiniServer`] decides what an HTTP request gets.
//! Nothing here reads a disk or a socket: what exists on disk is handed in as
//! a [`FileSystem`], and what is to be sent comes back as a value.

pub mod config;
pub mod dns;
pub mod driver;
pub mod fs;
pub mod invariants;
pub mod path;
pub mod registry;
pub mod server;
pub mod site;
pub mod strmap;
pub mod text;

pub use config::{ServerConfig, SiteConfig};
pub use dns::{AddressRecord, DnsAnswer, DnsHandler, ResponseCode};
pub use driver::{AnyDriver, CustomDriver, Driver, LaravelDriver, StaticDriver};
pub use fs::{EntryKind, FileSystem};
pub use registry::{DriverRegistry, RegistryError};
pub use server::{MiniServer, Response};
pub use site::{Site, SiteError, SiteManager};
pub use strmap::StrMap;
