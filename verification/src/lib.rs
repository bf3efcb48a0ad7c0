//! Verified core of a read-write overlay for cargo registries: a writable local layer on top of a
//! read-only upstream registry, with a proxy that leads cargo to it.

pub mod cli;
pub mod dry_run;
pub mod endpoints;
pub mod http_proxy;
pub mod outside;
pub mod quote;
pub mod registry;
pub mod response;
pub mod state;
pub mod text;
pub mod tls;
pub mod types;

pub use endpoints::{handle_api_download, handle_api_publish, handle_api_search, handle_config};
pub use registry::proxy::{
    handle_index_1char, handle_index_2char, handle_index_3char, handle_index_4plus,
};
pub use registry::RegistryError;
pub use state::{MitmCa, ProxyState};
pub use tls::generate_self_signed_cert;
