//! A verified reverse-proxy core for IPTV playlists and hot-link protected streams.

pub mod codec;
pub mod config;
pub mod context;
pub mod entering;
pub mod error;
pub mod forwarding;
pub mod laws;
pub mod marker;
pub mod number;
pub mod pattern;
pub mod playlist;
pub mod proxy;
pub mod reading;
pub mod replacing;
pub mod response;
pub mod rewriting;
pub mod route;
pub mod target;
pub mod text;
pub mod upstream;

pub use config::{ProxyConfig, Settings};
pub use context::{ProxyContext, RouteMode};
pub use error::{ErrorKind, ProxyError};
pub use proxy::IptvProxy;
pub use response::ResponsePlan;
pub use route::RequestAction;
pub use target::TargetUrl;
pub use upstream::{Peer, RequestPlan};
