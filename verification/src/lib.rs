//! Verified core of a URL scheme handler: parsing `ush://` links, resolving
//! the configured application, and the local m3u8 HTTP bridge.

pub mod text;
pub mod error;
pub mod url;
pub mod payload;
pub mod config;
pub mod launch;
pub mod bridge;
pub mod platform;
