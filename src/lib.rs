//! A personal media server's core: it reconciles a directory tree with a
//! catalog of media records, resolves byte ranges, keeps a registry of
//! peers and decides how a playback request is served.

pub mod text;
pub mod ids;
pub mod clock;
pub mod range;
pub mod models;
pub mod metadata;
pub mod catalog;
pub mod errors;
pub mod scanner;
pub mod peers;
pub mod http_fallback;
pub mod dispatch;
pub mod auth;
pub mod state;
pub mod locks;
