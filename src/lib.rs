//! Decision logic of a multi-site reverse proxy and static-file server:
//! entity tags, byte ranges, conditional requests, compression gating,
//! CORS, hop-by-hop scrubbing and host dispatch.

pub mod text;
pub mod codec;
pub mod base36;
pub mod etag;
pub mod http;
pub mod range;
pub mod negotiate;
pub mod util;
pub mod entity;
pub mod response;
pub mod path;
pub mod serve;
pub mod hop;
pub mod proxy;
pub mod gzip;
pub mod cors;
pub mod host;
pub mod config;
pub mod root;
pub mod accept;
pub mod log;
pub mod browse;
pub mod mime;
