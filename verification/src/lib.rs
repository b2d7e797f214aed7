//! Verified storage building blocks: the on-disk chunk map that records which
//! chunks of a blob are cached, the request side of an S3 backend, and the
//! set-up of tracing.

pub mod bitmap;
pub mod byte_order;
pub mod handshake;
pub mod header;
pub mod headers;
pub mod identity;
pub mod map_laws;
pub mod messages;
pub mod persist_map;
pub mod request_url;
pub mod s3;
pub mod sharing;
pub mod signing;
pub mod signing_laws;
pub mod sigv4;
pub mod text;
pub mod trace;
