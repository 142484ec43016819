//! A client library for shipping structured log records to a remote
//! collector: record shapes, the wire codec, a retry controller with
//! exponential backoff, and a local buffer fallback.

pub mod decode;
pub mod error;
pub mod event_time;
pub mod fluent;
pub mod json;
pub mod msgpack;
pub mod record;
pub mod retry;
pub mod retry_conf;
pub mod store_buffer;
