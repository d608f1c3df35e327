//! Settings of the service: where it listens, what it connects to, and how
//! its HTTP client behaves.
use vstd::prelude::*;

verus! {

/// Common server settings.
#[derive(Clone, Debug)]
pub struct Server {
    pub host: String,
    pub port: i32,
    pub database: String,
    pub redis: Option<String>,
    pub thread_count: usize,
    pub cache_ttl_sec: u64,
}

/// HTTP client settings.
#[derive(Clone, Debug)]
pub struct Client {
    pub http_client_retries: usize,
    pub http_client_buffer_size: usize,
    pub dns_worker_thread_count: usize,
    pub http_timeout_ms: u64,
}

/// Settings of the error reporting service.
#[derive(Clone, Debug)]
pub struct SentryConfig {
    pub dsn: String,
}

} // verus!
