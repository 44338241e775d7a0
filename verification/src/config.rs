//! Per-process configuration, with builder-style setters. Timeouts are
//! plain seconds; the caller that owns the sockets converts them to its
//! own time type.

use vstd::prelude::*;

verus! {

#[derive(Debug, Clone, Copy)]
pub struct Config {
    pub max_concurrent_connections: usize,
    pub max_concurrent_streams: usize,
    pub max_frame_size: usize,
    pub max_flush_requests: usize,
    pub max_flush_size: usize,
    pub idle_timeout_secs: u64,
    pub write_timeout_secs: u64,
}

impl Config {
    pub fn new() -> (r: Self)
        ensures
            r.max_concurrent_connections == 100,
            r.max_concurrent_streams == 1000,
            r.max_frame_size == 16 * 1024,
            r.max_flush_requests == 50,
            r.max_flush_size == 15000,
            r.idle_timeout_secs == 60,
            r.write_timeout_secs == 10,
    {
        Self {
            max_concurrent_connections: 100,
            max_concurrent_streams: 1000,
            max_frame_size: 16 * 1024,
            max_flush_requests: 50,
            max_flush_size: 15000,
            idle_timeout_secs: 60,
            write_timeout_secs: 10,
        }
    }

    /// Each connection runs 1 (local mode) or 2 (dispatch mode) threads,
    /// so this should stay small.
    ///
    /// Default: 100
    pub fn max_concurrent_connections(self, n: usize) -> (r: Self)
        ensures
            r == (Self { max_concurrent_connections: n, ..self }),
    {
        Self { max_concurrent_connections: n, ..self }
    }

    /// Advertised to clients in the handshake SETTINGS frame; not enforced.
    ///
    /// Default: 1000
    pub fn max_concurrent_streams(self, n: usize) -> (r: Self)
        ensures
            r == (Self { max_concurrent_streams: n, ..self }),
    {
        Self { max_concurrent_streams: n, ..self }
    }

    /// Default: 16 * 1024
    pub fn max_frame_size(self, n: usize) -> (r: Self)
        ensures
            r == (Self { max_frame_size: n, ..self }),
    {
        Self { max_frame_size: n, ..self }
    }

    /// Default: 50
    pub fn max_flush_requests(self, n: usize) -> (r: Self)
        ensures
            r == (Self { max_flush_requests: n, ..self }),
    {
        Self { max_flush_requests: n, ..self }
    }

    /// Default: 15000
    pub fn max_flush_size(self, n: usize) -> (r: Self)
        ensures
            r == (Self { max_flush_size: n, ..self }),
    {
        Self { max_flush_size: n, ..self }
    }

    /// Default: 60 seconds
    pub fn idle_timeout(self, secs: u64) -> (r: Self)
        ensures
            r == (Self { idle_timeout_secs: secs, ..self }),
    {
        Self { idle_timeout_secs: secs, ..self }
    }

    /// Default: 10 seconds
    pub fn write_timeout(self, secs: u64) -> (r: Self)
        ensures
            r == (Self { write_timeout_secs: secs, ..self }),
    {
        Self { write_timeout_secs: secs, ..self }
    }
}

} // verus!
