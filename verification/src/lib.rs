//! A small HTTP/1.1 file server library: request parsing, per-method
//! response building over an explicit filesystem model, chunked-transfer
//! coding, and the keep-alive decisions of the connection loop.
//!
//! The library itself performs no I/O: sockets, threads and the real
//! filesystem live in the surrounding application, which feeds byte
//! buffers and file contents in and writes response bytes out.

pub mod conn;
pub mod disk;
pub mod parser;
pub mod strmap;
pub mod text;

use vstd::prelude::*;

verus! {

/// Size of the fixed read buffer for one request, in bytes.
pub const BUFFER_SIZE: usize = 32768;

/// Server configuration, loaded once at startup and cloned per connection.
pub struct Config {
    /// Port the listener binds.
    pub port: u32,
    /// Number of worker threads in the pool.
    pub thread_number: usize,
    /// Root directory that URLs are resolved under.
    pub root_dir: String,
    /// Read timeout for keep-alive connections, in seconds.
    pub timeout: i64,
    /// Whether chunked responses are enabled (chunked requests are always accepted).
    pub chunk: bool,
}

impl Clone for Config {
    fn clone(&self) -> (r: Self)
        ensures
            r.port == self.port,
            r.thread_number == self.thread_number,
            r.root_dir@ == self.root_dir@,
            r.timeout == self.timeout,
            r.chunk == self.chunk,
    {
        Config {
            port: self.port,
            thread_number: self.thread_number,
            root_dir: self.root_dir.clone(),
            timeout: self.timeout,
            chunk: self.chunk,
        }
    }
}

impl Default for Config {
    fn default() -> (r: Self)
        ensures
            r.port == 7878,
            r.thread_number == 4,
            r.root_dir@ == "./page"@,
            r.timeout == 1,
            r.chunk == false,
    {
        Config {
            port: 7878,
            thread_number: 4,
            root_dir: String::from_str("./page"),
            timeout: 1,
            chunk: false,
        }
    }
}

} // verus!
