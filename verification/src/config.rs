//! Runtime configuration of the service binary.
//!
//! The values are read from the process environment by the binary and
//! handed in as plain strings and numbers; the library itself never touches
//! the environment.

use vstd::prelude::*;

verus! {

/// Connection and listener settings for the service.
#[derive(Debug)]
pub struct Config {
    pub database_url: String,
    pub server_host: String,
    pub server_port: u16,
    pub rust_log: String,
}

} // verus!
