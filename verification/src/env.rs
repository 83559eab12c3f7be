//! Configuration read at startup: where the store lives and where the
//! authorization redirect listens. Reading the process environment is the
//! caller's business; the library only holds the values.

use vstd::prelude::*;

verus! {

/// The configuration values the process starts with.
pub struct Env {
    pub database_url: String,
    pub port: u16,
    pub base_url: String,
}

} // verus!
