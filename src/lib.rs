//! A persistent key-value store: an append-only log of records and an
//! in-memory index from each live key to the record that holds its value.
use vstd::prelude::*;

pub mod error;
pub mod index;
pub mod laws;
pub mod models;
pub mod record;
pub mod replay;
pub mod store;

pub use error::KVStoreError;
pub use store::KVStore;

verus! {

/// The server address used when none is configured.
pub open spec fn default_server_host() -> Seq<char> {
    "http://127.0.0.1:8000"@
}

/// The address of the message bus used when none is configured.
pub open spec fn default_nats_host() -> Seq<char> {
    "127.0.0.1:4444"@
}

/// The log file used when none is configured.
pub open spec fn default_log_file_path() -> Seq<char> {
    "kvs.log"@
}

/// Addresses and paths that the store's front ends connect to.
#[derive(Debug, Clone)]
pub struct ConnStrings {
    server_host: String,
    nats_host: String,
    log_file_path: String,
}

impl View for ConnStrings {
    type V = (Seq<char>, Seq<char>, Seq<char>);

    closed spec fn view(&self) -> (Seq<char>, Seq<char>, Seq<char>) {
        (self.server_host@, self.nats_host@, self.log_file_path@)
    }
}

/// The configured value, or the default where none is configured.
pub open spec fn configured_or(v: Option<String>, default: Seq<char>) -> Seq<char> {
    match v {
        Some(s) => s@,
        None => default,
    }
}

fn or_default(v: Option<String>, default: &str) -> (r: String)
    ensures
        r@ == configured_or(v, default@),
{
    match v {
        Some(s) => s,
        None => String::from_str(default),
    }
}

impl ConnStrings {
    /// The connection strings, each one configured or else its default.
    pub fn resolve(
        server_host: Option<String>,
        nats_host: Option<String>,
        log_file_path: Option<String>,
    ) -> (r: ConnStrings)
        ensures
            r@.0 == configured_or(server_host, default_server_host()),
            r@.1 == configured_or(nats_host, default_nats_host()),
            r@.2 == configured_or(log_file_path, default_log_file_path()),
    {
        ConnStrings {
            server_host: or_default(server_host, "http://127.0.0.1:8000"),
            nats_host: or_default(nats_host, "127.0.0.1:4444"),
            log_file_path: or_default(log_file_path, "kvs.log"),
        }
    }

    pub fn server_host(&self) -> (r: String)
        ensures
            r@ == self@.0,
    {
        self.server_host.clone()
    }

    pub fn nats_host(&self) -> (r: String)
        ensures
            r@ == self@.1,
    {
        self.nats_host.clone()
    }

    pub fn log_file_path(&self) -> (r: String)
        ensures
            r@ == self@.2,
    {
        self.log_file_path.clone()
    }
}

} // verus!
