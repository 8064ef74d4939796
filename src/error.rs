//! Errors of the store.
use vstd::prelude::*;

verus! {

/// What can go wrong in a store operation.
#[derive(Debug, PartialEq, Eq)]
pub enum KVStoreError {
    /// Reading or writing the log's storage failed; the message says how.
    Io(String),
    /// The log holds bytes at this offset that do not start a record.
    Corrupt(u64),
    /// The key has no live value.
    KeyNotFound(String),
    /// A request named an action that the store does not know.
    InvalidAction(String),
    /// A lock guarding the store could not be taken.
    Lock,
}

impl KVStoreError {
    /// A message that describes the error.
    pub fn message(&self) -> (r: String)
        ensures
            match self {
                KVStoreError::Io(m) => r@ == "IO Error: "@ + m@,
                KVStoreError::Corrupt(_) => r@ == "Log holds bytes that are not a record."@,
                KVStoreError::KeyNotFound(k) => r@ == "Key `"@ + k@ + "` does not exist."@,
                KVStoreError::InvalidAction(a) => r@ == "`"@ + a@ + "` is not a valid action."@,
                KVStoreError::Lock => r@ == "Error while getting a lock."@,
            },
    {
        match self {
            KVStoreError::Io(m) => {
                let mut s = String::from_str("IO Error: ");
                s.append(m.as_str());
                s
            },
            KVStoreError::Corrupt(_) => String::from_str("Log holds bytes that are not a record."),
            KVStoreError::KeyNotFound(k) => {
                let mut s = String::from_str("Key `");
                s.append(k.as_str());
                s.append("` does not exist.");
                s
            },
            KVStoreError::InvalidAction(a) => {
                let mut s = String::from_str("`");
                s.append(a.as_str());
                s.append("` is not a valid action.");
                s
            },
            KVStoreError::Lock => String::from_str("Error while getting a lock."),
        }
    }
}

} // verus!
