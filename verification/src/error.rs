//! What the store reports when an operation fails.

use crate::cert::error_text;
use sequoia_openpgp::anyhow::Error;
use vstd::prelude::*;

verus! {

/// The failures of the store's operations.
#[derive(Debug)]
pub enum KeyError {
    /// No certificate is stored under the fingerprint.
    KeyNotFound,
    /// No certificate was loaded from the path.
    FileNotFound,
    /// The bytes are no certificate.
    Parse(Error),
    /// The certificate's validity could not be evaluated.
    Policy(Error),
}

impl KeyError {
    /// A line of text for a log.
    pub fn message(&self) -> (text: String)
        ensures
            self is KeyNotFound ==> text@ == "key not found"@,
            self is FileNotFound ==> text@ == "file not found"@,
    {
        match self {
            KeyError::KeyNotFound => "key not found".to_owned(),
            KeyError::FileNotFound => "file not found".to_owned(),
            KeyError::Parse(error) => error_text(error),
            KeyError::Policy(error) => error_text(error),
        }
    }
}

} // verus!
