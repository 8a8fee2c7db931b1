//! Errors of key fetching and verification.

use vstd::prelude::*;

verus! {

/// An error of key fetching or of verification, with its description.
#[derive(Debug)]
pub enum DkimError {
    DkimKeyFetch(String),
    DkimVerifier(String),
}

impl DkimError {
    /// The description of the error: its message.
    pub fn message(&self) -> (s: String)
        ensures
            s@ == match self {
                DkimError::DkimKeyFetch(m) => m@,
                DkimError::DkimVerifier(m) => m@,
            },
    {
        match self {
            DkimError::DkimKeyFetch(m) => m.clone(),
            DkimError::DkimVerifier(m) => m.clone(),
        }
    }
}

/// Turns an error described by a message into a `DkimError`.
pub trait ToDkimError<T> {
    /// The error becomes a key-fetch error.
    fn to_dkim_key_fetch_err(self) -> Result<T, DkimError>;

    /// The error becomes a verification error.
    fn to_dkim_verifier_err(self) -> Result<T, DkimError>;
}

impl<T> ToDkimError<T> for Result<T, String> {
    fn to_dkim_key_fetch_err(self) -> (r: Result<T, DkimError>)
        ensures
            match self {
                Ok(v) => r == Ok::<T, DkimError>(v),
                Err(m) => r matches Err(DkimError::DkimKeyFetch(t)) && t@ == m@,
            },
    {
        match self {
            Ok(v) => Ok(v),
            Err(m) => Err(DkimError::DkimKeyFetch(m)),
        }
    }

    fn to_dkim_verifier_err(self) -> (r: Result<T, DkimError>)
        ensures
            match self {
                Ok(v) => r == Ok::<T, DkimError>(v),
                Err(m) => r matches Err(DkimError::DkimVerifier(t)) && t@ == m@,
            },
    {
        match self {
            Ok(v) => Ok(v),
            Err(m) => Err(DkimError::DkimVerifier(m)),
        }
    }
}

} // verus!
