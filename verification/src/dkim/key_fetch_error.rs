//! The error of the standalone key-fetching service.

use vstd::prelude::*;
use vstd::string::StringExecFns;

verus! {

/// A key-fetching error, with its description.
#[derive(Debug)]
pub enum DkimError {
    Generic(String),
}

impl DkimError {
    /// The text of the error: "encountered dkim_key_fetch error: " and the description.
    pub fn message(&self) -> (s: String)
        ensures
            s@ == "encountered dkim_key_fetch error: "@ + match self {
                DkimError::Generic(m) => m@,
            },
    {
        match self {
            DkimError::Generic(m) => {
                let mut s = String::from_str("encountered dkim_key_fetch error: ");
                s.append(m.as_str());
                s
            },
        }
    }
}

/// Turns an error described by a message into a key-fetching `DkimError`.
pub trait ToDkimKeyFetchErr<T> {
    /// The error becomes a `DkimError::Generic`.
    fn to_dkim_key_fetch_err(self) -> Result<T, DkimError>;
}

impl<T> ToDkimKeyFetchErr<T> for Result<T, String> {
    fn to_dkim_key_fetch_err(self) -> (r: Result<T, DkimError>)
        ensures
            match self {
                Ok(v) => r == Ok::<T, DkimError>(v),
                Err(m) => r matches Err(DkimError::Generic(t)) && t@ == m@,
            },
    {
        match self {
            Ok(v) => Ok(v),
            Err(m) => Err(DkimError::Generic(m)),
        }
    }
}

} // verus!
