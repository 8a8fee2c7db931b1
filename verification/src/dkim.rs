//! DKIM: canonicalization of headers and bodies, DKIM-Signature parsing,
//! signing and verification.

pub mod text;
pub mod text_facts;
pub mod crypto;
pub mod mail;
pub mod utils;
pub mod errors;
pub mod key_fetch_error;
pub mod key_fetch;
pub mod email_verifier;
pub mod verify_dkim;
pub mod verify_dkim_email;
