//! The credential-verification step of the login flow.
pub mod pwd;
