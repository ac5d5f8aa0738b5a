//! The web layer's decision logic: what each page-producing endpoint
//! decides, with rendering left to the surrounding server.
pub mod authn;
pub mod error;
