//! The signed session-token codec: the compact token format, its
//! payload encoding, and the signature primitives it relies on.
pub mod base64url;
pub mod hmac;
pub mod payload;
pub mod session;
