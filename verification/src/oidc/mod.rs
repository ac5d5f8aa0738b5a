//! The OpenID Connect endpoints' decision logic.
pub mod auth;
pub mod authz;
pub mod discovery;
pub mod token;
pub mod userinfo;
pub mod login;
