//! Core of a minimal OpenID Connect provider: a registry of relying
//! parties with its authentication rules, a signed session-token codec
//! that carries an authorization request across the login redirect, and
//! the request validation and dispatch that tie them together.
pub mod authn;
pub mod clients;
pub mod config;
pub mod jwt;
pub mod oidc;
pub mod random;
pub mod services;
pub mod text;
pub mod web;
