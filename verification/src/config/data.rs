//! The process-wide configuration: read once at startup, read-only
//! afterwards; rotating any of it requires a restart.
use vstd::prelude::*;

verus! {

/// The root of the configuration structure.
#[derive(Debug, PartialEq)]
pub struct Config {
    pub server: ServerParams,
    pub clients: ClientsParams,
    pub jwt: JWTParams,
}

/// The network parameters of the server.
#[derive(Debug, PartialEq)]
pub struct ServerParams {
    pub listen_ip: String,
    pub host: String,
    pub port: u16,
    pub templates_dir: String,
}

/// Where the registered clients' definition files live.
#[derive(Debug, PartialEq)]
pub struct ClientsParams {
    pub registry_dir: String,
}

/// How the session tokens are minted and checked: the provider's
/// issuer string, the shared signing secret, and the internal
/// audience that marks a token as bound for the login step.
#[derive(Debug, PartialEq)]
pub struct JWTParams {
    pub oidc_issuer: String,
    pub internal_key: String,
    pub internal_authn_aud: String,
}

} // verus!
