//! The hardcoded configuration used when no file can be read.
use vstd::prelude::*;
use crate::config::data::{ClientsParams, Config, JWTParams, ServerParams};

verus! {

/// Builds the default configuration.
pub fn default() -> (r: Config)
    ensures
        r.server.listen_ip@ == "127.0.0.1"@,
        r.server.host@ == "localhost"@,
        r.server.port == 8000,
        r.server.templates_dir@ == "templates"@,
        r.clients.registry_dir@ == "config/clients"@,
        r.jwt.oidc_issuer@ == "https://localhost:8000/oidc"@,
        r.jwt.internal_key@ == "secret"@,
        r.jwt.internal_authn_aud@ == "https://localhost:8000/authn"@,
{
    Config {
        server: ServerParams {
            listen_ip: "127.0.0.1".to_owned(),
            host: "localhost".to_owned(),
            port: 8000,
            templates_dir: "templates".to_owned(),
        },
        clients: ClientsParams { registry_dir: "config/clients".to_owned() },
        jwt: JWTParams {
            oidc_issuer: "https://localhost:8000/oidc".to_owned(),
            internal_key: "secret".to_owned(),
            internal_authn_aud: "https://localhost:8000/authn".to_owned(),
        },
    }
}

} // verus!
