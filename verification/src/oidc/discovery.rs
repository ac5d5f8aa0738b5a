//! The discovery document: pure metadata assembled from the
//! configuration, naming the provider's endpoints and the one scope,
//! grant type and response type it supports.
use vstd::prelude::*;
use vstd::string::StringExecFns;
use crate::config::data::Config;
use crate::text::dec_chars;

verus! {

/// The body of the discovery document.
#[derive(Debug, PartialEq)]
pub struct OpenIDConfiguration {
    pub issuer: String,
    pub authorization_endpoint: String,
    pub token_endpoint: String,
    pub userinfo_endpoint: String,
    pub scopes_supported: Vec<&'static str>,
    pub grant_types_supported: Vec<&'static str>,
    pub response_types_supported: Vec<&'static str>,
}

/// An endpoint URL: `https://` + host + `:` + port + path.
pub open spec fn spec_endpoint_url(host: Seq<char>, port: u16, path: Seq<char>) -> Seq<char> {
    "https://"@ + host + ":"@ + dec_chars(port as nat) + path
}

/// Build one endpoint URL from the configured host and port.
fn endpoint_url(p_config: &Config, path: &str) -> (r: String)
    ensures
        r@ == spec_endpoint_url(p_config.server.host@, p_config.server.port, path@),
{
    let mut u = "https://".to_owned();
    u.append(p_config.server.host.as_str());
    u.append(":");
    let port = crate::text::usize_to_string(p_config.server.port as usize);
    u.append(port.as_str());
    u.append(path);
    u
}

/// Assemble the discovery document from the configuration.
pub fn endpoint(p_config: &Config) -> (r: OpenIDConfiguration)
    ensures
        r.issuer@ == p_config.jwt.oidc_issuer@,
        r.authorization_endpoint@ == spec_endpoint_url(
            p_config.server.host@,
            p_config.server.port,
            "/oidc/auth"@,
        ),
        r.token_endpoint@ == spec_endpoint_url(
            p_config.server.host@,
            p_config.server.port,
            "/oidc/token"@,
        ),
        r.userinfo_endpoint@ == spec_endpoint_url(
            p_config.server.host@,
            p_config.server.port,
            "/oidc/userinfo"@,
        ),
        r.scopes_supported@.len() == 1 && r.scopes_supported@[0]@ == "openid"@,
        r.grant_types_supported@.len() == 1 && r.grant_types_supported@[0]@
            == "authorization_code"@,
        r.response_types_supported@.len() == 1 && r.response_types_supported@[0]@ == "code"@,
{
    OpenIDConfiguration {
        issuer: p_config.jwt.oidc_issuer.clone(),
        authorization_endpoint: endpoint_url(p_config, "/oidc/auth"),
        token_endpoint: endpoint_url(p_config, "/oidc/token"),
        userinfo_endpoint: endpoint_url(p_config, "/oidc/userinfo"),
        scopes_supported: vec!["openid"],
        grant_types_supported: vec!["authorization_code"],
        response_types_supported: vec!["code"],
    }
}

} // verus!
