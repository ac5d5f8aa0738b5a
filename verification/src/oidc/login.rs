//! An earlier shape of the authorization pipeline kept alongside the
//! current one: the same ordered checks against the same process-wide
//! configuration, with the token handed over under the `jwt` query
//! parameter.
use vstd::prelude::*;
use vstd::utf8::encode_utf8;
use vstd::string::StringExecFns;
use crate::config::data::Config;
use crate::jwt::session::{issue, spec_token_bytes, OIDCSessionClaims};
use crate::oidc::auth::spec_auth_claims;
use crate::services::client::{RequestingClient, RequestingClientView};
use crate::services::registry::{spec_authenticate, ServiceAuthenticationError, ServiceRegistry};
use crate::text::{split_bytes, split_spaces, str_eq};

verus! {

/// The response types the protocol names.
#[derive(Clone, Debug, PartialEq)]
pub enum ResponseType {
    Code,
    IdToken,
    Unsupported,
}

/// Exact string match on the protocol's spellings.
pub open spec fn spec_login_response_type(s: Seq<char>) -> ResponseType {
    if s == "code"@ {
        ResponseType::Code
    } else if s == "id_token"@ {
        ResponseType::IdToken
    } else {
        ResponseType::Unsupported
    }
}

impl ResponseType {
    pub fn from_str(p_response_type: &str) -> (r: ResponseType)
        ensures
            r == spec_login_response_type(p_response_type@),
    {
        if str_eq(p_response_type, "code") {
            ResponseType::Code
        } else if str_eq(p_response_type, "id_token") {
            ResponseType::IdToken
        } else {
            ResponseType::Unsupported
        }
    }
}

/// Whether the scope string carries the mandatory `openid` scope.
pub fn check_scope(p_scope: &String) -> (r: bool)
    ensures
        r == crate::oidc::auth::spec_scope_is_valid(encode_utf8(p_scope@)),
{
    crate::oidc::auth::check_scope(p_scope)
}

/// A validated in-flight authorization request.
#[derive(Debug, PartialEq)]
pub struct OIDCAuthzRequest {
    scopes: Vec<String>,
    client: RequestingClient,
    state: Option<String>,
    nonce: Option<String>,
}

/// Why an authorization request was refused.
#[derive(Debug, PartialEq)]
pub enum OIDCAuthzError {
    ClientAuthentication(ServiceAuthenticationError),
    InvalidScope,
    UnsupportedResponseType(ResponseType),
}

/// The outcome of this pipeline.
#[derive(Debug, PartialEq)]
pub enum OIDCAuthzResponse {
    RedirectLogin(String),
    BadRequest(OIDCAuthzError),
    ServerError,
}

/// The same ordered pipeline as the current authorization endpoint,
/// carrying the token under the `jwt` query parameter.
#[verifier::rlimit(100)]
#[verifier::spinoff_prover]
pub fn oidc_authz(
    scope: String,
    response_type: String,
    client_id: String,
    redirect_uri: String,
    state: Option<String>,
    nonce: Option<String>,
    p_service_registry: &ServiceRegistry,
    p_config: &Config,
    p_expiry: usize,
) -> (r: OIDCAuthzResponse)
    ensures
        ({
            let rc = RequestingClientView {
                id: client_id@,
                redirect_uri: redirect_uri@,
                secret: None,
            };
            match spec_authenticate(p_service_registry@, rc) {
                Err(e) => r == OIDCAuthzResponse::BadRequest(
                    OIDCAuthzError::ClientAuthentication(e),
                ),
                Ok(name) => if !crate::oidc::auth::spec_scope_is_valid(encode_utf8(scope@)) {
                    r == OIDCAuthzResponse::BadRequest(OIDCAuthzError::InvalidScope)
                } else if response_type@ == "code"@ {
                    match r {
                        OIDCAuthzResponse::RedirectLogin(u) => {
                            &&& u@.subrange(0, 17) == "/authn/login?jwt="@
                            &&& encode_utf8(u@.skip(17)) == spec_token_bytes(
                                spec_auth_claims(
                                    p_config,
                                    name,
                                    client_id@,
                                    redirect_uri@,
                                    scope@,
                                    state.deep_view(),
                                    nonce.deep_view(),
                                    p_expiry as nat,
                                ),
                                encode_utf8(p_config.jwt.internal_key@),
                            )
                        },
                        _ => false,
                    }
                } else {
                    r matches OIDCAuthzResponse::BadRequest(
                        OIDCAuthzError::UnsupportedResponseType(_),
                    )
                },
            }
        }),
{
    let ghost state_v = state.deep_view();
    let ghost nonce_v = nonce.deep_view();
    let client = RequestingClient::new(client_id, redirect_uri);
    let client_name = match p_service_registry.authenticate(&client) {
        Err(e) => {
            return OIDCAuthzResponse::BadRequest(OIDCAuthzError::ClientAuthentication(e));
        },
        Ok(c) => c,
    };
    if !check_scope(&scope) {
        return OIDCAuthzResponse::BadRequest(OIDCAuthzError::InvalidScope);
    }
    match ResponseType::from_str(response_type.as_str()) {
        ResponseType::Code => {
            let scopes = split_spaces(scope.as_str());
            let request = OIDCAuthzRequest { scopes, client, state, nonce };
            let oidc_claims = OIDCSessionClaims {
                aud: p_config.jwt.internal_authn_aud.clone(),
                exp: p_expiry,
                iss: p_config.jwt.oidc_issuer.clone(),
                client_name,
                client_id: request.client.client_id(),
                redirect_uri: request.client.redirect_uri(),
                scopes: request.scopes,
                state: request.state,
                nonce: request.nonce,
            };
            match issue(&oidc_claims, p_config.jwt.internal_key.as_str().as_bytes()) {
                Ok(t) => {
                    let url = "/authn/login?jwt=".to_owned().concat(t.as_str());
                    proof {
                        reveal_strlit("/authn/login?jwt=");
                        assert(url@.subrange(0, 17) =~= "/authn/login?jwt="@);
                        assert(url@.skip(17) =~= t@);
                        assert(crate::jwt::session::claims_bytes_of(oidc_claims@)
                            == spec_auth_claims(
                            p_config,
                            oidc_claims@.client_name,
                            oidc_claims@.client_id,
                            oidc_claims@.redirect_uri,
                            scope@,
                            state_v,
                            nonce_v,
                            p_expiry as nat,
                        ));
                    }
                    OIDCAuthzResponse::RedirectLogin(url)
                },
                Err(_) => {
                    proof {
                        assert(false);
                    }
                    OIDCAuthzResponse::ServerError
                },
            }
        },
        ResponseType::IdToken => OIDCAuthzResponse::BadRequest(
            OIDCAuthzError::UnsupportedResponseType(ResponseType::IdToken),
        ),
        ResponseType::Unsupported => OIDCAuthzResponse::BadRequest(
            OIDCAuthzError::UnsupportedResponseType(ResponseType::Unsupported),
        ),
    }
}

} // verus!
