//! The authorization endpoint's decision pipeline: authenticate the
//! client, check the scope, dispatch on the response type, and for the
//! code flow mint the session token and point the user agent at the
//! login step. A second entry point resumes the flow after login by
//! checking the token and pointing back at the client.
use vstd::prelude::*;
use vstd::utf8::encode_utf8;
use crate::config::data::Config;
use crate::jwt::payload::strs_bytes;
use crate::jwt::payload::ClaimsBytes;
use crate::jwt::session::{
    issue,
    spec_token_bytes,
    spec_verify,
    verify_token,
    OIDCSessionClaims,
    TokenError,
};
use crate::random::{is_alphanumeric_char, random_alphanumeric_string};
use crate::services::client::RequestingClient;
use crate::services::registry::{spec_authenticate, ServiceAuthenticationError, ServiceRegistry};
use crate::services::client::RequestingClientView;
use crate::text::{split_bytes, split_spaces, str_eq};
use vstd::string::StringExecFns;

verus! {

/// The response types the protocol names; only `Code` is executable
/// here, but an explicitly unsupported type and a malformed one stay
/// distinguishable for diagnostics.
#[derive(Clone, Debug, PartialEq)]
pub enum ResponseType {
    Code,
    IdToken,
    Unsupported,
}

/// Exact string match on the protocol's spellings.
pub open spec fn spec_response_type(s: Seq<char>) -> ResponseType {
    if s == "code"@ {
        ResponseType::Code
    } else if s == "id_token"@ {
        ResponseType::IdToken
    } else {
        ResponseType::Unsupported
    }
}

impl ResponseType {
    pub fn from_str(p_response_type: &str) -> (r: ResponseType)
        ensures
            r == spec_response_type(p_response_type@),
    {
        if str_eq(p_response_type, "code") {
            ResponseType::Code
        } else if str_eq(p_response_type, "id_token") {
            ResponseType::IdToken
        } else {
            ResponseType::Unsupported
        }
    }
}

/// The UTF-8 spelling of the mandatory scope word.
pub open spec fn openid_bytes() -> Seq<u8> {
    seq![111u8, 112u8, 101u8, 110u8, 105u8, 100u8]  // openid
}

/// The word stands at `i` as a whole space-delimited piece.
pub open spec fn scope_token_at(b: Seq<u8>, i: int) -> bool {
    &&& 0 <= i
    &&& i + 6 <= b.len()
    &&& b.subrange(i, i + 6) == openid_bytes()
    &&& (i == 0 || b[i - 1] == 32)
    &&& (i + 6 == b.len() || b[i + 6] == 32)
}

/// The space-delimited pieces of the scope string contain `openid`;
/// other pieces pass through unvalidated.
pub open spec fn spec_scope_is_valid(b: Seq<u8>) -> bool {
    exists|i: int| scope_token_at(b, i)
}

/// Whether the scope string carries the mandatory `openid` scope.
pub fn check_scope(p_scope: &String) -> (r: bool)
    ensures
        r == spec_scope_is_valid(encode_utf8(p_scope@)),
{
    let b = p_scope.as_str().as_bytes();
    let n = b.len();
    if n < 6 {
        proof {
            assert(forall|i: int| !scope_token_at(b@, i));
        }
        return false;
    }
    let mut i: usize = 0;
    while n - i >= 6
        invariant
            i <= n,
            n == b@.len(),
            b@ == encode_utf8(p_scope@),
            forall|k: int| k < i ==> !scope_token_at(b@, k),
        decreases n - i,
    {
        if b[i] == 111 && b[i + 1] == 112 && b[i + 2] == 101 && b[i + 3] == 110 && b[i + 4] == 105
            && b[i + 5] == 100 && (i == 0 || b[i - 1] == 32) && (i + 6 == n || b[i + 6] == 32) {
            proof {
                assert(b@.subrange(i as int, i + 6) =~= openid_bytes());
                assert(scope_token_at(b@, i as int));
            }
            return true;
        }
        proof {
            if scope_token_at(b@, i as int) {
                assert(b@[i as int] == openid_bytes()[0]);
                assert(b@[i + 1] == openid_bytes()[1]);
                assert(b@[i + 2] == openid_bytes()[2]);
                assert(b@[i + 3] == openid_bytes()[3]);
                assert(b@[i + 4] == openid_bytes()[4]);
                assert(b@[i + 5] == openid_bytes()[5]);
            }
        }
        i += 1;
    }
    proof {
        assert(forall|k: int| i <= k ==> k + 6 > b@.len() ==> !scope_token_at(b@, k));
        assert(forall|k: int| !scope_token_at(b@, k));
    }
    false
}

/// A validated in-flight authorization request: the parsed scopes, the
/// authenticated client's claims, and the pass-through parameters.
#[derive(Debug, PartialEq)]
pub struct OIDCAuthRequest {
    scopes: Vec<String>,
    client: RequestingClient,
    state: Option<String>,
    nonce: Option<String>,
}

/// Why an authorization request was refused; client-caused, terminal.
#[derive(Debug, PartialEq)]
pub enum OIDCAuthError {
    /// The registry refused the client's claims.
    ClientAuthentication(ServiceAuthenticationError),
    /// The mandatory `openid` scope is missing.
    InvalidScope,
    /// The response type is understood but not executable here, or not
    /// understood at all; the payload says which.
    UnsupportedResponseType(ResponseType),
}

/// The outcome of the authorization endpoint.
#[derive(Debug, PartialEq)]
pub enum OIDCAuthResponse {
    /// Send the user agent to the login step with the session token.
    RedirectLogin(String),
    /// Refuse the request as client-caused.
    BadRequest(OIDCAuthError),
    /// The token could not be minted; a server-side failure.
    ServerError,
}

/// The byte-level session claims that the authorization endpoint mints
/// for an authenticated request.
pub open spec fn spec_auth_claims(
    p_config: &Config,
    client_name: Seq<char>,
    client_id: Seq<char>,
    redirect_uri: Seq<char>,
    scope: Seq<char>,
    state: Option<Seq<char>>,
    nonce: Option<Seq<char>>,
    expiry: nat,
) -> ClaimsBytes {
    ClaimsBytes {
        aud: encode_utf8(p_config.jwt.internal_authn_aud@),
        exp: expiry,
        iss: encode_utf8(p_config.jwt.oidc_issuer@),
        client_name: encode_utf8(client_name),
        client_id: encode_utf8(client_id),
        redirect_uri: encode_utf8(redirect_uri),
        scopes: split_bytes(encode_utf8(scope), 32),
        state: crate::jwt::session::opt_utf8(state),
        nonce: crate::jwt::session::opt_utf8(nonce),
    }
}

/// Mint the session token for the claims and point at the login step.
#[verifier::rlimit(100)]
#[verifier::spinoff_prover]
fn mint_login_redirect(p_claims: &OIDCSessionClaims, p_key: &[u8]) -> (r: OIDCAuthResponse)
    ensures
        r is RedirectLogin,
        r matches OIDCAuthResponse::RedirectLogin(u) ==> u@.subrange(0, 21)
            == "/authn/login?session="@ && encode_utf8(u@.skip(21)) == spec_token_bytes(
            crate::jwt::session::claims_bytes_of(p_claims@),
            p_key@,
        ),
{
    match issue(p_claims, p_key) {
        Ok(t) => {
            let url = "/authn/login?session=".to_owned().concat(t.as_str());
            proof {
                reveal_strlit("/authn/login?session=");
                assert(url@.subrange(0, 21) =~= "/authn/login?session="@);
                assert(url@.skip(21) =~= t@);
            }
            OIDCAuthResponse::RedirectLogin(url)
        },
        Err(_) => {
            proof {
                assert(false);
            }
            OIDCAuthResponse::ServerError
        },
    }
}

/// The code-flow branch: split the scopes, assemble the session
/// claims, and mint the redirect to the login step.
#[verifier::rlimit(100)]
#[verifier::spinoff_prover]
fn code_flow(
    scope: String,
    client: RequestingClient,
    client_name: String,
    state: Option<String>,
    nonce: Option<String>,
    p_config: &Config,
    p_expiry: usize,
) -> (r: OIDCAuthResponse)
    ensures
        r is RedirectLogin,
        r matches OIDCAuthResponse::RedirectLogin(u) ==> u@.subrange(0, 21)
            == "/authn/login?session="@ && encode_utf8(u@.skip(21)) == spec_token_bytes(
            spec_auth_claims(
                p_config,
                client_name@,
                client@.id,
                client@.redirect_uri,
                scope@,
                state.deep_view(),
                nonce.deep_view(),
                p_expiry as nat,
            ),
            encode_utf8(p_config.jwt.internal_key@),
        ),
{
    let ghost state_v = state.deep_view();
    let ghost nonce_v = nonce.deep_view();
    let scopes = split_spaces(scope.as_str());
    let request = OIDCAuthRequest { scopes, client, state, nonce };
    let oidc_claims = OIDCSessionClaims {
        aud: p_config.jwt.internal_authn_aud.clone(),
        exp: p_expiry,
        iss: p_config.jwt.oidc_issuer.clone(),
        client_name,
        client_id: request.client.client_id(),
        redirect_uri: request.client.redirect_uri(),
        scopes: request.scopes,
        state: request.state,
        nonce: request.nonce,
    };
    let resp = mint_login_redirect(&oidc_claims, p_config.jwt.internal_key.as_str().as_bytes());
    proof {
        assert(crate::jwt::session::claims_bytes_of(oidc_claims@).scopes == strs_bytes(
            oidc_claims@.scopes,
        ));
        assert(crate::jwt::session::claims_bytes_of(oidc_claims@) == spec_auth_claims(
            p_config,
            oidc_claims@.client_name,
            oidc_claims@.client_id,
            oidc_claims@.redirect_uri,
            scope@,
            state_v,
            nonce_v,
            p_expiry as nat,
        ));
    }
    resp
}

/// The authorization endpoint's decision: the ordered pipeline of
/// client authentication, scope check and response-type dispatch, and
/// for the code flow a redirect to the login step carrying the minted
/// session token with the given absolute expiry.
#[verifier::rlimit(100)]
#[verifier::spinoff_prover]
pub fn endpoint(
    scope: String,
    response_type: String,
    client_id: String,
    redirect_uri: String,
    state: Option<String>,
    nonce: Option<String>,
    p_service_registry: &ServiceRegistry,
    p_config: &Config,
    p_expiry: usize,
) -> (r: OIDCAuthResponse)
    ensures
        ({
            let rc = RequestingClientView {
                id: client_id@,
                redirect_uri: redirect_uri@,
                secret: None,
            };
            match spec_authenticate(p_service_registry@, rc) {
                Err(e) => r == OIDCAuthResponse::BadRequest(
                    OIDCAuthError::ClientAuthentication(e),
                ),
                Ok(name) => if !spec_scope_is_valid(encode_utf8(scope@)) {
                    r == OIDCAuthResponse::BadRequest(OIDCAuthError::InvalidScope)
                } else {
                    match spec_response_type(response_type@) {
                        ResponseType::Code => match r {
                            OIDCAuthResponse::RedirectLogin(u) => {
                                &&& u@.subrange(0, 21) == "/authn/login?session="@
                                &&& encode_utf8(u@.skip(21)) == spec_token_bytes(
                                    spec_auth_claims(
                                        p_config,
                                        name,
                                        client_id@,
                                        redirect_uri@,
                                        scope@,
                                        state.deep_view(),
                                        nonce.deep_view(),
                                        p_expiry as nat,
                                    ),
                                    encode_utf8(p_config.jwt.internal_key@),
                                )
                            },
                            _ => false,
                        },
                        ResponseType::IdToken => r == OIDCAuthResponse::BadRequest(
                            OIDCAuthError::UnsupportedResponseType(ResponseType::IdToken),
                        ),
                        ResponseType::Unsupported => r == OIDCAuthResponse::BadRequest(
                            OIDCAuthError::UnsupportedResponseType(ResponseType::Unsupported),
                        ),
                    }
                },
            }
        }),
{
    let client = RequestingClient::new(client_id, redirect_uri);
    let client_name = match p_service_registry.authenticate(&client) {
        Err(e) => {
            return OIDCAuthResponse::BadRequest(OIDCAuthError::ClientAuthentication(e));
        },
        Ok(c) => c,
    };
    if !check_scope(&scope) {
        return OIDCAuthResponse::BadRequest(OIDCAuthError::InvalidScope);
    }
    let rt = ResponseType::from_str(response_type.as_str());
    match rt {
        ResponseType::Code => code_flow(
            scope,
            client,
            client_name,
            state,
            nonce,
            p_config,
            p_expiry,
        ),
        ResponseType::IdToken => OIDCAuthResponse::BadRequest(
            OIDCAuthError::UnsupportedResponseType(ResponseType::IdToken),
        ),
        ResponseType::Unsupported => OIDCAuthResponse::BadRequest(
            OIDCAuthError::UnsupportedResponseType(ResponseType::Unsupported),
        ),
    }
}

/// The outcome of resuming the flow with a presented session token.
#[derive(Debug, PartialEq)]
pub enum OIDCRedirectResponse {
    /// Send the user agent back to the client's redirect URI with a
    /// fresh authorization code appended.
    RedirectToClient(String),
    /// The token was rejected; the payload says why.
    BadSessionToken(TokenError),
}

/// Resume the flow after the login step: check the presented session
/// token against the configured key, issuer and internal audience at
/// the given time, and on success emit the redirect to the client's
/// registered URI carrying a fresh, unpredictable authorization code.
#[verifier::rlimit(100)]
#[verifier::spinoff_prover]
pub fn redirect(session: String, p_config: &Config, p_now: usize) -> (r: OIDCRedirectResponse)
    ensures
        ({
            let outcome = spec_verify(
                encode_utf8(session@),
                encode_utf8(p_config.jwt.internal_key@),
                p_config.jwt.oidc_issuer@,
                p_config.jwt.internal_authn_aud@,
                p_now as nat,
            );
            match outcome {
                Err(e) => r == OIDCRedirectResponse::BadSessionToken(e),
                Ok(v) => match r {
                    OIDCRedirectResponse::RedirectToClient(u) => exists|code: Seq<char>|
                        {
                            &&& #[trigger] u@ == v.redirect_uri + "?code="@ + code
                            &&& code.len() == 32
                            &&& forall|k: int|
                                0 <= k < code.len() ==> is_alphanumeric_char(#[trigger] code[k])
                        },
                    _ => false,
                },
            }
        }),
{
    match verify_token(
        session.as_str(),
        p_config.jwt.internal_key.as_str().as_bytes(),
        p_config.jwt.oidc_issuer.as_str(),
        p_config.jwt.internal_authn_aud.as_str(),
        p_now,
    ) {
        Err(e) => OIDCRedirectResponse::BadSessionToken(e),
        Ok(token) => {
            let access_code = random_alphanumeric_string(32);
            let ghost code = access_code@;
            let ghost ruri = token@.redirect_uri;
            let redirect_uri = token.redirect_uri.concat("?code=").concat(access_code.as_str());
            proof {
                assert(redirect_uri@ =~= ruri + "?code="@ + code);
            }
            OIDCRedirectResponse::RedirectToClient(redirect_uri)
        },
    }
}

/// The token the code flow mints is verifiable: under the same
/// configuration, at any time before the expiry, it verifies back to
/// claims carrying the request's client id, redirect URI, display
/// name, state, nonce and expiry.
pub proof fn lemma_minted_token_verifies(
    p_config: &Config,
    client_name: Seq<char>,
    client_id: Seq<char>,
    redirect_uri: Seq<char>,
    scope: Seq<char>,
    state: Option<Seq<char>>,
    nonce: Option<Seq<char>>,
    expiry: nat,
    now: nat,
)
    requires
        now < expiry,
        expiry <= usize::MAX as nat,
    ensures
        ({
            let cb = spec_auth_claims(
                p_config,
                client_name,
                client_id,
                redirect_uri,
                scope,
                state,
                nonce,
                expiry,
            );
            let key = encode_utf8(p_config.jwt.internal_key@);
            let v = crate::jwt::session::claims_view_of(cb);
            &&& crate::jwt::session::spec_verify(
                crate::jwt::session::spec_token_bytes(cb, key),
                key,
                p_config.jwt.oidc_issuer@,
                p_config.jwt.internal_authn_aud@,
                now,
            ) == Ok::<crate::jwt::session::ClaimsView, TokenError>(v)
            &&& v.client_id == client_id
            &&& v.client_name == client_name
            &&& v.redirect_uri == redirect_uri
            &&& v.state == state
            &&& v.nonce == nonce
            &&& v.exp == expiry
        }),
{
    broadcast use vstd::utf8::encode_utf8_valid_utf8, vstd::utf8::encode_utf8_decode_utf8;

    let cb = spec_auth_claims(
        p_config,
        client_name,
        client_id,
        redirect_uri,
        scope,
        state,
        nonce,
        expiry,
    );
    let key = encode_utf8(p_config.jwt.internal_key@);
    crate::text::lemma_split_bytes_pieces_valid(encode_utf8(scope));
    assert(crate::jwt::session::claims_utf8_ok(cb)) by {
        match state {
            Option::None => {},
            Option::Some(t) => {
                assert(vstd::utf8::valid_utf8(encode_utf8(t)));
            },
        }
        match nonce {
            Option::None => {},
            Option::Some(t) => {
                assert(vstd::utf8::valid_utf8(encode_utf8(t)));
            },
        }
    }
    crate::jwt::session::lemma_claims_view_of_bytes(cb);
    let v = crate::jwt::session::claims_view_of(cb);
    crate::jwt::session::lemma_issue_verify_roundtrip(v, key, now);
    assert(v.iss == p_config.jwt.oidc_issuer@);
    assert(v.aud == p_config.jwt.internal_authn_aud@);
    match state {
        Option::None => {},
        Option::Some(t) => {
            assert(vstd::utf8::decode_utf8(encode_utf8(t)) == t);
        },
    }
    match nonce {
        Option::None => {},
        Option::Some(t) => {
            assert(vstd::utf8::decode_utf8(encode_utf8(t)) == t);
        },
    }
}

} // verus!
