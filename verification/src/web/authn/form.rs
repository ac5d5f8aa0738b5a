//! The login page's decision: with no session token, show the generic
//! form; with one, check it and show the form addressed to the
//! requesting client by name; a bad token is refused.
use vstd::prelude::*;
use vstd::utf8::encode_utf8;
use crate::config::data::Config;
use crate::jwt::session::{spec_verify, verify_token, TokenError};

verus! {

/// Which login page to show.
#[derive(Debug, PartialEq)]
pub enum AuthnLoginResponse {
    /// No session token: the plain login form.
    GenericLoginForm,
    /// A valid token: the form naming the client the user is signing
    /// in to, with the token carried along.
    ClientLoginForm { client_name: String, session_jwt: String },
    /// The token was rejected; the payload says why.
    BadRequest(TokenError),
}

/// Decide which login page the login step shows.
pub fn login(session: Option<String>, p_config: &Config, p_now: usize) -> (r: AuthnLoginResponse)
    ensures
        session is None ==> r == AuthnLoginResponse::GenericLoginForm,
        session matches Some(token) ==> match spec_verify(
            encode_utf8(token@),
            encode_utf8(p_config.jwt.internal_key@),
            p_config.jwt.oidc_issuer@,
            p_config.jwt.internal_authn_aud@,
            p_now as nat,
        ) {
            Err(e) => r == AuthnLoginResponse::BadRequest(e),
            Ok(v) => r matches AuthnLoginResponse::ClientLoginForm { client_name, session_jwt }
                && client_name@ == v.client_name && session_jwt@ == token@,
        },
{
    match session {
        None => AuthnLoginResponse::GenericLoginForm,
        Some(token) => {
            match verify_token(
                token.as_str(),
                p_config.jwt.internal_key.as_str().as_bytes(),
                p_config.jwt.oidc_issuer.as_str(),
                p_config.jwt.internal_authn_aud.as_str(),
                p_now,
            ) {
                Err(e) => AuthnLoginResponse::BadRequest(e),
                Ok(decoded) => AuthnLoginResponse::ClientLoginForm {
                    client_name: decoded.client_name,
                    session_jwt: token,
                },
            }
        },
    }
}

} // verus!
