//! The password form handler of the login step: check the session
//! token, then the submitted credentials, and either send the user
//! agent on to the resume endpoint or refuse.
use vstd::prelude::*;
use vstd::string::StringExecFns;
use vstd::utf8::encode_utf8;
use crate::config::data::Config;
use crate::jwt::session::{spec_verify, verify_token, TokenError};
use crate::text::str_eq;

verus! {

/// The submitted login form: a login name and a password.
#[derive(Debug, PartialEq)]
pub struct AuthnForm<'r> {
    pub u_login: &'r str,
    pub u_password: &'r str,
}

/// The outcome of the password form.
#[derive(Debug, PartialEq)]
pub enum PwdFormResponse {
    /// Credentials accepted: send the user agent to the resume
    /// endpoint with the same token, unmodified.
    AuthnSuccess(String),
    /// Credentials refused.
    AuthnFailure,
    /// The session token was rejected; the payload says why.
    BadSessionToken(TokenError),
}

/// Decide the password form: the session token must verify under the
/// configured key, issuer and internal audience at the given time, and
/// the credentials must be the registered pair.
pub fn login_pwd(
    session: String,
    p_authn: &AuthnForm<'_>,
    p_config: &Config,
    p_now: usize,
) -> (r: PwdFormResponse)
    ensures
        ({
            let outcome = spec_verify(
                encode_utf8(session@),
                encode_utf8(p_config.jwt.internal_key@),
                p_config.jwt.oidc_issuer@,
                p_config.jwt.internal_authn_aud@,
                p_now as nat,
            );
            match outcome {
                Err(e) => r == PwdFormResponse::BadSessionToken(e),
                Ok(_) => if p_authn.u_login@ == "ptramo"@ && p_authn.u_password@
                    == "plopplopplop"@ {
                    r matches PwdFormResponse::AuthnSuccess(u) && u@
                        == "/oidc/auth_redirect?session="@ + session@
                } else {
                    r == PwdFormResponse::AuthnFailure
                },
            }
        }),
{
    match verify_token(
        session.as_str(),
        p_config.jwt.internal_key.as_str().as_bytes(),
        p_config.jwt.oidc_issuer.as_str(),
        p_config.jwt.internal_authn_aud.as_str(),
        p_now,
    ) {
        Err(e) => PwdFormResponse::BadSessionToken(e),
        Ok(_) => {
            if str_eq(p_authn.u_login, "ptramo") && str_eq(p_authn.u_password, "plopplopplop") {
                let url = "/oidc/auth_redirect?session=".to_owned().concat(session.as_str());
                PwdFormResponse::AuthnSuccess(url)
            } else {
                PwdFormResponse::AuthnFailure
            }
        },
    }
}

} // verus!
