//! The token endpoint: reserved for protocol-discovery completeness;
//! exchanging an authorization code for tokens is not implemented in
//! this core.
use vstd::prelude::*;
use crate::web::error::{error_page, ErrorContext};

verus! {

/// What the token endpoint answers.
#[derive(Debug, PartialEq)]
pub enum OIDCTokenResponse {
    AccessToken(String),
    ServerError(ErrorContext<'static>),
}

/// The endpoint exists but always answers that it is not implemented.
pub fn endpoint() -> (r: OIDCTokenResponse)
    ensures
        r matches OIDCTokenResponse::ServerError(c) ==> c.error_code == 500 && c.error_message@
            == "Not implemented"@,
        r is ServerError,
{
    OIDCTokenResponse::ServerError(
        error_page(500, "Not implemented", "The OIDC token endpoint is not yet implemented"),
    )
}

} // verus!
