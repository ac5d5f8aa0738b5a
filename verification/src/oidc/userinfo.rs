//! The userinfo endpoint: reserved for protocol-discovery
//! completeness; answering claims about the end user is not
//! implemented in this core.
use vstd::prelude::*;
use crate::web::error::{error_page, ErrorContext};

verus! {

/// What the userinfo endpoint answers.
#[derive(Debug, PartialEq)]
pub enum OIDCUserInfoResponse {
    UserInfo(String),
    Unauthorized(ErrorContext<'static>),
    Forbidden(ErrorContext<'static>),
    ServerError(ErrorContext<'static>),
}

/// The endpoint exists but always answers that it is not implemented.
pub fn endpoint() -> (r: OIDCUserInfoResponse)
    ensures
        r matches OIDCUserInfoResponse::ServerError(c) ==> c.error_code == 500
            && c.error_message@ == "Not implemented"@,
        r is ServerError,
{
    OIDCUserInfoResponse::ServerError(
        error_page(500, "Not implemented", "The OIDC userinfo endpoint is not yet implemented"),
    )
}

} // verus!
