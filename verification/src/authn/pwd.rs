//! Password credential checking. The one registered credential pair is
//! fixed in this build; the decision is exact string equality on both
//! parts.
use vstd::prelude::*;
use crate::text::str_eq;

verus! {

/// The submitted login form: a login name and a password.
#[derive(Debug, PartialEq)]
pub struct AuthnForm<'r> {
    pub u_login: &'r str,
    pub u_password: &'r str,
}

/// Whether the submitted credentials are the registered pair.
pub fn login_pwd(p_authn: &AuthnForm<'_>) -> (r: bool)
    ensures
        r == (p_authn.u_login@ == "ptramo"@ && p_authn.u_password@ == "plopplopplop"@),
{
    str_eq(p_authn.u_login, "ptramo") && str_eq(p_authn.u_password, "plopplopplop")
}

} // verus!
