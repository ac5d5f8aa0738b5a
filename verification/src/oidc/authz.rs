//! The earliest shape of the authorization entry point, kept
//! alongside the newer pipelines: it checks the registered redirect
//! URI and the scope against the client registry and answers with a
//! plain text body.
use vstd::prelude::*;
use vstd::string::StringExecFns;
use vstd::utf8::encode_utf8;
use crate::clients::registry::{spec_find_client, ClientRegistry};
use crate::text::str_eq;

verus! {

/// The claims an incoming request makes about its client.
#[derive(Debug, PartialEq)]
pub struct RequestingClient {
    id: String,
    redirect_uri: String,
    secret: Option<String>,
}

/// Spec-level image of a `RequestingClient`.
pub struct AuthzRequestingClientView {
    pub id: Seq<char>,
    pub redirect_uri: Seq<char>,
    pub secret: Option<Seq<char>>,
}

impl View for RequestingClient {
    type V = AuthzRequestingClientView;

    closed spec fn view(&self) -> AuthzRequestingClientView {
        AuthzRequestingClientView {
            id: self.id@,
            redirect_uri: self.redirect_uri@,
            secret: self.secret.deep_view(),
        }
    }
}

impl RequestingClient {
    pub fn new(p_client_id: String, p_redirect_uri: String) -> (r: RequestingClient)
        ensures
            r@.id == p_client_id@,
            r@.redirect_uri == p_redirect_uri@,
            r@.secret is None,
    {
        RequestingClient { id: p_client_id, redirect_uri: p_redirect_uri, secret: None }
    }
}

/// An in-flight request of this entry point.
#[derive(Debug, PartialEq)]
pub struct OIDCAuthzRequest {
    scopes: Vec<String>,
    client: RequestingClient,
    state: String,
}

/// Whether the scope string carries the mandatory `openid` scope.
pub fn oidc_check_scope(p_scope: &String) -> (r: bool)
    ensures
        r == crate::oidc::auth::spec_scope_is_valid(encode_utf8(p_scope@)),
{
    crate::oidc::auth::check_scope(p_scope)
}

/// What this entry point answers: an error line for an unknown client,
/// an unregistered redirect URI or a missing scope, and otherwise an
/// echo of the accepted request.
pub fn oidc_authz(
    scope: String,
    client_id: String,
    redirect_uri: String,
    state: String,
    p_client_registry: &ClientRegistry,
) -> (r: String)
    ensures
        ({
            let found = spec_find_client(p_client_registry@, client_id@);
            if found is None {
                r@ == "Unknown client"@
            } else if !found->Some_0.redirect_uris.contains(redirect_uri@) {
                r@ == "Redirect URI not registered for that client"@
            } else if !crate::oidc::auth::spec_scope_is_valid(encode_utf8(scope@)) {
                r@ == "Unknown scope"@
            } else {
                r@ == "OIDC Endpoint : authorization\n  - client_id: "@ + client_id@
                    + "\n  - redirect_uri: "@ + redirect_uri@ + "\n  - state: "@ + state@
            }
        }),
{
    let client = RequestingClient::new(client_id, redirect_uri);
    match p_client_registry.has_registered_uri(&client.id, &client.redirect_uri) {
        Ok(c) => {
            if !c {
                return "Redirect URI not registered for that client".to_owned();
            }
        },
        Err(m) => {
            proof {
                reveal_strlit("Unknown client");
            }
            return m.to_owned();
        },
    }
    if !oidc_check_scope(&scope) {
        return "Unknown scope".to_owned();
    }
    let request = OIDCAuthzRequest { scopes: vec![scope], client, state };
    let mut out = "OIDC Endpoint : authorization\n  - client_id: ".to_owned();
    out.append(request.client.id.as_str());
    out.append("\n  - redirect_uri: ");
    out.append(request.client.redirect_uri.as_str());
    out.append("\n  - state: ");
    out.append(request.state.as_str());
    out
}

} // verus!
