//! The claims an incoming request makes about the client it speaks for.
use vstd::prelude::*;

verus! {

/// What a runtime request claims about itself: a client id, a single
/// redirect URI, and an optional shared secret. Ephemeral, one per request.
#[derive(Debug, PartialEq)]
pub struct RequestingClient {
    id: String,
    redirect_uri: String,
    secret: Option<String>,
}

/// Spec-level image of a `RequestingClient`.
pub struct RequestingClientView {
    pub id: Seq<char>,
    pub redirect_uri: Seq<char>,
    pub secret: Option<Seq<char>>,
}

impl View for RequestingClient {
    type V = RequestingClientView;

    closed spec fn view(&self) -> RequestingClientView {
        RequestingClientView {
            id: self.id@,
            redirect_uri: self.redirect_uri@,
            secret: self.secret.deep_view(),
        }
    }
}

impl RequestingClient {
    pub fn new(p_service_id: String, p_redirect_uri: String) -> (r: RequestingClient)
        ensures
            r@.id == p_service_id@,
            r@.redirect_uri == p_redirect_uri@,
            r@.secret is None,
    {
        RequestingClient { id: p_service_id, redirect_uri: p_redirect_uri, secret: None }
    }

    /// As `new`, but carrying a secret offered by the request.
    pub fn with_secret(p_service_id: String, p_redirect_uri: String, p_secret: String) -> (r:
        RequestingClient)
        ensures
            r@.id == p_service_id@,
            r@.redirect_uri == p_redirect_uri@,
            r@.secret == Some(p_secret@),
    {
        RequestingClient { id: p_service_id, redirect_uri: p_redirect_uri, secret: Some(p_secret) }
    }

    pub fn client_id(&self) -> (r: String)
        ensures
            r@ == self@.id,
    {
        self.id.clone()
    }

    pub fn client_secret(&self) -> (r: Option<&String>)
        ensures
            crate::services::service::opt_str_view(r) == self@.secret,
    {
        self.secret.as_ref()
    }

    pub fn redirect_uri(&self) -> (r: String)
        ensures
            r@ == self@.redirect_uri,
    {
        self.redirect_uri.clone()
    }
}

} // verus!
