//! A registered relying party and the rules that authenticate a request
//! against it: the optional shared secret and the exact-match redirect URIs.
use vstd::prelude::*;

verus! {

/// A relying party as handed in for registration: it has no id yet,
/// the registry assigns one.
#[derive(Debug, PartialEq)]
pub struct NewService {
    name: String,
    redirect_uris: Vec<String>,
}

/// Spec-level image of a `NewService`.
pub struct NewServiceView {
    pub name: Seq<char>,
    pub redirect_uris: Seq<Seq<char>>,
}

impl View for NewService {
    type V = NewServiceView;

    closed spec fn view(&self) -> NewServiceView {
        NewServiceView { name: self.name@, redirect_uris: self.redirect_uris.deep_view() }
    }
}

impl NewService {
    pub fn new(p_name: String, p_redirect_uris: Vec<String>) -> (r: NewService)
        ensures
            r@.name == p_name@,
            r@.redirect_uris == p_redirect_uris.deep_view(),
    {
        NewService { name: p_name, redirect_uris: p_redirect_uris }
    }
}

#[derive(Debug, PartialEq)]
pub enum ServiceSecretSuccess {
    NoSecretNeeded,
    SecretMatched,
}

#[derive(Debug, PartialEq)]
pub enum ServiceSecretError {
    NoSecretRegistered,
    NoSecretProvided,
    SecretsDoNotMatch,
}

/// A relying party known to the provider.
#[derive(Debug, PartialEq)]
pub struct RegisteredService {
    id: String,
    name: String,
    redirect_uris: Vec<String>,
    secret: Option<String>,
}

/// Spec-level image of a `RegisteredService`.
pub struct ServiceView {
    pub id: Seq<char>,
    pub name: Seq<char>,
    pub redirect_uris: Seq<Seq<char>>,
    pub secret: Option<Seq<char>>,
}

impl View for RegisteredService {
    type V = ServiceView;

    closed spec fn view(&self) -> ServiceView {
        ServiceView {
            id: self.id@,
            name: self.name@,
            redirect_uris: self.redirect_uris.deep_view(),
            secret: self.secret.deep_view(),
        }
    }
}

impl DeepView for RegisteredService {
    type V = ServiceView;

    open spec fn deep_view(&self) -> ServiceView {
        self@
    }
}

impl ServiceView {
    /// A service entity is acceptable for registration only with a
    /// non-empty id and at least one redirect URI.
    pub open spec fn valid(self) -> bool {
        self.id.len() > 0 && self.redirect_uris.len() > 0
    }
}

/// The outcome of checking a provided secret against a registered one.
/// A secret offered where none is registered is an error by design, not
/// silently ignored.
pub open spec fn spec_authn_by_secret(
    registered: Option<Seq<char>>,
    provided: Option<Seq<char>>,
) -> Result<ServiceSecretSuccess, ServiceSecretError> {
    match registered {
        None => match provided {
            None => Ok(ServiceSecretSuccess::NoSecretNeeded),
            Some(_) => Err(ServiceSecretError::NoSecretRegistered),
        },
        Some(s) => match provided {
            None => Err(ServiceSecretError::NoSecretProvided),
            Some(p) => if p == s {
                Ok(ServiceSecretSuccess::SecretMatched)
            } else {
                Err(ServiceSecretError::SecretsDoNotMatch)
            },
        },
    }
}

/// Spec-level image of an `Option<&String>` argument.
pub open spec fn opt_str_view(o: Option<&String>) -> Option<Seq<char>> {
    match o {
        None => None,
        Some(s) => Some(s@),
    }
}

impl RegisteredService {
    pub fn new(p_name: String, p_service_id: String, p_redirect_uri: String) -> (r:
        RegisteredService)
        ensures
            r@.id == p_service_id@,
            r@.name == p_name@,
            r@.redirect_uris =~= seq![p_redirect_uri@],
            r@.secret is None,
    {
        RegisteredService {
            id: p_service_id,
            name: p_name,
            redirect_uris: vec![p_redirect_uri],
            secret: None,
        }
    }

    pub fn from_service(p_service: NewService, p_service_id: String) -> (r: RegisteredService)
        ensures
            r@.id == p_service_id@,
            r@.name == p_service@.name,
            r@.redirect_uris == p_service@.redirect_uris,
            r@.secret is None,
    {
        RegisteredService {
            id: p_service_id,
            name: p_service.name,
            redirect_uris: p_service.redirect_uris,
            secret: None,
        }
    }

    /// A registered service with all its parts given by the caller,
    /// as a definition file supplies them.
    pub fn with_details(
        p_service_id: String,
        p_name: String,
        p_redirect_uris: Vec<String>,
        p_secret: Option<String>,
    ) -> (r: RegisteredService)
        ensures
            r@.id == p_service_id@,
            r@.name == p_name@,
            r@.redirect_uris == p_redirect_uris.deep_view(),
            r@.secret == p_secret.deep_view(),
    {
        RegisteredService {
            id: p_service_id,
            name: p_name,
            redirect_uris: p_redirect_uris,
            secret: p_secret,
        }
    }

    /// As `new`, but with a registered shared secret.
    pub fn with_secret(
        p_name: String,
        p_service_id: String,
        p_redirect_uri: String,
        p_secret: String,
    ) -> (r: RegisteredService)
        ensures
            r@.id == p_service_id@,
            r@.name == p_name@,
            r@.redirect_uris =~= seq![p_redirect_uri@],
            r@.secret == Some(p_secret@),
    {
        RegisteredService {
            id: p_service_id,
            name: p_name,
            redirect_uris: vec![p_redirect_uri],
            secret: Some(p_secret),
        }
    }

    pub fn name(&self) -> (r: String)
        ensures
            r@ == self@.name,
    {
        self.name.clone()
    }

    pub fn client_id(&self) -> (r: String)
        ensures
            r@ == self@.id,
    {
        self.id.clone()
    }

    /// Exact string match against the registered set; no wildcard or
    /// prefix matching.
    pub fn has_redirect_uri(&self, p_redirect_uri: &String) -> (r: bool)
        ensures
            r == self@.redirect_uris.contains(p_redirect_uri@),
    {
        let mut i: usize = 0;
        while i < self.redirect_uris.len()
            invariant
                0 <= i <= self.redirect_uris.len(),
                forall|j: int| 0 <= j < i ==> self@.redirect_uris[j] != p_redirect_uri@,
                self@.redirect_uris == self.redirect_uris.deep_view(),
            decreases self.redirect_uris.len() - i,
        {
            if self.redirect_uris[i].eq(p_redirect_uri) {
                assert(self@.redirect_uris[i as int] == p_redirect_uri@);
                return true;
            }
            i += 1;
        }
        false
    }

    pub fn authn_by_secret(&self, p_service_secret: Option<&String>) -> (r: Result<
        ServiceSecretSuccess,
        ServiceSecretError,
    >)
        ensures
            r == spec_authn_by_secret(self@.secret, opt_str_view(p_service_secret)),
    {
        match &self.secret {
            None => match p_service_secret {
                None => Ok(ServiceSecretSuccess::NoSecretNeeded),
                Some(_) => Err(ServiceSecretError::NoSecretRegistered),
            },
            Some(s) => match p_service_secret {
                None => Err(ServiceSecretError::NoSecretProvided),
                Some(s2) => if s.eq(s2) {
                    Ok(ServiceSecretSuccess::SecretMatched)
                } else {
                    Err(ServiceSecretError::SecretsDoNotMatch)
                },
            },
        }
    }

    pub fn has_secret(&self) -> (r: bool)
        ensures
            r == (self@.secret is Some),
    {
        self.secret.is_some()
    }

    pub fn is_valid(&self) -> (r: bool)
        ensures
            r == self@.valid(),
    {
        !self.id.as_str().is_empty() && self.redirect_uris.len() > 0
    }
}

} // verus!
