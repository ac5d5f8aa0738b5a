//! The in-memory registry of relying parties, and the ordered
//! authentication pipeline that checks an incoming request against it.
use vstd::prelude::*;
use vstd::string::StringExecFns;
use crate::services::client::{RequestingClient, RequestingClientView};
use crate::services::service::{
    spec_authn_by_secret,
    NewService,
    RegisteredService,
    ServiceSecretError,
    ServiceSecretSuccess,
    ServiceView,
};

verus! {

#[derive(Debug, PartialEq)]
pub enum ServiceAuthenticationError {
    UnknownServiceId,
    UnknownRedirectUri,
    ServiceSecret(ServiceSecretError),
}

impl ServiceAuthenticationError {
    /// The diagnostic line shown for this error.
    pub fn message(&self) -> (r: &'static str)
        ensures
            r@ == spec_service_authn_error_message(*self),
    {
        match *self {
            ServiceAuthenticationError::UnknownServiceId => "The service_id is unknown amongst the registered services",
            ServiceAuthenticationError::UnknownRedirectUri => "The redirect_uri does not match any of the registered ones",
            ServiceAuthenticationError::ServiceSecret(_) => "A service_secret was required or the given one did not match",
        }
    }
}

impl From<ServiceSecretError> for ServiceAuthenticationError {
    fn from(p_secret_error: ServiceSecretError) -> (r: Self) {
        ServiceAuthenticationError::ServiceSecret(p_secret_error)
    }
}

impl vstd::std_specs::convert::FromSpecImpl<ServiceSecretError> for ServiceAuthenticationError {
    open spec fn obeys_from_spec() -> bool {
        true
    }

    open spec fn from_spec(e: ServiceSecretError) -> ServiceAuthenticationError {
        ServiceAuthenticationError::ServiceSecret(e)
    }
}

pub open spec fn spec_service_authn_error_message(e: ServiceAuthenticationError) -> Seq<char> {
    match e {
        ServiceAuthenticationError::UnknownServiceId => "The service_id is unknown amongst the registered services"@,
        ServiceAuthenticationError::UnknownRedirectUri => "The redirect_uri does not match any of the registered ones"@,
        ServiceAuthenticationError::ServiceSecret(_) => "A service_secret was required or the given one did not match"@,
    }
}

#[derive(Debug, PartialEq)]
pub enum ServiceError {
    InvalidService,
    DuplicateServiceId,
    /// A service definition file could not be read or decoded; the
    /// message says which and why.
    BadServiceDefinitionFile(String),
}

impl ServiceError {
    /// The diagnostic line shown for this error.
    pub fn message(&self) -> (r: &'static str)
        ensures
            self is InvalidService ==> r@ == "The service has no client_id or no redirect_uri"@,
            self is DuplicateServiceId ==> r@
                == "A service with the same client_id has already been added"@,
            self is BadServiceDefinitionFile ==> r@ == "Bad service definition file"@,
    {
        match *self {
            ServiceError::InvalidService => "The service has no client_id or no redirect_uri",
            ServiceError::DuplicateServiceId => "A service with the same client_id has already been added",
            ServiceError::BadServiceDefinitionFile(_) => "Bad service definition file",
        }
    }
}

/// First entry whose id matches, if any.
pub open spec fn spec_find(s: Seq<ServiceView>, id: Seq<char>) -> Option<ServiceView>
    decreases s.len(),
{
    if s.len() == 0 {
        None
    } else if s[0].id == id {
        Some(s[0])
    } else {
        spec_find(s.drop_first(), id)
    }
}

/// Looking past a prefix without a match does not change the result.
pub proof fn lemma_find_skip(s: Seq<ServiceView>, id: Seq<char>, i: int)
    requires
        0 <= i <= s.len(),
        forall|j: int| 0 <= j < i ==> s[j].id != id,
    ensures
        spec_find(s, id) == spec_find(s.skip(i), id),
    decreases i,
{
    if i > 0 {
        lemma_find_skip(s.drop_first(), id, i - 1);
        assert(s.drop_first().skip(i - 1) =~= s.skip(i));
    } else {
        assert(s.skip(0) =~= s);
    }
}

/// There is no match exactly when no entry carries the id.
pub proof fn lemma_find_absent(s: Seq<ServiceView>, id: Seq<char>)
    ensures
        (spec_find(s, id) is None) <==> (forall|j: int| 0 <= j < s.len() ==> s[j].id != id),
    decreases s.len(),
{
    if s.len() > 0 {
        let t = s.drop_first();
        lemma_find_absent(t, id);
        if s[0].id != id {
            if spec_find(t, id) is None {
                assert forall|j: int| 0 <= j < s.len() implies s[j].id != id by {
                    if j > 0 {
                        assert(t[j - 1] == s[j]);
                    }
                }
            } else {
                let j = choose|j: int| 0 <= j < t.len() && t[j].id == id;
                assert(s[j + 1].id == id);
            }
        }
    }
}

/// The ordered authentication pipeline, short-circuiting on the first
/// failure: unknown id, then the secret rules, then the redirect URI.
pub open spec fn spec_authenticate(
    s: Seq<ServiceView>,
    rc: RequestingClientView,
) -> Result<Seq<char>, ServiceAuthenticationError> {
    match spec_find(s, rc.id) {
        None => Err(ServiceAuthenticationError::UnknownServiceId),
        Some(c) => match spec_authn_by_secret(c.secret, rc.secret) {
            Err(e) => Err(ServiceAuthenticationError::ServiceSecret(e)),
            Ok(_) => if c.redirect_uris.contains(rc.redirect_uri) {
                Ok(c.name)
            } else {
                Err(ServiceAuthenticationError::UnknownRedirectUri)
            },
        },
    }
}

/// In-memory store of registered relying parties, keyed by client id.
pub struct ServiceRegistry {
    services: Vec<RegisteredService>,
}

impl View for ServiceRegistry {
    type V = Seq<ServiceView>;

    closed spec fn view(&self) -> Seq<ServiceView> {
        self.services.deep_view()
    }
}

impl ServiceRegistry {
    /// Ids are pairwise distinct; established at construction and
    /// preserved by every registration.
    pub open spec fn wf(self) -> bool {
        forall|i: int, j: int| 0 <= i < j < self@.len() ==> self@[i].id != self@[j].id
    }

    pub fn new() -> (r: ServiceRegistry)
        ensures
            r@ =~= Seq::<ServiceView>::empty(),
            r.wf(),
    {
        ServiceRegistry { services: Vec::new() }
    }

    pub fn count_services(&self) -> (r: usize)
        ensures
            r == self@.len(),
    {
        self.services.len()
    }

    pub fn get_service(&self, p_service_id: &String) -> (r: Option<&RegisteredService>)
        ensures
            match r {
                Some(c) => spec_find(self@, p_service_id@) == Some(c@),
                None => spec_find(self@, p_service_id@) is None,
            },
    {
        let mut i: usize = 0;
        while i < self.services.len()
            invariant
                0 <= i <= self.services.len(),
                forall|j: int| 0 <= j < i ==> self@[j].id != p_service_id@,
            decreases self.services.len() - i,
        {
            if self.services[i].client_id().eq(p_service_id) {
                proof {
                    lemma_find_skip(self@, p_service_id@, i as int);
                    assert(self@.skip(i as int)[0] == self@[i as int]);
                }
                return Some(&self.services[i]);
            }
            i += 1;
        }
        proof {
            lemma_find_absent(self@, p_service_id@);
        }
        None
    }

    pub fn is_service_known(&self, p_service: &RegisteredService) -> (r: bool)
        ensures
            r == (spec_find(self@, p_service@.id) is Some),
    {
        let id = p_service.client_id();
        self.get_service(&id).is_some()
    }

    pub fn is_client_id_known(&self, p_service_id: &String) -> (r: bool)
        ensures
            r == (spec_find(self@, p_service_id@) is Some),
    {
        self.get_service(p_service_id).is_some()
    }

    /// Decide whether the request speaks for a registered service: the id
    /// must be known, the secret rules must pass, and the redirect URI
    /// must match a registered one exactly. Returns the registered
    /// display name. Never mutates the registry.
    pub fn authenticate(&self, p_requesting_client: &RequestingClient) -> (r: Result<
        String,
        ServiceAuthenticationError,
    >)
        ensures
            match r {
                Ok(n) => spec_authenticate(self@, p_requesting_client@) == Ok::<
                    Seq<char>,
                    ServiceAuthenticationError,
                >(n@),
                Err(e) => spec_authenticate(self@, p_requesting_client@) == Err::<
                    Seq<char>,
                    ServiceAuthenticationError,
                >(e),
            },
    {
        let id = p_requesting_client.client_id();
        match self.get_service(&id) {
            None => Err(ServiceAuthenticationError::UnknownServiceId),
            Some(s) => {
                match s.authn_by_secret(p_requesting_client.client_secret()) {
                    Err(e) => Err(ServiceAuthenticationError::from(e)),
                    Ok(_) => {
                        let uri = p_requesting_client.redirect_uri();
                        if !s.has_redirect_uri(&uri) {
                            Err(ServiceAuthenticationError::UnknownRedirectUri)
                        } else {
                            Ok(s.name())
                        }
                    },
                }
            },
        }
    }

    /// Register a new service under a freshly generated id; returns
    /// the id. The id is normally 32 alphanumeric characters; after
    /// every random draw collided it is instead strictly longer than
    /// every registered id.
    pub fn register(&mut self, p_service: NewService) -> (r: Result<String, ServiceError>)
        ensures
            p_service@.redirect_uris.len() == 0 ==> r == Err::<String, ServiceError>(
                ServiceError::InvalidService,
            ) && final(self)@ == old(self)@,
            p_service@.redirect_uris.len() > 0 ==> r is Ok && (exists|id: Seq<char>|
                {
                    &&& id.len() > 0
                    &&& #[trigger] spec_find(old(self)@, id) is None
                    &&& r->Ok_0@ == id
                    &&& (id.len() == 32 && (forall|k: int|
                        0 <= k < id.len() ==> crate::random::is_alphanumeric_char(
                            #[trigger] id[k],
                        ))) || (forall|j: int|
                        0 <= j < old(self)@.len() ==> (#[trigger] old(self)@[j]).id.len()
                            < id.len())
                    &&& final(self)@ == old(self)@.push(
                        ServiceView {
                            id: id,
                            name: p_service@.name,
                            redirect_uris: p_service@.redirect_uris,
                            secret: None,
                        },
                    )
                }),
            old(self).wf() ==> final(self).wf(),
    {
        let id = self.generate_id();
        let ghost gid = id@;
        let id_out = id.clone();
        let service = RegisteredService::from_service(p_service, id);
        let r = self.add_service(service);
        proof {
            if p_service@.redirect_uris.len() > 0 {
                assert(spec_find(old(self)@, gid) is None);
            }
        }
        match r {
            Ok(()) => Ok(id_out),
            Err(e) => Err(e),
        }
    }

    /// Add a service under its own id; registration is not an upsert, a
    /// duplicate id is refused.
    pub fn add_service(&mut self, p_service: RegisteredService) -> (r: Result<(), ServiceError>)
        ensures
            !p_service@.valid() ==> r == Err::<(), ServiceError>(ServiceError::InvalidService)
                && final(self)@ == old(self)@,
            p_service@.valid() && spec_find(old(self)@, p_service@.id) is Some ==> r == Err::<
                (),
                ServiceError,
            >(ServiceError::DuplicateServiceId) && final(self)@ == old(self)@,
            p_service@.valid() && spec_find(old(self)@, p_service@.id) is None ==> r == Ok::<
                (),
                ServiceError,
            >(()) && final(self)@ == old(self)@.push(p_service@),
            old(self).wf() ==> final(self).wf(),
    {
        if !p_service.is_valid() {
            Err(ServiceError::InvalidService)
        } else if self.is_service_known(&p_service) {
            Err(ServiceError::DuplicateServiceId)
        } else {
            proof {
                lemma_find_absent(old(self)@, p_service@.id);
            }
            self.services.push(p_service);
            proof {
                assert(final(self)@ =~= old(self)@.push(p_service@));
            }
            Ok(())
        }
    }

    /// A fresh id: normally a random 32-character alphanumeric string,
    /// drawn again on the (vanishingly unlikely) collision; if every
    /// random candidate collided, an id strictly longer than every
    /// registered one, which cannot collide.
    fn generate_id(&self) -> (r: String)
        ensures
            r@.len() > 0,
            spec_find(self@, r@) is None,
            (r@.len() == 32 && (forall|k: int|
                0 <= k < r@.len() ==> crate::random::is_alphanumeric_char(#[trigger] r@[k])))
                || (forall|j: int|
                0 <= j < self@.len() ==> (#[trigger] self@[j]).id.len() < r@.len()),
    {
        let mut tries: usize = 0;
        while tries < 16
            invariant
                tries <= 16,
            decreases 16 - tries,
        {
            let id = crate::random::random_alphanumeric_string(32);
            if !self.is_client_id_known(&id) {
                return id;
            }
            tries += 1;
        }
        let mut id = String::new();
        let mut i: usize = 0;
        while i < self.services.len()
            invariant
                0 <= i <= self.services.len(),
                forall|j: int| 0 <= j < i ==> id@.len() >= self@[j].id.len(),
            decreases self.services.len() - i,
        {
            let sid = self.services[i].client_id();
            id.append(sid.as_str());
            i += 1;
        }
        id.append("0");
        proof {
            reveal_strlit("0");
            assert(forall|j: int|
                0 <= j < self@.len() ==> (#[trigger] self@[j]).id.len() < id@.len());
            lemma_find_absent(self@, id@);
        }
        id
    }
}

/// For every registered service, a request carrying the exact
/// registered id, a registered redirect URI, and the registered secret
/// if one is registered (none otherwise), authenticates and yields the
/// registered display name.
pub proof fn lemma_authenticate_registered(s: Seq<ServiceView>, rc: RequestingClientView)
    requires
        spec_find(s, rc.id) is Some,
        spec_find(s, rc.id)->Some_0.redirect_uris.contains(rc.redirect_uri),
        rc.secret == spec_find(s, rc.id)->Some_0.secret,
    ensures
        spec_authenticate(s, rc) == Ok::<Seq<char>, ServiceAuthenticationError>(
            spec_find(s, rc.id)->Some_0.name,
        ),
{
}

/// A request whose id is not registered is refused as unknown,
/// whatever else it carries.
pub proof fn lemma_authenticate_unknown_id(s: Seq<ServiceView>, rc: RequestingClientView)
    requires
        spec_find(s, rc.id) is None,
    ensures
        spec_authenticate(s, rc) == Err::<Seq<char>, ServiceAuthenticationError>(
            ServiceAuthenticationError::UnknownServiceId,
        ),
{
}

/// The secret rules: with no secret registered, offering one is an
/// error and offering none succeeds; with a secret registered,
/// offering none or the wrong one is an error, each distinguishable.
pub proof fn lemma_secret_rules(registered: Option<Seq<char>>, provided: Option<Seq<char>>)
    ensures
        registered is None && provided is Some ==> spec_authn_by_secret(registered, provided)
            == Err::<ServiceSecretSuccess, ServiceSecretError>(
            ServiceSecretError::NoSecretRegistered,
        ),
        registered is None && provided is None ==> spec_authn_by_secret(registered, provided)
            == Ok::<ServiceSecretSuccess, ServiceSecretError>(ServiceSecretSuccess::NoSecretNeeded),
        registered is Some && provided is None ==> spec_authn_by_secret(registered, provided)
            == Err::<ServiceSecretSuccess, ServiceSecretError>(
            ServiceSecretError::NoSecretProvided,
        ),
        registered is Some && provided is Some && registered != provided ==> spec_authn_by_secret(
            registered,
            provided,
        ) == Err::<ServiceSecretSuccess, ServiceSecretError>(ServiceSecretError::SecretsDoNotMatch),
        registered is Some && registered == provided ==> spec_authn_by_secret(registered, provided)
            == Ok::<ServiceSecretSuccess, ServiceSecretError>(ServiceSecretSuccess::SecretMatched),
{
}

/// Registration is not an upsert: once a service stands under an id,
/// any further service carrying the same id finds it already known,
/// so `add_service` refuses it as a duplicate.
pub proof fn lemma_duplicate_id_refused(s: Seq<ServiceView>, c: ServiceView, id: Seq<char>)
    requires
        c.id == id,
    ensures
        spec_find(s.push(c), id) is Some,
{
    lemma_find_absent(s.push(c), id);
    assert(s.push(c)[s.len() as int].id == id);
}

} // verus!
