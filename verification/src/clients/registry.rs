//! The in-memory client registry: registered clients, the claims an
//! incoming request makes, and the ordered authentication pipeline.
use vstd::prelude::*;
use vstd::string::StringExecFns;

verus! {

/// A client as handed in for registration: it has no id yet, the
/// registry assigns one.
#[derive(Debug, PartialEq)]
pub struct NewClient {
    name: String,
    redirect_uris: Vec<String>,
}

/// Spec-level image of a `NewClient`.
pub struct NewClientView {
    pub name: Seq<char>,
    pub redirect_uris: Seq<Seq<char>>,
}

impl View for NewClient {
    type V = NewClientView;

    closed spec fn view(&self) -> NewClientView {
        NewClientView { name: self.name@, redirect_uris: self.redirect_uris.deep_view() }
    }
}

impl NewClient {
    pub fn new(p_name: String, p_redirect_uris: Vec<String>) -> (r: NewClient)
        ensures
            r@.name == p_name@,
            r@.redirect_uris == p_redirect_uris.deep_view(),
    {
        NewClient { name: p_name, redirect_uris: p_redirect_uris }
    }
}

#[derive(Debug, PartialEq)]
pub enum ClientSecretSuccess {
    NoSecretNeeded,
    SecretMatched,
}

#[derive(Debug, PartialEq)]
pub enum ClientSecretError {
    NoSecretRegistered,
    NoSecretProvided,
    SecretsDoNotMatch,
}

/// A client known to the provider.
#[derive(Debug, PartialEq)]
pub struct RegisteredClient {
    id: String,
    name: String,
    redirect_uris: Vec<String>,
    secret: Option<String>,
}

/// Spec-level image of a `RegisteredClient`.
pub struct ClientView {
    pub id: Seq<char>,
    pub name: Seq<char>,
    pub redirect_uris: Seq<Seq<char>>,
    pub secret: Option<Seq<char>>,
}

impl View for RegisteredClient {
    type V = ClientView;

    closed spec fn view(&self) -> ClientView {
        ClientView {
            id: self.id@,
            name: self.name@,
            redirect_uris: self.redirect_uris.deep_view(),
            secret: self.secret.deep_view(),
        }
    }
}

impl DeepView for RegisteredClient {
    type V = ClientView;

    open spec fn deep_view(&self) -> ClientView {
        self@
    }
}

impl ClientView {
    /// A client entity is acceptable for registration only with a
    /// non-empty id and at least one redirect URI.
    pub open spec fn valid(self) -> bool {
        self.id.len() > 0 && self.redirect_uris.len() > 0
    }
}

/// The outcome of checking a provided secret against a registered one.
/// A secret offered where none is registered is an error by design, not
/// silently ignored.
pub open spec fn spec_client_authn_by_secret(
    registered: Option<Seq<char>>,
    provided: Option<Seq<char>>,
) -> Result<ClientSecretSuccess, ClientSecretError> {
    match registered {
        None => match provided {
            None => Ok(ClientSecretSuccess::NoSecretNeeded),
            Some(_) => Err(ClientSecretError::NoSecretRegistered),
        },
        Some(s) => match provided {
            None => Err(ClientSecretError::NoSecretProvided),
            Some(p) => if p == s {
                Ok(ClientSecretSuccess::SecretMatched)
            } else {
                Err(ClientSecretError::SecretsDoNotMatch)
            },
        },
    }
}

/// Spec-level image of an `Option<&String>` argument.
pub open spec fn opt_ref_str_view(o: Option<&String>) -> Option<Seq<char>> {
    match o {
        None => None,
        Some(s) => Some(s@),
    }
}

impl RegisteredClient {
    pub fn new(p_name: String, p_client_id: String, p_redirect_uri: String) -> (r:
        RegisteredClient)
        ensures
            r@.id == p_client_id@,
            r@.name == p_name@,
            r@.redirect_uris =~= seq![p_redirect_uri@],
            r@.secret is None,
    {
        RegisteredClient {
            id: p_client_id,
            name: p_name,
            redirect_uris: vec![p_redirect_uri],
            secret: None,
        }
    }

    pub fn from_client(p_client: NewClient, p_client_id: String) -> (r: RegisteredClient)
        ensures
            r@.id == p_client_id@,
            r@.name == p_client@.name,
            r@.redirect_uris == p_client@.redirect_uris,
            r@.secret is None,
    {
        RegisteredClient {
            id: p_client_id,
            name: p_client.name,
            redirect_uris: p_client.redirect_uris,
            secret: None,
        }
    }

    /// As `new`, but with a registered shared secret.
    pub fn with_secret(
        p_name: String,
        p_client_id: String,
        p_redirect_uri: String,
        p_secret: String,
    ) -> (r: RegisteredClient)
        ensures
            r@.id == p_client_id@,
            r@.name == p_name@,
            r@.redirect_uris =~= seq![p_redirect_uri@],
            r@.secret == Some(p_secret@),
    {
        RegisteredClient {
            id: p_client_id,
            name: p_name,
            redirect_uris: vec![p_redirect_uri],
            secret: Some(p_secret),
        }
    }

    /// Exact string match against the registered set; no wildcard or
    /// prefix matching.
    pub fn has_redirect_uri(&self, p_redirect_uri: &String) -> (r: bool)
        ensures
            r == self@.redirect_uris.contains(p_redirect_uri@),
    {
        let mut i: usize = 0;
        while i < self.redirect_uris.len()
            invariant
                0 <= i <= self.redirect_uris.len(),
                forall|j: int| 0 <= j < i ==> self@.redirect_uris[j] != p_redirect_uri@,
            decreases self.redirect_uris.len() - i,
        {
            if self.redirect_uris[i].eq(p_redirect_uri) {
                assert(self@.redirect_uris[i as int] == p_redirect_uri@);
                return true;
            }
            i += 1;
        }
        false
    }

    pub fn authn_by_secret(&self, p_client_secret: Option<&String>) -> (r: Result<
        ClientSecretSuccess,
        ClientSecretError,
    >)
        ensures
            r == spec_client_authn_by_secret(self@.secret, opt_ref_str_view(p_client_secret)),
    {
        match &self.secret {
            None => match p_client_secret {
                None => Ok(ClientSecretSuccess::NoSecretNeeded),
                Some(_) => Err(ClientSecretError::NoSecretRegistered),
            },
            Some(s) => match p_client_secret {
                None => Err(ClientSecretError::NoSecretProvided),
                Some(s2) => if s.eq(s2) {
                    Ok(ClientSecretSuccess::SecretMatched)
                } else {
                    Err(ClientSecretError::SecretsDoNotMatch)
                },
            },
        }
    }

    pub fn has_secret(&self) -> (r: bool)
        ensures
            r == (self@.secret is Some),
    {
        self.secret.is_some()
    }

    pub fn is_valid(&self) -> (r: bool)
        ensures
            r == self@.valid(),
    {
        !self.id.as_str().is_empty() && self.redirect_uris.len() > 0
    }
}

/// What a runtime request claims about itself.
#[derive(Debug, PartialEq)]
pub struct RequestingClient {
    id: String,
    redirect_uri: String,
    secret: Option<String>,
}

/// Spec-level image of a `RequestingClient`.
pub struct RequestingClientView {
    pub id: Seq<char>,
    pub redirect_uri: Seq<char>,
    pub secret: Option<Seq<char>>,
}

impl View for RequestingClient {
    type V = RequestingClientView;

    closed spec fn view(&self) -> RequestingClientView {
        RequestingClientView {
            id: self.id@,
            redirect_uri: self.redirect_uri@,
            secret: self.secret.deep_view(),
        }
    }
}

impl RequestingClient {
    pub fn new(p_client_id: String, p_redirect_uri: String) -> (r: RequestingClient)
        ensures
            r@.id == p_client_id@,
            r@.redirect_uri == p_redirect_uri@,
            r@.secret is None,
    {
        RequestingClient { id: p_client_id, redirect_uri: p_redirect_uri, secret: None }
    }

    /// As `new`, but carrying a secret offered by the request.
    pub fn with_secret(p_client_id: String, p_redirect_uri: String, p_secret: String) -> (r:
        RequestingClient)
        ensures
            r@.id == p_client_id@,
            r@.redirect_uri == p_redirect_uri@,
            r@.secret == Some(p_secret@),
    {
        RequestingClient { id: p_client_id, redirect_uri: p_redirect_uri, secret: Some(p_secret) }
    }

    pub fn id(&self) -> (r: String)
        ensures
            r@ == self@.id,
    {
        self.id.clone()
    }

    pub fn redirect_uri(&self) -> (r: String)
        ensures
            r@ == self@.redirect_uri,
    {
        self.redirect_uri.clone()
    }

    pub fn secret(&self) -> (r: Option<&String>)
        ensures
            opt_ref_str_view(r) == self@.secret,
    {
        self.secret.as_ref()
    }
}

#[derive(Debug, PartialEq)]
pub enum ClientAuthenticationError {
    UnknownClientId,
    UnknownRedirectUri,
    ClientSecret(ClientSecretError),
}

impl From<ClientSecretError> for ClientAuthenticationError {
    fn from(p_secret_error: ClientSecretError) -> (r: Self) {
        ClientAuthenticationError::ClientSecret(p_secret_error)
    }
}

impl vstd::std_specs::convert::FromSpecImpl<ClientSecretError> for ClientAuthenticationError {
    open spec fn obeys_from_spec() -> bool {
        true
    }

    open spec fn from_spec(e: ClientSecretError) -> ClientAuthenticationError {
        ClientAuthenticationError::ClientSecret(e)
    }
}

impl ClientAuthenticationError {
    /// The diagnostic line shown for this error.
    pub fn message(&self) -> (r: &'static str)
        ensures
            self is UnknownClientId ==> r@
                == "The client_id is unknown amongst the registered clients"@,
            self is UnknownRedirectUri ==> r@
                == "The redirect_uri does not match any of the registered ones"@,
            self is ClientSecret ==> r@
                == "A client_secret was required or the given one did not match"@,
    {
        match *self {
            ClientAuthenticationError::UnknownClientId => "The client_id is unknown amongst the registered clients",
            ClientAuthenticationError::UnknownRedirectUri => "The redirect_uri does not match any of the registered ones",
            ClientAuthenticationError::ClientSecret(_) => "A client_secret was required or the given one did not match",
        }
    }
}

/// First entry whose id matches, if any.
pub open spec fn spec_find_client(s: Seq<ClientView>, id: Seq<char>) -> Option<ClientView>
    decreases s.len(),
{
    if s.len() == 0 {
        None
    } else if s[0].id == id {
        Some(s[0])
    } else {
        spec_find_client(s.drop_first(), id)
    }
}

/// Looking past a prefix without a match does not change the result.
pub proof fn lemma_find_client_skip(s: Seq<ClientView>, id: Seq<char>, i: int)
    requires
        0 <= i <= s.len(),
        forall|j: int| 0 <= j < i ==> s[j].id != id,
    ensures
        spec_find_client(s, id) == spec_find_client(s.skip(i), id),
    decreases i,
{
    if i > 0 {
        lemma_find_client_skip(s.drop_first(), id, i - 1);
        assert(s.drop_first().skip(i - 1) =~= s.skip(i));
    } else {
        assert(s.skip(0) =~= s);
    }
}

/// There is no match exactly when no entry carries the id.
pub proof fn lemma_find_client_absent(s: Seq<ClientView>, id: Seq<char>)
    ensures
        (spec_find_client(s, id) is None) <==> (forall|j: int|
            0 <= j < s.len() ==> s[j].id != id),
    decreases s.len(),
{
    if s.len() > 0 {
        let t = s.drop_first();
        lemma_find_client_absent(t, id);
        if s[0].id != id {
            if spec_find_client(t, id) is None {
                assert forall|j: int| 0 <= j < s.len() implies s[j].id != id by {
                    if j > 0 {
                        assert(t[j - 1] == s[j]);
                    }
                }
            } else {
                let j = choose|j: int| 0 <= j < t.len() && t[j].id == id;
                assert(s[j + 1].id == id);
            }
        }
    }
}

/// The ordered authentication pipeline, short-circuiting on the first
/// failure: unknown id, then the secret rules, then the redirect URI.
pub open spec fn spec_authenticate_client(
    s: Seq<ClientView>,
    rc: RequestingClientView,
) -> Result<Seq<char>, ClientAuthenticationError> {
    match spec_find_client(s, rc.id) {
        None => Err(ClientAuthenticationError::UnknownClientId),
        Some(c) => match spec_client_authn_by_secret(c.secret, rc.secret) {
            Err(e) => Err(ClientAuthenticationError::ClientSecret(e)),
            Ok(_) => if c.redirect_uris.contains(rc.redirect_uri) {
                Ok(c.name)
            } else {
                Err(ClientAuthenticationError::UnknownRedirectUri)
            },
        },
    }
}

/// In-memory store of registered clients, keyed by client id.
pub struct ClientRegistry {
    clients: Vec<RegisteredClient>,
}

impl View for ClientRegistry {
    type V = Seq<ClientView>;

    closed spec fn view(&self) -> Seq<ClientView> {
        self.clients.deep_view()
    }
}

impl ClientRegistry {
    /// Ids are pairwise distinct; established at construction and
    /// preserved by every registration.
    pub open spec fn wf(self) -> bool {
        forall|i: int, j: int| 0 <= i < j < self@.len() ==> self@[i].id != self@[j].id
    }

    pub fn new() -> (r: ClientRegistry)
        ensures
            r@ =~= Seq::<ClientView>::empty(),
            r.wf(),
    {
        ClientRegistry { clients: Vec::new() }
    }

    pub fn get_client(&self, p_client_id: &String) -> (r: Option<&RegisteredClient>)
        ensures
            match r {
                Some(c) => spec_find_client(self@, p_client_id@) == Some(c@),
                None => spec_find_client(self@, p_client_id@) is None,
            },
    {
        let mut i: usize = 0;
        while i < self.clients.len()
            invariant
                0 <= i <= self.clients.len(),
                forall|j: int| 0 <= j < i ==> self@[j].id != p_client_id@,
            decreases self.clients.len() - i,
        {
            if self.clients[i].id.eq(p_client_id) {
                proof {
                    lemma_find_client_skip(self@, p_client_id@, i as int);
                    assert(self@.skip(i as int)[0] == self@[i as int]);
                }
                return Some(&self.clients[i]);
            }
            i += 1;
        }
        proof {
            lemma_find_client_absent(self@, p_client_id@);
        }
        None
    }

    pub fn is_known(&self, p_client_id: &String) -> (r: bool)
        ensures
            r == (spec_find_client(self@, p_client_id@) is Some),
    {
        self.get_client(p_client_id).is_some()
    }

    /// Whether the registered client under the id lists the URI; an
    /// unknown id is an error, not `false`.
    pub fn has_registered_uri(&self, p_client_id: &String, p_redirect_uri: &String) -> (r: Result<
        bool,
        &'static str,
    >)
        ensures
            match spec_find_client(self@, p_client_id@) {
                None => r == Err::<bool, &'static str>("Unknown client"),
                Some(c) => r == Ok::<bool, &'static str>(c.redirect_uris.contains(p_redirect_uri@)),
            },
    {
        match self.get_client(p_client_id) {
            None => Err("Unknown client"),
            Some(c) => Ok(c.has_redirect_uri(p_redirect_uri)),
        }
    }

    /// Decide whether the request speaks for a registered client: the id
    /// must be known, the secret rules must pass, and the redirect URI
    /// must match a registered one exactly. Returns the registered
    /// display name. Never mutates the registry.
    pub fn authenticate(&self, p_requesting_client: &RequestingClient) -> (r: Result<
        String,
        ClientAuthenticationError,
    >)
        ensures
            match r {
                Ok(n) => spec_authenticate_client(self@, p_requesting_client@) == Ok::<
                    Seq<char>,
                    ClientAuthenticationError,
                >(n@),
                Err(e) => spec_authenticate_client(self@, p_requesting_client@) == Err::<
                    Seq<char>,
                    ClientAuthenticationError,
                >(e),
            },
    {
        match self.get_client(&p_requesting_client.id) {
            None => Err(ClientAuthenticationError::UnknownClientId),
            Some(c) => {
                match c.authn_by_secret(p_requesting_client.secret.as_ref()) {
                    Err(e) => Err(ClientAuthenticationError::from(e)),
                    Ok(_) => {
                        if !c.has_redirect_uri(&p_requesting_client.redirect_uri) {
                            Err(ClientAuthenticationError::UnknownRedirectUri)
                        } else {
                            Ok(c.name.clone())
                        }
                    },
                }
            },
        }
    }

    /// Register a new client under a freshly generated id; returns
    /// the id. The id is normally 32 alphanumeric characters; after
    /// every random draw collided it is instead strictly longer than
    /// every registered id.
    pub fn register(&mut self, p_client: NewClient) -> (r: Result<String, String>)
        ensures
            p_client@.redirect_uris.len() == 0 ==> r is Err && final(self)@ == old(self)@,
            p_client@.redirect_uris.len() > 0 ==> r is Ok && (exists|id: Seq<char>|
                {
                    &&& id.len() > 0
                    &&& #[trigger] spec_find_client(old(self)@, id) is None
                    &&& r->Ok_0@ == id
                    &&& (id.len() == 32 && (forall|k: int|
                        0 <= k < id.len() ==> crate::random::is_alphanumeric_char(
                            #[trigger] id[k],
                        ))) || (forall|j: int|
                        0 <= j < old(self)@.len() ==> (#[trigger] old(self)@[j]).id.len()
                            < id.len())
                    &&& final(self)@ == old(self)@.push(
                        ClientView {
                            id: id,
                            name: p_client@.name,
                            redirect_uris: p_client@.redirect_uris,
                            secret: None,
                        },
                    )
                }),
            old(self).wf() ==> final(self).wf(),
    {
        let id = self.generate_id();
        let ghost gid = id@;
        let client = RegisteredClient::from_client(p_client, id);
        let r = self.add_client(client);
        proof {
            if p_client@.redirect_uris.len() > 0 {
                assert(spec_find_client(old(self)@, gid) is None);
            }
        }
        r
    }

    /// Add a client under its own id; registration is not an upsert, a
    /// duplicate id is refused. Returns the id it was stored under.
    pub fn add_client(&mut self, p_client: RegisteredClient) -> (r: Result<String, String>)
        ensures
            !p_client@.valid() ==> r is Err && r->Err_0@ == "Client is not valid"@
                && final(self)@ == old(self)@,
            p_client@.valid() && spec_find_client(old(self)@, p_client@.id) is Some ==> r is Err
                && r->Err_0@ == "Client id '"@ + p_client@.id
                + "' is already registered by another"@ && final(self)@ == old(self)@,
            p_client@.valid() && spec_find_client(old(self)@, p_client@.id) is None ==> r is Ok
                && r->Ok_0@ == p_client@.id && final(self)@ == old(self)@.push(p_client@),
            old(self).wf() ==> final(self).wf(),
    {
        if !p_client.is_valid() {
            Err("Client is not valid".to_owned())
        } else if self.is_known(&p_client.id) {
            let mut msg = "Client id '".to_owned();
            msg.append(p_client.id.as_str());
            msg.append("' is already registered by another");
            Err(msg)
        } else {
            proof {
                lemma_find_client_absent(old(self)@, p_client@.id);
            }
            let client_id = p_client.id.clone();
            self.clients.push(p_client);
            proof {
                assert(final(self)@ =~= old(self)@.push(self@[self@.len() - 1]));
            }
            Ok(client_id)
        }
    }

    /// A fresh id: normally a random 32-character alphanumeric string,
    /// drawn again on the (vanishingly unlikely) collision; if every
    /// random candidate collided, an id strictly longer than every
    /// registered one, which cannot collide.
    fn generate_id(&self) -> (r: String)
        ensures
            r@.len() > 0,
            spec_find_client(self@, r@) is None,
            (r@.len() == 32 && (forall|k: int|
                0 <= k < r@.len() ==> crate::random::is_alphanumeric_char(#[trigger] r@[k])))
                || (forall|j: int|
                0 <= j < self@.len() ==> (#[trigger] self@[j]).id.len() < r@.len()),
    {
        let mut tries: usize = 0;
        while tries < 16
            invariant
                tries <= 16,
            decreases 16 - tries,
        {
            let id = crate::random::random_alphanumeric_string(32);
            if !self.is_known(&id) {
                return id;
            }
            tries += 1;
        }
        let mut id = String::new();
        let mut i: usize = 0;
        while i < self.clients.len()
            invariant
                0 <= i <= self.clients.len(),
                forall|j: int| 0 <= j < i ==> id@.len() >= self@[j].id.len(),
            decreases self.clients.len() - i,
        {
            id.append(self.clients[i].id.as_str());
            i += 1;
        }
        id.append("0");
        proof {
            reveal_strlit("0");
            assert(forall|j: int|
                0 <= j < self@.len() ==> (#[trigger] self@[j]).id.len() < id@.len());
            lemma_find_client_absent(self@, id@);
        }
        id
    }
}

/// For every registered client, a request carrying the exact
/// registered id, a registered redirect URI, and the registered secret
/// if one is registered (none otherwise), authenticates and yields the
/// registered display name.
pub proof fn lemma_client_authenticate_registered(s: Seq<ClientView>, rc: RequestingClientView)
    requires
        spec_find_client(s, rc.id) is Some,
        spec_find_client(s, rc.id)->Some_0.redirect_uris.contains(rc.redirect_uri),
        rc.secret == spec_find_client(s, rc.id)->Some_0.secret,
    ensures
        spec_authenticate_client(s, rc) == Ok::<Seq<char>, ClientAuthenticationError>(
            spec_find_client(s, rc.id)->Some_0.name,
        ),
{
}

/// A request whose id is not registered is refused as unknown,
/// whatever else it carries.
pub proof fn lemma_client_authenticate_unknown_id(s: Seq<ClientView>, rc: RequestingClientView)
    requires
        spec_find_client(s, rc.id) is None,
    ensures
        spec_authenticate_client(s, rc) == Err::<Seq<char>, ClientAuthenticationError>(
            ClientAuthenticationError::UnknownClientId,
        ),
{
}

/// Registration is not an upsert: once a client stands under an id,
/// any further client carrying the same id finds it already known, so
/// `add_client` refuses it as a duplicate.
pub proof fn lemma_client_duplicate_id_refused(s: Seq<ClientView>, c: ClientView, id: Seq<char>)
    requires
        c.id == id,
    ensures
        spec_find_client(s.push(c), id) is Some,
{
    lemma_find_client_absent(s.push(c), id);
    assert(s.push(c)[s.len() as int].id == id);
}

} // verus!
