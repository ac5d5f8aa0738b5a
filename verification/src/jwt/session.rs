//! The session token: signed, time-bounded claims that carry an
//! authorization request across the login redirect. The token is the
//! only state between the two halves of the flow, so its signature and
//! expiry are the sole integrity and replay-bounding mechanism.
use vstd::prelude::*;
use vstd::utf8::{decode_utf8, encode_utf8, valid_utf8};
use crate::jwt::base64url::{
    b64_decode,
    b64_decode_range,
    b64_encode,
    b64_encode_bytes,
    lemma_b64_canonical,
    lemma_b64_encode_alphabet,
    lemma_b64_roundtrip,
    is_b64_byte,
};
use crate::jwt::hmac::{hmac_sha256, hs256_sign, hs256_verify};
use crate::jwt::payload::{
    append_bytes,
    append_dec,
    append_jstr,
    append_opt,
    append_scopes_block,
    dec_bytes,
    json_of,
    lemma_claims_complete,
    lemma_claims_sound,
    lit_aud_vec,
    lit_client_id_vec,
    lit_client_name_vec,
    lit_end,
    lit_end_vec,
    lit_exp_vec,
    lit_iss_vec,
    lit_nonce_vec,
    lit_redirect_uri_vec,
    lit_scopes_vec,
    lit_state_vec,
    sp_claims,
    strs_bytes,
    subvec,
    x_jstr,
    x_lit,
    x_number,
    x_opt,
    x_scopes,
    ClaimsBytes,
};
use crate::text::{
    find_byte,
    idx_of,
    lemma_ascii_bytes_valid_utf8,
    lemma_idx_of,
    lemma_idx_of_exact,
    str_eq,
    string_from_utf8,
};

verus! {

/// The payload of the session token; the only state carried between
/// the authorize and resume halves of the flow.
#[derive(Debug, PartialEq)]
pub struct OIDCSessionClaims {
    pub aud: String,
    pub exp: usize,
    pub iss: String,
    pub client_name: String,
    pub client_id: String,
    pub redirect_uri: String,
    pub scopes: Vec<String>,
    pub state: Option<String>,
    pub nonce: Option<String>,
}

/// Spec-level image of the session claims.
pub struct ClaimsView {
    pub aud: Seq<char>,
    pub exp: nat,
    pub iss: Seq<char>,
    pub client_name: Seq<char>,
    pub client_id: Seq<char>,
    pub redirect_uri: Seq<char>,
    pub scopes: Seq<Seq<char>>,
    pub state: Option<Seq<char>>,
    pub nonce: Option<Seq<char>>,
}

impl View for OIDCSessionClaims {
    type V = ClaimsView;

    open spec fn view(&self) -> ClaimsView {
        ClaimsView {
            aud: self.aud@,
            exp: self.exp as nat,
            iss: self.iss@,
            client_name: self.client_name@,
            client_id: self.client_id@,
            redirect_uri: self.redirect_uri@,
            scopes: self.scopes.deep_view(),
            state: self.state.deep_view(),
            nonce: self.nonce.deep_view(),
        }
    }
}

/// An optional string, as optional UTF-8 bytes.
pub open spec fn opt_utf8(o: Option<Seq<char>>) -> Option<Seq<u8>> {
    match o {
        None => None,
        Some(s) => Some(encode_utf8(s)),
    }
}

/// The byte-level image of the claims: each text field as UTF-8.
pub open spec fn claims_bytes_of(v: ClaimsView) -> ClaimsBytes {
    ClaimsBytes {
        aud: encode_utf8(v.aud),
        exp: v.exp,
        iss: encode_utf8(v.iss),
        client_name: encode_utf8(v.client_name),
        client_id: encode_utf8(v.client_id),
        redirect_uri: encode_utf8(v.redirect_uri),
        scopes: strs_bytes(v.scopes),
        state: opt_utf8(v.state),
        nonce: opt_utf8(v.nonce),
    }
}

/// Whether every text field of a byte-level claims value is valid UTF-8.
pub open spec fn claims_utf8_ok(cb: ClaimsBytes) -> bool {
    &&& valid_utf8(cb.aud)
    &&& valid_utf8(cb.iss)
    &&& valid_utf8(cb.client_name)
    &&& valid_utf8(cb.client_id)
    &&& valid_utf8(cb.redirect_uri)
    &&& forall|k: int| 0 <= k < cb.scopes.len() ==> valid_utf8(#[trigger] cb.scopes[k])
    &&& (cb.state matches Some(v) ==> valid_utf8(v))
    &&& (cb.nonce matches Some(v) ==> valid_utf8(v))
}

/// An optional byte string, decoded.
pub open spec fn opt_decode(o: Option<Seq<u8>>) -> Option<Seq<char>> {
    match o {
        None => None,
        Some(v) => Some(decode_utf8(v)),
    }
}

/// The character-level claims that a byte-level value decodes to.
pub open spec fn claims_view_of(cb: ClaimsBytes) -> ClaimsView {
    ClaimsView {
        aud: decode_utf8(cb.aud),
        exp: cb.exp,
        iss: decode_utf8(cb.iss),
        client_name: decode_utf8(cb.client_name),
        client_id: decode_utf8(cb.client_id),
        redirect_uri: decode_utf8(cb.redirect_uri),
        scopes: cb.scopes.map_values(|b: Seq<u8>| decode_utf8(b)),
        state: opt_decode(cb.state),
        nonce: opt_decode(cb.nonce),
    }
}

/// Encoding a claims view always yields valid UTF-8 fields, and
/// decoding them gives the view back.
pub proof fn lemma_claims_bytes_of_view(v: ClaimsView)
    ensures
        claims_utf8_ok(claims_bytes_of(v)),
        claims_view_of(claims_bytes_of(v)) == v,
{
    broadcast use vstd::utf8::encode_utf8_valid_utf8, vstd::utf8::encode_utf8_decode_utf8;

    let cb = claims_bytes_of(v);
    assert forall|k: int| 0 <= k < cb.scopes.len() implies valid_utf8(
        #[trigger] cb.scopes[k],
    ) by {
        assert(cb.scopes[k] == encode_utf8(v.scopes[k]));
    }
    assert(claims_view_of(cb).scopes =~= v.scopes) by {
        assert forall|k: int| 0 <= k < cb.scopes.len() implies claims_view_of(cb).scopes[k]
            == v.scopes[k] by {
            assert(cb.scopes[k] == encode_utf8(v.scopes[k]));
        }
    }
    match v.state {
        None => {},
        Some(s) => {
            assert(decode_utf8(encode_utf8(s)) == s);
        },
    }
    match v.nonce {
        None => {},
        Some(s) => {
            assert(decode_utf8(encode_utf8(s)) == s);
        },
    }
}

/// Decoding valid byte-level claims and re-encoding them is the
/// identity.
pub proof fn lemma_claims_view_of_bytes(cb: ClaimsBytes)
    requires
        claims_utf8_ok(cb),
    ensures
        claims_bytes_of(claims_view_of(cb)) == cb,
{
    broadcast use vstd::utf8::decode_utf8_encode_utf8;

    let v = claims_view_of(cb);
    assert(claims_bytes_of(v).scopes =~= cb.scopes) by {
        assert forall|k: int| 0 <= k < cb.scopes.len() implies claims_bytes_of(v).scopes[k]
            == cb.scopes[k] by {
            assert(valid_utf8(cb.scopes[k]));
            assert(v.scopes[k] == decode_utf8(cb.scopes[k]));
        }
    }
    match cb.state {
        None => {},
        Some(b) => {
            assert(encode_utf8(decode_utf8(b)) == b);
        },
    }
    match cb.nonce {
        None => {},
        Some(b) => {
            assert(encode_utf8(decode_utf8(b)) == b);
        },
    }
}

/// Write the claims as their one payload spelling.
#[verifier::rlimit(100)]
pub fn claims_json(c: &OIDCSessionClaims) -> (r: Vec<u8>)
    ensures
        r@ == json_of(claims_bytes_of(c@)),
{
    let mut out: Vec<u8> = Vec::new();
    let la = lit_aud_vec();
    append_bytes(&mut out, &la);
    append_jstr(&mut out, c.aud.as_str().as_bytes());
    let le = lit_exp_vec();
    append_bytes(&mut out, &le);
    append_dec(&mut out, c.exp);
    let li = lit_iss_vec();
    append_bytes(&mut out, &li);
    append_jstr(&mut out, c.iss.as_str().as_bytes());
    let lcn = lit_client_name_vec();
    append_bytes(&mut out, &lcn);
    append_jstr(&mut out, c.client_name.as_str().as_bytes());
    let lci = lit_client_id_vec();
    append_bytes(&mut out, &lci);
    append_jstr(&mut out, c.client_id.as_str().as_bytes());
    let lru = lit_redirect_uri_vec();
    append_bytes(&mut out, &lru);
    append_jstr(&mut out, c.redirect_uri.as_str().as_bytes());
    let lsc = lit_scopes_vec();
    append_bytes(&mut out, &lsc);
    append_scopes_block(&mut out, &c.scopes);
    let lst = lit_state_vec();
    append_bytes(&mut out, &lst);
    append_opt(&mut out, &c.state);
    let lno = lit_nonce_vec();
    append_bytes(&mut out, &lno);
    append_opt(&mut out, &c.nonce);
    out.push(125);
    proof {
        assert(seq![125u8] =~= lit_end());
        assert(out@ =~= json_of(claims_bytes_of(c@)));
    }
    out
}

/// Read claims back from payload bytes: `Some` exactly on the one
/// spelling of a claims value whose text fields are valid UTF-8.
#[verifier::rlimit(100)]
#[verifier::spinoff_prover]
pub fn parse_claims_json(s: &Vec<u8>) -> (r: Option<OIDCSessionClaims>)
    ensures
        match r {
            Some(c) => sp_claims(s@) == Some(claims_bytes_of(c@)),
            None => sp_claims(s@) is None || !claims_utf8_ok(sp_claims(s@)->Some_0),
        },
{
    broadcast use vstd::utf8::decode_utf8_encode_utf8;

    let la = lit_aud_vec();
    let i1 = match x_lit(s, 0, &la) {
        None => {
            return None;
        },
        Some(i) => i,
    };
    let (aud_b, i2) = match x_jstr(s, i1) {
        None => {
            return None;
        },
        Some(p) => p,
    };
    let le = lit_exp_vec();
    let i3 = match x_lit(s, i2, &le) {
        None => {
            return None;
        },
        Some(i) => i,
    };
    let (exp, i4) = match x_number(s, i3) {
        None => {
            return None;
        },
        Some(p) => p,
    };
    let li = lit_iss_vec();
    let i5 = match x_lit(s, i4, &li) {
        None => {
            return None;
        },
        Some(i) => i,
    };
    let (iss_b, i6) = match x_jstr(s, i5) {
        None => {
            return None;
        },
        Some(p) => p,
    };
    let lcn = lit_client_name_vec();
    let i7 = match x_lit(s, i6, &lcn) {
        None => {
            return None;
        },
        Some(i) => i,
    };
    let (client_name_b, i8) = match x_jstr(s, i7) {
        None => {
            return None;
        },
        Some(p) => p,
    };
    let lci = lit_client_id_vec();
    let i9 = match x_lit(s, i8, &lci) {
        None => {
            return None;
        },
        Some(i) => i,
    };
    let (client_id_b, i10) = match x_jstr(s, i9) {
        None => {
            return None;
        },
        Some(p) => p,
    };
    let lru = lit_redirect_uri_vec();
    let i11 = match x_lit(s, i10, &lru) {
        None => {
            return None;
        },
        Some(i) => i,
    };
    let (redirect_uri_b, i12) = match x_jstr(s, i11) {
        None => {
            return None;
        },
        Some(p) => p,
    };
    let lsc = lit_scopes_vec();
    let i13 = match x_lit(s, i12, &lsc) {
        None => {
            return None;
        },
        Some(i) => i,
    };
    let (scopes_b, i14) = match x_scopes(s, i13) {
        None => {
            return None;
        },
        Some(p) => p,
    };
    let lst = lit_state_vec();
    let i15 = match x_lit(s, i14, &lst) {
        None => {
            return None;
        },
        Some(i) => i,
    };
    let (state_b, i16) = match x_opt(s, i15) {
        None => {
            return None;
        },
        Some(p) => p,
    };
    let lno = lit_nonce_vec();
    let i17 = match x_lit(s, i16, &lno) {
        None => {
            return None;
        },
        Some(i) => i,
    };
    let (nonce_b, i18) = match x_opt(s, i17) {
        None => {
            return None;
        },
        Some(p) => p,
    };
    let lend = lit_end_vec();
    let i19 = match x_lit(s, i18, &lend) {
        None => {
            return None;
        },
        Some(i) => i,
    };
    if i19 != s.len() {
        return None;
    }
    let ghost cb = ClaimsBytes {
        aud: aud_b@,
        exp: exp as nat,
        iss: iss_b@,
        client_name: client_name_b@,
        client_id: client_id_b@,
        redirect_uri: redirect_uri_b@,
        scopes: scopes_b.deep_view(),
        state: match state_b {
            Option::None => Option::<Seq<u8>>::None,
            Option::Some(ref v) => Option::Some(v@),
        },
        nonce: match nonce_b {
            Option::None => Option::<Seq<u8>>::None,
            Option::Some(ref v) => Option::Some(v@),
        },
    };
    proof {
        assert(sp_claims(s@) == Some(cb));
    }
    let aud = match string_from_utf8(aud_b) {
        None => {
            return None;
        },
        Some(x) => x,
    };
    let iss = match string_from_utf8(iss_b) {
        None => {
            return None;
        },
        Some(x) => x,
    };
    let client_name = match string_from_utf8(client_name_b) {
        None => {
            return None;
        },
        Some(x) => x,
    };
    let client_id = match string_from_utf8(client_id_b) {
        None => {
            return None;
        },
        Some(x) => x,
    };
    let redirect_uri = match string_from_utf8(redirect_uri_b) {
        None => {
            return None;
        },
        Some(x) => x,
    };
    let mut scopes: Vec<String> = Vec::new();
    let mut rest = scopes_b;
    let ghost scb = cb.scopes;
    proof {
        assert(rest.deep_view() =~~= scb.skip(0));
        assert(scopes.deep_view() =~~= Seq::<Seq<char>>::empty());
    }
    while rest.len() > 0
        invariant
            scb == cb.scopes,
            sp_claims(s@) == Some(cb),
            scopes@.len() + rest@.len() == scb.len(),
            rest.deep_view() == scb.skip(scopes@.len() as int),
            forall|j: int|
                0 <= j < scopes@.len() ==> encode_utf8(#[trigger] scopes.deep_view()[j]) == scb[j],
        decreases rest@.len(),
    {
        let ghost k = scopes@.len() as int;
        let ghost old_rest_dv = rest.deep_view();
        let item = rest.remove(0);
        proof {
            assert(old_rest_dv[0] == scb[k]);
            assert(item.deep_view() =~= item@);
            assert(item@ == scb[k]);
            assert(rest.deep_view() =~~= scb.skip(k + 1)) by {
                assert forall|j: int| 0 <= j < rest@.len() implies rest.deep_view()[j] == scb.skip(
                    k + 1,
                )[j] by {
                    assert(rest.deep_view()[j] == old_rest_dv[j + 1]);
                    assert(old_rest_dv[j + 1] == scb.skip(k)[j + 1]);
                    assert(scb.skip(k)[j + 1] == scb[k + 1 + j]);
                }
            }
        }
        let sc = match string_from_utf8(item) {
            None => {
                proof {
                    assert(!valid_utf8(scb[k]));
                    assert(0 <= k < cb.scopes.len());
                    assert(!claims_utf8_ok(cb));
                    assert(sp_claims(s@) == Some(cb));
                    assert(!claims_utf8_ok(sp_claims(s@)->Some_0));
                }
                return None;
            },
            Some(x) => x,
        };
        let ghost scv = sc@;
        let ghost old_scopes_dv = scopes.deep_view();
        scopes.push(sc);
        proof {
            assert(encode_utf8(scv) == scb[k]) by {
                assert(valid_utf8(scb[k]));
                vstd::utf8::decode_utf8_encode_utf8(scb[k]);
            }
            assert forall|j: int|
                0 <= j < scopes@.len() implies encode_utf8(#[trigger] scopes.deep_view()[j])
                == scb[j] by {
                if j < k {
                    assert(scopes.deep_view()[j] == old_scopes_dv[j]);
                } else {
                    assert(scopes.deep_view()[j] == scv);
                }
            }
        }
    }
    let state = match state_b {
        None => None,
        Some(v) => match string_from_utf8(v) {
            None => {
                return None;
            },
            Some(x) => Some(x),
        },
    };
    let nonce = match nonce_b {
        None => None,
        Some(v) => match string_from_utf8(v) {
            None => {
                return None;
            },
            Some(x) => Some(x),
        },
    };
    let c = OIDCSessionClaims {
        aud,
        exp,
        iss,
        client_name,
        client_id,
        redirect_uri,
        scopes,
        state,
        nonce,
    };
    proof {
        vstd::utf8::decode_utf8_encode_utf8(cb.aud);
        vstd::utf8::decode_utf8_encode_utf8(cb.iss);
        vstd::utf8::decode_utf8_encode_utf8(cb.client_name);
        vstd::utf8::decode_utf8_encode_utf8(cb.client_id);
        vstd::utf8::decode_utf8_encode_utf8(cb.redirect_uri);
        match cb.state {
            Option::None => {},
            Option::Some(b) => {
                vstd::utf8::decode_utf8_encode_utf8(b);
            },
        }
        match cb.nonce {
            Option::None => {},
            Option::Some(b) => {
                vstd::utf8::decode_utf8_encode_utf8(b);
            },
        }
        assert(encode_utf8(c@.aud) == cb.aud);
        assert(encode_utf8(c@.iss) == cb.iss);
        assert(encode_utf8(c@.client_name) == cb.client_name);
        assert(encode_utf8(c@.client_id) == cb.client_id);
        assert(encode_utf8(c@.redirect_uri) == cb.redirect_uri);
        assert(claims_bytes_of(c@).scopes =~= cb.scopes) by {
            assert forall|j: int| 0 <= j < scb.len() implies claims_bytes_of(c@).scopes[j]
                == scb[j] by {
                assert(encode_utf8(scopes.deep_view()[j]) == scb[j]);
            }
        }
        assert(opt_utf8(c@.state) == cb.state);
        assert(opt_utf8(c@.nonce) == cb.nonce);
        assert(claims_bytes_of(c@) == cb);
    }
    Some(c)
}

/// A token could not be minted: the signing call failed.
#[derive(Debug, PartialEq, Eq)]
pub struct EncodingError;

/// Why a presented session token was rejected. All are terminal and
/// collapse to one rejection for the caller; the category is kept for
/// diagnostics.
#[derive(Debug, PartialEq, Eq)]
pub enum TokenError {
    /// Not the compact three-part shape, or an undecodable payload.
    Malformed,
    /// The signature does not match the payload under the key.
    InvalidSignature,
    /// The expiry lies at or before the given time.
    Expired,
    /// The audience claim is not the expected audience.
    WrongAudience,
    /// The issuer claim is not the expected issuer.
    WrongIssuer,
}

impl TokenError {
    /// The diagnostic line shown for this rejection.
    pub fn message(&self) -> (r: &'static str)
        ensures
            self is Malformed ==> r@ == "The session token is malformed"@,
            self is InvalidSignature ==> r@ == "The session token signature does not match"@,
            self is Expired ==> r@ == "The session token has expired"@,
            self is WrongAudience ==> r@ == "The session token audience does not match"@,
            self is WrongIssuer ==> r@ == "The session token issuer does not match"@,
    {
        match *self {
            TokenError::Malformed => "The session token is malformed",
            TokenError::InvalidSignature => "The session token signature does not match",
            TokenError::Expired => "The session token has expired",
            TokenError::WrongAudience => "The session token audience does not match",
            TokenError::WrongIssuer => "The session token issuer does not match",
        }
    }
}

/// The fixed token header: `{"typ":"JWT","alg":"HS256"}`.
pub open spec fn header_bytes() -> Seq<u8> {
    seq![
        123u8, 34u8, 116u8, 121u8, 112u8, 34u8, 58u8, 34u8, 74u8, 87u8, 84u8, 34u8, 44u8, 34u8,
        97u8, 108u8, 103u8, 34u8, 58u8, 34u8, 72u8, 83u8, 50u8, 53u8, 54u8, 34u8, 125u8,
    ]
}

/// The fixed token header as runtime bytes.
fn header_vec() -> (v: Vec<u8>)
    ensures
        v@ == header_bytes(),
{
    let mut v: Vec<u8> = Vec::new();
    v.push(123);
    v.push(34);
    v.push(116);
    v.push(121);
    v.push(112);
    v.push(34);
    v.push(58);
    v.push(34);
    v.push(74);
    v.push(87);
    v.push(84);
    v.push(34);
    v.push(44);
    v.push(34);
    v.push(97);
    v.push(108);
    v.push(103);
    v.push(34);
    v.push(58);
    v.push(34);
    v.push(72);
    v.push(83);
    v.push(50);
    v.push(53);
    v.push(54);
    v.push(34);
    v.push(125);
    assert(v@ =~= header_bytes());
    v
}

/// The bytes that are signed: encoded header, a dot, encoded payload.
pub open spec fn spec_signing_input(cb: ClaimsBytes) -> Seq<u8> {
    b64_encode(header_bytes()) + seq![46u8] + b64_encode(json_of(cb))
}

/// The whole token: the signed bytes, a dot, the encoded tag.
pub open spec fn spec_token_bytes(cb: ClaimsBytes, key: Seq<u8>) -> Seq<u8> {
    spec_signing_input(cb) + seq![46u8] + b64_encode(
        hmac_sha256(key, spec_signing_input(cb)),
    )
}

/// What verification decides on any byte string presented as a token:
/// the three-part shape, the exact header, the signature over the
/// first two parts, the payload's one spelling, then expiry, audience
/// and issuer — the first failing check names the rejection.
pub open spec fn spec_verify(
    t: Seq<u8>,
    key: Seq<u8>,
    iss: Seq<char>,
    aud: Seq<char>,
    now: nat,
) -> Result<ClaimsView, TokenError> {
    let d1 = idx_of(t, 0, 46);
    let d2 = idx_of(t, d1 + 1, 46);
    if d1 >= t.len() || d2 >= t.len() || idx_of(t, d2 + 1, 46) < t.len() {
        Err(TokenError::Malformed)
    } else if t.subrange(0, d1) != b64_encode(header_bytes()) {
        Err(TokenError::Malformed)
    } else if t.subrange(d2 + 1, t.len() as int) != b64_encode(
        hmac_sha256(key, t.subrange(0, d2)),
    ) {
        Err(TokenError::InvalidSignature)
    } else {
        match b64_decode(t.subrange(d1 + 1, d2)) {
            None => Err(TokenError::Malformed),
            Some(pj) => match sp_claims(pj) {
                None => Err(TokenError::Malformed),
                Some(cb) => if !claims_utf8_ok(cb) {
                    Err(TokenError::Malformed)
                } else {
                    let v = claims_view_of(cb);
                    if v.exp <= now {
                        Err(TokenError::Expired)
                    } else if v.aud != aud {
                        Err(TokenError::WrongAudience)
                    } else if v.iss != iss {
                        Err(TokenError::WrongIssuer)
                    } else {
                        Ok(v)
                    }
                },
            },
        }
    }
}

/// Mint the signed session token for the claims: the returned string
/// is exactly the one token spelling of the claims under the key.
/// Minting always succeeds; the error arm of the result only keeps
/// the shape that callers handle.
pub fn issue(p_claims: &OIDCSessionClaims, p_key: &[u8]) -> (r: Result<String, EncodingError>)
    ensures
        r is Ok,
        r matches Ok(t) ==> encode_utf8(t@) == spec_token_bytes(
            claims_bytes_of(p_claims@),
            p_key@,
        ),
{
    let ghost cb = claims_bytes_of(p_claims@);
    let payload = claims_json(p_claims);
    let header = header_vec();
    let hb = b64_encode_bytes(&header);
    let pb = b64_encode_bytes(&payload);
    let mut input = hb;
    input.push(46);
    append_bytes(&mut input, &pb);
    proof {
        assert(input@ =~= spec_signing_input(cb));
    }
    let ghost si = input@;
    match hs256_sign(&input, p_key) {
        Err(_) => {
            proof {
                assert(false);
            }
            Err(EncodingError)
        },
        Ok(sig) => {
            let mut tok = input;
            tok.push(46);
            append_bytes(&mut tok, &sig);
            proof {
                assert(tok@ =~= spec_token_bytes(cb, p_key@));
                lemma_token_bytes_ascii(cb, p_key@);
                lemma_ascii_bytes_valid_utf8(tok@);
            }
            match string_from_utf8(tok) {
                None => {
                    proof {
                        assert(false);
                    }
                    Err(EncodingError)
                },
                Some(t) => {
                    proof {
                        vstd::utf8::decode_utf8_encode_utf8(spec_token_bytes(cb, p_key@));
                    }
                    Ok(t)
                },
            }
        },
    }
}

/// Every byte of a token is ASCII: base64url alphabet or a dot.
proof fn lemma_token_bytes_ascii(cb: ClaimsBytes, key: Seq<u8>)
    ensures
        forall|x: int|
            0 <= x < spec_token_bytes(cb, key).len() ==> #[trigger] spec_token_bytes(cb, key)[x]
                < 128,
{
    let hb = b64_encode(header_bytes());
    let pb = b64_encode(json_of(cb));
    let sb = b64_encode(hmac_sha256(key, spec_signing_input(cb)));
    let t = spec_token_bytes(cb, key);
    lemma_b64_encode_alphabet(header_bytes());
    lemma_b64_encode_alphabet(json_of(cb));
    lemma_b64_encode_alphabet(hmac_sha256(key, spec_signing_input(cb)));
    assert(t =~= hb + seq![46u8] + pb + seq![46u8] + sb);
    assert forall|x: int| 0 <= x < t.len() implies #[trigger] t[x] < 128 by {
        if x < hb.len() {
            assert(t[x] == hb[x]);
            assert(is_b64_byte(hb[x]));
        } else if x == hb.len() {
        } else if x < hb.len() + 1 + pb.len() {
            assert(t[x] == pb[x - hb.len() - 1]);
            assert(is_b64_byte(pb[x - hb.len() - 1]));
        } else if x == hb.len() + 1 + pb.len() {
        } else {
            assert(t[x] == sb[x - hb.len() - pb.len() - 2]);
            assert(is_b64_byte(sb[x - hb.len() - pb.len() - 2]));
        }
    }
}

/// Check a presented session token: shape, header, signature, payload,
/// then expiry, audience and issuer, in that order.
pub fn verify_token(
    p_token: &str,
    p_key: &[u8],
    p_issuer: &str,
    p_audience: &str,
    p_now: usize,
) -> (r: Result<OIDCSessionClaims, TokenError>)
    ensures
        match r {
            Ok(c) => spec_verify(
                encode_utf8(p_token@),
                p_key@,
                p_issuer@,
                p_audience@,
                p_now as nat,
            ) == Ok::<ClaimsView, TokenError>(c@),
            Err(e) => spec_verify(
                encode_utf8(p_token@),
                p_key@,
                p_issuer@,
                p_audience@,
                p_now as nat,
            ) == Err::<ClaimsView, TokenError>(e),
        },
{
    let tb = vstd::slice::slice_to_vec(p_token.as_bytes());
    let ghost t = encode_utf8(p_token@);
    proof {
        assert(tb@ == t);
    }
    let n = tb.len();
    let d1 = find_byte(&tb, 0, 46);
    if d1 >= n {
        return Err(TokenError::Malformed);
    }
    let d2 = find_byte(&tb, d1 + 1, 46);
    if d2 >= n {
        return Err(TokenError::Malformed);
    }
    let d3 = find_byte(&tb, d2 + 1, 46);
    if d3 < n {
        return Err(TokenError::Malformed);
    }
    let header = header_vec();
    let hb = b64_encode_bytes(&header);
    let hseg = subvec(&tb, 0, d1);
    if !crate::jwt::payload::vec_eq(&hseg, &hb) {
        return Err(TokenError::Malformed);
    }
    let msg = subvec(&tb, 0, d2);
    let sig = subvec(&tb, d2 + 1, n);
    if !hs256_verify(&sig, &msg, p_key) {
        return Err(TokenError::InvalidSignature);
    }
    match b64_decode_range(&tb, d1 + 1, d2) {
        None => Err(TokenError::Malformed),
        Some(pj) => {
            match parse_claims_json(&pj) {
                None => Err(TokenError::Malformed),
                Some(c) => {
                    proof {
                        lemma_claims_bytes_of_view(c@);
                    }
                    if c.exp <= p_now {
                        return Err(TokenError::Expired);
                    }
                    if !str_eq(c.aud.as_str(), p_audience) {
                        return Err(TokenError::WrongAudience);
                    }
                    if !str_eq(c.iss.as_str(), p_issuer) {
                        return Err(TokenError::WrongIssuer);
                    }
                    Ok(c)
                },
            }
        },
    }
}

/// The three parts of a well-formed token sit between its two dots.
proof fn lemma_token_structure(cb: ClaimsBytes, key: Seq<u8>)
    ensures
        ({
            let hb = b64_encode(header_bytes());
            let pb = b64_encode(json_of(cb));
            let sb = b64_encode(hmac_sha256(key, spec_signing_input(cb)));
            let t = spec_token_bytes(cb, key);
            let d1 = hb.len() as int;
            let d2 = (hb.len() + 1 + pb.len()) as int;
            &&& t.len() == hb.len() + pb.len() + sb.len() + 2
            &&& idx_of(t, 0, 46) == d1
            &&& idx_of(t, d1 + 1, 46) == d2
            &&& idx_of(t, d2 + 1, 46) == t.len()
            &&& t.subrange(0, d1) == hb
            &&& t.subrange(d1 + 1, d2) == pb
            &&& t.subrange(d2 + 1, t.len() as int) == sb
            &&& t.subrange(0, d2) == spec_signing_input(cb)
        }),
{
    let hb = b64_encode(header_bytes());
    let pb = b64_encode(json_of(cb));
    let sb = b64_encode(hmac_sha256(key, spec_signing_input(cb)));
    let t = spec_token_bytes(cb, key);
    let d1 = hb.len() as int;
    let d2 = (hb.len() + 1 + pb.len()) as int;
    lemma_b64_encode_alphabet(header_bytes());
    lemma_b64_encode_alphabet(json_of(cb));
    lemma_b64_encode_alphabet(hmac_sha256(key, spec_signing_input(cb)));
    assert(t =~= hb + seq![46u8] + pb + seq![46u8] + sb);
    assert(t[d1] == 46);
    assert(t[d2 as int] == 46);
    assert forall|k: int| 0 <= k < d1 implies t[k] != 46 by {
        assert(t[k] == hb[k]);
        assert(is_b64_byte(hb[k]));
    }
    lemma_idx_of_exact(t, 0, 46, d1);
    assert forall|k: int| d1 + 1 <= k < d2 implies t[k] != 46 by {
        assert(t[k] == pb[k - d1 - 1]);
        assert(is_b64_byte(pb[k - d1 - 1]));
    }
    lemma_idx_of_exact(t, d1 + 1, 46, d2);
    assert forall|k: int| d2 + 1 <= k < t.len() implies t[k] != 46 by {
        assert(t[k] == sb[k - d2 - 1]);
        assert(is_b64_byte(sb[k - d2 - 1]));
    }
    lemma_idx_of_exact(t, d2 + 1, 46, t.len() as int);
    assert(t.subrange(0, d1) =~= hb);
    assert(t.subrange(d1 + 1, d2) =~= pb);
    assert(t.subrange(d2 + 1, t.len() as int) =~= sb);
    assert(t.subrange(0, d2) =~= spec_signing_input(cb));
}

/// Round trip: a token minted for any claims verifies back to exactly
/// those claims, under the same key, the claims' own issuer and
/// audience, and any time before the expiry.
pub proof fn lemma_issue_verify_roundtrip(v: ClaimsView, key: Seq<u8>, now: nat)
    requires
        v.exp <= usize::MAX as nat,
        now < v.exp,
    ensures
        spec_verify(spec_token_bytes(claims_bytes_of(v), key), key, v.iss, v.aud, now) == Ok::<
            ClaimsView,
            TokenError,
        >(v),
{
    let cb = claims_bytes_of(v);
    let t = spec_token_bytes(cb, key);
    lemma_token_structure(cb, key);
    lemma_b64_roundtrip(json_of(cb));
    lemma_claims_complete(cb);
    lemma_claims_bytes_of_view(v);
}

/// Soundness: whatever verifies under a key is, byte for byte, the
/// token this codec mints for the returned claims under that key; and
/// the returned claims carry the expected issuer and audience and an
/// expiry after the given time.
/// Reading off the checks that a passing verification made.
#[verifier::rlimit(100)]
#[verifier::spinoff_prover]
proof fn lemma_verify_ok_parts(
    t: Seq<u8>,
    key: Seq<u8>,
    iss: Seq<char>,
    aud: Seq<char>,
    now: nat,
    v: ClaimsView,
)
    requires
        spec_verify(t, key, iss, aud, now) == Ok::<ClaimsView, TokenError>(v),
    ensures
        ({
            let d1 = idx_of(t, 0, 46);
            let d2 = idx_of(t, d1 + 1, 46);
            &&& 0 <= d1 < t.len()
            &&& d1 + 1 <= d2 < t.len()
            &&& t.subrange(0, d1) == b64_encode(header_bytes())
            &&& t.subrange(d2 + 1, t.len() as int) == b64_encode(
                hmac_sha256(key, t.subrange(0, d2)),
            )
            &&& b64_decode(t.subrange(d1 + 1, d2)) is Some
            &&& sp_claims(b64_decode(t.subrange(d1 + 1, d2))->Some_0) is Some
            &&& claims_utf8_ok(sp_claims(b64_decode(t.subrange(d1 + 1, d2))->Some_0)->Some_0)
            &&& claims_view_of(sp_claims(b64_decode(t.subrange(d1 + 1, d2))->Some_0)->Some_0)
                == v
            &&& v.exp > now
            &&& v.aud == aud
            &&& v.iss == iss
        }),
{
    lemma_idx_of(t, 0, 46);
    lemma_idx_of(t, idx_of(t, 0, 46) + 1, 46);
}

/// Soundness: whatever verifies under a key is, byte for byte, the
/// token this codec mints for the returned claims under that key; and
/// the returned claims carry the expected issuer and audience and an
/// expiry after the given time.
#[verifier::rlimit(100)]
#[verifier::spinoff_prover]
pub proof fn lemma_verify_sound(
    t: Seq<u8>,
    key: Seq<u8>,
    iss: Seq<char>,
    aud: Seq<char>,
    now: nat,
    v: ClaimsView,
)
    requires
        spec_verify(t, key, iss, aud, now) == Ok::<ClaimsView, TokenError>(v),
    ensures
        t == spec_token_bytes(claims_bytes_of(v), key),
        v.exp > now,
        v.aud == aud,
        v.iss == iss,
        v.exp <= usize::MAX as nat,
{
    lemma_verify_ok_parts(t, key, iss, aud, now, v);
    let d1 = idx_of(t, 0, 46);
    let d2 = idx_of(t, d1 + 1, 46);
    lemma_idx_of(t, 0, 46);
    lemma_idx_of(t, d1 + 1, 46);
    let pj = b64_decode(t.subrange(d1 + 1, d2))->Some_0;
    let cb = sp_claims(pj)->Some_0;
    lemma_b64_canonical(t.subrange(d1 + 1, d2));
    lemma_claims_sound(pj);
    lemma_claims_view_of_bytes(cb);
    assert(claims_bytes_of(v) == cb);
    assert(t.subrange(d1 + 1, d2) == b64_encode(json_of(cb))) by {
        assert(pj =~= json_of(cb));
    }
    assert(t.subrange(0, d2) =~= t.subrange(0, d1) + seq![46u8] + t.subrange(d1 + 1, d2));
    assert(t.subrange(0, d2) == spec_signing_input(cb));
    assert(t =~= t.subrange(0, d2) + seq![46u8] + t.subrange(d2 + 1, t.len() as int));
    assert(t == spec_token_bytes(cb, key));
}

/// Check a presented session token against the configured key, issuer
/// and internal authentication audience at the given time.
pub fn check_token(p_session_token: &str, p_config: &crate::config::data::Config, p_now: usize) -> (r:
    Result<OIDCSessionClaims, TokenError>)
    ensures
        match r {
            Ok(c) => spec_verify(
                encode_utf8(p_session_token@),
                encode_utf8(p_config.jwt.internal_key@),
                p_config.jwt.oidc_issuer@,
                p_config.jwt.internal_authn_aud@,
                p_now as nat,
            ) == Ok::<ClaimsView, TokenError>(c@),
            Err(e) => spec_verify(
                encode_utf8(p_session_token@),
                encode_utf8(p_config.jwt.internal_key@),
                p_config.jwt.oidc_issuer@,
                p_config.jwt.internal_authn_aud@,
                p_now as nat,
            ) == Err::<ClaimsView, TokenError>(e),
        },
{
    verify_token(
        p_session_token,
        p_config.jwt.internal_key.as_str().as_bytes(),
        p_config.jwt.oidc_issuer.as_str(),
        p_config.jwt.internal_authn_aud.as_str(),
        p_now,
    )
}

/// Each claims value has exactly one token: two byte strings that
/// both verify to the same claims under one key are the same bytes.
/// So a string that differs from the minted token in any byte can
/// verify, if at all, only to different claims.
pub proof fn lemma_token_unique(
    t1: Seq<u8>,
    t2: Seq<u8>,
    key: Seq<u8>,
    iss: Seq<char>,
    aud: Seq<char>,
    now: nat,
    v: ClaimsView,
)
    requires
        spec_verify(t1, key, iss, aud, now) == Ok::<ClaimsView, TokenError>(v),
        spec_verify(t2, key, iss, aud, now) == Ok::<ClaimsView, TokenError>(v),
    ensures
        t1 == t2,
{
    lemma_verify_sound(t1, key, iss, aud, now, v);
    lemma_verify_sound(t2, key, iss, aud, now, v);
}

} // verus!
