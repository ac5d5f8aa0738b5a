//! The session token codec against the real signing crate.
use plopid::jwt::session::{check_token, issue, verify_token, OIDCSessionClaims, TokenError};
use plopid::config::data::{ClientsParams, Config, JWTParams, ServerParams};

fn sample_claims(exp: usize) -> OIDCSessionClaims {
    OIDCSessionClaims {
        aud: "https://localhost:8000/authn".to_string(),
        exp,
        iss: "https://localhost:8000/oidc".to_string(),
        client_name: "My App".to_string(),
        client_id: "c1".to_string(),
        redirect_uri: "https://app.example/cb".to_string(),
        scopes: vec!["openid".to_string(), "profile".to_string()],
        state: Some("xyz".to_string()),
        nonce: None,
    }
}

fn sample_config() -> Config {
    Config {
        server: ServerParams {
            listen_ip: "127.0.0.1".to_string(),
            host: "localhost".to_string(),
            port: 8000,
            templates_dir: "templates".to_string(),
        },
        clients: ClientsParams {
            registry_dir: "config/clients".to_string(),
        },
        jwt: JWTParams {
            oidc_issuer: "https://localhost:8000/oidc".to_string(),
            internal_key: "secret".to_string(),
            internal_authn_aud: "https://localhost:8000/authn".to_string(),
        },
    }
}

#[test]
fn issue_then_verify_round_trips() {
    let claims = sample_claims(10_000_000_000);
    let token = issue(&claims, b"secret").unwrap();
    let back = verify_token(
        &token,
        b"secret",
        "https://localhost:8000/oidc",
        "https://localhost:8000/authn",
        1_000_000,
    )
    .unwrap();
    assert_eq!(back, claims);
}

#[test]
fn round_trip_keeps_awkward_text() {
    let mut claims = sample_claims(10_000_000_000);
    claims.client_name = "Grü\u{00df}e \"quoted\" back\\slash\nnewline\ttab".to_string();
    claims.state = Some("".to_string());
    claims.scopes = vec!["openid".to_string(), "".to_string(), "プロフィール".to_string()];
    let token = issue(&claims, b"secret").unwrap();
    let back = verify_token(
        &token,
        b"secret",
        "https://localhost:8000/oidc",
        "https://localhost:8000/authn",
        0,
    )
    .unwrap();
    assert_eq!(back, claims);
}

#[test]
fn expired_token_is_refused_even_with_a_good_signature() {
    let claims = sample_claims(1_000);
    let token = issue(&claims, b"secret").unwrap();
    let outcome = verify_token(
        &token,
        b"secret",
        "https://localhost:8000/oidc",
        "https://localhost:8000/authn",
        2_000,
    );
    assert_eq!(outcome, Err(TokenError::Expired));
}

#[test]
fn wrong_key_audience_or_issuer_is_refused() {
    let claims = sample_claims(10_000_000_000);
    let token = issue(&claims, b"secret").unwrap();
    assert_eq!(
        verify_token(
            &token,
            b"other-key",
            "https://localhost:8000/oidc",
            "https://localhost:8000/authn",
            0,
        ),
        Err(TokenError::InvalidSignature)
    );
    assert_eq!(
        verify_token(
            &token,
            b"secret",
            "https://localhost:8000/oidc",
            "https://elsewhere.example/authn",
            0,
        ),
        Err(TokenError::WrongAudience)
    );
    assert_eq!(
        verify_token(
            &token,
            b"secret",
            "https://elsewhere.example/oidc",
            "https://localhost:8000/authn",
            0,
        ),
        Err(TokenError::WrongIssuer)
    );
}

#[test]
fn flipping_any_byte_breaks_the_token() {
    let claims = sample_claims(10_000_000_000);
    let token = issue(&claims, b"secret").unwrap();
    let bytes = token.as_bytes();
    for i in 0..bytes.len() {
        let mut tampered = bytes.to_vec();
        tampered[i] ^= 0x01;
        let tampered = String::from_utf8(tampered).unwrap();
        let outcome = verify_token(
            &tampered,
            b"secret",
            "https://localhost:8000/oidc",
            "https://localhost:8000/authn",
            0,
        );
        assert!(outcome.is_err(), "byte {} flipped but token accepted", i);
    }
}

#[test]
fn flipping_a_signature_byte_is_a_signature_error() {
    let claims = sample_claims(10_000_000_000);
    let token = issue(&claims, b"secret").unwrap();
    let dot = token.rfind('.').unwrap();
    let mut bytes = token.as_bytes().to_vec();
    // flip low bits inside a base64url character so the shape survives
    let i = dot + 2;
    bytes[i] = if bytes[i] == b'A' { b'B' } else { b'A' };
    let tampered = String::from_utf8(bytes).unwrap();
    let outcome = verify_token(
        &tampered,
        b"secret",
        "https://localhost:8000/oidc",
        "https://localhost:8000/authn",
        0,
    );
    assert_eq!(outcome, Err(TokenError::InvalidSignature));
}

#[test]
fn garbage_tokens_are_malformed() {
    for sample in ["", "abc", "a.b", "a.b.c.d", "!!.??.!!"] {
        let outcome = verify_token(
            sample,
            b"secret",
            "https://localhost:8000/oidc",
            "https://localhost:8000/authn",
            0,
        );
        assert!(matches!(outcome, Err(TokenError::Malformed)), "{}", sample);
    }
}

#[test]
fn signature_matches_the_signing_crate() {
    // the token's signature must be what jsonwebtoken itself computes
    // over the first two parts; a codec that handed bytes through
    // unchanged would fail here
    let claims = sample_claims(10_000_000_000);
    let token = issue(&claims, b"secret").unwrap();
    let dot = token.rfind('.').unwrap();
    let (message, signature) = token.split_at(dot);
    let signature = &signature[1..];
    let key = jsonwebtoken::DecodingKey::from_secret(b"secret");
    let ok = jsonwebtoken::crypto::verify(
        signature,
        message.as_bytes(),
        &key,
        jsonwebtoken::Algorithm::HS256,
    )
    .unwrap();
    assert!(ok);
    let not_ok = jsonwebtoken::crypto::verify(
        signature,
        message[..message.len() - 1].as_bytes(),
        &key,
        jsonwebtoken::Algorithm::HS256,
    )
    .unwrap();
    assert!(!not_ok);
}

#[test]
fn header_is_a_standard_jwt_header() {
    let claims = sample_claims(10_000_000_000);
    let token = issue(&claims, b"secret").unwrap();
    assert!(token.starts_with("eyJ0eXAiOiJKV1QiLCJhbGciOiJIUzI1NiJ9."));
}

#[test]
fn check_token_uses_the_configuration() {
    let cfg = sample_config();
    let claims = sample_claims(10_000_000_000);
    let token = issue(&claims, cfg.jwt.internal_key.as_bytes()).unwrap();
    let back = check_token(&token, &cfg, 0).unwrap();
    assert_eq!(back.client_id, "c1");
    assert_eq!(check_token("junk", &cfg, 0), Err(TokenError::Malformed));
}
