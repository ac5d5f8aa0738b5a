//! The authorization flow end to end: scope and response-type
//! validation, the redirect to the login step, and the resume leg.
use plopid::config::data::{ClientsParams, Config, JWTParams, ServerParams};
use plopid::jwt::session::{check_token, TokenError};
use plopid::oidc::auth::{
    check_scope, endpoint, redirect, OIDCAuthError, OIDCAuthResponse, OIDCRedirectResponse,
    ResponseType,
};
use plopid::oidc::authz;
use plopid::oidc::discovery;
use plopid::oidc::login;
use plopid::services::registry::ServiceRegistry;
use plopid::services::service::RegisteredService;
use plopid::web::authn::pwd::{login_pwd, AuthnForm, PwdFormResponse};
use plopid::clients::registry::{ClientRegistry, RegisteredClient};
use plopid::web::authn::form::{login as login_page, AuthnLoginResponse};

fn config() -> Config {
    Config {
        server: ServerParams {
            listen_ip: "127.0.0.1".to_string(),
            host: "localhost".to_string(),
            port: 8000,
            templates_dir: "templates".to_string(),
        },
        clients: ClientsParams {
            registry_dir: "config/clients".to_string(),
        },
        jwt: JWTParams {
            oidc_issuer: "https://localhost:8000/oidc".to_string(),
            internal_key: "secret".to_string(),
            internal_authn_aud: "https://localhost:8000/authn".to_string(),
        },
    }
}

fn registry_with_c1() -> ServiceRegistry {
    let mut reg = ServiceRegistry::new();
    reg.add_service(RegisteredService::new(
        "My App".to_string(),
        "c1".to_string(),
        "https://app.example/cb".to_string(),
    ))
    .unwrap();
    reg
}

#[test]
fn scope_must_contain_openid() {
    assert!(check_scope(&"openid profile".to_string()));
    assert!(!check_scope(&"profile email".to_string()));
    assert!(!check_scope(&"".to_string()));
    assert!(check_scope(&"openid".to_string()));
    assert!(!check_scope(&"openidx".to_string()));
    assert!(!check_scope(&"xopenid".to_string()));
    assert!(check_scope(&"profile openid email".to_string()));
}

#[test]
fn response_types_parse_exactly() {
    assert_eq!(ResponseType::from_str("code"), ResponseType::Code);
    assert_eq!(ResponseType::from_str("id_token"), ResponseType::IdToken);
    assert_eq!(ResponseType::from_str("bogus"), ResponseType::Unsupported);
    assert_eq!(ResponseType::from_str(""), ResponseType::Unsupported);
}

#[test]
fn code_flow_issues_a_verifiable_session_token() {
    let reg = registry_with_c1();
    let cfg = config();
    let outcome = endpoint(
        "openid".to_string(),
        "code".to_string(),
        "c1".to_string(),
        "https://app.example/cb".to_string(),
        Some("st".to_string()),
        None,
        &reg,
        &cfg,
        10_000_000_000,
    );
    let url = match outcome {
        OIDCAuthResponse::RedirectLogin(u) => u,
        other => panic!("expected a login redirect, got {:?}", other),
    };
    assert!(url.starts_with("/authn/login?session="));
    let token = &url["/authn/login?session=".len()..];
    let claims = check_token(token, &cfg, 0).unwrap();
    assert_eq!(claims.client_id, "c1");
    assert_eq!(claims.client_name, "My App");
    assert_eq!(claims.redirect_uri, "https://app.example/cb");
    assert_eq!(claims.scopes, vec!["openid".to_string()]);
    assert_eq!(claims.state, Some("st".to_string()));
    assert_eq!(claims.nonce, None);
    assert_eq!(claims.iss, "https://localhost:8000/oidc");
    assert_eq!(claims.aud, "https://localhost:8000/authn");
    assert_eq!(claims.exp, 10_000_000_000);
}

#[test]
fn evil_redirect_uri_gets_no_token() {
    let reg = registry_with_c1();
    let cfg = config();
    let outcome = endpoint(
        "openid".to_string(),
        "code".to_string(),
        "c1".to_string(),
        "https://evil.example/cb".to_string(),
        None,
        None,
        &reg,
        &cfg,
        10_000_000_000,
    );
    assert!(matches!(
        outcome,
        OIDCAuthResponse::BadRequest(OIDCAuthError::ClientAuthentication(
            plopid::services::registry::ServiceAuthenticationError::UnknownRedirectUri
        ))
    ));
}

#[test]
fn missing_openid_scope_is_refused() {
    let reg = registry_with_c1();
    let cfg = config();
    let outcome = endpoint(
        "profile email".to_string(),
        "code".to_string(),
        "c1".to_string(),
        "https://app.example/cb".to_string(),
        None,
        None,
        &reg,
        &cfg,
        10_000_000_000,
    );
    assert!(matches!(
        outcome,
        OIDCAuthResponse::BadRequest(OIDCAuthError::InvalidScope)
    ));
}

#[test]
fn unsupported_response_types_stay_distinguishable() {
    let reg = registry_with_c1();
    let cfg = config();
    let id_token = endpoint(
        "openid".to_string(),
        "id_token".to_string(),
        "c1".to_string(),
        "https://app.example/cb".to_string(),
        None,
        None,
        &reg,
        &cfg,
        10_000_000_000,
    );
    assert!(matches!(
        id_token,
        OIDCAuthResponse::BadRequest(OIDCAuthError::UnsupportedResponseType(
            ResponseType::IdToken
        ))
    ));
    let bogus = endpoint(
        "openid".to_string(),
        "bogus".to_string(),
        "c1".to_string(),
        "https://app.example/cb".to_string(),
        None,
        None,
        &reg,
        &cfg,
        10_000_000_000,
    );
    assert!(matches!(
        bogus,
        OIDCAuthResponse::BadRequest(OIDCAuthError::UnsupportedResponseType(
            ResponseType::Unsupported
        ))
    ));
}

#[test]
fn full_round_trip_through_login_and_resume() {
    let reg = registry_with_c1();
    let cfg = config();
    let outcome = endpoint(
        "openid".to_string(),
        "code".to_string(),
        "c1".to_string(),
        "https://app.example/cb".to_string(),
        None,
        None,
        &reg,
        &cfg,
        10_000_000_000,
    );
    let url = match outcome {
        OIDCAuthResponse::RedirectLogin(u) => u,
        other => panic!("expected a login redirect, got {:?}", other),
    };
    let token = url["/authn/login?session=".len()..].to_string();

    // the login step accepts the registered credentials
    let form = AuthnForm {
        u_login: "ptramo",
        u_password: "plopplopplop",
    };
    let next = login_pwd(token.clone(), &form, &cfg, 0);
    let resume_url = match next {
        PwdFormResponse::AuthnSuccess(u) => u,
        other => panic!("expected a resume redirect, got {:?}", other),
    };
    assert_eq!(
        resume_url,
        format!("/oidc/auth_redirect?session={}", token)
    );

    // and the wrong credentials do not
    let bad = AuthnForm {
        u_login: "ptramo",
        u_password: "nope",
    };
    assert!(matches!(
        login_pwd(token.clone(), &bad, &cfg, 0),
        PwdFormResponse::AuthnFailure
    ));

    // resuming with the same token redirects back to the client with a code
    let resume = redirect(token.clone(), &cfg, 0);
    let back = match resume {
        OIDCRedirectResponse::RedirectToClient(u) => u,
        other => panic!("expected a client redirect, got {:?}", other),
    };
    assert!(back.starts_with("https://app.example/cb?code="));
    let code = &back["https://app.example/cb?code=".len()..];
    assert_eq!(code.len(), 32);
    assert!(code.chars().all(|c| c.is_ascii_alphanumeric()));

    // a stale clock refuses the same token
    assert!(matches!(
        redirect(token, &cfg, usize::MAX),
        OIDCRedirectResponse::BadSessionToken(TokenError::Expired)
    ));
}

#[test]
fn credential_check_is_exact() {
    let form = plopid::authn::pwd::AuthnForm {
        u_login: "ptramo",
        u_password: "plopplopplop",
    };
    assert!(plopid::authn::pwd::login_pwd(&form));
    let wrong = plopid::authn::pwd::AuthnForm {
        u_login: "PTRAMO",
        u_password: "plopplopplop",
    };
    assert!(!plopid::authn::pwd::login_pwd(&wrong));
}

#[test]
fn discovery_document_names_the_endpoints() {
    let cfg = config();
    let doc = discovery::endpoint(&cfg);
    assert_eq!(doc.issuer, "https://localhost:8000/oidc");
    assert_eq!(doc.authorization_endpoint, "https://localhost:8000/oidc/auth");
    assert_eq!(doc.token_endpoint, "https://localhost:8000/oidc/token");
    assert_eq!(doc.userinfo_endpoint, "https://localhost:8000/oidc/userinfo");
    assert_eq!(doc.scopes_supported, vec!["openid"]);
    assert_eq!(doc.grant_types_supported, vec!["authorization_code"]);
    assert_eq!(doc.response_types_supported, vec!["code"]);
}

#[test]
fn default_configuration_is_the_documented_one() {
    let cfg = plopid::config::default::default();
    assert_eq!(cfg.server.listen_ip, "127.0.0.1");
    assert_eq!(cfg.server.host, "localhost");
    assert_eq!(cfg.server.port, 8000);
    assert_eq!(cfg.server.templates_dir, "templates");
    assert_eq!(cfg.clients.registry_dir, "config/clients");
    assert_eq!(cfg.jwt.oidc_issuer, "https://localhost:8000/oidc");
    assert_eq!(cfg.jwt.internal_key, "secret");
    assert_eq!(cfg.jwt.internal_authn_aud, "https://localhost:8000/authn");
}

#[test]
fn legacy_authz_answers_in_plain_text() {
    let mut reg = ClientRegistry::new();
    reg.add_client(RegisteredClient::new(
        "Old App".to_string(),
        "old".to_string(),
        "https://old.example/cb".to_string(),
    ))
    .unwrap();
    let ok = authz::oidc_authz(
        "openid".to_string(),
        "old".to_string(),
        "https://old.example/cb".to_string(),
        "s1".to_string(),
        &reg,
    );
    assert_eq!(
        ok,
        "OIDC Endpoint : authorization\n  - client_id: old\n  - redirect_uri: https://old.example/cb\n  - state: s1"
    );
    let unknown = authz::oidc_authz(
        "openid".to_string(),
        "ghost".to_string(),
        "https://old.example/cb".to_string(),
        "s1".to_string(),
        &reg,
    );
    assert_eq!(unknown, "Unknown client");
    let bad_uri = authz::oidc_authz(
        "openid".to_string(),
        "old".to_string(),
        "https://evil.example/cb".to_string(),
        "s1".to_string(),
        &reg,
    );
    assert_eq!(bad_uri, "Redirect URI not registered for that client");
    let bad_scope = authz::oidc_authz(
        "profile".to_string(),
        "old".to_string(),
        "https://old.example/cb".to_string(),
        "s1".to_string(),
        &reg,
    );
    assert_eq!(bad_scope, "Unknown scope");
}

#[test]
fn earlier_pipeline_hands_the_token_under_jwt() {
    let mut reg = ServiceRegistry::new();
    reg.add_service(RegisteredService::new(
        "Dev App".to_string(),
        "dev".to_string(),
        "https://dev.example/cb".to_string(),
    ))
    .unwrap();
    let cfg = config();
    let outcome = login::oidc_authz(
        "openid".to_string(),
        "code".to_string(),
        "dev".to_string(),
        "https://dev.example/cb".to_string(),
        None,
        None,
        &reg,
        &cfg,
        10_000_000_000,
    );
    let url = match outcome {
        login::OIDCAuthzResponse::RedirectLogin(u) => u,
        other => panic!("expected a login redirect, got {:?}", other),
    };
    assert!(url.starts_with("/authn/login?jwt="));
    let token = &url["/authn/login?jwt=".len()..];
    let claims = check_token(token, &cfg, 0).unwrap();
    assert_eq!(claims.client_id, "dev");
    assert_eq!(claims.aud, cfg.jwt.internal_authn_aud);
    assert_eq!(claims.iss, cfg.jwt.oidc_issuer);
}

#[test]
fn error_page_context_carries_the_parts() {
    let ctx = plopid::web::error::error_page(400, "Bad", "Details");
    assert_eq!(ctx.page_name, "Error");
    assert_eq!(ctx.error_code, 400);
    assert_eq!(ctx.error_message, "Bad");
    assert_eq!(ctx.error_details, "Details");
}

#[test]
fn reserved_endpoints_answer_not_implemented() {
    let token = plopid::oidc::token::endpoint();
    match token {
        plopid::oidc::token::OIDCTokenResponse::ServerError(c) => {
            assert_eq!(c.error_code, 500);
            assert_eq!(c.error_message, "Not implemented");
        }
        other => panic!("unexpected token endpoint answer: {:?}", other),
    }
    let userinfo = plopid::oidc::userinfo::endpoint();
    match userinfo {
        plopid::oidc::userinfo::OIDCUserInfoResponse::ServerError(c) => {
            assert_eq!(c.error_code, 500);
            assert_eq!(c.error_message, "Not implemented");
        }
        other => panic!("unexpected userinfo endpoint answer: {:?}", other),
    }
}

#[test]
fn login_page_depends_on_the_session_token() {
    let reg = registry_with_c1();
    let cfg = config();
    assert_eq!(login_page(None, &cfg, 0), AuthnLoginResponse::GenericLoginForm);
    assert!(matches!(
        login_page(Some("junk".to_string()), &cfg, 0),
        AuthnLoginResponse::BadRequest(TokenError::Malformed)
    ));
    let outcome = endpoint(
        "openid".to_string(),
        "code".to_string(),
        "c1".to_string(),
        "https://app.example/cb".to_string(),
        None,
        None,
        &reg,
        &cfg,
        10_000_000_000,
    );
    let url = match outcome {
        OIDCAuthResponse::RedirectLogin(u) => u,
        other => panic!("expected a login redirect, got {:?}", other),
    };
    let token = url["/authn/login?session=".len()..].to_string();
    match login_page(Some(token.clone()), &cfg, 0) {
        AuthnLoginResponse::ClientLoginForm {
            client_name,
            session_jwt,
        } => {
            assert_eq!(client_name, "My App");
            assert_eq!(session_jwt, token);
        }
        other => panic!("expected the client login form, got {:?}", other),
    }
}
