//! The registries: registration rules and the authentication pipeline.
use plopid::clients::registry::{
    ClientAuthenticationError, ClientRegistry, ClientSecretError, NewClient, RegisteredClient,
};
use plopid::clients::registry::RequestingClient as ClientRequest;
use plopid::services::client::RequestingClient;
use plopid::services::registry::{ServiceAuthenticationError, ServiceError, ServiceRegistry};
use plopid::services::service::{NewService, RegisteredService, ServiceSecretError};

fn registry_with(services: Vec<RegisteredService>) -> ServiceRegistry {
    let mut reg = ServiceRegistry::new();
    for s in services {
        assert!(reg.add_service(s).is_ok());
    }
    reg
}

#[test]
fn authenticate_exact_registration_succeeds() {
    let reg = registry_with(vec![RegisteredService::new(
        "My App".to_string(),
        "c1".to_string(),
        "https://app.example/cb".to_string(),
    )]);
    let rc = RequestingClient::new("c1".to_string(), "https://app.example/cb".to_string());
    assert_eq!(reg.authenticate(&rc).unwrap(), "My App");
}

#[test]
fn authenticate_with_registered_secret_succeeds() {
    let reg = registry_with(vec![RegisteredService::with_secret(
        "My App".to_string(),
        "c1".to_string(),
        "https://app.example/cb".to_string(),
        "s3cret".to_string(),
    )]);
    let rc = RequestingClient::with_secret(
        "c1".to_string(),
        "https://app.example/cb".to_string(),
        "s3cret".to_string(),
    );
    assert_eq!(reg.authenticate(&rc).unwrap(), "My App");
}

#[test]
fn authenticate_unknown_id_is_refused() {
    let reg = registry_with(vec![RegisteredService::new(
        "My App".to_string(),
        "c1".to_string(),
        "https://app.example/cb".to_string(),
    )]);
    let rc = RequestingClient::new("nobody".to_string(), "https://app.example/cb".to_string());
    assert!(matches!(
        reg.authenticate(&rc),
        Err(ServiceAuthenticationError::UnknownServiceId)
    ));
}

#[test]
fn secret_offered_where_none_registered_is_refused() {
    let reg = registry_with(vec![RegisteredService::new(
        "My App".to_string(),
        "c1".to_string(),
        "https://app.example/cb".to_string(),
    )]);
    let rc = RequestingClient::with_secret(
        "c1".to_string(),
        "https://app.example/cb".to_string(),
        "anything".to_string(),
    );
    assert!(matches!(
        reg.authenticate(&rc),
        Err(ServiceAuthenticationError::ServiceSecret(
            ServiceSecretError::NoSecretRegistered
        ))
    ));
    let no_secret =
        RequestingClient::new("c1".to_string(), "https://app.example/cb".to_string());
    assert!(reg.authenticate(&no_secret).is_ok());
}

#[test]
fn wrong_or_missing_secret_is_refused() {
    let reg = registry_with(vec![RegisteredService::with_secret(
        "My App".to_string(),
        "c1".to_string(),
        "https://app.example/cb".to_string(),
        "right".to_string(),
    )]);
    let wrong = RequestingClient::with_secret(
        "c1".to_string(),
        "https://app.example/cb".to_string(),
        "wrong".to_string(),
    );
    assert!(matches!(
        reg.authenticate(&wrong),
        Err(ServiceAuthenticationError::ServiceSecret(
            ServiceSecretError::SecretsDoNotMatch
        ))
    ));
    let missing =
        RequestingClient::new("c1".to_string(), "https://app.example/cb".to_string());
    assert!(matches!(
        reg.authenticate(&missing),
        Err(ServiceAuthenticationError::ServiceSecret(
            ServiceSecretError::NoSecretProvided
        ))
    ));
}

#[test]
fn unregistered_redirect_uri_is_refused() {
    let reg = registry_with(vec![RegisteredService::new(
        "My App".to_string(),
        "c1".to_string(),
        "https://app.example/cb".to_string(),
    )]);
    let rc = RequestingClient::new("c1".to_string(), "https://evil.example/cb".to_string());
    assert!(matches!(
        reg.authenticate(&rc),
        Err(ServiceAuthenticationError::UnknownRedirectUri)
    ));
}

#[test]
fn duplicate_service_id_is_refused() {
    let mut reg = ServiceRegistry::new();
    let first = RegisteredService::new(
        "First".to_string(),
        "dup".to_string(),
        "https://one.example/cb".to_string(),
    );
    let second = RegisteredService::new(
        "Second".to_string(),
        "dup".to_string(),
        "https://two.example/cb".to_string(),
    );
    assert!(reg.add_service(first).is_ok());
    assert!(matches!(
        reg.add_service(second),
        Err(ServiceError::DuplicateServiceId)
    ));
    assert_eq!(reg.count_services(), 1);
}

#[test]
fn invalid_service_is_refused() {
    let mut reg = ServiceRegistry::new();
    let empty_id = RegisteredService::new(
        "No Id".to_string(),
        "".to_string(),
        "https://app.example/cb".to_string(),
    );
    assert!(matches!(
        reg.add_service(empty_id),
        Err(ServiceError::InvalidService)
    ));
    let no_uris = NewService::new("No URIs".to_string(), Vec::new());
    assert!(matches!(
        reg.register(no_uris),
        Err(ServiceError::InvalidService)
    ));
}

#[test]
fn register_assigns_a_fresh_id() {
    let mut reg = ServiceRegistry::new();
    let svc = NewService::new(
        "Registered".to_string(),
        vec!["https://app.example/cb".to_string()],
    );
    let id = reg.register(svc).unwrap();
    assert_eq!(id.len(), 32);
    assert!(id.chars().all(|c| c.is_ascii_alphanumeric()));
    assert!(reg.is_client_id_known(&id));
    assert_eq!(reg.count_services(), 1);
}

#[test]
fn service_lookup_and_getters() {
    let reg = registry_with(vec![RegisteredService::new(
        "My App".to_string(),
        "c1".to_string(),
        "https://app.example/cb".to_string(),
    )]);
    let found = reg.get_service(&"c1".to_string()).unwrap();
    assert_eq!(found.name(), "My App");
    assert_eq!(found.client_id(), "c1");
    assert!(found.has_redirect_uri(&"https://app.example/cb".to_string()));
    assert!(!found.has_redirect_uri(&"https://other.example/cb".to_string()));
    assert!(!found.has_secret());
    assert!(found.is_valid());
    assert!(reg.is_client_id_known(&"c1".to_string()));
    assert!(!reg.is_client_id_known(&"c2".to_string()));
}

#[test]
fn client_registry_mirrors_the_pipeline() {
    let mut reg = ClientRegistry::new();
    let id = reg
        .register(NewClient::new(
            "Client App".to_string(),
            vec!["https://app.example/cb".to_string()],
        ))
        .unwrap();
    assert_eq!(id.len(), 32);
    assert!(id.chars().all(|c| c.is_ascii_alphanumeric()));
    assert!(reg.is_known(&id));
    let rc = ClientRequest::new(id.clone(), "https://app.example/cb".to_string());
    assert_eq!(reg.authenticate(&rc).unwrap(), "Client App");
    assert_eq!(
        reg.has_registered_uri(&id, &"https://app.example/cb".to_string()),
        Ok(true)
    );
    assert_eq!(
        reg.has_registered_uri(&id, &"https://evil.example/cb".to_string()),
        Ok(false)
    );
    assert_eq!(
        reg.has_registered_uri(&"ghost".to_string(), &"x".to_string()),
        Err("Unknown client")
    );
}

#[test]
fn client_secret_rules_mirror_the_services() {
    let mut reg = ClientRegistry::new();
    let with_secret = RegisteredClient::with_secret(
        "Locked".to_string(),
        "locked".to_string(),
        "https://app.example/cb".to_string(),
        "right".to_string(),
    );
    assert_eq!(reg.add_client(with_secret), Ok("locked".to_string()));
    let wrong = ClientRequest::with_secret(
        "locked".to_string(),
        "https://app.example/cb".to_string(),
        "wrong".to_string(),
    );
    assert!(matches!(
        reg.authenticate(&wrong),
        Err(ClientAuthenticationError::ClientSecret(
            ClientSecretError::SecretsDoNotMatch
        ))
    ));
    let right = ClientRequest::with_secret(
        "locked".to_string(),
        "https://app.example/cb".to_string(),
        "right".to_string(),
    );
    assert_eq!(reg.authenticate(&right).unwrap(), "Locked");
}

#[test]
fn duplicate_client_id_message_names_the_id() {
    let mut reg = ClientRegistry::new();
    let a = RegisteredClient::new(
        "A".to_string(),
        "dup".to_string(),
        "https://a.example/cb".to_string(),
    );
    let b = RegisteredClient::new(
        "B".to_string(),
        "dup".to_string(),
        "https://b.example/cb".to_string(),
    );
    assert!(reg.add_client(a).is_ok());
    assert_eq!(
        reg.add_client(b),
        Err("Client id 'dup' is already registered by another".to_string())
    );
}

#[test]
fn error_messages_are_stable() {
    assert_eq!(
        ServiceAuthenticationError::UnknownServiceId.message(),
        "The service_id is unknown amongst the registered services"
    );
    assert_eq!(
        ServiceAuthenticationError::UnknownRedirectUri.message(),
        "The redirect_uri does not match any of the registered ones"
    );
    assert_eq!(
        ServiceError::InvalidService.message(),
        "The service has no client_id or no redirect_uri"
    );
    assert_eq!(
        ClientAuthenticationError::UnknownClientId.message(),
        "The client_id is unknown amongst the registered clients"
    );
}

#[test]
fn two_registrations_get_distinct_ids() {
    let mut reg = ClientRegistry::new();
    let a = reg
        .register(NewClient::new(
            "A".to_string(),
            vec!["https://a.example/cb".to_string()],
        ))
        .unwrap();
    let b = reg
        .register(NewClient::new(
            "B".to_string(),
            vec!["https://b.example/cb".to_string()],
        ))
        .unwrap();
    assert_ne!(a, b);
}
