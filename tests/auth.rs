use pgmysql_proxy::auth::AuthProvider;
use pgmysql_proxy::config::Config;

fn create_test_config() -> Config {
    Config {
        db_host: "localhost".to_string(),
        db_user: "postgres".to_string(),
        db_password: "password".to_string(),
        mysql_username: "testuser".to_string(),
        mysql_password: "testpass".to_string(),
        bind_address: "0.0.0.0:3306".to_string(),
    }
}

#[test]
fn test_auth_provider_new() {
    let config = create_test_config();
    let auth_provider = AuthProvider::new(config.clone());

    assert_eq!(auth_provider.config.mysql_username, "testuser");
    assert_eq!(auth_provider.config.mysql_password, "testpass");
}

#[test]
fn test_authenticate_success() {
    let config = create_test_config();
    let auth_provider = AuthProvider::new(config);

    let result = auth_provider.authenticate("testuser");
    assert!(result);
}

#[test]
fn test_authenticate_failure() {
    let config = create_test_config();
    let auth_provider = AuthProvider::new(config);

    let result = auth_provider.authenticate("wronguser");
    assert!(!result);
}

#[test]
fn test_authenticate_empty_username() {
    let config = create_test_config();
    let auth_provider = AuthProvider::new(config);

    let result = auth_provider.authenticate("");
    assert!(!result);
}

#[test]
fn test_default_auth_plugin() {
    let config = create_test_config();
    let auth_provider = AuthProvider::new(config);

    assert_eq!(auth_provider.default_auth_plugin(), "mysql_native_password");
}

#[test]
fn test_generate_salt() {
    let config = create_test_config();
    let auth_provider = AuthProvider::new(config);

    let salt = auth_provider.generate_salt();
    assert_eq!(salt.len(), 20);

    let salt2 = auth_provider.generate_salt();
    assert_eq!(salt, salt2);
}

#[test]
fn test_generate_salt_no_null_or_dollar() {
    let config = create_test_config();
    let auth_provider = AuthProvider::new(config);

    let salt = auth_provider.generate_salt();

    for &byte in &salt {
        assert_ne!(byte, b'\0');
        assert_ne!(byte, b'$');
    }
}

#[test]
fn salt_is_the_fixed_seed() {
    let auth_provider = AuthProvider::new(create_test_config());
    assert_eq!(&auth_provider.generate_salt(), b";X,po_k}o6^Wz!/kM}Na");
}

#[test]
fn authenticate_is_case_sensitive_and_ignores_password() {
    let auth_provider = AuthProvider::new(create_test_config());
    assert!(!auth_provider.authenticate("TestUser"));
    assert!(!auth_provider.authenticate("testuser "));
    assert!(auth_provider.authenticate("testuser"));
}
