use pgmysql_proxy::config::{Config, ConfigError};

fn some(s: &str) -> Option<String> {
    Some(s.to_string())
}

#[test]
fn test_postgres_connection_string() {
    let config = Config {
        db_host: "localhost".to_string(),
        db_user: "postgres".to_string(),
        db_password: "password123".to_string(),
        mysql_username: "admin".to_string(),
        mysql_password: "secret".to_string(),
        bind_address: "0.0.0.0:3306".to_string(),
    };

    let connection_string = config.postgres_connection_string();
    assert_eq!(
        connection_string,
        "host=localhost user=postgres password=password123"
    );
}

#[test]
fn from_vars_reads_every_value() {
    let config = Config::from_vars(
        some("test_host"),
        some("test_user"),
        some("test_password"),
        some("test_mysql_user"),
        some("test_mysql_password"),
        some("127.0.0.1:3307"),
    )
    .unwrap();
    assert_eq!(config.db_host, "test_host");
    assert_eq!(config.db_user, "test_user");
    assert_eq!(config.db_password, "test_password");
    assert_eq!(config.mysql_username, "test_mysql_user");
    assert_eq!(config.mysql_password, "test_mysql_password");
    assert_eq!(config.bind_address, "127.0.0.1:3307");
}

#[test]
fn from_vars_defaults_bind_address() {
    let config = Config::from_vars(
        some("h"),
        some("u"),
        some("p"),
        some("mu"),
        some("mp"),
        None,
    )
    .unwrap();
    assert_eq!(config.bind_address, "0.0.0.0:3306");
}

#[test]
fn from_vars_reports_first_missing_variable() {
    let r = Config::from_vars(None, None, None, None, None, None);
    assert!(matches!(r, Err(ConfigError::MissingEnvVar("DB_HOST"))));

    let r = Config::from_vars(some("h"), some("u"), None, None, some("mp"), None);
    assert!(matches!(r, Err(ConfigError::MissingEnvVar("DB_PASSWORD"))));

    let r = Config::from_vars(some("h"), some("u"), some("p"), some("mu"), None, None);
    let e = r.err().unwrap();
    assert_eq!(e.variable(), "MYSQL_PASSWORD");
    assert_eq!(
        e.message(),
        "Missing required environment variable: MYSQL_PASSWORD"
    );
}
