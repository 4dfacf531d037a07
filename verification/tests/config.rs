use ec::config::{normalize_db_path, resolve_tls, Config, ConfigError, Environment, FileConfig};

fn empty_env() -> Environment {
    Environment {
        relay_url: None,
        grpc_bind: None,
        rules_dir: None,
        log_level: None,
        database_url: None,
        tls_cert: None,
        tls_key: None,
        nostr_private_key: None,
        db_password: None,
        admin_token: None,
    }
}

/// The environment of these variables.
fn env(vars: &[(&str, &str)]) -> Environment {
    let mut env = empty_env();
    for (key, value) in vars {
        let value = Some(value.to_string());
        match *key {
            "RELAY_URL" => env.relay_url = value,
            "GRPC_BIND" => env.grpc_bind = value,
            "RULES_DIR" => env.rules_dir = value,
            "LOG_LEVEL" => env.log_level = value,
            "DATABASE_URL" => env.database_url = value,
            "TLS_CERT" => env.tls_cert = value,
            "TLS_KEY" => env.tls_key = value,
            "NOSTR_PRIVATE_KEY" => env.nostr_private_key = value,
            "EC_DB_PASSWORD" => env.db_password = value,
            "EC_ADMIN_TOKEN" => env.admin_token = value,
            other => panic!("no such variable: {other}"),
        }
    }
    env
}

/// The settings that the project ships in its `ec.toml`.
fn shipped() -> FileConfig {
    FileConfig {
        relay_url: "wss://relay.mostro.network".to_string(),
        grpc_bind: "127.0.0.1:50051".to_string(),
        rules_dir: "./rules".to_string(),
        log_level: "info".to_string(),
        db_path: "./ec.db".to_string(),
        tls_cert: None,
        tls_key: None,
    }
}

fn load(vars: &[(&str, &str)]) -> Result<Config, ConfigError> {
    Config::load(Some(shipped()), env(vars))
}

fn load_with_tls(
    vars: &[(&str, &str)],
    cert: Option<&str>,
    key: Option<&str>,
) -> Result<Config, ConfigError> {
    let mut file = shipped();
    file.tls_cert = cert.map(|path| path.to_string());
    file.tls_key = key.map(|path| path.to_string());
    Config::load(Some(file), env(vars))
}

#[test]
fn load_fails_without_nostr_private_key() {
    let err = load(&[]).err().expect("missing NOSTR_PRIVATE_KEY must fail");
    assert!(err.message().contains("NOSTR_PRIVATE_KEY"));
    assert_eq!(err.message(), "NOSTR_PRIVATE_KEY env var is required");
}

#[test]
fn load_uses_ec_toml_values_when_env_absent() {
    let config = load(&[("NOSTR_PRIVATE_KEY", "nsec-test")]).ok().expect("load must succeed");
    assert_eq!(config.relay_url, "wss://relay.mostro.network");
    assert_eq!(config.grpc_bind, "127.0.0.1:50051");
    assert_eq!(config.rules_dir, "./rules");
    assert_eq!(config.log_level, "info");
    assert_eq!(config.db_path, "sqlite:./ec.db");
    assert_eq!(config.nostr_private_key, "nsec-test");
    assert!(config.db_password.is_none());
    assert!(config.admin_token.is_none());
}

#[test]
fn env_vars_override_file_config() {
    let config = load(&[
        ("NOSTR_PRIVATE_KEY", "nsec-test"),
        ("RELAY_URL", "ws://127.0.0.1:7777"),
        ("GRPC_BIND", "0.0.0.0:9999"),
        ("RULES_DIR", "/custom/rules"),
        ("LOG_LEVEL", "trace"),
        ("DATABASE_URL", "sqlite::memory:"),
        ("EC_DB_PASSWORD", "hunter2"),
        ("EC_ADMIN_TOKEN", "admin-secret"),
    ])
    .ok()
    .expect("load must succeed");
    assert_eq!(config.relay_url, "ws://127.0.0.1:7777");
    assert_eq!(config.grpc_bind, "0.0.0.0:9999");
    assert_eq!(config.rules_dir, "/custom/rules");
    assert_eq!(config.log_level, "trace");
    assert_eq!(config.db_path, "sqlite::memory:");
    assert_eq!(config.db_password.as_deref(), Some("hunter2"));
    assert_eq!(config.admin_token.as_deref(), Some("admin-secret"));
}

#[test]
fn database_url_with_scheme_is_kept_verbatim() {
    let config = load(&[
        ("NOSTR_PRIVATE_KEY", "nsec-test"),
        ("DATABASE_URL", "postgres://db.example/ec"),
    ])
    .ok()
    .expect("load must succeed");
    assert_eq!(config.db_path, "postgres://db.example/ec");
}

#[test]
fn plain_database_path_gets_sqlite_scheme() {
    let config =
        load(&[("NOSTR_PRIVATE_KEY", "nsec-test"), ("DATABASE_URL", "/var/lib/ec/ec.db")])
            .ok()
            .expect("load must succeed");
    assert_eq!(config.db_path, "sqlite:/var/lib/ec/ec.db");
}

#[test]
fn empty_admin_token_is_treated_as_unset() {
    let config = load(&[("NOSTR_PRIVATE_KEY", "nsec-test"), ("EC_ADMIN_TOKEN", "")])
        .ok()
        .expect("load must succeed");
    assert!(config.admin_token.is_none());
}

#[test]
fn tls_is_disabled_by_default() {
    let config = load(&[("NOSTR_PRIVATE_KEY", "nsec-test")]).ok().expect("load must succeed");
    assert!(config.grpc_tls.is_none());
}

#[test]
fn tls_paths_load_from_env() {
    let config = load(&[
        ("NOSTR_PRIVATE_KEY", "nsec-test"),
        ("TLS_CERT", "/etc/ec/cert.pem"),
        ("TLS_KEY", "/etc/ec/key.pem"),
    ])
    .ok()
    .expect("load must succeed");
    let tls = config.grpc_tls.expect("tls must be configured");
    assert_eq!(tls.cert, "/etc/ec/cert.pem");
    assert_eq!(tls.key, "/etc/ec/key.pem");
}

#[test]
fn tls_paths_load_from_ec_toml() {
    let config = load_with_tls(
        &[("NOSTR_PRIVATE_KEY", "nsec-test")],
        Some("./cert.pem"),
        Some("./key.pem"),
    )
    .ok()
    .expect("load must succeed");
    let tls = config.grpc_tls.expect("tls must be configured");
    assert_eq!(tls.cert, "./cert.pem");
    assert_eq!(tls.key, "./key.pem");
}

#[test]
fn tls_env_overrides_ec_toml() {
    let config = load_with_tls(
        &[
            ("NOSTR_PRIVATE_KEY", "nsec-test"),
            ("TLS_CERT", "/env/cert.pem"),
            ("TLS_KEY", "/env/key.pem"),
        ],
        Some("./toml-cert.pem"),
        Some("./toml-key.pem"),
    )
    .ok()
    .expect("load must succeed");
    let tls = config.grpc_tls.expect("tls must be configured");
    assert_eq!(tls.cert, "/env/cert.pem");
    assert_eq!(tls.key, "/env/key.pem");
}

#[test]
fn tls_cert_without_key_fails() {
    let err = load(&[("NOSTR_PRIVATE_KEY", "nsec-test"), ("TLS_CERT", "/etc/ec/cert.pem")])
        .err()
        .expect("cert without key must fail");
    assert!(err.message().contains("tls_key"), "got: {}", err.message());
    assert_eq!(
        err.message(),
        "tls_cert is set but tls_key is not — both are required for TLS"
    );
}

#[test]
fn tls_key_without_cert_fails() {
    let err = load(&[("NOSTR_PRIVATE_KEY", "nsec-test"), ("TLS_KEY", "/etc/ec/key.pem")])
        .err()
        .expect("key without cert must fail");
    assert!(err.message().contains("tls_cert"), "got: {}", err.message());
    assert_eq!(
        err.message(),
        "tls_key is set but tls_cert is not — both are required for TLS"
    );
}

#[test]
fn empty_tls_env_vars_are_treated_as_unset() {
    let config =
        load(&[("NOSTR_PRIVATE_KEY", "nsec-test"), ("TLS_CERT", ""), ("TLS_KEY", "")])
            .ok()
            .expect("load must succeed");
    assert!(config.grpc_tls.is_none());
}

#[test]
fn defaults_stand_in_for_an_unreadable_file() {
    let config = Config::load(None, env(&[("NOSTR_PRIVATE_KEY", "k")])).ok().unwrap();
    assert_eq!(config.relay_url, "wss://relay.mostro.network");
    assert_eq!(config.grpc_bind, "127.0.0.1:50051");
    assert_eq!(config.rules_dir, "./rules");
    assert_eq!(config.log_level, "info");
    assert_eq!(config.db_path, "sqlite:./ec.db");
    assert!(config.grpc_tls.is_none());
}

#[test]
fn tls_mistake_is_told_before_a_missing_key() {
    let err = load(&[("TLS_KEY", "k.pem")]).err().unwrap();
    assert_eq!(err, ConfigError::TlsCertMissing);
}

#[test]
fn one_tls_path_of_the_file_can_be_overridden() {
    let config = load_with_tls(
        &[("NOSTR_PRIVATE_KEY", "k"), ("TLS_CERT", "/env/cert.pem"), ("TLS_KEY", "")],
        Some("./cert.pem"),
        Some("./key.pem"),
    )
    .ok()
    .unwrap();
    let tls = config.grpc_tls.unwrap();
    assert_eq!(tls.cert, "/env/cert.pem");
    assert_eq!(tls.key, "./key.pem");
}

#[test]
fn empty_db_password_and_empty_settings_count_as_set() {
    let config = load(&[("NOSTR_PRIVATE_KEY", ""), ("EC_DB_PASSWORD", ""), ("RELAY_URL", "")])
        .ok()
        .unwrap();
    assert_eq!(config.db_password.as_deref(), Some(""));
    assert_eq!(config.nostr_private_key, "");
    assert_eq!(config.relay_url, "");
}

#[test]
fn database_urls_are_made_once() {
    for (path, url) in [
        ("ec.db", "sqlite:ec.db"),
        ("sqlite:ec.db", "sqlite:ec.db"),
        ("my sqlite:ec.db", "sqlite:my sqlite:ec.db"),
        ("a://b", "a://b"),
        ("", "sqlite:"),
        (":/", "sqlite::/"),
    ] {
        let once = normalize_db_path(path.to_string());
        assert_eq!(once, url);
        assert_eq!(normalize_db_path(once), url);
    }
}

#[test]
fn the_file_makes_no_difference_where_the_environment_sets_everything() {
    let vars = [
        ("NOSTR_PRIVATE_KEY", "k"),
        ("RELAY_URL", "r"),
        ("GRPC_BIND", "g"),
        ("RULES_DIR", "d"),
        ("LOG_LEVEL", "l"),
        ("DATABASE_URL", "u"),
        ("TLS_CERT", "c"),
        ("TLS_KEY", "t"),
    ];
    let a = Config::load(None, env(&vars)).ok().unwrap();
    let b = load_with_tls(&vars, Some("x"), None).ok().unwrap();
    assert_eq!(a.relay_url, b.relay_url);
    assert_eq!(a.grpc_bind, b.grpc_bind);
    assert_eq!(a.rules_dir, b.rules_dir);
    assert_eq!(a.log_level, b.log_level);
    assert_eq!(a.db_path, b.db_path);
    assert_eq!(a.grpc_tls, b.grpc_tls);
}

#[test]
fn tls_takes_both_paths_or_neither() {
    let path = || Some("p".to_string());
    assert!(resolve_tls(path(), path()).unwrap().is_some());
    assert!(resolve_tls(None, None).unwrap().is_none());
    assert_eq!(resolve_tls(path(), None), Err(ConfigError::TlsKeyMissing));
    assert_eq!(resolve_tls(None, path()), Err(ConfigError::TlsCertMissing));
}
