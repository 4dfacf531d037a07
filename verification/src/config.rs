//! Configuration: settings of a file, secrets and overrides of the environment.

use crate::nostr::messages::text_in;
use crate::text::{find, occurs, occurs_at, starts_with};
use vstd::prelude::*;

verus! {

/// Where the certificate and the key for TLS on the admin API are kept.
#[derive(Debug, Clone, PartialEq, Eq)]
pub struct TlsPaths {
    pub cert: String,
    pub key: String,
}

impl View for TlsPaths {
    type V = (Seq<char>, Seq<char>);

    /// The paths of the certificate and of the key.
    open spec fn view(&self) -> (Seq<char>, Seq<char>) {
        (self.cert@, self.key@)
    }
}

/// The settings of a file. None of them is secret.
#[derive(Debug, Clone)]
pub struct FileConfig {
    pub relay_url: String,
    pub grpc_bind: String,
    pub rules_dir: String,
    pub log_level: String,
    pub db_path: String,
    pub tls_cert: Option<String>,
    pub tls_key: Option<String>,
}

/// The settings of a file, by what they say.
pub struct FileView {
    pub relay_url: Seq<char>,
    pub grpc_bind: Seq<char>,
    pub rules_dir: Seq<char>,
    pub log_level: Seq<char>,
    pub db_path: Seq<char>,
    pub tls_cert: Option<Seq<char>>,
    pub tls_key: Option<Seq<char>>,
}

impl View for FileConfig {
    type V = FileView;

    open spec fn view(&self) -> FileView {
        FileView {
            relay_url: self.relay_url@,
            grpc_bind: self.grpc_bind@,
            rules_dir: self.rules_dir@,
            log_level: self.log_level@,
            db_path: self.db_path@,
            tls_cert: text_in(self.tls_cert),
            tls_key: text_in(self.tls_key),
        }
    }
}

/// The settings where there is no file.
pub open spec fn default_settings() -> FileView {
    FileView {
        relay_url: "wss://relay.mostro.network"@,
        grpc_bind: "127.0.0.1:50051"@,
        rules_dir: "./rules"@,
        log_level: "info"@,
        db_path: "./ec.db"@,
        tls_cert: None,
        tls_key: None,
    }
}

impl Default for FileConfig {
    fn default() -> (settings: Self)
        ensures
            settings@ == default_settings(),
    {
        FileConfig {
            relay_url: "wss://relay.mostro.network".to_owned(),
            grpc_bind: "127.0.0.1:50051".to_owned(),
            rules_dir: "./rules".to_owned(),
            log_level: "info".to_owned(),
            db_path: "./ec.db".to_owned(),
            tls_cert: None,
            tls_key: None,
        }
    }
}

/// What the environment sets. It holds secrets, so it cannot be printed.
pub struct Environment {
    /// `RELAY_URL`
    pub relay_url: Option<String>,
    /// `GRPC_BIND`
    pub grpc_bind: Option<String>,
    /// `RULES_DIR`
    pub rules_dir: Option<String>,
    /// `LOG_LEVEL`
    pub log_level: Option<String>,
    /// `DATABASE_URL`
    pub database_url: Option<String>,
    /// `TLS_CERT`
    pub tls_cert: Option<String>,
    /// `TLS_KEY`
    pub tls_key: Option<String>,
    /// `NOSTR_PRIVATE_KEY`
    pub nostr_private_key: Option<String>,
    /// `EC_DB_PASSWORD`
    pub db_password: Option<String>,
    /// `EC_ADMIN_TOKEN`
    pub admin_token: Option<String>,
}

/// What the environment sets, by what it says.
pub struct EnvironmentView {
    pub relay_url: Option<Seq<char>>,
    pub grpc_bind: Option<Seq<char>>,
    pub rules_dir: Option<Seq<char>>,
    pub log_level: Option<Seq<char>>,
    pub database_url: Option<Seq<char>>,
    pub tls_cert: Option<Seq<char>>,
    pub tls_key: Option<Seq<char>>,
    pub nostr_private_key: Option<Seq<char>>,
    pub db_password: Option<Seq<char>>,
    pub admin_token: Option<Seq<char>>,
}

impl View for Environment {
    type V = EnvironmentView;

    open spec fn view(&self) -> EnvironmentView {
        EnvironmentView {
            relay_url: text_in(self.relay_url),
            grpc_bind: text_in(self.grpc_bind),
            rules_dir: text_in(self.rules_dir),
            log_level: text_in(self.log_level),
            database_url: text_in(self.database_url),
            tls_cert: text_in(self.tls_cert),
            tls_key: text_in(self.tls_key),
            nostr_private_key: text_in(self.nostr_private_key),
            db_password: text_in(self.db_password),
            admin_token: text_in(self.admin_token),
        }
    }
}

/// The configuration of the commission. It holds secrets, so it cannot be
/// printed.
pub struct Config {
    pub relay_url: String,
    pub grpc_bind: String,
    pub rules_dir: String,
    pub log_level: String,
    /// A URL with a scheme.
    pub db_path: String,
    /// TLS for the admin API; without it the API is plaintext, for loopback
    /// only.
    pub grpc_tls: Option<TlsPaths>,
    pub nostr_private_key: String,
    pub db_password: Option<String>,
    /// When set, every admin call must carry it as a bearer token.
    pub admin_token: Option<String>,
}

/// The configuration, by what it says.
pub struct ConfigView {
    pub relay_url: Seq<char>,
    pub grpc_bind: Seq<char>,
    pub rules_dir: Seq<char>,
    pub log_level: Seq<char>,
    pub db_path: Seq<char>,
    pub grpc_tls: Option<(Seq<char>, Seq<char>)>,
    pub nostr_private_key: Seq<char>,
    pub db_password: Option<Seq<char>>,
    pub admin_token: Option<Seq<char>>,
}

/// The paths of an optional pair.
pub open spec fn paths_in(paths: Option<TlsPaths>) -> Option<(Seq<char>, Seq<char>)> {
    match paths {
        Some(p) => Some(p@),
        None => None,
    }
}

impl View for Config {
    type V = ConfigView;

    open spec fn view(&self) -> ConfigView {
        ConfigView {
            relay_url: self.relay_url@,
            grpc_bind: self.grpc_bind@,
            rules_dir: self.rules_dir@,
            log_level: self.log_level@,
            db_path: self.db_path@,
            grpc_tls: paths_in(self.grpc_tls),
            nostr_private_key: self.nostr_private_key@,
            db_password: text_in(self.db_password),
            admin_token: text_in(self.admin_token),
        }
    }
}

/// Why there is no configuration.
#[derive(Debug, Clone, Copy, PartialEq, Eq, Structural)]
pub enum ConfigError {
    /// A certificate without a key.
    TlsKeyMissing,
    /// A key without a certificate.
    TlsCertMissing,
    NoPrivateKey,
}

impl ConfigError {
    /// The text of an error.
    pub open spec fn text(self) -> Seq<char> {
        match self {
            ConfigError::TlsKeyMissing =>
                "tls_cert is set but tls_key is not — both are required for TLS"@,
            ConfigError::TlsCertMissing =>
                "tls_key is set but tls_cert is not — both are required for TLS"@,
            ConfigError::NoPrivateKey => "NOSTR_PRIVATE_KEY env var is required"@,
        }
    }

    /// The error in words.
    pub fn message(&self) -> (message: &'static str)
        ensures
            message@ == self.text(),
    {
        match self {
            ConfigError::TlsKeyMissing =>
                "tls_cert is set but tls_key is not — both are required for TLS",
            ConfigError::TlsCertMissing =>
                "tls_key is set but tls_cert is not — both are required for TLS",
            ConfigError::NoPrivateKey => "NOSTR_PRIVATE_KEY env var is required",
        }
    }
}

/// A setting, or what the environment sets in its place.
pub open spec fn overridden(variable: Option<Seq<char>>, setting: Seq<char>) -> Seq<char> {
    match variable {
        Some(value) => value,
        None => setting,
    }
}

/// A variable that counts as unset when it is empty.
pub open spec fn unless_empty(variable: Option<Seq<char>>) -> Option<Seq<char>> {
    match variable {
        Some(value) => if value.len() > 0 {
            Some(value)
        } else {
            None
        },
        None => None,
    }
}

/// The first of two texts that is there.
pub open spec fn first_set(a: Option<Seq<char>>, b: Option<Seq<char>>) -> Option<Seq<char>> {
    match a {
        Some(_) => a,
        None => b,
    }
}

/// The URL of a database: one that has a scheme stays as it is, and a plain path
/// is one of SQLite.
pub open spec fn database_url(path: Seq<char>) -> Seq<char> {
    if occurs(path, "://"@) || occurs_at(path, "sqlite:"@, 0) {
        path
    } else {
        "sqlite:"@ + path
    }
}

/// The paths for TLS: both or neither.
pub open spec fn tls_of(cert: Option<Seq<char>>, key: Option<Seq<char>>) -> Result<
    Option<(Seq<char>, Seq<char>)>,
    ConfigError,
> {
    match (cert, key) {
        (Some(c), Some(k)) => Ok(Some((c, k))),
        (None, None) => Ok(None),
        (Some(_), None) => Err(ConfigError::TlsKeyMissing),
        (None, Some(_)) => Err(ConfigError::TlsCertMissing),
    }
}

/// The configuration that settings and an environment give.
pub open spec fn configured(settings: FileView, env: EnvironmentView) -> Result<
    ConfigView,
    ConfigError,
> {
    let tls = tls_of(
        first_set(unless_empty(env.tls_cert), settings.tls_cert),
        first_set(unless_empty(env.tls_key), settings.tls_key),
    );
    match (tls, env.nostr_private_key) {
        (Err(error), _) => Err(error),
        (Ok(_), None) => Err(ConfigError::NoPrivateKey),
        (Ok(grpc_tls), Some(nostr_private_key)) => Ok(
            ConfigView {
                relay_url: overridden(env.relay_url, settings.relay_url),
                grpc_bind: overridden(env.grpc_bind, settings.grpc_bind),
                rules_dir: overridden(env.rules_dir, settings.rules_dir),
                log_level: overridden(env.log_level, settings.log_level),
                db_path: database_url(overridden(env.database_url, settings.db_path)),
                grpc_tls,
                nostr_private_key,
                db_password: env.db_password,
                admin_token: unless_empty(env.admin_token),
            },
        ),
    }
}

/// The settings of a file, or the default where it could not be read.
pub open spec fn settings_of(file: Option<FileConfig>) -> FileView {
    match file {
        Some(settings) => settings@,
        None => default_settings(),
    }
}

/// Takes a setting, or what the environment sets in its place.
fn override_with(variable: Option<String>, setting: String) -> (value: String)
    ensures
        value@ == overridden(text_in(variable), setting@),
{
    match variable {
        Some(value) => value,
        None => setting,
    }
}

/// Takes a variable that counts as unset when it is empty.
fn nonempty(variable: Option<String>) -> (value: Option<String>)
    ensures
        text_in(value) == unless_empty(text_in(variable)),
{
    match variable {
        Some(value) => if value.as_str().unicode_len() > 0 {
            Some(value)
        } else {
            None
        },
        None => None,
    }
}

/// Takes the first of two texts that is there.
fn either(a: Option<String>, b: Option<String>) -> (text: Option<String>)
    ensures
        text_in(text) == first_set(text_in(a), text_in(b)),
{
    match a {
        Some(text) => Some(text),
        None => b,
    }
}

/// Gives a plain path the scheme of SQLite.
pub fn normalize_db_path(path: String) -> (url: String)
    ensures
        url@ == database_url(path@),
{
    if find(path.as_str(), "://").is_some() || starts_with(path.as_str(), "sqlite:") {
        path
    } else {
        "sqlite:".to_owned().concat(path.as_str())
    }
}

/// Combines the settings for TLS into a pair. One of them alone would serve
/// plaintext without a word, so it is refused.
pub fn resolve_tls(cert: Option<String>, key: Option<String>) -> (tls: Result<
    Option<TlsPaths>,
    ConfigError,
>)
    ensures
        match tls_of(text_in(cert), text_in(key)) {
            Ok(paths) => tls matches Ok(t) && paths_in(t) == paths,
            Err(error) => tls == Err::<Option<TlsPaths>, ConfigError>(error),
        },
{
    match (cert, key) {
        (Some(cert), Some(key)) => Ok(Some(TlsPaths { cert, key })),
        (None, None) => Ok(None),
        (Some(_), None) => Err(ConfigError::TlsKeyMissing),
        (None, Some(_)) => Err(ConfigError::TlsCertMissing),
    }
}

impl Config {
    /// The configuration of a file, or of the defaults where it could not be
    /// read, with what the environment sets.
    pub fn load(file: Option<FileConfig>, env: Environment) -> (config: Result<Self, ConfigError>)
        ensures
            match configured(settings_of(file), env@) {
                Ok(view) => config matches Ok(c) && c@ == view,
                Err(error) => config == Err::<Config, ConfigError>(error),
            },
    {
        let settings: FileConfig = match file {
            Some(settings) => settings,
            None => FileConfig::default(),
        };
        let tls_cert = either(nonempty(env.tls_cert), settings.tls_cert);
        let tls_key = either(nonempty(env.tls_key), settings.tls_key);
        let grpc_tls = match resolve_tls(tls_cert, tls_key) {
            Ok(paths) => paths,
            Err(error) => return Err(error),
        };
        let nostr_private_key = match env.nostr_private_key {
            Some(key) => key,
            None => return Err(ConfigError::NoPrivateKey),
        };
        Ok(
            Config {
                relay_url: override_with(env.relay_url, settings.relay_url),
                grpc_bind: override_with(env.grpc_bind, settings.grpc_bind),
                rules_dir: override_with(env.rules_dir, settings.rules_dir),
                log_level: override_with(env.log_level, settings.log_level),
                db_path: normalize_db_path(override_with(env.database_url, settings.db_path)),
                grpc_tls,
                nostr_private_key,
                db_password: env.db_password,
                admin_token: nonempty(env.admin_token),
            },
        )
    }
}

/// The URL of a database always has a scheme, and is left alone once it has.
pub proof fn law_database_url_has_scheme(path: Seq<char>)
    ensures
        occurs(database_url(path), "://"@) || occurs_at(database_url(path), "sqlite:"@, 0),
        database_url(database_url(path)) == database_url(path),
{
    let url = "sqlite:"@ + path;
    assert(url.subrange(0, "sqlite:"@.len() as int) =~= "sqlite:"@);
    assert(occurs_at(url, "sqlite:"@, 0));
}

/// The environment goes before the file: a file whose settings are all set by
/// the environment, and not empty where that matters, makes no difference.
pub proof fn law_environment_overrides_file(a: FileView, b: FileView, env: EnvironmentView)
    requires
        env.relay_url is Some,
        env.grpc_bind is Some,
        env.rules_dir is Some,
        env.log_level is Some,
        env.database_url is Some,
        unless_empty(env.tls_cert) is Some,
        unless_empty(env.tls_key) is Some,
    ensures
        configured(a, env) == configured(b, env),
{
}

/// A configuration exists if and only if there is a private key, and the
/// certificate and the key for TLS are both set or both not.
pub proof fn law_configured_when(settings: FileView, env: EnvironmentView)
    ensures
        configured(settings, env) is Ok <==> env.nostr_private_key is Some && (first_set(
            unless_empty(env.tls_cert),
            settings.tls_cert,
        ) is Some <==> first_set(unless_empty(env.tls_key), settings.tls_key) is Some),
{
}

/// No secret comes from the file, and an empty admin token is none.
pub proof fn law_secrets_come_from_the_environment(
    a: FileView,
    b: FileView,
    env: EnvironmentView,
)
    requires
        configured(a, env) is Ok,
        configured(b, env) is Ok,
    ensures
        configured(a, env)->Ok_0.nostr_private_key == configured(b, env)->Ok_0.nostr_private_key,
        configured(a, env)->Ok_0.db_password == configured(b, env)->Ok_0.db_password,
        configured(a, env)->Ok_0.admin_token == configured(b, env)->Ok_0.admin_token,
        configured(a, env)->Ok_0.admin_token matches Some(token) ==> token.len() > 0,
{
}

/// Whether a text is the URL of the database at a path: the path itself where it
/// holds `://` or starts with `sqlite:`, and else the path after `sqlite:`.
pub open spec fn is_url_of(url: Seq<char>, path: Seq<char>) -> bool {
    let has_scheme = exists|i: int|
        0 <= i && i + 2 < path.len() && #[trigger] path[i] == ':' && path[i + 1] == '/' && path[i
            + 2] == '/';
    let is_sqlite = path.len() >= 7 && path.take(7) == seq!['s', 'q', 'l', 'i', 't', 'e', ':'];
    if has_scheme || is_sqlite {
        url == path
    } else {
        url == seq!['s', 'q', 'l', 'i', 't', 'e', ':'] + path
    }
}

/// A path becomes a URL by the scheme of SQLite in front, unless it has a scheme.
pub proof fn law_paths_become_urls(path: Seq<char>)
    ensures
        is_url_of(database_url(path), path),
{
    reveal_strlit("://");
    reveal_strlit("sqlite:");
    assert("sqlite:"@ =~= seq!['s', 'q', 'l', 'i', 't', 'e', ':']);
    assert forall|i: int|
        0 <= i && i + 2 < path.len() && #[trigger] path[i] == ':' && path[i + 1] == '/' && path[i
            + 2] == '/' implies occurs_at(path, "://"@, i) by {
        assert(path.subrange(i, i + 3) =~= "://"@);
    }
    if occurs(path, "://"@) {
        let i = choose|i: int| occurs_at(path, "://"@, i);
        assert(path.subrange(i, i + 3)[0] == path[i]);
        assert(path.subrange(i, i + 3)[1] == path[i + 1]);
        assert(path.subrange(i, i + 3)[2] == path[i + 2]);
    }
    if path.len() >= 7 {
        assert(path.subrange(0, 7) =~= path.take(7));
    }
}

/// The text that counts of a variable and a setting: the variable where it is set
/// and not empty, else the setting.
pub open spec fn prevailing(variable: Option<String>, setting: Option<String>) -> Option<
    Seq<char>,
> {
    if variable is Some && variable->0@.len() > 0 {
        Some(variable->0@)
    } else if setting is Some {
        Some(setting->0@)
    } else {
        None
    }
}

/// Whether the paths for TLS are these: a certificate and a key, both or
/// neither.
pub open spec fn are_tls_paths(
    tls: Option<TlsPaths>,
    cert: Option<Seq<char>>,
    key: Option<Seq<char>>,
) -> bool {
    &&& tls is Some <==> cert is Some
    &&& tls is Some <==> key is Some
    &&& tls matches Some(paths) ==> paths.cert@ == cert->0 && paths.key@ == key->0
}

/// Whether the secrets are those of the environment: the private key and the
/// password as they are, and the admin token unless it is empty.
pub open spec fn are_secrets_of(config: Config, env: Environment) -> bool {
    &&& env.nostr_private_key matches Some(key) && config.nostr_private_key@ == key@
    &&& env.db_password matches Some(password) ==> (config.db_password matches Some(p) && p@
        == password@)
    &&& env.db_password is None ==> config.db_password is None
    &&& if env.admin_token is Some && env.admin_token->0@.len() > 0 {
        config.admin_token matches Some(token) && token@ == env.admin_token->0@
    } else {
        config.admin_token is None
    }
}

/// Where a file was read, the configuration has its settings, but for those that
/// the environment sets.
pub proof fn law_settings_of_the_file_are_used(file: FileConfig, env: Environment, config: Config)
    requires
        configured(settings_of(Some(file)), env@) == Ok::<ConfigView, ConfigError>(config@),
    ensures
        env.relay_url matches Some(value) ==> config.relay_url@ == value@,
        env.relay_url is None ==> config.relay_url@ == file.relay_url@,
        env.grpc_bind matches Some(value) ==> config.grpc_bind@ == value@,
        env.grpc_bind is None ==> config.grpc_bind@ == file.grpc_bind@,
        env.rules_dir matches Some(value) ==> config.rules_dir@ == value@,
        env.rules_dir is None ==> config.rules_dir@ == file.rules_dir@,
        env.log_level matches Some(value) ==> config.log_level@ == value@,
        env.log_level is None ==> config.log_level@ == file.log_level@,
        env.database_url matches Some(value) ==> is_url_of(config.db_path@, value@),
        env.database_url is None ==> is_url_of(config.db_path@, file.db_path@),
        are_tls_paths(
            config.grpc_tls,
            prevailing(env.tls_cert, file.tls_cert),
            prevailing(env.tls_key, file.tls_key),
        ),
        are_secrets_of(config, env),
{
    law_paths_become_urls(file.db_path@);
    if env.database_url is Some {
        law_paths_become_urls(env.database_url->0@);
    }
}

/// Where no file could be read, the configuration has the built-in settings, but
/// for those that the environment sets.
pub proof fn law_built_in_settings(env: Environment, config: Config)
    requires
        configured(settings_of(None), env@) == Ok::<ConfigView, ConfigError>(config@),
    ensures
        env.relay_url matches Some(value) ==> config.relay_url@ == value@,
        env.relay_url is None ==> config.relay_url@ == "wss://relay.mostro.network"@,
        env.grpc_bind matches Some(value) ==> config.grpc_bind@ == value@,
        env.grpc_bind is None ==> config.grpc_bind@ == "127.0.0.1:50051"@,
        env.rules_dir matches Some(value) ==> config.rules_dir@ == value@,
        env.rules_dir is None ==> config.rules_dir@ == "./rules"@,
        env.log_level matches Some(value) ==> config.log_level@ == value@,
        env.log_level is None ==> config.log_level@ == "info"@,
        env.database_url matches Some(value) ==> is_url_of(config.db_path@, value@),
        env.database_url is None ==> is_url_of(config.db_path@, "./ec.db"@),
        are_tls_paths(
            config.grpc_tls,
            prevailing(env.tls_cert, None),
            prevailing(env.tls_key, None),
        ),
        are_secrets_of(config, env),
{
    law_paths_become_urls("./ec.db"@);
    if env.database_url is Some {
        law_paths_become_urls(env.database_url->0@);
    }
}

/// A configuration fails if and only if one of the paths for TLS is missing, or
/// else the private key is: the error says which.
pub proof fn law_what_makes_a_configuration_fail(file: Option<FileConfig>, env: Environment)
    ensures
        ({
            let cert = prevailing(
                env.tls_cert,
                if file is Some {
                    file->0.tls_cert
                } else {
                    None
                },
            );
            let key = prevailing(
                env.tls_key,
                if file is Some {
                    file->0.tls_key
                } else {
                    None
                },
            );
            let outcome = configured(settings_of(file), env@);
            &&& outcome == Err::<ConfigView, ConfigError>(ConfigError::TlsKeyMissing) <==> cert is Some
                && key is None
            &&& outcome == Err::<ConfigView, ConfigError>(ConfigError::TlsCertMissing)
                <==> cert is None && key is Some
            &&& outcome == Err::<ConfigView, ConfigError>(ConfigError::NoPrivateKey) <==> (
            cert is Some <==> key is Some) && env.nostr_private_key is None
        }),
{
}

/// The texts of the errors of a configuration.
pub proof fn law_config_errors_in_words(error: ConfigError)
    ensures
        error is TlsKeyMissing ==> error.text()
            == "tls_cert is set but tls_key is not — both are required for TLS"@,
        error is TlsCertMissing ==> error.text()
            == "tls_key is set but tls_cert is not — both are required for TLS"@,
        error is NoPrivateKey ==> error.text() == "NOSTR_PRIVATE_KEY env var is required"@,
{
}

} // verus!
