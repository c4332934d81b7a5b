//! The settings that are kept between runs, and how the environment overrides
//! them.

use crate::text::opt_text;
use vstd::prelude::*;
use vstd::string::*;

verus! {

/// What the configuration file holds.
#[derive(Debug, Clone)]
pub struct Config {
    pub default: ServerConfig,
}

/// The server that is used, and the account on it, as far as they are known.
#[derive(Debug, Clone)]
pub struct ServerConfig {
    pub server: Option<String>,
    pub email: Option<String>,
    pub password: Option<String>,
}

/// The values of `CLOUDREVE_SERVER`, `CLOUDREVE_EMAIL` and `CLOUDREVE_PASSWORD`,
/// as far as they are set to text.
#[derive(Debug, Clone)]
pub struct Environment {
    pub server: Option<String>,
    pub email: Option<String>,
    pub password: Option<String>,
}

/// A server and an account on it.
#[derive(Debug, Clone)]
pub struct ResolvedConfig {
    pub server: String,
    pub email: String,
    pub password: String,
}

/// A setting: the environment's value of it where there is one, else the kept one.
pub open spec fn setting(env: Option<String>, kept: Option<String>) -> Option<String> {
    match env {
        Some(value) => Some(value),
        None => kept,
    }
}

fn resolved_setting(env: &Option<String>, kept: &Option<String>) -> (r: String)
    requires
        setting(*env, *kept) is Some,
    ensures
        Some(r) == setting(*env, *kept),
{
    match env {
        Some(value) => value.clone(),
        None => match kept {
            Some(value) => value.clone(),
            None => String::new(),
        },
    }
}

impl ServerConfig {
    /// The three settings, as far as they are known.
    pub open spec fn settings(self, env: Environment) -> (
        Option<String>,
        Option<String>,
        Option<String>,
    ) {
        (
            setting(env.server, self.server),
            setting(env.email, self.email),
            setting(env.password, self.password),
        )
    }

    /// Whether all three settings are known.
    pub open spec fn configured(self, env: Environment) -> bool {
        let (server, email, password) = self.settings(env);
        server is Some && email is Some && password is Some
    }

    /// The three settings, once they are known.
    pub fn resolve(&self, env: &Environment) -> (r: ResolvedConfig)
        requires
            self.configured(*env),
        ensures
            self.settings(*env) == (Some(r.server), Some(r.email), Some(r.password)),
    {
        ResolvedConfig {
            server: resolved_setting(&env.server, &self.server),
            email: resolved_setting(&env.email, &self.email),
            password: resolved_setting(&env.password, &self.password),
        }
    }

    /// Whether all three settings are known.
    pub fn is_configured(&self, env: &Environment) -> (r: bool)
        ensures
            r == self.configured(*env),
    {
        let has_server: bool = env.server.is_some() || self.server.is_some();
        let has_email: bool = env.email.is_some() || self.email.is_some();
        let has_password: bool = env.password.is_some() || self.password.is_some();
        has_server && has_email && has_password
    }

    /// The complaint about the first setting that is not known.
    pub open spec fn complaint(self, env: Environment) -> Option<Seq<char>> {
        let (server, email, password) = self.settings(env);
        if server is None {
            Some("CLOUDREVE_SERVER not set and no server in config"@)
        } else if email is None {
            Some("CLOUDREVE_EMAIL not set and no email in config"@)
        } else if password is None {
            Some("CLOUDREVE_PASSWORD not set and no password in config"@)
        } else {
            None
        }
    }

    /// The complaint about the first setting that is not known.
    pub fn missing(&self, env: &Environment) -> (r: Option<String>)
        ensures
            opt_text(r) == self.complaint(*env),
            r is None <==> self.configured(*env),
    {
        if env.server.is_none() && self.server.is_none() {
            Some("CLOUDREVE_SERVER not set and no server in config".to_owned())
        } else if env.email.is_none() && self.email.is_none() {
            Some("CLOUDREVE_EMAIL not set and no email in config".to_owned())
        } else if env.password.is_none() && self.password.is_none() {
            Some("CLOUDREVE_PASSWORD not set and no password in config".to_owned())
        } else {
            None
        }
    }
}

impl Default for ServerConfig {
    /// Nothing is known.
    fn default() -> (r: Self)
        ensures
            r.server is None,
            r.email is None,
            r.password is None,
    {
        ServerConfig { server: None, email: None, password: None }
    }
}

impl Default for Config {
    /// Nothing is known.
    fn default() -> (r: Self)
        ensures
            r.default.server is None,
            r.default.email is None,
            r.default.password is None,
    {
        Config { default: ServerConfig::default() }
    }
}

/// Whether a configuration keeps just these credentials.
pub open spec fn keeps(
    config: Config,
    server: Seq<char>,
    email: Seq<char>,
    password: Seq<char>,
) -> bool {
    &&& opt_text(config.default.server) == Some(server)
    &&& opt_text(config.default.email) == Some(email)
    &&& opt_text(config.default.password) == Some(password)
}

/// The configuration that is written to keep these credentials.
pub fn save_credentials(server: &str, email: &str, password: &str) -> (r: Config)
    ensures
        keeps(r, server@, email@, password@),
{
    Config {
        default: ServerConfig {
            server: Some(server.to_owned()),
            email: Some(email.to_owned()),
            password: Some(password.to_owned()),
        },
    }
}

/// Credentials that were kept are all that a later run needs, and where the
/// environment sets nothing they are what it uses.
pub proof fn kept_credentials_are_used(
    config: Config,
    env: Environment,
    server: Seq<char>,
    email: Seq<char>,
    password: Seq<char>,
)
    requires
        keeps(config, server, email, password),
    ensures
        config.default.configured(env),
        env.server is None ==> opt_text(config.default.settings(env).0) == Some(server),
        env.email is None ==> opt_text(config.default.settings(env).1) == Some(email),
        env.password is None ==> opt_text(config.default.settings(env).2) == Some(password),
{
}

/// What the environment sets is used, whatever was kept.
pub proof fn environment_goes_first(config: ServerConfig, env: Environment)
    ensures
        env.server is Some ==> config.settings(env).0 == env.server,
        env.email is Some ==> config.settings(env).1 == env.email,
        env.password is Some ==> config.settings(env).2 == env.password,
{
}

/// A setting is known if the environment or the file has it, and whatever is missing is
/// complained of: the server first, then the address, then the password.
pub proof fn missing_settings_are_complained_of(config: ServerConfig, env: Environment)
    ensures
        config.configured(env) <==> (env.server is Some || config.server is Some) && (env.email
            is Some || config.email is Some) && (env.password is Some || config.password is Some),
        config.complaint(env) is None <==> config.configured(env),
        env.server is None && config.server is None ==> config.complaint(env) == Some(
            "CLOUDREVE_SERVER not set and no server in config"@,
        ),
        (env.server is Some || config.server is Some) && env.email is None && config.email is None
            ==> config.complaint(env) == Some("CLOUDREVE_EMAIL not set and no email in config"@),
        (env.server is Some || config.server is Some) && (env.email is Some || config.email is Some)
            && env.password is None && config.password is None ==> config.complaint(env) == Some(
            "CLOUDREVE_PASSWORD not set and no password in config"@,
        ),
{
}

/// What the environment does not set is used as it was kept.
pub proof fn kept_settings_come_second(config: ServerConfig, env: Environment)
    ensures
        env.server is None ==> config.settings(env).0 == config.server,
        env.email is None ==> config.settings(env).1 == config.email,
        env.password is None ==> config.settings(env).2 == config.password,
{
}

}
