//! Process configuration: backend connection parameters, the expected client
//! credentials and the address to listen on.
use vstd::prelude::*;

verus! {

/// Configuration loaded once at startup and never changed afterwards.
#[derive(Clone)]
pub struct Config {
    pub db_host: String,
    pub db_user: String,
    pub db_password: String,
    pub mysql_username: String,
    pub mysql_password: String,
    pub bind_address: String,
}

/// The reasons configuration cannot be loaded.
#[derive(Debug)]
pub enum ConfigError {
    /// A required variable has no value; it carries the variable's name.
    MissingEnvVar(&'static str),
}

/// The address listened on when none is configured.
pub open spec fn default_bind_address() -> Seq<char> {
    "0.0.0.0:3306"@
}

/// The backend connection string for the given host, user and password.
pub open spec fn connection_string(host: Seq<char>, user: Seq<char>, password: Seq<char>) -> Seq<
    char,
> {
    "host="@ + host + " user="@ + user + " password="@ + password
}

impl Config {
    /// Builds a configuration from the values found for each variable, in the
    /// order `DB_HOST`, `DB_USER`, `DB_PASSWORD`, `MYSQL_USERNAME`,
    /// `MYSQL_PASSWORD` and `BIND_ADDRESS`. The first required variable that
    /// has no value is reported; a missing bind address takes the default.
    pub fn from_vars(
        db_host: Option<String>,
        db_user: Option<String>,
        db_password: Option<String>,
        mysql_username: Option<String>,
        mysql_password: Option<String>,
        bind_address: Option<String>,
    ) -> (r: Result<Config, ConfigError>)
        ensures
            db_host is None ==> r == Err::<Config, _>(ConfigError::MissingEnvVar("DB_HOST")),
            db_host is Some && db_user is None ==> r == Err::<Config, _>(
                ConfigError::MissingEnvVar("DB_USER"),
            ),
            db_host is Some && db_user is Some && db_password is None ==> r == Err::<Config, _>(
                ConfigError::MissingEnvVar("DB_PASSWORD"),
            ),
            db_host is Some && db_user is Some && db_password is Some && mysql_username is None
                ==> r == Err::<Config, _>(ConfigError::MissingEnvVar("MYSQL_USERNAME")),
            db_host is Some && db_user is Some && db_password is Some && mysql_username is Some
                && mysql_password is None ==> r == Err::<Config, _>(
                ConfigError::MissingEnvVar("MYSQL_PASSWORD"),
            ),
            r is Ok <==> (db_host is Some && db_user is Some && db_password is Some
                && mysql_username is Some && mysql_password is Some),
            r matches Ok(c) ==> {
                &&& c.db_host@ == db_host->0@
                &&& c.db_user@ == db_user->0@
                &&& c.db_password@ == db_password->0@
                &&& c.mysql_username@ == mysql_username->0@
                &&& c.mysql_password@ == mysql_password->0@
                &&& c.bind_address@ == match bind_address {
                    Some(a) => a@,
                    None => default_bind_address(),
                }
            },
    {
        let db_host = match db_host {
            Some(v) => v,
            None => return Err(ConfigError::MissingEnvVar("DB_HOST")),
        };
        let db_user = match db_user {
            Some(v) => v,
            None => return Err(ConfigError::MissingEnvVar("DB_USER")),
        };
        let db_password = match db_password {
            Some(v) => v,
            None => return Err(ConfigError::MissingEnvVar("DB_PASSWORD")),
        };
        let mysql_username = match mysql_username {
            Some(v) => v,
            None => return Err(ConfigError::MissingEnvVar("MYSQL_USERNAME")),
        };
        let mysql_password = match mysql_password {
            Some(v) => v,
            None => return Err(ConfigError::MissingEnvVar("MYSQL_PASSWORD")),
        };
        let bind_address = match bind_address {
            Some(v) => v,
            None => "0.0.0.0:3306".to_owned(),
        };
        Ok(
            Config {
                db_host,
                db_user,
                db_password,
                mysql_username,
                mysql_password,
                bind_address,
            },
        )
    }

    /// The connection string for the backend: `host=<H> user=<U> password=<P>`.
    pub fn postgres_connection_string(&self) -> (r: String)
        ensures
            r@ == connection_string(self.db_host@, self.db_user@, self.db_password@),
    {
        let mut s = "host=".to_owned();
        s.append(self.db_host.as_str());
        s.append(" user=");
        s.append(self.db_user.as_str());
        s.append(" password=");
        s.append(self.db_password.as_str());
        s
    }
}

impl ConfigError {
    /// The name of the variable that was missing.
    pub fn variable(&self) -> (r: &'static str)
        ensures
            *self == ConfigError::MissingEnvVar(r),
    {
        match self {
            ConfigError::MissingEnvVar(v) => v,
        }
    }

    /// A message for people: `Missing required environment variable: <name>`.
    pub fn message(&self) -> (r: String)
        ensures
            r@ == "Missing required environment variable: "@ + match *self {
                ConfigError::MissingEnvVar(v) => v@,
            },
    {
        let mut s = "Missing required environment variable: ".to_owned();
        s.append(self.variable());
        s
    }
}

} // verus!
