//! What the service is configured with: the address of its database and the
//! port it listens on.
use vstd::prelude::*;

verus! {

/// The port the service listens on.
pub const DEFAULT_PORT: u16 = 4000;

/// `url::Url`, a parsed URL. Nothing of what it holds is stated here: a
/// value is carried from the parser to whoever connects with it.
#[verifier::external_type_specification]
#[verifier::external_body]
pub struct ExUrl(url::Url);

/// `url::ParseError`, the reason for which a text is no absolute URL.
#[verifier::external_type_specification]
#[verifier::external_body]
pub struct ExUrlParseError(url::ParseError);

/// Whether `url::Url::parse` takes a text for an absolute URL. The parser
/// reads nothing but the text, so the same text always fares the same.
pub uninterp spec fn url_parse_accepts(input: Seq<char>) -> bool;

/// Calls `url::Url::parse`. Nothing is claimed of the URL or of the error
/// that comes back, only that whether the parser accepts is decided by the
/// text alone.
#[verifier::external_body]
fn parse_url(input: &str) -> (r: Result<url::Url, url::ParseError>)
    ensures
        r is Ok <==> url_parse_accepts(input@),
{
    url::Url::parse(input)
}

/// Why a configuration cannot be used.
#[derive(Clone, Copy, Debug, PartialEq, Eq, Structural)]
pub enum ConfigError {
    /// The database address is no absolute URL.
    InvalidDatabaseUrl,
}

/// The configuration of the service.
#[derive(Debug)]
pub struct Config {
    /// The address of the database, as a URL.
    pub database_url: String,
    /// The port the service listens on.
    pub port: u16,
}

impl Clone for Config {
    fn clone(&self) -> (r: Self)
        ensures
            r.database_url@ == self.database_url@,
            r.port == self.port,
    {
        Config { database_url: self.database_url.clone(), port: self.port }
    }
}

impl Config {
    /// The configuration for a database address: the address as given, and
    /// the default port.
    pub fn init(database_url: String) -> (r: Config)
        ensures
            r.database_url@ == database_url@,
            r.port == DEFAULT_PORT,
    {
        Config { database_url, port: DEFAULT_PORT }
    }

    /// Parses the database address. Succeeds exactly where the URL parser
    /// accepts the address, and fails with `InvalidDatabaseUrl` elsewhere.
    pub fn parse_database_url(&self) -> (r: Result<url::Url, ConfigError>)
        ensures
            r is Ok <==> url_parse_accepts(self.database_url@),
            r is Err ==> r->Err_0 == ConfigError::InvalidDatabaseUrl,
    {
        url_or_error(parse_url(self.database_url.as_str()))
    }
}

/// Turns the parser's answer into the configuration's: the URL as it came,
/// or `InvalidDatabaseUrl` for any reason the parser gave.
pub fn url_or_error(parsed: Result<url::Url, url::ParseError>) -> (r: Result<url::Url, ConfigError>)
    ensures
        r is Ok <==> parsed is Ok,
        parsed is Ok ==> r->Ok_0 == parsed->Ok_0,
        r is Err ==> r->Err_0 == ConfigError::InvalidDatabaseUrl,
{
    match parsed {
        Ok(url) => Ok(url),
        Err(_) => Err(ConfigError::InvalidDatabaseUrl),
    }
}

} // verus!
