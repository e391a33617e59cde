use vstd::prelude::*;

use crate::error::ClickHouseError;
use crate::text::{decimal, decimal_string, spec_trim, strip_leading, trim, trim_start_char, Strip};

verus! {

#[verifier::external_type_specification]
#[verifier::external_body]
pub struct ExUrlParseError(url::ParseError);

#[verifier::external_type_specification]
#[verifier::external_body]
pub struct ExHttpClient(reqwest::Client);

#[verifier::external_type_specification]
#[verifier::external_body]
pub struct ExHttpClientBuilder(reqwest::ClientBuilder);

#[verifier::external_type_specification]
#[verifier::external_body]
pub struct ExHttpError(reqwest::Error);

/// The parts of a parsed URL that a connection string is read for.
#[derive(Debug)]
pub struct ConnectionUrl {
    pub scheme: String,
    pub host: Option<String>,
    pub port: Option<u16>,
    pub path: String,
    pub username: String,
    pub password: Option<String>,
}

pub struct ConnectionUrlView {
    pub scheme: Seq<char>,
    pub host: Option<Seq<char>>,
    pub port: Option<u16>,
    pub path: Seq<char>,
    pub username: Seq<char>,
    pub password: Option<Seq<char>>,
}

pub open spec fn opt_text(o: Option<String>) -> Option<Seq<char>> {
    match o {
        Some(s) => Some(s@),
        None => None,
    }
}

pub open spec fn opt_str(o: Option<&str>) -> Option<Seq<char>> {
    match o {
        Some(s) => Some(s@),
        None => None,
    }
}

impl View for ConnectionUrl {
    type V = ConnectionUrlView;

    open spec fn view(&self) -> ConnectionUrlView {
        ConnectionUrlView {
            scheme: self.scheme@,
            host: opt_text(self.host),
            port: self.port,
            path: self.path@,
            username: self.username@,
            password: opt_text(self.password),
        }
    }
}

/// What `url::Url::parse` makes of `input`, read through `scheme`, `host_str`,
/// `port`, `path`, `username` and `password`; `None` where it refuses the input.
pub uninterp spec fn url_components(input: Seq<char>) -> Option<ConnectionUrlView>;

/// Calls `url::Url::parse` and copies out the scheme, host, port, path, user
/// name and password of the URL it returns. The contract claims that the
/// outcome is a function of the input alone, named `url_components`; it says
/// nothing of how the WHATWG URL rules decide it.
#[verifier::external_body]
fn parse_url(input: &str) -> (r: Result<ConnectionUrl, url::ParseError>)
    ensures
        r is Ok <==> url_components(input@) is Some,
        r matches Ok(u) ==> u@ == url_components(input@).unwrap(),
{
    let u = url::Url::parse(input)?;
    Ok(ConnectionUrl {
        scheme: u.scheme().to_string(),
        host: u.host_str().map(|h| h.to_string()),
        port: u.port(),
        path: u.path().to_string(),
        username: u.username().to_string(),
        password: u.password().map(|p| p.to_string()),
    })
}

/// Calls `reqwest::Client::builder`, a builder with the default settings.
#[verifier::external_body]
fn http_client_builder() -> reqwest::ClientBuilder {
    reqwest::Client::builder()
}

/// Calls `reqwest::ClientBuilder::build`. Whether the TLS backend and the
/// system configuration let it succeed is left open.
#[verifier::external_body]
fn build_http_client(builder: reqwest::ClientBuilder) -> Result<reqwest::Client, reqwest::Error> {
    builder.build()
}

/// The port ClickHouse serves HTTP on when a connection string names none.
pub const DEFAULT_PORT: u16 = 8123;

/// Where a ClickHouse server is reached and as whom.
#[derive(Debug)]
pub struct ConnectionSettings {
    pub base_url: String,
    pub database: String,
    pub username: String,
    pub password: String,
}

pub struct ConnectionSettingsView {
    pub base_url: Seq<char>,
    pub database: Seq<char>,
    pub username: Seq<char>,
    pub password: Seq<char>,
}

impl View for ConnectionSettings {
    type V = ConnectionSettingsView;

    open spec fn view(&self) -> ConnectionSettingsView {
        ConnectionSettingsView {
            base_url: self.base_url@,
            database: self.database@,
            username: self.username@,
            password: self.password@,
        }
    }
}

/// `https` for a `clickhouses://` connection string, `http` otherwise.
pub open spec fn spec_http_scheme(scheme: Seq<char>) -> Seq<char> {
    if scheme == "clickhouses"@ {
        "https"@
    } else {
        "http"@
    }
}

/// The host named in the URL, `localhost` where it names none.
pub open spec fn spec_host(u: ConnectionUrlView) -> Seq<char> {
    match u.host {
        Some(h) => h,
        None => "localhost"@,
    }
}

/// The port named in the URL, 8123 where it names none.
pub open spec fn spec_port(u: ConnectionUrlView) -> u16 {
    match u.port {
        Some(p) => p,
        None => DEFAULT_PORT,
    }
}

/// `scheme://host:port` of the server.
pub open spec fn spec_base_url(u: ConnectionUrlView) -> Seq<char> {
    spec_http_scheme(u.scheme) + "://"@ + spec_host(u) + ":"@ + decimal(spec_port(u) as nat)
}

/// The path without its leading slashes, `default` where nothing is left.
pub open spec fn spec_database(u: ConnectionUrlView) -> Seq<char> {
    let d = strip_leading(u.path, Strip::Char('/'));
    if d.len() == 0 {
        "default"@
    } else {
        d
    }
}

/// The user name of the URL, `default` where it is empty.
pub open spec fn spec_username(u: ConnectionUrlView) -> Seq<char> {
    if u.username.len() == 0 {
        "default"@
    } else {
        u.username
    }
}

/// The password given apart, else the one in the URL, else the empty one.
pub open spec fn spec_password(u: ConnectionUrlView, given: Option<Seq<char>>) -> Seq<char> {
    match given {
        Some(p) => p,
        None => match u.password {
            Some(p) => p,
            None => Seq::empty(),
        },
    }
}

pub open spec fn spec_settings(u: ConnectionUrlView, given: Option<Seq<char>>) -> ConnectionSettingsView {
    ConnectionSettingsView {
        base_url: spec_base_url(u),
        database: spec_database(u),
        username: spec_username(u),
        password: spec_password(u, given),
    }
}

/// HTTPS is used exactly for a `clickhouses://` connection string.
pub proof fn law_https_exactly_for_clickhouses(u: ConnectionUrlView, given: Option<Seq<char>>)
    ensures
        spec_settings(u, given).base_url.take(5) == "https"@ <==> u.scheme == "clickhouses"@,
{
    reveal_strlit("https");
    reveal_strlit("http");
    reveal_strlit("://");
    let b = spec_settings(u, given).base_url;
    if u.scheme == "clickhouses"@ {
        assert(b.take(5) =~= "https"@);
    } else {
        assert(b[4] == ':');
        assert("https"@[4] == 's');
    }
}

/// The debug description depends on the base URL, database and user name
/// only: two clients that differ in nothing but the password read the same.
pub proof fn law_description_hides_password(a: ConnectionSettingsView, b: ConnectionSettingsView)
    requires
        a.base_url == b.base_url,
        a.database == b.database,
        a.username == b.username,
    ensures
        spec_description(a.base_url, a.database, a.username) == spec_description(
            b.base_url,
            b.database,
            b.username,
        ),
{
}

/// The database is never empty: a path of slashes only (or no path) names
/// the database `default`; any other path names the database written after
/// its leading slashes, which does not begin with a slash.
pub proof fn law_database_from_path(u: ConnectionUrlView)
    ensures
        spec_database(u).len() > 0,
        (forall|i: int| 0 <= i < u.path.len() ==> u.path[i] == '/') ==> spec_database(u)
            == "default"@,
        (exists|i: int| 0 <= i < u.path.len() && u.path[i] != '/') ==> exists|k: int|
            0 <= k < u.path.len() && (forall|i: int| 0 <= i < k ==> #[trigger] u.path[i] == '/')
                && u.path[k] != '/' && spec_database(u) == u.path.skip(k),
{
    reveal_strlit("default");
    let k = crate::text::law_strip_leading_is_suffix(u.path, Strip::Char('/'));
    if exists|i: int| 0 <= i < u.path.len() && u.path[i] != '/' {
        let i = choose|i: int| 0 <= i < u.path.len() && u.path[i] != '/';
        assert(k < u.path.len()) by {
            if k >= u.path.len() {
                assert(crate::text::strips(Strip::Char('/'), u.path[i]));
            }
        }
        assert(u.path.skip(k).len() > 0);
    } else {
        if k < u.path.len() {
            assert(u.path[k] == '/');
        }
        assert(u.path.skip(k).len() == 0);
    }
}

/// The user name is never empty: an empty one in the URL becomes `default`,
/// any other is kept.
pub proof fn law_username_named(u: ConnectionUrlView)
    ensures
        spec_username(u).len() > 0,
        u.username.len() > 0 ==> spec_username(u) == u.username,
{
    reveal_strlit("default");
}

/// The base URL is the HTTP scheme, `://`, the host (`localhost` where the
/// URL names none), `:` and the port in decimal (8123 where it names none).
pub proof fn law_base_url_parts(u: ConnectionUrlView, given: Option<Seq<char>>)
    ensures
        spec_settings(u, given).base_url == (if u.scheme == "clickhouses"@ {
            "https"@
        } else {
            "http"@
        }) + "://"@ + (match u.host {
            Some(h) => h,
            None => "localhost"@,
        }) + ":"@ + decimal(
            match u.port {
                Some(p) => p as nat,
                None => 8123nat,
            },
        ),
{
}

/// A query is answered successfully exactly when its HTTP status is in
/// 200-299.
pub proof fn law_success_is_2xx(status: u16)
    ensures
        spec_is_success(status) <==> 200 <= status < 300,
{
}

/// A password given apart takes precedence over one in the URL; without
/// either, the password is empty.
pub proof fn law_given_password_wins(u: ConnectionUrlView, given: Option<Seq<char>>)
    ensures
        given matches Some(p) ==> spec_settings(u, given).password == p,
        given is None ==> spec_settings(u, given).password == match u.password {
            Some(p) => p,
            None => Seq::<char>::empty(),
        },
{
}

impl ConnectionSettings {
    /// The settings that a parsed connection string and an optional
    /// separately stored password describe.
    pub fn from_url(u: &ConnectionUrl, password: Option<&str>) -> (s: ConnectionSettings)
        ensures
            s@ == spec_settings(u@, opt_str(password)),
    {
        let https = "clickhouses";
        proof {
            reveal_strlit("clickhouses");
        }
        let mut base_url = if crate::text::same_text(u.scheme.as_str(), https) {
            String::from_str("https")
        } else {
            String::from_str("http")
        };
        base_url.append("://");
        match &u.host {
            Some(h) => base_url.append(h.as_str()),
            None => base_url.append("localhost"),
        }
        base_url.append(":");
        let port = match u.port {
            Some(p) => p,
            None => DEFAULT_PORT,
        };
        let digits = decimal_string(port as u64);
        base_url.append(digits.as_str());

        let trimmed = trim_start_char(u.path.as_str(), '/');
        let database = if trimmed.unicode_len() == 0 {
            String::from_str("default")
        } else {
            String::from_str(trimmed)
        };
        let username = if u.username.as_str().unicode_len() == 0 {
            String::from_str("default")
        } else {
            u.username.clone()
        };
        let password = match password {
            Some(p) => String::from_str(p),
            None => match &u.password {
                Some(p) => p.clone(),
                None => String::new(),
            },
        };
        ConnectionSettings { base_url, database, username, password }
    }
}

/// What `format!("{:?}", s)` writes for a string slice: the text quoted,
/// with special characters escaped.
pub uninterp spec fn debug_quoted(s: Seq<char>) -> Seq<char>;

/// Calls the `Debug` formatting of `str` through `format!`. The contract
/// claims only that the outcome is a function of the text, named
/// `debug_quoted`; the escaping rules are not stated.
#[verifier::external_body]
fn debug_string(s: &str) -> (r: String)
    ensures
        r@ == debug_quoted(s@),
{
    format!("{:?}", s)
}

/// The debug description of a client with the given settings: base URL,
/// database and user name, and never the password.
pub open spec fn spec_description(base_url: Seq<char>, database: Seq<char>, username: Seq<char>) -> Seq<char> {
    "ClickHouseClient { base_url: "@ + debug_quoted(base_url) + ", database: "@ + debug_quoted(database)
        + ", username: "@ + debug_quoted(username) + " }"@
}

/// A client for the HTTP interface of a ClickHouse server.
pub struct ClickHouseClient {
    pub http_client: reqwest::Client,
    pub base_url: String,
    pub database: String,
    pub username: String,
    pub password: String,
}

impl ClickHouseClient {
    /// The connection settings the client holds.
    pub open spec fn settings(&self) -> ConnectionSettingsView {
        ConnectionSettingsView {
            base_url: self.base_url@,
            database: self.database@,
            username: self.username@,
            password: self.password@,
        }
    }

    /// Creates a client from a connection string
    /// `clickhouse://user@host:port/database` (`clickhouses://` for HTTPS)
    /// and a password stored apart, which takes precedence over one in the URL.
    pub fn new(connection_string: &str, password: Option<&str>) -> (r: Result<ClickHouseClient, ClickHouseError>)
        ensures
            url_components(connection_string@) is None ==> (r matches Err(e)
                && e.message() == "Failed to parse ClickHouse connection string"@),
            url_components(connection_string@) matches Some(u) ==> match r {
                Ok(c) => c.settings() == spec_settings(u, opt_str(password)),
                Err(e) => e.message() == "Failed to create HTTP client"@,
            },
    {
        let u = match parse_url(connection_string) {
            Ok(u) => u,
            Err(_) => {
                return Err(ClickHouseError::from_text("Failed to parse ClickHouse connection string"));
            },
        };
        let s = ConnectionSettings::from_url(&u, password);
        let http_client = match build_http_client(http_client_builder()) {
            Ok(c) => c,
            Err(_) => {
                return Err(ClickHouseError::from_text("Failed to create HTTP client"));
            },
        };
        Ok(ClickHouseClient {
            http_client,
            base_url: s.base_url,
            database: s.database,
            username: s.username,
            password: s.password,
        })
    }

    /// The client as its debug output shows it: the base URL, the database
    /// and the user name, but not the password.
    pub fn describe(&self) -> (r: String)
        ensures
            r@ == spec_description(self.base_url@, self.database@, self.username@),
    {
        let mut r = String::from_str("ClickHouseClient { base_url: ");
        r.append(debug_string(self.base_url.as_str()).as_str());
        r.append(", database: ");
        r.append(debug_string(self.database.as_str()).as_str());
        r.append(", username: ");
        r.append(debug_string(self.username.as_str()).as_str());
        r.append(" }");
        r
    }

    /// The address that a ping is sent to: the base URL followed by `/ping`.
    pub fn ping_url(&self) -> (r: String)
        ensures
            r@ == self.base_url@ + "/ping"@,
    {
        let mut r = self.base_url.clone();
        r.append("/ping");
        r
    }

    /// The query parameters that go with every query: database, user and password.
    pub fn query_params(&self) -> (r: Vec<(String, String)>)
        ensures
            r@.len() == 3,
            r@[0].0@ == "database"@ && r@[0].1@ == self.database@,
            r@[1].0@ == "user"@ && r@[1].1@ == self.username@,
            r@[2].0@ == "password"@ && r@[2].1@ == self.password@,
    {
        let mut r: Vec<(String, String)> = Vec::new();
        r.push((String::from_str("database"), self.database.clone()));
        r.push((String::from_str("user"), self.username.clone()));
        r.push((String::from_str("password"), self.password.clone()));
        r
    }
}

/// The step of an HTTP exchange with the server that failed.
#[derive(Debug, PartialEq, Eq, Structural, Clone, Copy)]
pub enum RequestStage {
    /// Sending a ping.
    Ping,
    /// Sending a query.
    Send,
    /// Reading the answer to a query.
    Read,
}

/// The message that a failed step of an HTTP exchange is reported with.
pub open spec fn spec_request_message(stage: RequestStage) -> Seq<char> {
    match stage {
        RequestStage::Ping => "Failed to ping ClickHouse server"@,
        RequestStage::Send => "Failed to send query to ClickHouse"@,
        RequestStage::Read => "Failed to read response"@,
    }
}

/// The error that a failed step of an HTTP exchange is reported as.
pub fn request_error(stage: RequestStage) -> (e: ClickHouseError)
    ensures
        e.message() == spec_request_message(stage),
{
    match stage {
        RequestStage::Ping => ClickHouseError::from_text("Failed to ping ClickHouse server"),
        RequestStage::Send => ClickHouseError::from_text("Failed to send query to ClickHouse"),
        RequestStage::Read => ClickHouseError::from_text("Failed to read response"),
    }
}

/// An HTTP status in the 2xx range.
pub open spec fn spec_is_success(status: u16) -> bool {
    200 <= status <= 299
}

/// `http::StatusCode::is_success`: whether `status` is in 200-299.
pub fn is_success(status: u16) -> (r: bool)
    ensures
        r == spec_is_success(status),
{
    200 <= status && status <= 299
}

/// What a ping answered with `status` (displayed as `status_text`) amounts to.
pub fn ping_outcome(status: u16, status_text: &str) -> (r: Result<(), ClickHouseError>)
    ensures
        spec_is_success(status) <==> r is Ok,
        r matches Err(e) ==> e.message() == "ClickHouse ping failed with status: "@ + status_text@,
{
    if is_success(status) {
        Ok(())
    } else {
        Err(ClickHouseError::with_detail("ClickHouse ping failed with status: ", status_text))
    }
}

/// What a query answered with `status` and `body` amounts to: the body, or an
/// error that quotes the trimmed body.
pub fn query_outcome(status: u16, body: String) -> (r: Result<String, ClickHouseError>)
    ensures
        spec_is_success(status) <==> r is Ok,
        r matches Ok(b) ==> b@ == body@,
        r matches Err(e) ==> e.message() == "ClickHouse query failed: "@ + spec_trim(body@),
{
    if is_success(status) {
        Ok(body)
    } else {
        Err(ClickHouseError::with_detail("ClickHouse query failed: ", trim(body.as_str())))
    }
}

} // verus!
