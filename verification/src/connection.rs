//! An open connection: the HTTP client and the settings it was opened with,
//! and the requests it builds.
use vstd::prelude::*;

use reqwest::{Client, RequestBuilder};

use crate::config::{ArangoConfig, AuthScheme};
use crate::text::trim_start_char;
use crate::url::url_component;

verus! {

/// reqwest's HTTP client, carried through unread.
#[verifier::external_type_specification]
#[verifier::external_body]
pub struct ExClient(Client);

/// reqwest's request under construction, carried through unread.
#[verifier::external_type_specification]
#[verifier::external_body]
pub struct ExRequestBuilder(RequestBuilder);

/// The URL of `path` inside the connection's database:
/// `<base>/_db/<encoded database>/<path without leading slashes>`.
pub open spec fn db_url_spec(config: ArangoConfig, path: Seq<char>) -> Seq<char> {
    config.base_url@ + "/_db/"@ + crate::url::percent_encode(vstd::utf8::encode_utf8(config.database@))
        + "/"@ + crate::text::strip_leading(path, '/')
}

/// Law of database URLs: the database name stands in the URL as a single
/// path segment, which holds no `/` and decodes back to the name's UTF-8 bytes.
pub proof fn lemma_db_url_segment(config: ArangoConfig, path: Seq<char>)
    ensures
        exists|segment: Seq<char>|
            db_url_spec(config, path) == config.base_url@ + "/_db/"@ + segment + "/"@
                + crate::text::strip_leading(path, '/') && !segment.contains('/')
                && crate::url::percent_decode(segment) == vstd::utf8::encode_utf8(config.database@),
{
    let bytes = vstd::utf8::encode_utf8(config.database@);
    let segment = crate::url::percent_encode(bytes);
    crate::url::lemma_percent_encode_chars(bytes);
    crate::url::lemma_percent_roundtrip(bytes);
    assert(!segment.contains('/')) by {
        if segment.contains('/') {
            let k = choose|k: int| 0 <= k < segment.len() && segment[k] == '/';
            assert(crate::url::is_component_char(segment[k]));
        }
    }
}

/// The method of a request.
#[derive(Debug, Clone, Copy, PartialEq, Eq)]
pub enum HttpMethod {
    Get,
    Post,
}

/// An `Authorization` value put on a request.
pub enum Authorization {
    /// `Bearer <token>`.
    Bearer(Seq<char>),
    /// Basic authentication with a user name and optional password.
    Basic(Seq<char>, Option<Seq<char>>),
}

/// The `Authorization` values that the settings put on a request: a bearer
/// token if there is one, else the user name and password if there is a
/// user name, else none.
pub open spec fn authorization_for(config: ArangoConfig) -> Seq<Authorization> {
    match config.bearer_token {
        Some(token) => seq![Authorization::Bearer(token@)],
        None => match config.username {
            Some(user) => seq![
                Authorization::Basic(user@, crate::config::opt_string_view(config.password)),
            ],
            None => Seq::empty(),
        },
    }
}

/// A reqwest request under construction, together with a record of what the
/// library handed to reqwest for it: the method, the URL, and the
/// `Authorization` values in the order they were handed over. The record is
/// written only by the wrappers that make those calls.
pub struct PreparedRequest {
    builder: RequestBuilder,
    method: Ghost<HttpMethod>,
    url: Ghost<Seq<char>>,
    authorization: Ghost<Seq<Authorization>>,
}

impl PreparedRequest {
    /// The method the library handed to reqwest to start the request.
    pub closed spec fn method(&self) -> HttpMethod {
        self.method@
    }

    /// The URL the library handed to reqwest to start the request (reqwest
    /// itself may move credentials written in it into a header).
    pub closed spec fn url(&self) -> Seq<char> {
        self.url@
    }

    /// The `Authorization` values the library handed to reqwest, in order.
    pub closed spec fn authorization(&self) -> Seq<Authorization> {
        self.authorization@
    }

    /// Starts a request with `method` to `url`, without authentication.
    fn start(client: &Client, method: HttpMethod, url: &str) -> (r: Self)
        ensures
            r.method() == method,
            r.url() == url@,
            r.authorization() == Seq::<Authorization>::empty(),
    {
        match method {
            HttpMethod::Get => start_get(client, url),
            HttpMethod::Post => start_post(client, url),
        }
    }

    /// The reqwest builder, to add a body and send.
    pub fn into_builder(self) -> RequestBuilder {
        self.builder
    }
}

/// Starts a GET request to `url`.
/// Calls `reqwest::Client::get`, which keeps a URL it cannot parse as an
/// error to report on sending. The contract records the method and URL handed
/// over; the builder itself is opaque.
#[verifier::external_body]
fn start_get(client: &Client, url: &str) -> (r: PreparedRequest)
    ensures
        r.method() == HttpMethod::Get,
        r.url() == url@,
        r.authorization() == Seq::<Authorization>::empty(),
{
    PreparedRequest {
        builder: client.get(url),
        method: Ghost(HttpMethod::Get),
        url: Ghost(url@),
        authorization: Ghost(Seq::empty()),
    }
}

/// Starts a POST request to `url`.
/// Calls `reqwest::Client::post`; the contract records the method and URL
/// handed over.
#[verifier::external_body]
fn start_post(client: &Client, url: &str) -> (r: PreparedRequest)
    ensures
        r.method() == HttpMethod::Post,
        r.url() == url@,
        r.authorization() == Seq::<Authorization>::empty(),
{
    PreparedRequest {
        builder: client.post(url),
        method: Ghost(HttpMethod::Post),
        url: Ghost(url@),
        authorization: Ghost(Seq::empty()),
    }
}

/// Adds `Authorization: Bearer <token>`.
/// Calls `reqwest::RequestBuilder::bearer_auth`, which appends the header;
/// the contract records the token handed over.
#[verifier::external_body]
fn with_bearer(request: PreparedRequest, token: &str) -> (r: PreparedRequest)
    ensures
        r.method() == request.method(),
        r.url() == request.url(),
        r.authorization() == request.authorization().push(Authorization::Bearer(token@)),
{
    let PreparedRequest { builder, method, url, authorization } = request;
    let authorization = Ghost(authorization@.push(Authorization::Bearer(token@)));
    PreparedRequest { builder: builder.bearer_auth(token), method, url, authorization }
}

/// Adds HTTP basic authentication.
/// Calls `reqwest::RequestBuilder::basic_auth`, which appends the header;
/// the contract records the user name and password handed over.
#[verifier::external_body]
fn with_basic(request: PreparedRequest, user: &str, password: Option<&str>) -> (r: PreparedRequest)
    ensures
        r.method() == request.method(),
        r.url() == request.url(),
        r.authorization() == request.authorization().push(
            Authorization::Basic(user@, crate::secrets::opt_view(password)),
        ),
{
    let PreparedRequest { builder, method, url, authorization } = request;
    let added = Ghost(Authorization::Basic(user@, crate::secrets::opt_view(password)));
    let authorization = Ghost(authorization@.push(added@));
    PreparedRequest { builder: builder.basic_auth(user, password), method, url, authorization }
}

/// An open connection.
pub struct ArangoConnection {
    pub client: Client,
    pub config: ArangoConfig,
}

impl ArangoConnection {
    /// Adds the authentication that the settings call for (see
    /// `ArangoConfig::auth_scheme`) to a request.
    pub fn auth(&self, request: PreparedRequest) -> (r: PreparedRequest)
        ensures
            r.method() == request.method(),
            r.url() == request.url(),
            r.authorization() == request.authorization() + authorization_for(self.config),
    {
        let ghost before = request.authorization();
        match self.config.auth_scheme() {
            AuthScheme::Bearer(token) => {
                proof {
                    assert(before + authorization_for(self.config) =~= before.push(
                        Authorization::Bearer(token@),
                    ));
                }
                with_bearer(request, token.as_str())
            },
            AuthScheme::Basic(user, password) => {
                let password_text = match &password {
                    Some(p) => Some(p.as_str()),
                    None => None,
                };
                proof {
                    assert(crate::secrets::opt_view(password_text) == crate::config::opt_string_view(
                        password,
                    ));
                    assert(before + authorization_for(self.config) =~= before.push(
                        Authorization::Basic(user@, crate::config::opt_string_view(password)),
                    ));
                }
                with_basic(request, user.as_str(), password_text)
            },
            AuthScheme::Anonymous => {
                proof {
                    assert(before + authorization_for(self.config) =~= before);
                }
                request
            },
        }
    }

    /// The URL of `path` inside the connection's database (see `db_url_spec`).
    pub fn db_url(&self, path: &str) -> (url: String)
        ensures
            url@ == db_url_spec(self.config, path@),
    {
        let mut url = self.config.base_url.clone();
        url.append("/_db/");
        let database = url_component(self.config.database.as_str());
        url.append(database.as_str());
        url.append("/");
        let rest = trim_start_char(path, '/');
        url.append(rest.as_str());
        url
    }

    /// The URL of a server-wide `path`: the base URL followed by `path`.
    pub fn server_url(&self, path: &str) -> (url: String)
        ensures
            url@ == self.config.base_url@ + path@,
    {
        let mut url = self.config.base_url.clone();
        url.append(path);
        url
    }

    /// An authenticated GET of a server-wide `path`.
    pub fn get_server(&self, path: &str) -> (r: PreparedRequest)
        ensures
            r.method() == HttpMethod::Get,
            r.url() == self.config.base_url@ + path@,
            r.authorization() == authorization_for(self.config),
    {
        let url = self.server_url(path);
        self.auth(PreparedRequest::start(&self.client, HttpMethod::Get, url.as_str()))
    }

    /// An authenticated GET of `path` inside the database.
    pub fn get_db(&self, path: &str) -> (r: PreparedRequest)
        ensures
            r.method() == HttpMethod::Get,
            r.url() == db_url_spec(self.config, path@),
            r.authorization() == authorization_for(self.config),
    {
        let url = self.db_url(path);
        self.auth(PreparedRequest::start(&self.client, HttpMethod::Get, url.as_str()))
    }

    /// An authenticated POST to `path` inside the database.
    pub fn post_db(&self, path: &str) -> (r: PreparedRequest)
        ensures
            r.method() == HttpMethod::Post,
            r.url() == db_url_spec(self.config, path@),
            r.authorization() == authorization_for(self.config),
    {
        let url = self.db_url(path);
        self.auth(PreparedRequest::start(&self.client, HttpMethod::Post, url.as_str()))
    }
}

} // verus!
