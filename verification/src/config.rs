//! The connection settings read from a request profile.
use vstd::prelude::*;

use crate::json::Json;
use crate::secrets::{collect_url_auth, push_sensitive};
use crate::text::{replace, trim, trim_end_char};

verus! {

/// The settings of one ArangoDB connection.
#[derive(Debug, Clone, PartialEq, Eq)]
pub struct ArangoConfig {
    /// Server URL without trailing `/`.
    pub base_url: String,
    pub database: String,
    pub username: Option<String>,
    pub password: Option<String>,
    pub bearer_token: Option<String>,
    /// Values to mask in messages shown to the user.
    pub redaction_values: Vec<String>,
}

/// How requests of a connection authenticate.
#[derive(Debug, Clone, PartialEq, Eq)]
pub enum AuthScheme {
    /// `Authorization: Bearer <token>`.
    Bearer(String),
    /// HTTP basic authentication with a user name and optional password.
    Basic(String, Option<String>),
    /// No authentication.
    Anonymous,
}

// ---------------------------------------------------------------------------
// Specifications
// ---------------------------------------------------------------------------

/// The view of an optional string.
pub open spec fn opt_string_view(s: Option<String>) -> Option<Seq<char>> {
    match s {
        Some(v) => Some(v@),
        None => None,
    }
}

/// The views of a list of field names.
pub open spec fn field_views(fields: Seq<&str>) -> Seq<Seq<char>> {
    fields.map_values(|f: &str| f@)
}

/// An optional value as a list of zero or one values.
pub open spec fn opt_list(o: Option<crate::json::JsonModel>) -> Seq<crate::json::JsonModel> {
    match o {
        Some(v) => seq![v],
        None => Seq::empty(),
    }
}

/// `request[outer][inner]`.
pub open spec fn nested(
    request: crate::json::JsonModel,
    outer: Seq<char>,
    inner: Seq<char>,
) -> Option<crate::json::JsonModel> {
    match crate::json::get_spec(request, outer) {
        Some(p) => crate::json::get_spec(p, inner),
        None => None,
    }
}

/// The places a setting is looked for, in order: the request itself, its
/// `profile`, `options`, `auth` and `secrets` members, and the `options`,
/// `auth` and `secrets` members of its profile.
pub open spec fn containers_spec(request: crate::json::JsonModel) -> Seq<crate::json::JsonModel> {
    seq![request] + opt_list(crate::json::get_spec(request, "profile"@)) + opt_list(
        crate::json::get_spec(request, "options"@),
    ) + opt_list(crate::json::get_spec(request, "auth"@)) + opt_list(
        crate::json::get_spec(request, "secrets"@),
    ) + opt_list(nested(request, "profile"@, "options"@)) + opt_list(
        nested(request, "profile"@, "auth"@),
    ) + opt_list(nested(request, "profile"@, "secrets"@))
}

/// The text of a scalar: a string as it is, a number as it prints, a flag as
/// `true` or `false`; anything else gives the empty text.
pub open spec fn scalar_text(v: crate::json::JsonModel) -> Seq<char> {
    match v {
        crate::json::JsonModel::Str(s) => s,
        crate::json::JsonModel::Number(n) => crate::json::number_text_spec(n),
        crate::json::JsonModel::Bool(b) => if b {
            "true"@
        } else {
            "false"@
        },
        _ => Seq::empty(),
    }
}

/// The trimmed text of `container[field]`, when there is such a member and
/// its text is not blank.
pub open spec fn field_text(container: crate::json::JsonModel, field: Seq<char>) -> Option<Seq<char>> {
    match crate::json::get_spec(container, field) {
        Some(v) => {
            let t = crate::text::trim_spec(scalar_text(v));
            if t.len() > 0 {
                Some(t)
            } else {
                None
            }
        },
        None => None,
    }
}

/// The first field, in order, with a text in `container`.
pub open spec fn first_field_text(container: crate::json::JsonModel, fields: Seq<Seq<char>>) -> Option<Seq<char>>
    decreases fields.len(),
{
    if fields.len() == 0 {
        None
    } else {
        match field_text(container, fields[0]) {
            Some(t) => Some(t),
            None => first_field_text(container, fields.drop_first()),
        }
    }
}

/// The first container, in order, with a text for one of the fields.
pub open spec fn first_container_text(
    containers: Seq<crate::json::JsonModel>,
    fields: Seq<Seq<char>>,
) -> Option<Seq<char>>
    decreases containers.len(),
{
    if containers.len() == 0 {
        None
    } else {
        match first_field_text(containers[0], fields) {
            Some(t) => Some(t),
            None => first_container_text(containers.drop_first(), fields),
        }
    }
}

/// A text setting of the request: the first of `fields` with a text, looked
/// for container by container.
pub open spec fn option_string_spec(request: crate::json::JsonModel, fields: Seq<Seq<char>>) -> Option<Seq<char>> {
    first_container_text(containers_spec(request), fields)
}

/// The first field, in order, that holds a boolean in `container`.
pub open spec fn first_field_flag(container: crate::json::JsonModel, fields: Seq<Seq<char>>) -> Option<bool>
    decreases fields.len(),
{
    if fields.len() == 0 {
        None
    } else {
        match crate::json::as_bool_spec(crate::json::get_spec(container, fields[0])) {
            Some(b) => Some(b),
            None => first_field_flag(container, fields.drop_first()),
        }
    }
}

/// The first container, in order, with a boolean for one of the fields.
pub open spec fn first_container_flag(
    containers: Seq<crate::json::JsonModel>,
    fields: Seq<Seq<char>>,
) -> Option<bool>
    decreases containers.len(),
{
    if containers.len() == 0 {
        None
    } else {
        match first_field_flag(containers[0], fields) {
            Some(b) => Some(b),
            None => first_container_flag(containers.drop_first(), fields),
        }
    }
}

/// A boolean setting of the request.
pub open spec fn bool_option_spec(request: crate::json::JsonModel, fields: Seq<Seq<char>>) -> Option<bool> {
    first_container_flag(containers_spec(request), fields)
}

/// A setting with a default.
pub open spec fn or_default(o: Option<Seq<char>>, default: Seq<char>) -> Seq<char> {
    match o {
        Some(v) => v,
        None => default,
    }
}

/// The server URL built from host, port and TLS settings.
pub open spec fn build_url_spec(request: crate::json::JsonModel) -> Seq<char> {
    let host = or_default(option_string_spec(request, seq!["host"@, "endpoint"@]), "127.0.0.1"@);
    let port = or_default(option_string_spec(request, seq!["port"@]), "8529"@);
    let scheme = if bool_option_spec(request, seq!["tls"@, "ssl"@]) == Some(true) {
        "https"@
    } else {
        "http"@
    };
    scheme + "://"@ + host + ":"@ + port
}

/// The server URL as given, or as built from its parts.
pub open spec fn raw_base_url(request: crate::json::JsonModel) -> Seq<char> {
    match option_string_spec(request, seq!["connectionString"@, "url"@, "dsn"@]) {
        Some(u) => u,
        None => build_url_spec(request),
    }
}

pub open spec fn database_spec(request: crate::json::JsonModel) -> Seq<char> {
    or_default(option_string_spec(request, seq!["database"@, "db"@]), "_system"@)
}

pub open spec fn username_spec(request: crate::json::JsonModel) -> Option<Seq<char>> {
    option_string_spec(request, seq!["user"@, "username"@])
}

pub open spec fn password_spec(request: crate::json::JsonModel) -> Option<Seq<char>> {
    option_string_spec(request, seq!["password"@])
}

pub open spec fn token_spec(request: crate::json::JsonModel) -> Option<Seq<char>> {
    option_string_spec(request, seq!["token"@, "jwt"@, "bearerToken"@])
}

/// The secrets of a request: its password, its token, then the credentials
/// written into its server URL.
pub open spec fn redaction_spec(request: crate::json::JsonModel) -> Seq<Seq<char>> {
    crate::secrets::url_auth_push(
        raw_base_url(request),
        crate::secrets::sensitive_push(
            crate::secrets::sensitive_push(Seq::empty(), password_spec(request)),
            token_spec(request),
        ),
    )
}

/// `config` holds the settings that `request` describes.
pub open spec fn config_from_request(config: ArangoConfig, request: crate::json::JsonModel) -> bool {
    &&& config.base_url@ == crate::text::strip_trailing(raw_base_url(request), '/')
    &&& config.database@ == database_spec(request)
    &&& opt_string_view(config.username) == username_spec(request)
    &&& opt_string_view(config.password) == password_spec(request)
    &&& opt_string_view(config.bearer_token) == token_spec(request)
    &&& crate::text::views(config.redaction_values@) == redaction_spec(request)
}

impl ArangoConfig {
    /// A server URL without trailing `/`, and secrets fit for masking.
    pub open spec fn wf(&self) -> bool {
        &&& crate::text::strip_trailing(self.base_url@, '/') == self.base_url@
        &&& crate::secrets::clean_secrets(crate::text::views(self.redaction_values@))
    }
}

// ---------------------------------------------------------------------------
// Lemmas
// ---------------------------------------------------------------------------

proof fn lemma_strip_trailing_idempotent(s: Seq<char>, c: char)
    ensures
        crate::text::strip_trailing(crate::text::strip_trailing(s, c), c) == crate::text::strip_trailing(s, c),
    decreases s.len(),
{
    if s.len() > 0 && s.last() == c {
        lemma_strip_trailing_idempotent(s.drop_last(), c);
    }
}

/// Unfolding a search over a suffix by one element.
proof fn lemma_skip_step<A>(s: Seq<A>, i: int)
    requires
        0 <= i < s.len(),
    ensures
        s.skip(i).len() > 0,
        s.skip(i)[0] == s[i],
        s.skip(i).drop_first() == s.skip(i + 1),
{
    assert(s.skip(i).drop_first() =~= s.skip(i + 1));
}

/// The trimmed text of a string member, when it is not blank.
pub open spec fn string_member(container: crate::json::JsonModel, key: Seq<char>) -> Option<Seq<char>> {
    match crate::json::get_spec(container, key) {
        Some(crate::json::JsonModel::Str(s)) => if crate::text::trim_spec(s).len() > 0 {
            Some(crate::text::trim_spec(s))
        } else {
            None
        },
        _ => None,
    }
}

proof fn lemma_first_field_text(
    container: crate::json::JsonModel,
    fields: Seq<Seq<char>>,
    k: int,
    t: Seq<char>,
)
    requires
        0 <= k < fields.len(),
        forall|j: int| 0 <= j < k ==> crate::json::get_spec(container, #[trigger] fields[j]) is None,
        string_member(container, fields[k]) == Some(t),
    ensures
        first_field_text(container, fields) == Some(t),
    decreases k,
{
    if k > 0 {
        assert(crate::json::get_spec(container, fields[0]) is None);
        let rest = fields.drop_first();
        assert forall|j: int| 0 <= j < k - 1 implies crate::json::get_spec(container, #[trigger] rest[j]) is None by {
            assert(rest[j] == fields[j + 1]);
        }
        lemma_first_field_text(container, rest, k - 1, t);
    }
}

/// A setting given as a non-blank string directly on the request, with no
/// earlier field of the setting on the request, is that string, trimmed.
proof fn lemma_request_setting(request: crate::json::JsonModel, fields: Seq<Seq<char>>, k: int, t: Seq<char>)
    requires
        0 <= k < fields.len(),
        forall|j: int| 0 <= j < k ==> crate::json::get_spec(request, #[trigger] fields[j]) is None,
        string_member(request, fields[k]) == Some(t),
    ensures
        option_string_spec(request, fields) == Some(t),
{
    lemma_first_field_text(request, fields, k, t);
    assert(containers_spec(request)[0] == request);
}

proof fn lemma_push_keeps(values: Seq<Seq<char>>, value: Option<Seq<char>>, x: Seq<char>)
    ensures
        values.contains(x) ==> crate::secrets::sensitive_push(values, value).contains(x),
        value == Some(x) && crate::text::trim_spec(x) == x && x.len() > 0 ==> crate::secrets::sensitive_push(
            values,
            value,
        ).contains(x),
{
    if values.contains(x) {
        let i = choose|i: int| 0 <= i < values.len() && values[i] == x;
        if let Some(v) = value {
            let t = crate::text::trim_spec(v);
            if t.len() > 0 && !values.contains(t) {
                assert(values.push(t)[i] == x);
            }
        }
    }
    if value == Some(x) && crate::text::trim_spec(x) == x && x.len() > 0 && !values.contains(x) {
        assert(values.push(x)[values.len() as int] == x);
    }
}

proof fn lemma_push_all_keeps(values: Seq<Seq<char>>, parts: Seq<Seq<char>>, x: Seq<char>)
    requires
        values.contains(x),
    ensures
        crate::secrets::sensitive_push_all(values, parts).contains(x),
    decreases parts.len(),
{
    if parts.len() > 0 {
        lemma_push_keeps(values, Some(parts[0]), x);
        lemma_push_all_keeps(crate::secrets::sensitive_push(values, Some(parts[0])), parts.drop_first(), x);
    }
}

/// The recorded secrets hold the password and the token of a request.
proof fn lemma_secrets_hold(request: crate::json::JsonModel, x: Seq<char>)
    requires
        password_spec(request) == Some(x) || token_spec(request) == Some(x),
    ensures
        redaction_spec(request).contains(x),
{
    let p = password_spec(request);
    let first = crate::secrets::sensitive_push(Seq::empty(), p);
    let second = crate::secrets::sensitive_push(first, token_spec(request));
    lemma_option_text_trimmed(request, seq!["password"@]);
    lemma_option_text_trimmed(request, seq!["token"@, "jwt"@, "bearerToken"@]);
    lemma_push_keeps(Seq::empty(), p, x);
    lemma_push_keeps(first, token_spec(request), x);
    if let Some(auth) = crate::secrets::url_auth_part(raw_base_url(request)) {
        if crate::text::find_char(auth, ':') is Some {
            lemma_push_all_keeps(second, crate::text::split_spec(auth, ':'), x);
        }
    }
}

proof fn lemma_first_field_trimmed(container: crate::json::JsonModel, fields: Seq<Seq<char>>)
    ensures
        first_field_text(container, fields) matches Some(t) ==> t.len() > 0 && crate::text::trim_spec(t) == t,
    decreases fields.len(),
{
    if fields.len() > 0 {
        if let Some(v) = crate::json::get_spec(container, fields[0]) {
            crate::text::lemma_trim_idempotent(scalar_text(v));
        }
        lemma_first_field_trimmed(container, fields.drop_first());
    }
}

proof fn lemma_first_container_trimmed(containers: Seq<crate::json::JsonModel>, fields: Seq<Seq<char>>)
    ensures
        first_container_text(containers, fields) matches Some(t) ==> t.len() > 0 && crate::text::trim_spec(t)
            == t,
    decreases containers.len(),
{
    if containers.len() > 0 {
        lemma_first_field_trimmed(containers[0], fields);
        lemma_first_container_trimmed(containers.drop_first(), fields);
    }
}

/// A text setting is trimmed and not blank.
proof fn lemma_option_text_trimmed(request: crate::json::JsonModel, fields: Seq<Seq<char>>)
    ensures
        option_string_spec(request, fields) matches Some(t) ==> t.len() > 0 && crate::text::trim_spec(t) == t,
{
    lemma_first_container_trimmed(containers_spec(request), fields);
}

/// Law of bearer tokens: the first of the request's own `token`, `jwt` and
/// `bearerToken` members that is present, when it is a non-blank string, is
/// the connection's bearer token, trimmed, and is among the secrets masked.
pub proof fn lemma_token_member(config: ArangoConfig, request: crate::json::JsonModel, key: Seq<char>, t: Seq<char>)
    requires
        config_from_request(config, request),
        key == "token"@ || key == "jwt"@ || key == "bearerToken"@,
        key != "token"@ ==> crate::json::get_spec(request, "token"@) is None,
        key == "bearerToken"@ ==> crate::json::get_spec(request, "jwt"@) is None,
        string_member(request, key) == Some(t),
    ensures
        opt_string_view(config.bearer_token) == Some(t),
        crate::text::views(config.redaction_values@).contains(t),
{
    let fields = seq!["token"@, "jwt"@, "bearerToken"@];
    let k: int = if key == "token"@ {
        0
    } else if key == "jwt"@ {
        1
    } else {
        2
    };
    lemma_request_setting(request, fields, k, t);
    lemma_secrets_hold(request, t);
}

/// Law of passwords: a non-blank string `password` member of the request is
/// the connection's password, trimmed, and is among the secrets masked.
pub proof fn lemma_password_member(config: ArangoConfig, request: crate::json::JsonModel, t: Seq<char>)
    requires
        config_from_request(config, request),
        string_member(request, "password"@) == Some(t),
    ensures
        opt_string_view(config.password) == Some(t),
        crate::text::views(config.redaction_values@).contains(t),
{
    lemma_request_setting(request, seq!["password"@], 0, t);
    lemma_secrets_hold(request, t);
}

/// Law of user names: the first of the request's own `user` and `username`
/// members that is present, when it is a non-blank string, is the user name.
pub proof fn lemma_user_member(config: ArangoConfig, request: crate::json::JsonModel, key: Seq<char>, t: Seq<char>)
    requires
        config_from_request(config, request),
        key == "user"@ || key == "username"@,
        key == "username"@ ==> crate::json::get_spec(request, "user"@) is None,
        string_member(request, key) == Some(t),
    ensures
        opt_string_view(config.username) == Some(t),
{
    lemma_request_setting(request, seq!["user"@, "username"@], if key == "user"@ { 0 } else { 1 }, t);
}

/// Law of databases: the first of the request's own `database` and `db`
/// members that is present, when it is a non-blank string, is the database.
pub proof fn lemma_database_member(config: ArangoConfig, request: crate::json::JsonModel, key: Seq<char>, t: Seq<char>)
    requires
        config_from_request(config, request),
        key == "database"@ || key == "db"@,
        key == "db"@ ==> crate::json::get_spec(request, "database"@) is None,
        string_member(request, key) == Some(t),
    ensures
        config.database@ == t,
{
    lemma_request_setting(request, seq!["database"@, "db"@], if key == "database"@ { 0 } else { 1 }, t);
}

/// Law of server URLs: the first of the request's own `connectionString`,
/// `url` and `dsn` members that is present, when it is a non-blank string,
/// is the server URL, trimmed and without trailing slashes.
pub proof fn lemma_url_member(config: ArangoConfig, request: crate::json::JsonModel, key: Seq<char>, t: Seq<char>)
    requires
        config_from_request(config, request),
        key == "connectionString"@ || key == "url"@ || key == "dsn"@,
        key != "connectionString"@ ==> crate::json::get_spec(request, "connectionString"@) is None,
        key == "dsn"@ ==> crate::json::get_spec(request, "url"@) is None,
        string_member(request, key) == Some(t),
    ensures
        config.base_url@ == crate::text::strip_trailing(t, '/'),
{
    let k: int = if key == "connectionString"@ {
        0
    } else if key == "url"@ {
        1
    } else {
        2
    };
    lemma_request_setting(request, seq!["connectionString"@, "url"@, "dsn"@], k, t);
}

// ---------------------------------------------------------------------------
// Executable functions
// ---------------------------------------------------------------------------

/// The places a setting is looked for (see `containers_spec`).
pub fn request_containers(request: &Json) -> (r: Vec<&Json>)
    ensures
        r@.map_values(|j: &Json| j@) == containers_spec(request@),
{
    let mut r: Vec<&Json> = Vec::new();
    r.push(request);
    let ghost mut expect: Seq<crate::json::JsonModel> = seq![request@];
    assert(r@.map_values(|j: &Json| j@) =~= expect);
    let profile = request.get("profile");
    if let Some(p) = profile {
        r.push(p);
    }
    proof {
        expect = expect + opt_list(crate::json::get_spec(request@, "profile"@));
    }
    assert(r@.map_values(|j: &Json| j@) =~= expect);
    if let Some(v) = request.get("options") {
        r.push(v);
    }
    proof {
        expect = expect + opt_list(crate::json::get_spec(request@, "options"@));
    }
    assert(r@.map_values(|j: &Json| j@) =~= expect);
    if let Some(v) = request.get("auth") {
        r.push(v);
    }
    proof {
        expect = expect + opt_list(crate::json::get_spec(request@, "auth"@));
    }
    assert(r@.map_values(|j: &Json| j@) =~= expect);
    if let Some(v) = request.get("secrets") {
        r.push(v);
    }
    proof {
        expect = expect + opt_list(crate::json::get_spec(request@, "secrets"@));
    }
    assert(r@.map_values(|j: &Json| j@) =~= expect);
    if let Some(p) = profile {
        if let Some(v) = p.get("options") {
            r.push(v);
        }
    }
    proof {
        expect = expect + opt_list(nested(request@, "profile"@, "options"@));
    }
    assert(r@.map_values(|j: &Json| j@) =~= expect);
    if let Some(p) = profile {
        if let Some(v) = p.get("auth") {
            r.push(v);
        }
    }
    proof {
        expect = expect + opt_list(nested(request@, "profile"@, "auth"@));
    }
    assert(r@.map_values(|j: &Json| j@) =~= expect);
    if let Some(p) = profile {
        if let Some(v) = p.get("secrets") {
            r.push(v);
        }
    }
    proof {
        expect = expect + opt_list(nested(request@, "profile"@, "secrets"@));
    }
    assert(r@.map_values(|j: &Json| j@) =~= expect);
    r
}

/// The text of `container[field]`, trimmed, when it is not blank.
fn field_text_exec(container: &Json, field: &str) -> (r: Option<String>)
    ensures
        opt_string_view(r) == field_text(container@, field@),
{
    match container.get(field) {
        Some(v) => {
            let raw: String = match v {
                Json::Str(s) => s.clone(),
                Json::Number(n) => n.to_text(),
                Json::Bool(b) => if *b {
                    "true".to_owned()
                } else {
                    "false".to_owned()
                },
                _ => String::new(),
            };
            assert(raw@ == scalar_text(v@));
            let t = trim(raw.as_str());
            if t.as_str().is_empty() {
                None
            } else {
                Some(t)
            }
        },
        None => None,
    }
}

/// A text setting: the first of `fields` with a non-blank text, looked for
/// in each container in turn; numbers and flags count by how they print.
pub fn option_string(request: &Json, fields: &[&str]) -> (r: Option<String>)
    ensures
        opt_string_view(r) == option_string_spec(request@, field_views(fields@)),
{
    let containers = request_containers(request);
    let ghost cs = containers@.map_values(|j: &Json| j@);
    let ghost fs = field_views(fields@);
    let mut i: usize = 0;
    assert(cs.skip(0) =~= cs);
    while i < containers.len()
        invariant
            i <= containers.len(),
            cs == containers@.map_values(|j: &Json| j@),
            cs == containers_spec(request@),
            fs == field_views(fields@),
            first_container_text(cs.skip(i as int), fs) == option_string_spec(request@, fs),
        decreases containers.len() - i,
    {
        let c = containers[i];
        proof {
            lemma_skip_step(cs, i as int);
        }
        let mut j: usize = 0;
        assert(fs.skip(0) =~= fs);
        while j < fields.len()
            invariant
                j <= fields.len(),
                i < containers.len(),
                c == containers@[i as int],
                cs == containers@.map_values(|j: &Json| j@),
                cs == containers_spec(request@),
                fs == field_views(fields@),
                first_container_text(cs.skip(i as int), fs) == option_string_spec(request@, fs),
                first_field_text(c@, fs.skip(j as int)) == first_field_text(c@, fs),
            decreases fields.len() - j,
        {
            proof {
                lemma_skip_step(fs, j as int);
            }
            let t = field_text_exec(c, fields[j]);
            if t.is_some() {
                assert(cs.skip(i as int)[0] == c@);
                return t;
            }
            j = j + 1;
        }
        assert(fs.skip(j as int) =~= Seq::<Seq<char>>::empty());
        assert(cs.skip(i as int)[0] == c@);
        i = i + 1;
    }
    assert(cs.skip(i as int) =~= Seq::<crate::json::JsonModel>::empty());
    None
}

/// A boolean setting: the first of `fields` holding a boolean, looked for in
/// each container in turn.
pub fn bool_option(request: &Json, fields: &[&str]) -> (r: Option<bool>)
    ensures
        r == bool_option_spec(request@, field_views(fields@)),
{
    let containers = request_containers(request);
    let ghost cs = containers@.map_values(|j: &Json| j@);
    let ghost fs = field_views(fields@);
    let mut i: usize = 0;
    assert(cs.skip(0) =~= cs);
    while i < containers.len()
        invariant
            i <= containers.len(),
            cs == containers@.map_values(|j: &Json| j@),
            cs == containers_spec(request@),
            fs == field_views(fields@),
            first_container_flag(cs.skip(i as int), fs) == bool_option_spec(request@, fs),
        decreases containers.len() - i,
    {
        let c = containers[i];
        proof {
            lemma_skip_step(cs, i as int);
        }
        let mut j: usize = 0;
        assert(fs.skip(0) =~= fs);
        while j < fields.len()
            invariant
                j <= fields.len(),
                i < containers.len(),
                c == containers@[i as int],
                cs == containers@.map_values(|j: &Json| j@),
                cs == containers_spec(request@),
                fs == field_views(fields@),
                first_container_flag(cs.skip(i as int), fs) == bool_option_spec(request@, fs),
                first_field_flag(c@, fs.skip(j as int)) == first_field_flag(c@, fs),
            decreases fields.len() - j,
        {
            proof {
                lemma_skip_step(fs, j as int);
            }
            match c.get(fields[j]) {
                Some(v) => match v.as_bool() {
                    Some(b) => {
                        assert(cs.skip(i as int)[0] == c@);
                        return Some(b);
                    },
                    None => {},
                },
                None => {},
            }
            j = j + 1;
        }
        assert(fs.skip(j as int) =~= Seq::<Seq<char>>::empty());
        assert(cs.skip(i as int)[0] == c@);
        i = i + 1;
    }
    assert(cs.skip(i as int) =~= Seq::<crate::json::JsonModel>::empty());
    None
}

/// The server URL from host (default `127.0.0.1`), port (default `8529`)
/// and TLS flag: `http[s]://host:port`.
pub fn build_url(request: &Json) -> (url: String)
    ensures
        url@ == build_url_spec(request@),
{
    let host_fields: [&str; 2] = ["host", "endpoint"];
    assert(field_views(host_fields@) =~= seq!["host"@, "endpoint"@]);
    let host = match option_string(request, &host_fields) {
        Some(h) => h,
        None => "127.0.0.1".to_owned(),
    };
    let port_fields: [&str; 1] = ["port"];
    assert(field_views(port_fields@) =~= seq!["port"@]);
    let port = match option_string(request, &port_fields) {
        Some(p) => p,
        None => "8529".to_owned(),
    };
    let tls_fields: [&str; 2] = ["tls", "ssl"];
    assert(field_views(tls_fields@) =~= seq!["tls"@, "ssl"@]);
    let tls = match bool_option(request, &tls_fields) {
        Some(b) => b,
        None => false,
    };
    let mut url = if tls {
        "https".to_owned()
    } else {
        "http".to_owned()
    };
    url.append("://");
    url.append(host.as_str());
    url.append(":");
    url.append(port.as_str());
    url
}

impl ArangoConfig {
    /// Reads the connection settings of a request profile (see
    /// `config_from_request`); every profile gives a configuration.
    pub fn from_request(request: &Json) -> (r: Result<Self, String>)
        ensures
            r is Ok,
            r matches Ok(config) ==> config_from_request(config, request@) && config.wf(),
    {
        let url_fields: [&str; 3] = ["connectionString", "url", "dsn"];
        assert(field_views(url_fields@) =~= seq!["connectionString"@, "url"@, "dsn"@]);
        let base_url = match option_string(request, &url_fields) {
            Some(u) => u,
            None => build_url(request),
        };
        let database_fields: [&str; 2] = ["database", "db"];
        assert(field_views(database_fields@) =~= seq!["database"@, "db"@]);
        let database = match option_string(request, &database_fields) {
            Some(d) => d,
            None => "_system".to_owned(),
        };
        let user_fields: [&str; 2] = ["user", "username"];
        assert(field_views(user_fields@) =~= seq!["user"@, "username"@]);
        let username = option_string(request, &user_fields);
        let password_fields: [&str; 1] = ["password"];
        assert(field_views(password_fields@) =~= seq!["password"@]);
        let password = option_string(request, &password_fields);
        let token_fields: [&str; 3] = ["token", "jwt", "bearerToken"];
        assert(field_views(token_fields@) =~= seq!["token"@, "jwt"@, "bearerToken"@]);
        let bearer_token = option_string(request, &token_fields);
        let mut redaction_values: Vec<String> = Vec::new();
        assert(crate::text::views(redaction_values@) =~= Seq::<Seq<char>>::empty());
        push_sensitive(
            &mut redaction_values,
            match &password {
                Some(p) => Some(p.as_str()),
                None => None,
            },
        );
        push_sensitive(
            &mut redaction_values,
            match &bearer_token {
                Some(t) => Some(t.as_str()),
                None => None,
            },
        );
        collect_url_auth(base_url.as_str(), &mut redaction_values);
        let trimmed = trim_end_char(base_url.as_str(), '/');
        proof {
            lemma_strip_trailing_idempotent(base_url@, '/');
        }
        Ok(
            ArangoConfig {
                base_url: trimmed,
                database,
                username,
                password,
                bearer_token,
                redaction_values,
            },
        )
    }

    /// `message` with the server URL replaced by `<arangodb-url>` and every
    /// recorded secret replaced by `****`.
    pub fn redact(&self, message: &str) -> (r: String)
        ensures
            r@ == crate::secrets::redact_spec(
                message@,
                self.base_url@,
                crate::text::views(self.redaction_values@),
            ),
    {
        let ghost secrets = crate::text::views(self.redaction_values@);
        let mut m = replace(message, self.base_url.as_str(), "<arangodb-url>");
        let ghost start = m@;
        let mut i: usize = 0;
        assert(secrets.skip(0) =~= secrets);
        while i < self.redaction_values.len()
            invariant
                i <= self.redaction_values.len(),
                secrets == crate::text::views(self.redaction_values@),
                start == crate::text::replace_spec(message@, self.base_url@, crate::secrets::url_mask()),
                crate::secrets::mask_secrets(m@, secrets.skip(i as int)) == crate::secrets::mask_secrets(
                    start,
                    secrets,
                ),
            decreases self.redaction_values.len() - i,
        {
            proof {
                lemma_skip_step(secrets, i as int);
            }
            let secret = &self.redaction_values[i];
            if !secret.as_str().is_empty() {
                m = replace(m.as_str(), secret.as_str(), "****");
            }
            i = i + 1;
        }
        assert(secrets.skip(i as int) =~= Seq::<Seq<char>>::empty());
        m
    }

    /// How requests authenticate: a bearer token wins over a user name;
    /// without either, requests go unauthenticated.
    pub fn auth_scheme(&self) -> (r: AuthScheme)
        ensures
            match self.bearer_token {
                Some(token) => r matches AuthScheme::Bearer(t) && t@ == token@,
                None => match self.username {
                    Some(user) => r matches AuthScheme::Basic(u, p) && u@ == user@
                        && opt_string_view(p) == opt_string_view(self.password),
                    None => r is Anonymous,
                },
            },
    {
        match &self.bearer_token {
            Some(token) => AuthScheme::Bearer(token.clone()),
            None => match &self.username {
                Some(user) => AuthScheme::Basic(
                    user.clone(),
                    match &self.password {
                        Some(p) => Some(p.clone()),
                        None => None,
                    },
                ),
                None => AuthScheme::Anonymous,
            },
        }
    }
}

} // verus!
