//! The connector's calls, error codes, messages and reply documents.
use vstd::prelude::*;

use std::sync::Arc;

use crate::config::ArangoConfig;
use crate::connection::ArangoConnection;
use crate::json::{member_of, text, Json, JsonModel};
use crate::registry::ConnectionRegistry;
use crate::results::QueryOutput;

verus! {

/// The calls a host makes on the connector.
#[derive(Debug, Clone, Copy, PartialEq, Eq)]
pub enum ConnectorMethod {
    Health,
    Describe,
    Manifest,
    Config,
    Connect,
    Query,
    Metadata,
    Close,
    Unknown,
}

/// The call a method name asks for; `ping` and `capabilities` are other
/// names of `health` and `describe`.
pub open spec fn method_spec(name: Seq<char>) -> ConnectorMethod {
    if name == "health"@ || name == "ping"@ {
        ConnectorMethod::Health
    } else if name == "describe"@ || name == "capabilities"@ {
        ConnectorMethod::Describe
    } else if name == "manifest"@ {
        ConnectorMethod::Manifest
    } else if name == "config"@ {
        ConnectorMethod::Config
    } else if name == "connect"@ {
        ConnectorMethod::Connect
    } else if name == "query"@ {
        ConnectorMethod::Query
    } else if name == "metadata"@ {
        ConnectorMethod::Metadata
    } else if name == "close"@ {
        ConnectorMethod::Close
    } else {
        ConnectorMethod::Unknown
    }
}

fn is_name(name: &String, candidate: &str) -> (b: bool)
    ensures
        b == (name@ == candidate@),
{
    *name == candidate.to_owned()
}

impl ConnectorMethod {
    /// The call named `name` (see `method_spec`).
    pub fn from_name(name: &str) -> (m: ConnectorMethod)
        ensures
            m == method_spec(name@),
    {
        let n = name.to_owned();
        if is_name(&n, "health") || is_name(&n, "ping") {
            ConnectorMethod::Health
        } else if is_name(&n, "describe") || is_name(&n, "capabilities") {
            ConnectorMethod::Describe
        } else if is_name(&n, "manifest") {
            ConnectorMethod::Manifest
        } else if is_name(&n, "config") {
            ConnectorMethod::Config
        } else if is_name(&n, "connect") {
            ConnectorMethod::Connect
        } else if is_name(&n, "query") {
            ConnectorMethod::Query
        } else if is_name(&n, "metadata") {
            ConnectorMethod::Metadata
        } else if is_name(&n, "close") {
            ConnectorMethod::Close
        } else {
            ConnectorMethod::Unknown
        }
    }
}

/// The kinds of failure a call reports.
#[derive(Debug, Clone, Copy, PartialEq, Eq)]
pub enum ErrorCode {
    InvalidRequest,
    ConnectFailed,
    StatePoisoned,
    QueryFailed,
    MetadataFailed,
    ConnectionNotFound,
    UnknownMethod,
}

/// The code string of each kind of failure.
pub open spec fn code_spec(code: ErrorCode) -> Seq<char> {
    match code {
        ErrorCode::InvalidRequest => "connector.invalidRequest"@,
        ErrorCode::ConnectFailed => "connector.connectFailed"@,
        ErrorCode::StatePoisoned => "connector.statePoisoned"@,
        ErrorCode::QueryFailed => "connector.queryFailed"@,
        ErrorCode::MetadataFailed => "connector.metadataFailed"@,
        ErrorCode::ConnectionNotFound => "connector.connectionNotFound"@,
        ErrorCode::UnknownMethod => "connector.unknownMethod"@,
    }
}

impl ErrorCode {
    /// The code string of the failure (see `code_spec`).
    pub fn code(&self) -> (s: &'static str)
        ensures
            s@ == code_spec(*self),
    {
        match self {
            ErrorCode::InvalidRequest => "connector.invalidRequest",
            ErrorCode::ConnectFailed => "connector.connectFailed",
            ErrorCode::StatePoisoned => "connector.statePoisoned",
            ErrorCode::QueryFailed => "connector.queryFailed",
            ErrorCode::MetadataFailed => "connector.metadataFailed",
            ErrorCode::ConnectionNotFound => "connector.connectionNotFound",
            ErrorCode::UnknownMethod => "connector.unknownMethod",
        }
    }
}

/// `unknown connector method: <name>`.
pub fn unknown_method_message(name: &str) -> (m: String)
    ensures
        m@ == "unknown connector method: "@ + name@,
{
    let mut m = "unknown connector method: ".to_owned();
    m.append(name);
    m
}

/// `no open connection: <id>`.
pub fn missing_connection_message(connection_id: &str) -> (m: String)
    ensures
        m@ == "no open connection: "@ + connection_id@,
{
    let mut m = "no open connection: ".to_owned();
    m.append(connection_id);
    m
}

/// The message of a query call without a statement.
pub fn missing_statement_message() -> (m: &'static str)
    ensures
        m@ == "query requires a string aql, query, sql, or statement field."@,
{
    "query requires a string aql, query, sql, or statement field."
}

/// The message of a call that finds the connection table poisoned.
pub fn state_poisoned_message() -> (m: &'static str)
    ensures
        m@ == "Connector connection state is poisoned."@,
{
    "Connector connection state is poisoned."
}

/// The members of a statement-bearing request, in the order they are tried.
pub fn statement_fields() -> (f: [&'static str; 4])
    ensures
        f@.map_values(|s: &str| s@) == seq!["aql"@, "query"@, "sql"@, "statement"@],
{
    let f: [&'static str; 4] = ["aql", "query", "sql", "statement"];
    assert(f@.map_values(|s: &str| s@) =~= seq!["aql"@, "query"@, "sql"@, "statement"@]);
    f
}

/// The statement of a query request: the first of `fields` whose member is
/// a string.
pub open spec fn first_string_member(request: JsonModel, fields: Seq<Seq<char>>) -> Option<Seq<char>>
    decreases fields.len(),
{
    if fields.len() == 0 {
        None
    } else {
        match crate::json::as_str_spec(crate::json::get_spec(request, fields[0])) {
            Some(s) => Some(s),
            None => first_string_member(request, fields.drop_first()),
        }
    }
}

/// The statement of a query request: its `aql`, `query`, `sql` or
/// `statement` member, the first of these that is a string.
pub open spec fn statement_spec(request: JsonModel) -> Option<Seq<char>> {
    first_string_member(request, seq!["aql"@, "query"@, "sql"@, "statement"@])
}

/// The statement of a query request (see `statement_spec`).
pub fn statement_of(request: &Json) -> (r: Option<String>)
    ensures
        crate::config::opt_string_view(r) == statement_spec(request@),
{
    let fields = statement_fields();
    let ghost fs = fields@.map_values(|f: &str| f@);
    let mut i: usize = 0;
    assert(fs.skip(0) =~= fs);
    while i < 4
        invariant
            i <= 4,
            fields@.len() == 4,
            fs == fields@.map_values(|f: &str| f@),
            fs == seq!["aql"@, "query"@, "sql"@, "statement"@],
            first_string_member(request@, fs.skip(i as int)) == statement_spec(request@),
        decreases 4 - i,
    {
        proof {
            assert(fs.skip(i as int)[0] == fs[i as int]);
            assert(fs.skip(i as int).drop_first() =~= fs.skip(i + 1));
        }
        match request.get(fields[i]) {
            Some(v) => match v.as_str() {
                Some(t) => {
                    return Some(t.to_owned());
                },
                None => {},
            },
            None => {},
        }
        i = i + 1;
    }
    assert(fs.skip(4) =~= Seq::<Seq<char>>::empty());
    None
}

// ---------------------------------------------------------------------------
// Exchanges with the server
// ---------------------------------------------------------------------------

/// Which exchange with the server a failure belongs to.
#[derive(Debug, Clone, Copy, PartialEq, Eq)]
pub enum Exchange {
    /// A plain request (version, collection listing).
    Server,
    /// A cursor (query) request.
    Cursor,
}

/// How messages about an exchange begin.
pub open spec fn subject(e: Exchange) -> Seq<char> {
    match e {
        Exchange::Server => "ArangoDB"@,
        Exchange::Cursor => "ArangoDB cursor"@,
    }
}

/// Whether an HTTP status code is in the success class.
pub open spec fn is_success_spec(status: u16) -> bool {
    200 <= status < 300
}

impl Exchange {
    fn subject_text(&self) -> (s: String)
        ensures
            s@ == subject(*self),
    {
        match self {
            Exchange::Server => "ArangoDB".to_owned(),
            Exchange::Cursor => "ArangoDB cursor".to_owned(),
        }
    }

    /// `<subject> request failed: <error>`.
    pub fn request_failed(&self, error: &str) -> (m: String)
        ensures
            m@ == subject(*self) + " request failed: "@ + error@,
    {
        let mut m = self.subject_text();
        m.append(" request failed: ");
        m.append(error);
        m
    }

    /// `<subject> response read failed: <error>`.
    pub fn read_failed(&self, error: &str) -> (m: String)
        ensures
            m@ == subject(*self) + " response read failed: "@ + error@,
    {
        let mut m = self.subject_text();
        m.append(" response read failed: ");
        m.append(error);
        m
    }

    /// Nothing for a success status; otherwise
    /// `<subject> returned HTTP <status>: <body>`, where `status_text` is
    /// how the status prints.
    pub fn status_failure(&self, status: u16, status_text: &str, body: &str) -> (m: Option<String>)
        ensures
            match m {
                None => is_success_spec(status),
                Some(text) => !is_success_spec(status) && text@ == subject(*self)
                    + " returned HTTP "@ + status_text@ + ": "@ + body@,
            },
    {
        if 200 <= status && status < 300 {
            None
        } else {
            let mut m = self.subject_text();
            m.append(" returned HTTP ");
            m.append(status_text);
            m.append(": ");
            m.append(body);
            Some(m)
        }
    }

    /// The message of a reply that is not JSON: the parser's error and the body.
    pub fn parse_failed(&self, error: &str, body: &str) -> (m: String)
        ensures
            m@ == (match *self {
                Exchange::Server => "ArangoDB JSON parse failed: "@,
                Exchange::Cursor => "ArangoDB cursor JSON failed: "@,
            }) + error@ + ": "@ + body@,
    {
        let mut m = match self {
            Exchange::Server => "ArangoDB JSON parse failed: ".to_owned(),
            Exchange::Cursor => "ArangoDB cursor JSON failed: ".to_owned(),
        };
        m.append(error);
        m.append(": ");
        m.append(body);
        m
    }
}

// ---------------------------------------------------------------------------
// Reply documents
// ---------------------------------------------------------------------------

/// The reply to a connect call (members in key order).
pub open spec fn connect_reply_spec(connection_id: Seq<char>, config: ArangoConfig, version: Seq<char>) -> JsonModel {
    JsonModel::Object(
        seq![
            ("connectionId"@, JsonModel::Str(connection_id)),
            ("database"@, JsonModel::Str(config.database@)),
            ("driverLinked"@, JsonModel::Bool(true)),
            ("endpoint"@, JsonModel::Str(config.base_url@)),
            ("engine"@, JsonModel::Str("arangodb"@)),
            ("serverVersion"@, JsonModel::Str(version)),
        ],
    )
}

/// The ABI version the connector speaks.
pub open spec fn abi_version() -> Seq<char> {
    "irodori.connector.native.v1"@
}

/// The reply to a health call (members in key order).
pub open spec fn health_reply_spec() -> JsonModel {
    JsonModel::Object(
        seq![
            ("abiVersion"@, JsonModel::Str(abi_version())),
            ("driverLinked"@, JsonModel::Bool(true)),
            ("engine"@, JsonModel::Str("arangodb"@)),
        ],
    )
}

/// The reply to a describe call: the health members with the connector's
/// manifest and configuration documents (members in key order).
pub open spec fn describe_reply_spec(manifest: JsonModel, config: JsonModel) -> JsonModel {
    JsonModel::Object(
        seq![
            ("abiVersion"@, JsonModel::Str(abi_version())),
            ("config"@, config),
            ("driverLinked"@, JsonModel::Bool(true)),
            ("engine"@, JsonModel::Str("arangodb"@)),
            ("manifest"@, manifest),
        ],
    )
}

/// The reply to a query call (members in key order).
pub open spec fn query_reply_spec(
    connection_id: Seq<char>,
    columns: Seq<Seq<char>>,
    rows: Seq<Seq<JsonModel>>,
    truncated: bool,
) -> JsonModel {
    JsonModel::Object(
        seq![
            ("columns"@, JsonModel::Array(columns.map_values(|c: Seq<char>| JsonModel::Str(c)))),
            ("connectionId"@, JsonModel::Str(connection_id)),
            ("rows"@, JsonModel::Array(rows.map_values(|r: Seq<JsonModel>| JsonModel::Array(r)))),
            ("truncated"@, JsonModel::Bool(truncated)),
        ],
    )
}

/// The reply to a metadata call (members in key order).
pub open spec fn metadata_reply_spec(connection_id: Seq<char>, metadata: JsonModel) -> JsonModel {
    JsonModel::Object(
        seq![("connectionId"@, JsonModel::Str(connection_id)), ("metadata"@, metadata)],
    )
}

/// The reply to a close call (members in key order).
pub open spec fn close_reply_spec(connection_id: Seq<char>, closed: bool) -> JsonModel {
    JsonModel::Object(
        seq![("closed"@, JsonModel::Bool(closed)), ("connectionId"@, JsonModel::Str(connection_id))],
    )
}

/// The reply to a health call (see `health_reply_spec`).
pub fn health_reply() -> (r: Json)
    ensures
        r@ == health_reply_spec(),
{
    let mut members: Vec<(String, Json)> = Vec::new();
    members.push(member_of("abiVersion", text("irodori.connector.native.v1")));
    members.push(member_of("driverLinked", Json::Bool(true)));
    members.push(member_of("engine", text("arangodb")));
    proof {
        crate::json::lemma_object_model(members@, health_reply_spec()->Object_0);
    }
    Json::Object(members)
}

/// The reply to a describe call (see `describe_reply_spec`).
pub fn describe_reply(manifest: Json, config: Json) -> (r: Json)
    ensures
        r@ == describe_reply_spec(manifest@, config@),
{
    let ghost expect = describe_reply_spec(manifest@, config@);
    let mut members: Vec<(String, Json)> = Vec::new();
    members.push(member_of("abiVersion", text("irodori.connector.native.v1")));
    members.push(member_of("config", config));
    members.push(member_of("driverLinked", Json::Bool(true)));
    members.push(member_of("engine", text("arangodb")));
    members.push(member_of("manifest", manifest));
    proof {
        crate::json::lemma_object_model(members@, expect->Object_0);
    }
    Json::Object(members)
}

/// The last step of a connect call, given how reading the server version
/// went: on success the connection is registered under its id (replacing
/// any held there) and the connect reply is returned; on failure nothing is
/// registered and the error is reported with the connection's secrets masked.
pub fn connect_step(
    registry: &mut ConnectionRegistry<Arc<ArangoConnection>>,
    connection_id: &str,
    connection: Arc<ArangoConnection>,
    version: Result<String, String>,
) -> (r: Result<Json, (ErrorCode, String)>)
    requires
        old(registry).wf(),
    ensures
        final(registry).wf(),
        match version {
            Ok(v) => {
                &&& r matches Ok(reply) && reply@ == connect_reply_spec(
                    connection_id@,
                    connection.config,
                    v@,
                )
                &&& final(registry).lookup(connection_id@) == Some(connection)
                &&& forall|other: Seq<char>|
                    other != connection_id@ ==> final(registry).lookup(other) == old(
                        registry,
                    ).lookup(other)
            },
            Err(e) => {
                &&& r matches Err((code, message)) && code == ErrorCode::ConnectFailed && message@
                    == crate::secrets::redact_spec(
                    e@,
                    connection.config.base_url@,
                    crate::text::views(connection.config.redaction_values@),
                )
                &&& *final(registry) == *old(registry)
            },
        },
{
    match version {
        Ok(v) => {
            let reply = connect_reply(connection_id, &connection.config, v.as_str());
            registry.insert(connection_id.to_owned(), connection);
            Ok(reply)
        },
        Err(e) => Err((ErrorCode::ConnectFailed, connection.config.redact(e.as_str()))),
    }
}

/// The first step of a query call: its statement, or the failure of a call
/// that has none.
pub fn query_statement(request: &Json) -> (r: Result<String, (ErrorCode, String)>)
    ensures
        match statement_spec(request@) {
            Some(statement) => r matches Ok(s) && s@ == statement,
            None => r matches Err((code, message)) && code == ErrorCode::InvalidRequest
                && message@ == "query requires a string aql, query, sql, or statement field."@,
        },
{
    match statement_of(request) {
        Some(s) => Ok(s),
        None => Err((ErrorCode::InvalidRequest, missing_statement_message().to_owned())),
    }
}

/// The open connection a query or metadata call names, or the failure of a
/// call that names none.
pub fn find_connection<'a, T>(registry: &'a ConnectionRegistry<T>, connection_id: &str) -> (r: Result<
    &'a T,
    (ErrorCode, String),
>)
    requires
        registry.wf(),
    ensures
        match registry.lookup(connection_id@) {
            Some(c) => r matches Ok(v) && *v == c,
            None => r matches Err((code, message)) && code == ErrorCode::ConnectionNotFound
                && message@ == "no open connection: "@ + connection_id@,
        },
{
    match registry.get(connection_id) {
        Some(c) => Ok(c),
        None => Err((ErrorCode::ConnectionNotFound, missing_connection_message(connection_id))),
    }
}

/// The last step of a query call, given how the cursor run went: the query
/// reply, or the failure with the connection's secrets masked.
pub fn query_finish(connection_id: &str, config: &ArangoConfig, run: Result<QueryOutput, String>) -> (r:
    Result<Json, (ErrorCode, String)>)
    ensures
        match run {
            Ok(output) => r matches Ok(reply) && reply@ == query_reply_spec(
                connection_id@,
                crate::text::views(output.0@),
                output.1@.map_values(|row: Vec<Json>| crate::json::models(row@)),
                output.2,
            ),
            Err(e) => r matches Err((code, message)) && code == ErrorCode::QueryFailed && message@
                == crate::secrets::redact_spec(
                e@,
                config.base_url@,
                crate::text::views(config.redaction_values@),
            ),
        },
{
    match run {
        Ok(output) => Ok(query_reply(connection_id, &output)),
        Err(e) => Err((ErrorCode::QueryFailed, config.redact(e.as_str()))),
    }
}

/// The last step of a metadata call, given how reading the collections
/// went: the metadata reply, or the failure with the connection's secrets
/// masked.
pub fn metadata_finish(connection_id: &str, config: &ArangoConfig, run: Result<Json, String>) -> (r:
    Result<Json, (ErrorCode, String)>)
    ensures
        match run {
            Ok(metadata) => r matches Ok(reply) && reply@ == metadata_reply_spec(
                connection_id@,
                metadata@,
            ),
            Err(e) => r matches Err((code, message)) && code == ErrorCode::MetadataFailed
                && message@ == crate::secrets::redact_spec(
                e@,
                config.base_url@,
                crate::text::views(config.redaction_values@),
            ),
        },
{
    match run {
        Ok(metadata) => Ok(metadata_reply(connection_id, metadata)),
        Err(e) => Err((ErrorCode::MetadataFailed, config.redact(e.as_str()))),
    }
}

/// A close call: the connection named is removed, and the reply says
/// whether there was one.
pub fn close_step<T>(registry: &mut ConnectionRegistry<T>, connection_id: &str) -> (r: Json)
    requires
        old(registry).wf(),
    ensures
        final(registry).wf(),
        r@ == close_reply_spec(connection_id@, old(registry).lookup(connection_id@) is Some),
        final(registry).lookup(connection_id@) is None,
        forall|other: Seq<char>|
            other != connection_id@ ==> final(registry).lookup(other) == old(registry).lookup(other),
{
    let existed = registry.remove(connection_id).is_some();
    close_reply(connection_id, existed)
}

/// The reply to a connect call (see `connect_reply_spec`).
pub fn connect_reply(connection_id: &str, config: &ArangoConfig, version: &str) -> (r: Json)
    ensures
        r@ == connect_reply_spec(connection_id@, *config, version@),
{
    let mut members: Vec<(String, Json)> = Vec::new();
    members.push(member_of("connectionId", text(connection_id)));
    members.push(member_of("database", text(config.database.as_str())));
    members.push(member_of("driverLinked", Json::Bool(true)));
    members.push(member_of("endpoint", text(config.base_url.as_str())));
    members.push(member_of("engine", text("arangodb")));
    members.push(member_of("serverVersion", text(version)));
    proof {
        crate::json::lemma_object_model(members@, connect_reply_spec(connection_id@, *config, version@)->Object_0);
    }
    Json::Object(members)
}

/// The reply to a query call (see `query_reply_spec`).
pub fn query_reply(connection_id: &str, output: &QueryOutput) -> (r: Json)
    ensures
        r@ == query_reply_spec(
            connection_id@,
            crate::text::views(output.0@),
            output.1@.map_values(|row: Vec<Json>| crate::json::models(row@)),
            output.2,
        ),
{
    let ghost cols = crate::text::views(output.0@);
    let ghost rows = output.1@.map_values(|row: Vec<Json>| crate::json::models(row@));
    let mut columns: Vec<Json> = Vec::new();
    let mut i: usize = 0;
    while i < output.0.len()
        invariant
            i <= output.0.len(),
            columns.len() == i,
            cols == crate::text::views(output.0@),
            forall|k: int| 0 <= k < i ==> (#[trigger] columns@[k])@ == JsonModel::Str(cols[k]),
        decreases output.0.len() - i,
    {
        columns.push(Json::Str(output.0[i].clone()));
        i = i + 1;
    }
    proof {
        crate::json::lemma_items_model(columns@);
        assert(crate::json::items_model(columns@) =~= cols.map_values(|c: Seq<char>| JsonModel::Str(c)));
    }
    let mut row_values: Vec<Json> = Vec::new();
    let mut i: usize = 0;
    while i < output.1.len()
        invariant
            i <= output.1.len(),
            row_values.len() == i,
            rows == output.1@.map_values(|row: Vec<Json>| crate::json::models(row@)),
            forall|k: int| 0 <= k < i ==> (#[trigger] row_values@[k])@ == JsonModel::Array(rows[k]),
        decreases output.1.len() - i,
    {
        let row = &output.1[i];
        let mut cells: Vec<Json> = Vec::new();
        let mut c: usize = 0;
        while c < row.len()
            invariant
                c <= row.len(),
                cells.len() == c,
                forall|k: int| 0 <= k < c ==> (#[trigger] cells@[k])@ == row@[k]@,
            decreases row.len() - c,
        {
            cells.push(row[c].duplicate());
            c = c + 1;
        }
        proof {
            crate::json::lemma_items_model(cells@);
            assert(crate::json::items_model(cells@) =~= crate::json::models(row@));
        }
        row_values.push(Json::Array(cells));
        i = i + 1;
    }
    proof {
        crate::json::lemma_items_model(row_values@);
        assert(crate::json::items_model(row_values@) =~= rows.map_values(
            |r: Seq<JsonModel>| JsonModel::Array(r),
        ));
    }
    let mut members: Vec<(String, Json)> = Vec::new();
    members.push(member_of("columns", Json::Array(columns)));
    members.push(member_of("connectionId", text(connection_id)));
    members.push(member_of("rows", Json::Array(row_values)));
    members.push(member_of("truncated", Json::Bool(output.2)));
    proof {
        crate::json::lemma_object_model(
            members@,
            query_reply_spec(connection_id@, cols, rows, output.2)->Object_0,
        );
    }
    Json::Object(members)
}

/// The reply to a metadata call (see `metadata_reply_spec`).
pub fn metadata_reply(connection_id: &str, metadata: Json) -> (r: Json)
    ensures
        r@ == metadata_reply_spec(connection_id@, metadata@),
{
    let ghost m = metadata@;
    let mut members: Vec<(String, Json)> = Vec::new();
    members.push(member_of("connectionId", text(connection_id)));
    members.push(member_of("metadata", metadata));
    proof {
        crate::json::lemma_object_model(members@, metadata_reply_spec(connection_id@, m)->Object_0);
    }
    Json::Object(members)
}

/// The reply to a close call (see `close_reply_spec`).
pub fn close_reply(connection_id: &str, closed: bool) -> (r: Json)
    ensures
        r@ == close_reply_spec(connection_id@, closed),
{
    let mut members: Vec<(String, Json)> = Vec::new();
    members.push(member_of("closed", Json::Bool(closed)));
    members.push(member_of("connectionId", text(connection_id)));
    proof {
        crate::json::lemma_object_model(members@, close_reply_spec(connection_id@, closed)->Object_0);
    }
    Json::Object(members)
}

/// Law of method names: each documented name selects its own call, and
/// every other name is unknown.
pub proof fn lemma_method_names(name: Seq<char>)
    ensures
        method_spec(name) == ConnectorMethod::Health <==> (name == "health"@ || name == "ping"@),
        method_spec(name) == ConnectorMethod::Describe <==> (name == "describe"@ || name
            == "capabilities"@),
        method_spec(name) == ConnectorMethod::Manifest <==> name == "manifest"@,
        method_spec(name) == ConnectorMethod::Config <==> name == "config"@,
        method_spec(name) == ConnectorMethod::Connect <==> name == "connect"@,
        method_spec(name) == ConnectorMethod::Query <==> name == "query"@,
        method_spec(name) == ConnectorMethod::Metadata <==> name == "metadata"@,
        method_spec(name) == ConnectorMethod::Close <==> name == "close"@,
{
    reveal_strlit("health");
    reveal_strlit("ping");
    reveal_strlit("describe");
    reveal_strlit("capabilities");
    reveal_strlit("manifest");
    reveal_strlit("config");
    reveal_strlit("connect");
    reveal_strlit("query");
    reveal_strlit("metadata");
    reveal_strlit("close");
    assert("health"@.len() != "ping"@.len());
    assert("health"@.len() != "describe"@.len());
    assert("health"@.len() != "capabilities"@.len());
    assert("health"@.len() != "manifest"@.len());
    assert("health"@[0] != "config"@[0]);
    assert("health"@.len() != "connect"@.len());
    assert("health"@.len() != "query"@.len());
    assert("health"@.len() != "metadata"@.len());
    assert("health"@.len() != "close"@.len());
    assert("ping"@.len() != "describe"@.len());
    assert("ping"@.len() != "capabilities"@.len());
    assert("ping"@.len() != "manifest"@.len());
    assert("ping"@.len() != "config"@.len());
    assert("ping"@.len() != "connect"@.len());
    assert("ping"@.len() != "query"@.len());
    assert("ping"@.len() != "metadata"@.len());
    assert("ping"@.len() != "close"@.len());
    assert("describe"@.len() != "capabilities"@.len());
    assert("describe"@[0] != "manifest"@[0]);
    assert("describe"@.len() != "config"@.len());
    assert("describe"@.len() != "connect"@.len());
    assert("describe"@.len() != "query"@.len());
    assert("describe"@[0] != "metadata"@[0]);
    assert("describe"@.len() != "close"@.len());
    assert("capabilities"@.len() != "manifest"@.len());
    assert("capabilities"@.len() != "config"@.len());
    assert("capabilities"@.len() != "connect"@.len());
    assert("capabilities"@.len() != "query"@.len());
    assert("capabilities"@.len() != "metadata"@.len());
    assert("capabilities"@.len() != "close"@.len());
    assert("manifest"@.len() != "config"@.len());
    assert("manifest"@.len() != "connect"@.len());
    assert("manifest"@.len() != "query"@.len());
    assert("manifest"@[1] != "metadata"@[1]);
    assert("manifest"@.len() != "close"@.len());
    assert("config"@.len() != "connect"@.len());
    assert("config"@.len() != "query"@.len());
    assert("config"@.len() != "metadata"@.len());
    assert("config"@.len() != "close"@.len());
    assert("connect"@.len() != "query"@.len());
    assert("connect"@.len() != "metadata"@.len());
    assert("connect"@.len() != "close"@.len());
    assert("query"@.len() != "metadata"@.len());
    assert("query"@[0] != "close"@[0]);
    assert("metadata"@.len() != "close"@.len());
}

proof fn lemma_first_string_member(request: JsonModel, fields: Seq<Seq<char>>, k: int, s: Seq<char>)
    requires
        0 <= k < fields.len(),
        forall|j: int|
            0 <= j < k ==> crate::json::as_str_spec(crate::json::get_spec(request, #[trigger] fields[j])) is None,
        crate::json::get_spec(request, fields[k]) == Some(JsonModel::Str(s)),
    ensures
        first_string_member(request, fields) == Some(s),
    decreases k,
{
    if k > 0 {
        assert(crate::json::as_str_spec(crate::json::get_spec(request, fields[0])) is None);
        let rest = fields.drop_first();
        assert forall|j: int| 0 <= j < k - 1 implies crate::json::as_str_spec(
            crate::json::get_spec(request, #[trigger] rest[j]),
        ) is None by {
            assert(rest[j] == fields[j + 1]);
        }
        lemma_first_string_member(request, rest, k - 1, s);
    }
}

/// Law of statements: the statement of a query request is, exactly as
/// written, the first of its `aql`, `query`, `sql` and `statement` members
/// that is a string.
pub proof fn lemma_statement_member(request: JsonModel, key: Seq<char>, s: Seq<char>)
    requires
        key == "aql"@ || key == "query"@ || key == "sql"@ || key == "statement"@,
        key != "aql"@ ==> crate::json::as_str_spec(crate::json::get_spec(request, "aql"@)) is None,
        key == "sql"@ || key == "statement"@ ==> crate::json::as_str_spec(
            crate::json::get_spec(request, "query"@),
        ) is None,
        key == "statement"@ ==> crate::json::as_str_spec(crate::json::get_spec(request, "sql"@)) is None,
        crate::json::get_spec(request, key) == Some(JsonModel::Str(s)),
    ensures
        statement_spec(request) == Some(s),
{
    let fields = seq!["aql"@, "query"@, "sql"@, "statement"@];
    let k: int = if key == "aql"@ {
        0
    } else if key == "query"@ {
        1
    } else if key == "sql"@ {
        2
    } else {
        3
    };
    lemma_first_string_member(request, fields, k, s);
}

/// Law of statements: a request none of whose `aql`, `query`, `sql` and
/// `statement` members is a string has no statement.
pub proof fn lemma_no_statement(request: JsonModel)
    requires
        crate::json::as_str_spec(crate::json::get_spec(request, "aql"@)) is None,
        crate::json::as_str_spec(crate::json::get_spec(request, "query"@)) is None,
        crate::json::as_str_spec(crate::json::get_spec(request, "sql"@)) is None,
        crate::json::as_str_spec(crate::json::get_spec(request, "statement"@)) is None,
    ensures
        statement_spec(request) is None,
{
    let fields = seq!["aql"@, "query"@, "sql"@, "statement"@];
    let f1 = fields.drop_first();
    let f2 = f1.drop_first();
    let f3 = f2.drop_first();
    let f4 = f3.drop_first();
    assert(f4.len() == 0);
    assert(first_string_member(request, f4) is None);
    assert(f3[0] == "statement"@);
    assert(first_string_member(request, f3) is None);
    assert(f2[0] == "sql"@);
    assert(first_string_member(request, f2) is None);
    assert(f1[0] == "query"@);
    assert(first_string_member(request, f1) is None);
}

} // verus!
