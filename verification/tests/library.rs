use arangodb_connector::config::{bool_option, build_url, option_string, request_containers, ArangoConfig, AuthScheme};
use arangodb_connector::connection::ArangoConnection;
use arangodb_connector::json::{key_before, objects_ordered, Json, JsonNumber};
use arangodb_connector::protocol::{
    close_reply, close_step, connect_reply, connect_step, describe_reply, find_connection,
    health_reply, metadata_finish, metadata_reply, missing_connection_message, query_finish,
    query_reply, query_statement, statement_fields, statement_of, unknown_method_message,
    ConnectorMethod, ErrorCode, Exchange,
};
use std::sync::Arc;
use arangodb_connector::registry::ConnectionRegistry;
use arangodb_connector::results::{
    cursor_output, cursor_request_body, metadata_from_collections, result_items_ordered,
    rows_from_result, version_label,
};
use arangodb_connector::text::{replace, trim, trim_end_char, trim_start_char};
use arangodb_connector::{collect_url_auth, push_sensitive, url_component};

fn obj(members: Vec<(&str, Json)>) -> Json {
    Json::Object(members.into_iter().map(|(k, v)| (k.to_string(), v)).collect())
}

fn s(text: &str) -> Json {
    Json::Str(text.to_string())
}

fn n(value: u64) -> Json {
    Json::Number(JsonNumber::PosInt(value))
}

fn config(base_url: &str, secrets: &[&str]) -> ArangoConfig {
    ArangoConfig {
        base_url: base_url.to_string(),
        database: "_system".to_string(),
        username: None,
        password: None,
        bearer_token: None,
        redaction_values: secrets.iter().map(|v| v.to_string()).collect(),
    }
}

// ----- text -----

#[test]
fn trim_removes_unicode_white_space() {
    assert_eq!(trim("\u{3000}\t a b \n\u{a0}"), "a b");
    assert_eq!(trim("   "), "");
    assert_eq!(trim("x"), "x");
}

#[test]
fn trims_slashes_at_one_end() {
    assert_eq!(trim_start_char("//_api/cursor", '/'), "_api/cursor");
    assert_eq!(trim_end_char("http://h:1///", '/'), "http://h:1");
    assert_eq!(trim_end_char("///", '/'), "");
}

#[test]
fn replace_matches_str_replace() {
    for (text, pat, rep) in [
        ("aaaa", "aa", "b"),
        ("abcabc", "bc", "****"),
        ("abc", "", "X"),
        ("", "", "X"),
        ("héllo wörld", "ö", "o"),
        ("no match", "zz", "y"),
    ] {
        assert_eq!(replace(text, pat, rep), text.replace(pat, rep));
    }
}

// ----- url_component -----

#[test]
fn url_component_keeps_unreserved_characters() {
    assert_eq!(url_component("Az09-_.~"), "Az09-_.~");
}

#[test]
fn url_component_encodes_other_bytes() {
    assert_eq!(url_component("my db/é"), "my%20db%2F%C3%A9");
    assert_eq!(url_component("a:b@c?d#e"), "a%3Ab%40c%3Fd%23e");
    assert_eq!(url_component(""), "");
}

// ----- secrets -----

#[test]
fn push_sensitive_trims_skips_blank_and_duplicates() {
    let mut values = Vec::new();
    push_sensitive(&mut values, Some("  pw "));
    push_sensitive(&mut values, Some("pw"));
    push_sensitive(&mut values, Some("   "));
    push_sensitive(&mut values, None);
    push_sensitive(&mut values, Some("token"));
    assert_eq!(values, vec!["pw", "token"]);
}

#[test]
fn collect_url_auth_takes_user_info_pieces() {
    let mut values = vec!["pw".to_string()];
    collect_url_auth("http://root:pw@db.local:8529/_db/x", &mut values);
    assert_eq!(values, vec!["pw", "root"]);
}

#[test]
fn collect_url_auth_without_at_sign_takes_host_and_port() {
    let mut values = Vec::new();
    collect_url_auth("http://db.local:8529", &mut values);
    assert_eq!(values, vec!["db.local", "8529"]);
}

#[test]
fn collect_url_auth_needs_scheme_and_colon() {
    let mut values = Vec::new();
    collect_url_auth("db.local:8529", &mut values);
    collect_url_auth("http://db.local/x:y", &mut values);
    assert!(values.is_empty());
}

#[test]
fn redact_masks_url_then_secrets() {
    let c = config("http://db:8529", &["secret", "tok"]);
    assert_eq!(
        c.redact("GET http://db:8529/_api failed for secret and tok secret"),
        "GET <arangodb-url>/_api failed for **** and **** ****"
    );
}

#[test]
fn redact_hides_secret_inside_url_placeholder_text() {
    let c = config("http://x", &["url"]);
    assert_eq!(c.redact("at http://x"), "at <arangodb-****>");
}

#[test]
fn redact_skips_empty_secrets() {
    let c = config("http://x", &["", "a"]);
    assert_eq!(c.redact("bab"), "b****b");
}

// ----- settings -----

#[test]
fn option_string_renders_scalars_and_skips_blanks() {
    let request = obj(vec![
        ("port", n(8530)),
        ("tls", Json::Bool(true)),
        ("host", s("   ")),
        ("options", obj(vec![("host", s(" h "))])),
    ]);
    assert_eq!(option_string(&request, &["port"]), Some("8530".to_string()));
    assert_eq!(option_string(&request, &["tls"]), Some("true".to_string()));
    assert_eq!(option_string(&request, &["host"]), Some("h".to_string()));
    assert_eq!(option_string(&request, &["missing"]), None);
}

#[test]
fn option_string_prefers_earlier_container_over_earlier_field() {
    let request = obj(vec![
        ("url", s("top")),
        ("profile", obj(vec![("connectionString", s("nested"))])),
    ]);
    assert_eq!(option_string(&request, &["connectionString", "url"]), Some("top".to_string()));
}

#[test]
fn request_containers_lists_in_order() {
    let request = obj(vec![
        ("secrets", obj(vec![("k", n(4))])),
        ("profile", obj(vec![("auth", obj(vec![("k", n(7))])), ("k", n(2))])),
        ("options", obj(vec![("k", n(3))])),
    ]);
    let found: Vec<Option<&Json>> = request_containers(&request).iter().map(|c| c.get("k")).collect();
    assert_eq!(found, vec![None, Some(&n(2)), Some(&n(3)), Some(&n(4)), Some(&n(7))]);
}

#[test]
fn bool_option_reads_only_booleans() {
    let request = obj(vec![("tls", s("true")), ("profile", obj(vec![("ssl", Json::Bool(true))]))]);
    assert_eq!(bool_option(&request, &["tls", "ssl"]), Some(true));
    assert_eq!(bool_option(&obj(vec![]), &["tls"]), None);
}

#[test]
fn build_url_defaults() {
    assert_eq!(build_url(&obj(vec![])), "http://127.0.0.1:8529");
    let request = obj(vec![("auth", obj(vec![("ssl", Json::Bool(true))])), ("endpoint", s("e"))]);
    assert_eq!(build_url(&request), "https://e:8529");
}

#[test]
fn from_request_reads_connection_string_and_secrets() {
    let request = obj(vec![
        ("connectionString", s(" https://u:p@h:1/ ")),
        ("db", s("sales")),
        ("secrets", obj(vec![("password", s("p")), ("jwt", s("t0k"))])),
        ("username", s("u")),
    ]);
    let c = ArangoConfig::from_request(&request).unwrap();
    assert_eq!(c.base_url, "https://u:p@h:1");
    assert_eq!(c.database, "sales");
    assert_eq!(c.username.as_deref(), Some("u"));
    assert_eq!(c.password.as_deref(), Some("p"));
    assert_eq!(c.bearer_token.as_deref(), Some("t0k"));
    assert_eq!(c.redaction_values, vec!["p", "t0k", "u"]);
}

#[test]
fn from_request_defaults_database() {
    let c = ArangoConfig::from_request(&obj(vec![])).unwrap();
    assert_eq!(c.database, "_system");
    assert_eq!(c.base_url, "http://127.0.0.1:8529");
    assert_eq!(c.redaction_values, vec!["127.0.0.1", "8529"]);
}

#[test]
fn auth_scheme_prefers_token() {
    let mut c = config("http://h", &[]);
    assert!(matches!(c.auth_scheme(), AuthScheme::Anonymous));
    c.username = Some("u".to_string());
    match c.auth_scheme() {
        AuthScheme::Basic(user, password) => {
            assert_eq!(user, "u");
            assert_eq!(password, None);
        }
        _ => panic!("expected basic authentication"),
    }
    c.bearer_token = Some("t".to_string());
    match c.auth_scheme() {
        AuthScheme::Bearer(token) => assert_eq!(token, "t"),
        _ => panic!("expected a bearer token"),
    }
}

#[test]
fn db_url_encodes_database_and_trims_path() {
    let mut c = config("http://h:1", &[]);
    c.database = "my db".to_string();
    let connection = ArangoConnection { client: reqwest::Client::new(), config: c };
    assert_eq!(connection.db_url("//_api/cursor"), "http://h:1/_db/my%20db/_api/cursor");
    assert_eq!(connection.server_url("/_api/version"), "http://h:1/_api/version");
}

#[test]
fn prepared_requests_carry_url_method_and_authorization() {
    let mut c = config("http://h:1", &[]);
    c.username = Some("u".to_string());
    c.password = Some("p".to_string());
    let connection = ArangoConnection { client: reqwest::Client::new(), config: c };
    let request = connection.post_db("/_api/cursor").into_builder().build().unwrap();
    assert_eq!(request.method(), reqwest::Method::POST);
    assert_eq!(request.url().as_str(), "http://h:1/_db/_system/_api/cursor");
    assert_eq!(request.headers().get("authorization").unwrap(), "Basic dTpw");
    let request = connection.get_server("/_api/version").into_builder().build().unwrap();
    assert_eq!(request.method(), reqwest::Method::GET);
    assert_eq!(request.url().as_str(), "http://h:1/_api/version");

    let mut c = config("http://h:1", &[]);
    c.bearer_token = Some("t".to_string());
    c.username = Some("u".to_string());
    let connection = ArangoConnection { client: reqwest::Client::new(), config: c };
    let request = connection.get_db("x").into_builder().build().unwrap();
    assert_eq!(request.method(), reqwest::Method::GET);
    assert_eq!(request.headers().get_all("authorization").iter().count(), 1);
    assert_eq!(request.headers().get("authorization").unwrap(), "Bearer t");

    let connection = ArangoConnection { client: reqwest::Client::new(), config: config("http://h:1", &[]) };
    let request = connection.get_db("x").into_builder().build().unwrap();
    assert!(request.headers().get("authorization").is_none());
}

// ----- numbers -----

#[test]
fn numbers_print_like_json() {
    assert_eq!(JsonNumber::PosInt(0).to_text(), "0");
    assert_eq!(JsonNumber::PosInt(12345).to_text(), "12345");
    assert_eq!(JsonNumber::PosInt(u64::MAX).to_text(), u64::MAX.to_string());
    assert_eq!(JsonNumber::NegInt(-5).to_text(), "-5");
    assert_eq!(JsonNumber::NegInt(i64::MIN).to_text(), i64::MIN.to_string());
    assert_eq!(JsonNumber::Float("1.5".to_string()).to_text(), "1.5");
}

#[test]
fn as_i64_takes_only_fitting_integers() {
    assert_eq!(n(3).as_i64(), Some(3));
    assert_eq!(n(u64::MAX).as_i64(), None);
    assert_eq!(Json::Number(JsonNumber::NegInt(-2)).as_i64(), Some(-2));
    assert_eq!(s("3").as_i64(), None);
}

#[test]
fn duplicate_copies_nested_values() {
    let value = obj(vec![("a", Json::Array(vec![n(1), Json::Null, obj(vec![("b", s("x"))])]))]);
    assert_eq!(value.duplicate(), value);
}

// ----- results -----

#[test]
fn rows_of_scalars_use_value_column() {
    let (columns, rows, truncated) = rows_from_result(vec![n(1), s("x")], true);
    assert_eq!(columns, vec!["value"]);
    assert_eq!(rows, vec![vec![n(1)], vec![s("x")]]);
    assert!(truncated);
}

#[test]
fn rows_of_nothing() {
    let (columns, rows, _) = rows_from_result(vec![], false);
    assert!(columns.is_empty());
    assert!(rows.is_empty());
}

#[test]
fn rows_mix_objects_and_scalars() {
    let (columns, rows, _) = rows_from_result(vec![obj(vec![("a", n(1))]), n(2), obj(vec![])], false);
    assert_eq!(columns, vec!["a"]);
    assert_eq!(rows, vec![vec![n(1)], vec![n(2)], vec![Json::Null]]);
}

#[test]
fn cursor_body_and_output() {
    assert_eq!(
        cursor_request_body("FOR d IN c RETURN d", 100),
        obj(vec![("batchSize", n(100)), ("count", Json::Bool(true)), ("query", s("FOR d IN c RETURN d"))])
    );
    let reply = obj(vec![
        ("hasMore", Json::Bool(true)),
        ("result", Json::Array(vec![obj(vec![("k", n(1))])])),
    ]);
    let (columns, rows, truncated) = cursor_output(&reply);
    assert_eq!(columns, vec!["k"]);
    assert_eq!(rows, vec![vec![n(1)]]);
    assert!(truncated);
    let (columns, rows, truncated) = cursor_output(&obj(vec![("result", s("no"))]));
    assert!(columns.is_empty() && rows.is_empty() && !truncated);
}

#[test]
fn version_labels() {
    assert_eq!(version_label(&obj(vec![("version", s("3.11.4"))])), "ArangoDB 3.11.4");
    assert_eq!(version_label(&obj(vec![("version", n(3))])), "ArangoDB");
    assert_eq!(version_label(&Json::Null), "ArangoDB");
}

fn column(name: &str, data_type: &str, nullable: bool, ordinal: u64) -> Json {
    obj(vec![
        ("dataType", s(data_type)),
        ("name", s(name)),
        ("nullable", Json::Bool(nullable)),
        ("ordinal", n(ordinal)),
    ])
}

#[test]
fn metadata_describes_named_collections() {
    let edges = obj(vec![("name", s("knows")), ("type", n(3))]);
    let listing = obj(vec![(
        "result",
        Json::Array(vec![edges.duplicate(), obj(vec![("type", n(2))]), obj(vec![("name", s("people"))])]),
    )]);
    let metadata = metadata_from_collections("app", &listing);
    let describe = |details: Json, name: &str, kind: &str| {
        obj(vec![
            (
                "columns",
                Json::Array(vec![
                    column("_key", "string", false, 1),
                    column("_id", "string", false, 2),
                    column("_rev", "string", false, 3),
                    column("document", "json", true, 4),
                ]),
            ),
            ("details", details),
            ("foreignKeys", Json::Array(vec![])),
            ("indexes", Json::Array(vec![])),
            ("kind", s(kind)),
            ("name", s(name)),
            ("primaryKey", Json::Array(vec![obj(vec![("keyType", s("primary")), ("name", s("_key"))])])),
            ("schema", s("app")),
        ])
    };
    let expected = obj(vec![(
        "schemas",
        Json::Array(vec![obj(vec![
            ("name", s("app")),
            (
                "objects",
                Json::Array(vec![
                    describe(edges, "knows", "edgeCollection"),
                    describe(obj(vec![("name", s("people"))]), "people", "documentCollection"),
                ]),
            ),
        ])]),
    )]);
    assert_eq!(metadata, expected);
}

// ----- protocol -----

#[test]
fn method_names() {
    assert_eq!(ConnectorMethod::from_name("ping"), ConnectorMethod::Health);
    assert_eq!(ConnectorMethod::from_name("capabilities"), ConnectorMethod::Describe);
    assert_eq!(ConnectorMethod::from_name("query"), ConnectorMethod::Query);
    assert_eq!(ConnectorMethod::from_name("close"), ConnectorMethod::Close);
    assert_eq!(ConnectorMethod::from_name("Query"), ConnectorMethod::Unknown);
    assert_eq!(unknown_method_message("drop"), "unknown connector method: drop");
    assert_eq!(missing_connection_message("c1"), "no open connection: c1");
    assert_eq!(statement_fields(), ["aql", "query", "sql", "statement"]);
}

#[test]
fn error_codes() {
    assert_eq!(ErrorCode::InvalidRequest.code(), "connector.invalidRequest");
    assert_eq!(ErrorCode::ConnectFailed.code(), "connector.connectFailed");
    assert_eq!(ErrorCode::StatePoisoned.code(), "connector.statePoisoned");
    assert_eq!(ErrorCode::QueryFailed.code(), "connector.queryFailed");
    assert_eq!(ErrorCode::MetadataFailed.code(), "connector.metadataFailed");
    assert_eq!(ErrorCode::ConnectionNotFound.code(), "connector.connectionNotFound");
    assert_eq!(ErrorCode::UnknownMethod.code(), "connector.unknownMethod");
}

#[test]
fn exchange_messages() {
    assert_eq!(Exchange::Server.request_failed("timeout"), "ArangoDB request failed: timeout");
    assert_eq!(Exchange::Cursor.read_failed("eof"), "ArangoDB cursor response read failed: eof");
    assert_eq!(Exchange::Server.status_failure(204, "204 No Content", ""), None);
    assert_eq!(
        Exchange::Cursor.status_failure(404, "404 Not Found", "{}"),
        Some("ArangoDB cursor returned HTTP 404 Not Found: {}".to_string())
    );
    assert_eq!(
        Exchange::Server.status_failure(199, "199 <unknown status code>", "x"),
        Some("ArangoDB returned HTTP 199 <unknown status code>: x".to_string())
    );
    assert_eq!(Exchange::Server.parse_failed("bad", "{"), "ArangoDB JSON parse failed: bad: {");
    assert_eq!(Exchange::Cursor.parse_failed("bad", "{"), "ArangoDB cursor JSON failed: bad: {");
}

#[test]
fn reply_documents() {
    let c = config("http://h:1", &[]);
    assert_eq!(
        connect_reply("c1", &c, "ArangoDB 3.11"),
        obj(vec![
            ("connectionId", s("c1")),
            ("database", s("_system")),
            ("driverLinked", Json::Bool(true)),
            ("endpoint", s("http://h:1")),
            ("engine", s("arangodb")),
            ("serverVersion", s("ArangoDB 3.11")),
        ])
    );
    let output = (vec!["a".to_string()], vec![vec![n(1)], vec![Json::Null]], true);
    assert_eq!(
        query_reply("c1", &output),
        obj(vec![
            ("columns", Json::Array(vec![s("a")])),
            ("connectionId", s("c1")),
            ("rows", Json::Array(vec![Json::Array(vec![n(1)]), Json::Array(vec![Json::Null])])),
            ("truncated", Json::Bool(true)),
        ])
    );
    assert_eq!(
        metadata_reply("c1", Json::Null),
        obj(vec![("connectionId", s("c1")), ("metadata", Json::Null)])
    );
    assert_eq!(close_reply("c1", false), obj(vec![("closed", Json::Bool(false)), ("connectionId", s("c1"))]));
}

// ----- registry -----

#[test]
fn registry_reads_back_what_was_written() {
    let mut registry: ConnectionRegistry<u32> = ConnectionRegistry::new();
    assert_eq!(registry.get("a"), None);
    registry.insert("a".to_string(), 1);
    registry.insert("b".to_string(), 2);
    registry.insert("a".to_string(), 3);
    assert_eq!(registry.get("a"), Some(&3));
    assert_eq!(registry.get("b"), Some(&2));
    assert_eq!(registry.remove("a"), Some(3));
    assert_eq!(registry.get("a"), None);
    assert_eq!(registry.remove("a"), None);
    assert_eq!(registry.get("b"), Some(&2));
}

#[test]
fn health_and_describe_replies() {
    assert_eq!(
        health_reply(),
        obj(vec![
            ("abiVersion", s("irodori.connector.native.v1")),
            ("driverLinked", Json::Bool(true)),
            ("engine", s("arangodb")),
        ])
    );
    assert_eq!(
        describe_reply(obj(vec![("id", s("irodori.arangodb"))]), Json::Null),
        obj(vec![
            ("abiVersion", s("irodori.connector.native.v1")),
            ("config", Json::Null),
            ("driverLinked", Json::Bool(true)),
            ("engine", s("arangodb")),
            ("manifest", obj(vec![("id", s("irodori.arangodb"))])),
        ])
    );
}

#[test]
fn statement_is_first_string_member() {
    let request = obj(vec![("aql", n(1)), ("sql", s("RETURN 2")), ("statement", s("RETURN 3"))]);
    assert_eq!(statement_of(&request), Some("RETURN 2".to_string()));
    assert_eq!(statement_of(&obj(vec![("query", s(""))])), Some(String::new()));
    assert_eq!(statement_of(&obj(vec![("text", s("RETURN 1"))])), None);
}

#[test]
fn connect_step_registers_only_on_success() {
    let mut registry = ConnectionRegistry::new();
    let connection = |secret: &str| {
        Arc::new(ArangoConnection { client: reqwest::Client::new(), config: config("http://h:1", &[secret]) })
    };
    let failed = connect_step(&mut registry, "c1", connection("pw"), Err("bad pw at http://h:1".to_string()));
    assert_eq!(failed.unwrap_err(), (ErrorCode::ConnectFailed, "bad **** at <arangodb-url>".to_string()));
    assert!(registry.get("c1").is_none());
    let reply = connect_step(&mut registry, "c1", connection("pw"), Ok("ArangoDB 3.12".to_string())).unwrap();
    assert_eq!(reply, connect_reply("c1", &config("http://h:1", &["pw"]), "ArangoDB 3.12"));
    assert_eq!(registry.get("c1").unwrap().config.base_url, "http://h:1");
}

#[test]
fn key_order_is_rust_string_order() {
    for (a, b) in [("a", "b"), ("", "a"), ("ab", "abc"), ("B", "a"), ("é", "z"), ("z", "é"), ("a", "a")] {
        assert_eq!(key_before(a, b), a < b, "{a:?} < {b:?}");
    }
}

#[test]
fn objects_in_key_order_are_recognised() {
    assert!(objects_ordered(&vec![obj(vec![("a", n(1)), ("b", n(2))]), n(3), obj(vec![])]));
    assert!(!objects_ordered(&vec![obj(vec![("b", n(1)), ("a", n(2))])]));
    assert!(!objects_ordered(&vec![obj(vec![("a", n(1)), ("a", n(2))])]));
    assert!(result_items_ordered(&obj(vec![("result", Json::Array(vec![obj(vec![("k", n(1))])]))])));
    assert!(!result_items_ordered(&obj(vec![(
        "result",
        Json::Array(vec![obj(vec![("k", n(1)), ("j", n(2))])]),
    )])));
    assert!(result_items_ordered(&Json::Null));
}

#[test]
fn query_and_metadata_steps() {
    assert_eq!(query_statement(&obj(vec![("query", s("RETURN 1"))])), Ok("RETURN 1".to_string()));
    assert_eq!(
        query_statement(&obj(vec![])),
        Err((
            ErrorCode::InvalidRequest,
            "query requires a string aql, query, sql, or statement field.".to_string()
        ))
    );
    let c = config("http://h:1", &["pw"]);
    let output = || (vec!["a".to_string()], vec![vec![n(1)]], false);
    assert_eq!(query_finish("c1", &c, Ok(output())).unwrap(), query_reply("c1", &output()));
    assert_eq!(
        query_finish("c1", &c, Err("pw rejected by http://h:1".to_string())),
        Err((ErrorCode::QueryFailed, "**** rejected by <arangodb-url>".to_string()))
    );
    assert_eq!(metadata_finish("c1", &c, Ok(Json::Null)).unwrap(), metadata_reply("c1", Json::Null));
    assert_eq!(
        metadata_finish("c1", &c, Err("pw".to_string())),
        Err((ErrorCode::MetadataFailed, "****".to_string()))
    );
}

#[test]
fn connection_lookup_and_close_steps() {
    let mut registry: ConnectionRegistry<u32> = ConnectionRegistry::new();
    assert_eq!(
        find_connection(&registry, "c1"),
        Err((ErrorCode::ConnectionNotFound, "no open connection: c1".to_string()))
    );
    registry.insert("c1".to_string(), 7);
    assert_eq!(find_connection(&registry, "c1"), Ok(&7));
    assert_eq!(close_step(&mut registry, "c1"), close_reply("c1", true));
    assert_eq!(close_step(&mut registry, "c1"), close_reply("c1", false));
    assert!(registry.get("c1").is_none());
}
