use arangodb_connector::config::ArangoConfig;
use arangodb_connector::json::{Json, JsonNumber};
use arangodb_connector::results::rows_from_result;

fn obj(members: Vec<(&str, Json)>) -> Json {
    Json::Object(members.into_iter().map(|(k, v)| (k.to_string(), v)).collect())
}

fn s(text: &str) -> Json {
    Json::Str(text.to_string())
}

#[test]
fn rows_from_objects() {
    let (columns, rows, truncated) = rows_from_result(
        vec![
            obj(vec![("a", Json::Number(JsonNumber::PosInt(1))), ("b", s("x"))]),
            obj(vec![("b", s("y")), ("c", Json::Bool(true))]),
        ],
        false,
    );
    assert_eq!(columns, vec!["a", "b", "c"]);
    assert_eq!(rows[0], vec![Json::Number(JsonNumber::PosInt(1)), s("x"), Json::Null]);
    assert_eq!(rows[1], vec![Json::Null, s("y"), Json::Bool(true)]);
    assert!(!truncated);
}

#[test]
fn builds_config_from_profile() {
    let config = ArangoConfig::from_request(&obj(vec![(
        "profile",
        obj(vec![
            ("host", s("arango.local")),
            ("port", Json::Number(JsonNumber::PosInt(8530))),
            ("database", s("app")),
            ("user", s("root")),
            ("password", s("secret")),
        ]),
    )]))
    .unwrap();
    assert_eq!(config.base_url, "http://arango.local:8530");
    assert_eq!(config.database, "app");
}
