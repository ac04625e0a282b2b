use jqbe::executor::execute;
use jqbe::json::JsonValue;
use jqbe::number::JsonNumber;
use jqbe::parser::{parse, ParseError};
use jqbe::server::{
    error_reply, is_query_method, method_not_allowed_reply, outcome_reply, parse_error_reply,
    query_reply, read_query, Lookup,
};
use jqbe::store::{cache_key, document_file, fetch, load_document, DocumentCache, Fetch};

fn s(text: &str) -> JsonValue {
    JsonValue::String(text.to_string())
}

fn n(value: u64) -> JsonValue {
    JsonValue::Number(JsonNumber::PosInt(value))
}

fn obj(members: Vec<(&str, JsonValue)>) -> JsonValue {
    JsonValue::Object(members.into_iter().map(|(k, v)| (k.to_string(), v)).collect())
}

fn text_at<'a>(v: &'a JsonValue, path: &[&str]) -> Option<&'a str> {
    let mut cur = v;
    for k in path {
        cur = cur.get(k)?;
    }
    cur.as_str()
}

#[test]
fn error_replies_have_code_message_detail() {
    let r = error_reply(404, "resource_not_found", "No document found at this path", Some("/nope"));
    assert_eq!(r.status, 404);
    assert_eq!(text_at(&r.body, &["error", "code"]), Some("resource_not_found"));
    assert_eq!(text_at(&r.body, &["error", "message"]), Some("No document found at this path"));
    assert_eq!(text_at(&r.body, &["error", "detail"]), Some("/nope"));
    let r = method_not_allowed_reply();
    assert_eq!(r.status, 405);
    assert!(r.body.get("error").unwrap().get("detail").is_none());
}

#[test]
fn parse_error_statuses() {
    assert_eq!(parse_error_reply(&ParseError::NotAnObject).status, 400);
    let r = parse_error_reply(&ParseError::InvalidCollectionOperator { key: "#".to_string(), reason: "r".to_string() });
    assert_eq!(r.status, 400);
    assert_eq!(text_at(&r.body, &["error", "code"]), Some("invalid_operator"));
    assert_eq!(text_at(&r.body, &["error", "detail"]), Some("#"));
}

#[test]
fn query_replies() {
    let q = parse(&obj(vec![("status", s("active")), ("name", s("*"))])).unwrap();
    let r = query_reply(&q, "/users", Lookup::Missing);
    assert_eq!(r.status, 404);
    assert_eq!(text_at(&r.body, &["error", "detail"]), Some("/users"));
    let r = query_reply(&q, "/users", Lookup::Failed("disk".to_string()));
    assert_eq!(r.status, 500);
    assert_eq!(text_at(&r.body, &["error", "message"]), Some("disk"));
    let r = query_reply(&q, "/users", Lookup::Found(obj(vec![("status", s("inactive")), ("name", s("Carol"))])));
    assert_eq!(r.status, 200);
    assert!(matches!(&r.body, JsonValue::Object(m) if m.is_empty()));
    let r = query_reply(&q, "/users", Lookup::Found(obj(vec![("status", s("active")), ("name", s("Alice"))])));
    assert_eq!(r.status, 200);
    assert_eq!(text_at(&r.body, &["name"]), Some("Alice"));
    let r = query_reply(&q, "/users", Lookup::Found(obj(vec![("name", s("Alice"))])));
    assert_eq!(r.status, 422);
    assert_eq!(text_at(&r.body, &["error", "code"]), Some("invalid_field"));
    assert_eq!(text_at(&r.body, &["error", "detail"]), Some("status"));
    let bad = parse(&obj(vec![("total", obj(vec![(">", n(1))]))])).unwrap();
    let r = outcome_reply(execute(&bad, &obj(vec![("total", s("x"))])));
    assert_eq!(r.status, 422);
    assert_eq!(text_at(&r.body, &["error", "code"]), Some("invalid_value"));
}

#[test]
fn only_query_is_served() {
    assert!(is_query_method("QUERY"));
    assert!(!is_query_method("GET"));
    assert!(!is_query_method("query"));
}

#[test]
fn cache_keys_and_files() {
    assert_eq!(cache_key("/users"), "users");
    assert_eq!(cache_key("//users/orders"), "users/orders");
    assert_eq!(cache_key("users"), "users");
    assert_eq!(document_file("users"), Some(vec!["users.json".to_string()]));
    assert_eq!(document_file("users/orders"), Some(vec!["users".to_string(), "orders.json".to_string()]));
    assert_eq!(document_file("products/categories"), Some(vec!["products".to_string(), "categories.json".to_string()]));
    assert_eq!(document_file("report.q1"), Some(vec!["report.q1.json".to_string()]));
}

#[test]
fn paths_outside_the_data_directory_are_refused() {
    assert_eq!(document_file(&cache_key("/../secret")), None);
    assert_eq!(document_file("users/../../secret"), None);
    assert_eq!(document_file(&cache_key("/")), None);
    assert_eq!(document_file("./."), None);
}

#[test]
fn empty_and_dot_segments_are_skipped() {
    assert_eq!(document_file("./users"), Some(vec!["users.json".to_string()]));
    assert_eq!(document_file("users//orders"), Some(vec!["users".to_string(), "orders.json".to_string()]));
    assert_eq!(document_file("users/"), Some(vec!["users.json".to_string()]));
    assert_eq!(document_file("users/./orders/."), Some(vec!["users".to_string(), "orders.json".to_string()]));
    assert_eq!(document_file("..users"), Some(vec!["..users.json".to_string()]));
}

#[test]
fn loading_reads_json_text() {
    let mut cache = DocumentCache::new();
    let doc = load_document(&mut cache, "users", "{\"id\": 7, \"tags\": [\"a\", -2, 1.5, null, true]}").unwrap();
    assert!(matches!(doc.get("id"), Some(JsonValue::Number(JsonNumber::PosInt(7)))));
    let tags = doc.get("tags").unwrap().as_array().unwrap();
    assert!(matches!(tags[1], JsonValue::Number(JsonNumber::NegInt(-2))));
    assert!(matches!(tags[2], JsonValue::Number(JsonNumber::Float(b)) if b == 1.5f64.to_bits()));
    assert!(matches!(tags[3], JsonValue::Null));
    assert!(matches!(tags[4], JsonValue::Bool(true)));
    assert!(matches!(cache.get("users"), Some(JsonValue::Object(_))));
    assert!(load_document(&mut cache, "orders", "{ not json").is_err());
    assert!(cache.get("orders").is_none());
}

#[test]
fn request_bodies_are_read_before_any_lookup() {
    for body in ["{", "[1,2]", "\"text\"", ""] {
        let r = read_query(body).err().unwrap();
        assert_eq!(r.status, 400);
        assert_eq!(text_at(&r.body, &["error", "code"]), Some("malformed_document"));
        assert!(r.body.get("error").unwrap().get("detail").is_none());
    }
    let r = read_query("{\"name\": {\"~\": \"A*\"}}").err().unwrap();
    assert_eq!(r.status, 400);
    assert_eq!(text_at(&r.body, &["error", "code"]), Some("invalid_operator"));
    assert_eq!(text_at(&r.body, &["error", "detail"]), Some("~"));
    let q = read_query("{\"name\": \"*\"}").ok().unwrap();
    assert_eq!(q.fields.len(), 1);
}

#[test]
fn cache_reads_what_was_written() {
    let mut cache = DocumentCache::with_document("users", n(1));
    assert!(matches!(cache.get("users"), Some(JsonValue::Number(JsonNumber::PosInt(1)))));
    assert!(cache.get("orders").is_none());
    cache.insert("orders", n(2));
    cache.insert("users", n(3));
    assert!(matches!(cache.get("orders"), Some(JsonValue::Number(JsonNumber::PosInt(2)))));
    assert!(matches!(cache.get("users"), Some(JsonValue::Number(JsonNumber::PosInt(3)))));
    assert!(DocumentCache::new().get("users").is_none());
}

#[test]
fn loaded_documents_are_served_from_the_cache() {
    let mut cache = DocumentCache::new();
    assert!(matches!(fetch(&cache, "/users/orders"), Fetch::Read(f) if f == vec!["users".to_string(), "orders.json".to_string()]));
    assert!(matches!(fetch(&cache, "/../secret"), Fetch::Missing));
    load_document(&mut cache, &cache_key("/users/orders"), "[1]").unwrap();
    assert!(matches!(fetch(&cache, "/users/orders"), Fetch::Cached(JsonValue::Array(v)) if v.len() == 1));
    assert!(matches!(fetch(&cache, "users/orders"), Fetch::Cached(_)));
}
