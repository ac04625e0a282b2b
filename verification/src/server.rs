//! What the server answers: the status and JSON body of each reply.
//!
//! Errors are answered with `{ "error": { "code": ..., "message": ...,
//! "detail": ... } }`, the detail being present only where it applies. A
//! query whose document does not match is answered with `{}`.
use crate::executor::{
    execute, exec_outcome, spec_execute, ExecErrorModel, ExecuteError,
};
use crate::json::{JsonModel, JsonValue};
use crate::parser::{parse_str, spec_parse_text, ParseError, ParseErrorModel, QueryModel, QueryNode};
use crate::text::str_eq;
use vstd::prelude::*;
use vstd::string::*;

verus! {

/// A reply: an HTTP status code and a JSON body.
#[derive(Debug)]
pub struct Reply {
    pub status: u16,
    pub body: JsonValue,
}

/// The model of a reply.
pub struct ReplyModel {
    pub status: u16,
    pub body: JsonModel,
}

impl View for Reply {
    type V = ReplyModel;

    open spec fn view(&self) -> ReplyModel {
        ReplyModel { status: self.status, body: self.body@ }
    }
}

/// What the store gave for the requested path.
#[derive(Debug)]
pub enum Lookup {
    /// The document at the path.
    Found(JsonValue),
    /// No document exists at the path.
    Missing,
    /// The store failed; the message says why.
    Failed(String),
}

/// The model of a store lookup.
pub enum LookupModel {
    Found(JsonModel),
    Missing,
    Failed(Seq<char>),
}

impl View for Lookup {
    type V = LookupModel;

    open spec fn view(&self) -> LookupModel {
        match self {
            Lookup::Found(d) => LookupModel::Found(d@),
            Lookup::Missing => LookupModel::Missing,
            Lookup::Failed(m) => LookupModel::Failed(m@),
        }
    }
}

/// The body of an error reply.
pub open spec fn error_body(code: Seq<char>, message: Seq<char>, detail: Option<Seq<char>>) -> JsonModel {
    let base = seq![("code"@, JsonModel::Str(code)), ("message"@, JsonModel::Str(message))];
    let fields = match detail {
        Some(d) => base.push(("detail"@, JsonModel::Str(d))),
        None => base,
    };
    JsonModel::Object(seq![("error"@, JsonModel::Object(fields))])
}

/// An error reply.
pub open spec fn error_reply_model(
    status: u16,
    code: Seq<char>,
    message: Seq<char>,
    detail: Option<Seq<char>>,
) -> ReplyModel {
    ReplyModel { status, body: error_body(code, message, detail) }
}

/// The reply to a query document that could not be parsed: 400, with the
/// operator key as detail for an operator error.
pub open spec fn parse_error_reply_model(e: ParseErrorModel) -> ReplyModel {
    match e {
        ParseErrorModel::NotAnObject => error_reply_model(
            400,
            "malformed_document"@,
            "Query document must be a JSON object"@,
            None,
        ),
        ParseErrorModel::InvalidOperatorValue { key, reason: _ } => error_reply_model(
            400,
            "invalid_operator"@,
            "Invalid value for operator"@,
            Some(key),
        ),
        ParseErrorModel::UnknownOperator(key) => error_reply_model(
            400,
            "invalid_operator"@,
            "Unknown operator"@,
            Some(key),
        ),
        ParseErrorModel::InvalidCollectionOperator { key, reason: _ } => error_reply_model(
            400,
            "invalid_operator"@,
            "Invalid collection operator"@,
            Some(key),
        ),
    }
}

/// The reply to a query that could not be run: 422, the path as detail.
pub open spec fn execute_error_reply_model(e: ExecErrorModel) -> ReplyModel {
    match e {
        ExecErrorModel::MissingField { path } => error_reply_model(
            422,
            "invalid_field"@,
            "Field not found in document"@,
            Some(path),
        ),
        ExecErrorModel::IncomparableType { path, operator: _ } => error_reply_model(
            422,
            "invalid_value"@,
            "Cannot apply operator to field type"@,
            Some(path),
        ),
        ExecErrorModel::NotAnObject { path } => error_reply_model(
            422,
            "invalid_field"@,
            "Expected an object at path"@,
            Some(path),
        ),
        ExecErrorModel::NotAnArray { path } => error_reply_model(
            422,
            "invalid_field"@,
            "Expected an array at path"@,
            Some(path),
        ),
    }
}

/// The reply to the outcome of running a query: 200 with the result, `{}`
/// when the document does not match, or the error reply.
pub open spec fn outcome_reply_model(r: Result<JsonModel, ExecErrorModel>) -> ReplyModel {
    match r {
        Ok(JsonModel::Null) => ReplyModel { status: 200, body: JsonModel::Object(Seq::empty()) },
        Ok(v) => ReplyModel { status: 200, body: v },
        Err(e) => execute_error_reply_model(e),
    }
}

/// The reply to a parsed query at `url_path`, given what the store found
/// there: 404 when nothing, 500 when the store failed, else the outcome of
/// running the query against the document.
pub open spec fn query_reply_model(q: QueryModel, url_path: Seq<char>, found: LookupModel) -> ReplyModel {
    match found {
        LookupModel::Missing => error_reply_model(
            404,
            "resource_not_found"@,
            "No document found at this path"@,
            Some(url_path),
        ),
        LookupModel::Failed(message) => error_reply_model(500, "store_error"@, message, None),
        LookupModel::Found(doc) => outcome_reply_model(spec_execute(q, doc)),
    }
}

/// An error reply.
pub fn error_reply(status: u16, code: &str, message: &str, detail: Option<&str>) -> (r: Reply)
    ensures
        r@ == error_reply_model(
            status,
            code@,
            message@,
            match detail {
                Some(d) => Some(d@),
                None => None,
            },
        ),
{
    let mut fields: Vec<(String, JsonValue)> = Vec::new();
    fields.push((String::from_str("code"), JsonValue::String(String::from_str(code))));
    fields.push((String::from_str("message"), JsonValue::String(String::from_str(message))));
    if let Some(d) = detail {
        fields.push((String::from_str("detail"), JsonValue::String(String::from_str(d))));
    }
    let mut outer: Vec<(String, JsonValue)> = Vec::new();
    outer.push((String::from_str("error"), JsonValue::Object(fields)));
    let r = Reply { status, body: JsonValue::Object(outer) };
    proof {
        crate::json::lemma_members_model(fields@);
        crate::json::lemma_members_model(outer@);
        let expected = error_reply_model(
            status,
            code@,
            message@,
            match detail {
                Some(d) => Some(d@),
                None => None,
            },
        );
        assert(crate::json::members_model(fields@) =~= expected.body->Object_0[0].1->Object_0);
        assert(crate::json::members_model(outer@) =~= expected.body->Object_0);
    }
    r
}

/// The reply to a query document that could not be parsed.
pub fn parse_error_reply(e: &ParseError) -> (r: Reply)
    ensures
        r@ == parse_error_reply_model(e@),
{
    match e {
        ParseError::NotAnObject => error_reply(
            400,
            "malformed_document",
            "Query document must be a JSON object",
            None,
        ),
        ParseError::InvalidOperatorValue { key, reason: _ } => error_reply(
            400,
            "invalid_operator",
            "Invalid value for operator",
            Some(key.as_str()),
        ),
        ParseError::UnknownOperator(key) => error_reply(
            400,
            "invalid_operator",
            "Unknown operator",
            Some(key.as_str()),
        ),
        ParseError::InvalidCollectionOperator { key, reason: _ } => error_reply(
            400,
            "invalid_operator",
            "Invalid collection operator",
            Some(key.as_str()),
        ),
    }
}

/// The reply to a query that could not be run.
pub fn execute_error_reply(e: &ExecuteError) -> (r: Reply)
    ensures
        r@ == execute_error_reply_model(e@),
{
    match e {
        ExecuteError::MissingField { path } => error_reply(
            422,
            "invalid_field",
            "Field not found in document",
            Some(path.as_str()),
        ),
        ExecuteError::IncomparableType { path, operator: _ } => error_reply(
            422,
            "invalid_value",
            "Cannot apply operator to field type",
            Some(path.as_str()),
        ),
        ExecuteError::NotAnObject { path } => error_reply(
            422,
            "invalid_field",
            "Expected an object at path",
            Some(path.as_str()),
        ),
        ExecuteError::NotAnArray { path } => error_reply(
            422,
            "invalid_field",
            "Expected an array at path",
            Some(path.as_str()),
        ),
    }
}

/// The reply to the outcome of running a query.
pub fn outcome_reply(result: Result<JsonValue, ExecuteError>) -> (r: Reply)
    ensures
        r@ == outcome_reply_model(exec_outcome(result)),
{
    match result {
        Ok(JsonValue::Null) => {
            let r = Reply { status: 200, body: JsonValue::Object(Vec::new()) };
            proof {
                crate::json::lemma_members_model(Seq::<(String, JsonValue)>::empty());
                assert(r.body@ == JsonModel::Object(Seq::empty()));
            }
            r
        },
        Ok(v) => Reply { status: 200, body: v },
        Err(e) => execute_error_reply(&e),
    }
}

/// The reply to a parsed query at `url_path`, given what the store found.
pub fn query_reply(query: &QueryNode, url_path: &str, found: Lookup) -> (r: Reply)
    ensures
        r@ == query_reply_model(query@, url_path@, found@),
{
    match found {
        Lookup::Missing => error_reply(
            404,
            "resource_not_found",
            "No document found at this path",
            Some(url_path),
        ),
        Lookup::Failed(message) => error_reply(500, "store_error", message.as_str(), None),
        Lookup::Found(doc) => outcome_reply(execute(query, &doc)),
    }
}

/// The query a request body holds, or the reply that refuses it: text that
/// is not JSON, or JSON that is not a valid query document, is answered
/// before any document is looked up.
pub open spec fn read_query_model(body: Seq<char>) -> Result<QueryModel, ReplyModel> {
    match spec_parse_text(body) {
        Ok(q) => Ok(q),
        Err(e) => Err(parse_error_reply_model(e)),
    }
}

/// Read the query a request body holds (see `read_query_model`).
pub fn read_query(body: &str) -> (r: Result<QueryNode, Reply>)
    ensures
        match r {
            Ok(q) => read_query_model(body@) == Ok::<QueryModel, ReplyModel>(q@),
            Err(reply) => read_query_model(body@) == Err::<QueryModel, ReplyModel>(reply@),
        },
{
    match parse_str(body) {
        Ok(q) => Ok(q),
        Err(e) => Err(parse_error_reply(&e)),
    }
}

/// Whether a request method is `QUERY`, the only one the server serves.
pub fn is_query_method(method: &str) -> (r: bool)
    ensures
        r == (method@ == "QUERY"@),
{
    str_eq(method, "QUERY")
}

/// The reply to a request whose method is not `QUERY`.
pub fn method_not_allowed_reply() -> (r: Reply)
    ensures
        r@ == error_reply_model(
            405,
            "method_not_allowed"@,
            "This endpoint only accepts QUERY requests"@,
            None,
        ),
{
    error_reply(405, "method_not_allowed", "This endpoint only accepts QUERY requests", None)
}

/// The reply to a request whose body could not be read.
pub fn unreadable_body_reply() -> (r: Reply)
    ensures
        r@ == error_reply_model(
            400,
            "malformed_document"@,
            "Could not read request body"@,
            None,
        ),
{
    error_reply(400, "malformed_document", "Could not read request body", None)
}

/// The reply to a request whose body is not UTF-8.
pub fn non_utf8_body_reply() -> (r: Reply)
    ensures
        r@ == error_reply_model(
            400,
            "malformed_document"@,
            "Request body is not valid UTF-8"@,
            None,
        ),
{
    error_reply(400, "malformed_document", "Request body is not valid UTF-8", None)
}

} // verus!
