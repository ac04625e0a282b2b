//! The query document parser: turns a JSON object into a `QueryNode`.
//!
//! Each member of a query object says what to do with the document field of
//! the same name: `"*"` projects it, another literal matches and projects
//! it, an object holding a single operator key constrains it, and any other
//! object describes a nested document or collection. The collection keys
//! `^`, `v`, `#` and `@` set ordering, limit and offset.
use crate::json::{
    items_model, lemma_items_model, lemma_members_model, members_model, JsonModel, JsonValue,
};
use crate::json_text::{json_text_value, parse_json_text};
use crate::text::{concat, str_eq};
use vstd::prelude::*;
use vstd::string::*;

verus! {

/// A parsed query document: the field entries in the order written, and the
/// collection options. A name written twice gives two entries, and the
/// document must satisfy both.
#[derive(Debug)]
pub struct QueryNode {
    pub fields: Vec<(String, FieldEntry)>,
    pub collection_opts: CollectionOpts,
}

/// What a single field of the query document means.
#[derive(Debug)]
pub enum FieldEntry {
    /// `"*"`: return the field's value.
    Projection,
    /// A literal: match documents whose field equals it, and return the field.
    Match(JsonValue),
    /// An operator object such as `{ ">": 100 }`.
    Operator(Operator),
    /// An object: the query for a nested document or collection.
    Nested(QueryNode),
}

/// Comparison and membership operators, written as one-key objects.
#[derive(Debug)]
pub enum Operator {
    Gt(JsonValue),
    Gte(JsonValue),
    Lt(JsonValue),
    Lte(JsonValue),
    Ne(JsonValue),
    In(Vec<JsonValue>),
    MatchOnly(Box<FieldEntry>),
}

/// Collection options taken from the collection keys of a query object.
#[derive(Debug)]
pub struct CollectionOpts {
    pub order_by: Option<String>,
    pub order_dir: Option<OrderDir>,
    pub limit: Option<u64>,
    pub offset: Option<u64>,
}

/// The direction of ordering.
#[derive(Clone, Copy, Debug, PartialEq, Eq, Structural)]
pub enum OrderDir {
    Asc,
    Desc,
}

/// Why a query document was refused.
#[derive(Debug)]
pub enum ParseError {
    /// The query document is not a JSON object.
    NotAnObject,
    /// An operator key holds a value of the wrong type.
    InvalidOperatorValue { key: String, reason: String },
    /// An unrecognised operator key.
    UnknownOperator(String),
    /// A collection key holds a value of the wrong type.
    InvalidCollectionOperator { key: String, reason: String },
}

// ---------------------------------------------------------------------------
// Models
// ---------------------------------------------------------------------------
/// The model of a query node.
pub struct QueryModel {
    pub fields: Seq<(Seq<char>, FieldModel)>,
    pub opts: OptsModel,
}

/// The model of a field entry.
pub enum FieldModel {
    Projection,
    Match(JsonModel),
    Operator(OpModel),
    Nested(QueryModel),
}

/// The model of an operator.
pub enum OpModel {
    Gt(JsonModel),
    Gte(JsonModel),
    Lt(JsonModel),
    Lte(JsonModel),
    Ne(JsonModel),
    In(Seq<JsonModel>),
    MatchOnly(Box<FieldModel>),
}

/// The model of the collection options.
pub struct OptsModel {
    pub order_by: Option<Seq<char>>,
    pub order_dir: Option<OrderDir>,
    pub limit: Option<u64>,
    pub offset: Option<u64>,
}

/// The model of a parse error.
pub enum ParseErrorModel {
    NotAnObject,
    InvalidOperatorValue { key: Seq<char>, reason: Seq<char> },
    UnknownOperator(Seq<char>),
    InvalidCollectionOperator { key: Seq<char>, reason: Seq<char> },
}

/// The model of a query node.
pub open spec fn query_model(q: QueryNode) -> QueryModel
    decreases q,
{
    QueryModel { fields: fields_model(q.fields@), opts: opts_model(q.collection_opts) }
}

/// The models of a sequence of field entries.
pub open spec fn fields_model(fs: Seq<(String, FieldEntry)>) -> Seq<(Seq<char>, FieldModel)>
    decreases fs,
{
    if fs.len() == 0 {
        Seq::empty()
    } else {
        fields_model(fs.subrange(0, fs.len() - 1)).push(
            (fs[fs.len() - 1].0@, entry_model(fs[fs.len() - 1].1)),
        )
    }
}

/// The model of a field entry.
pub open spec fn entry_model(e: FieldEntry) -> FieldModel
    decreases e,
{
    match e {
        FieldEntry::Projection => FieldModel::Projection,
        FieldEntry::Match(v) => FieldModel::Match(v@),
        FieldEntry::Operator(op) => FieldModel::Operator(op_model(op)),
        FieldEntry::Nested(q) => FieldModel::Nested(query_model(q)),
    }
}

/// The model of an operator.
pub open spec fn op_model(o: Operator) -> OpModel
    decreases o,
{
    match o {
        Operator::Gt(v) => OpModel::Gt(v@),
        Operator::Gte(v) => OpModel::Gte(v@),
        Operator::Lt(v) => OpModel::Lt(v@),
        Operator::Lte(v) => OpModel::Lte(v@),
        Operator::Ne(v) => OpModel::Ne(v@),
        Operator::In(vs) => OpModel::In(items_model(vs@)),
        Operator::MatchOnly(b) => OpModel::MatchOnly(Box::new(entry_model(*b))),
    }
}

/// The model of the collection options.
pub open spec fn opts_model(o: CollectionOpts) -> OptsModel {
    OptsModel {
        order_by: match o.order_by {
            Some(s) => Some(s@),
            None => None,
        },
        order_dir: o.order_dir,
        limit: o.limit,
        offset: o.offset,
    }
}

impl View for QueryNode {
    type V = QueryModel;

    open spec fn view(&self) -> QueryModel {
        query_model(*self)
    }
}

impl View for FieldEntry {
    type V = FieldModel;

    open spec fn view(&self) -> FieldModel {
        entry_model(*self)
    }
}

impl View for Operator {
    type V = OpModel;

    open spec fn view(&self) -> OpModel {
        op_model(*self)
    }
}

impl View for CollectionOpts {
    type V = OptsModel;

    open spec fn view(&self) -> OptsModel {
        opts_model(*self)
    }
}

impl View for ParseError {
    type V = ParseErrorModel;

    open spec fn view(&self) -> ParseErrorModel {
        match self {
            ParseError::NotAnObject => ParseErrorModel::NotAnObject,
            ParseError::InvalidOperatorValue { key, reason } => ParseErrorModel::InvalidOperatorValue {
                key: key@,
                reason: reason@,
            },
            ParseError::UnknownOperator(key) => ParseErrorModel::UnknownOperator(key@),
            ParseError::InvalidCollectionOperator { key, reason } =>
                ParseErrorModel::InvalidCollectionOperator { key: key@, reason: reason@ },
        }
    }
}

/// The model of a parse outcome.
pub open spec fn parse_outcome<T: View>(r: Result<T, ParseError>) -> Result<T::V, ParseErrorModel> {
    match r {
        Ok(t) => Ok(t@),
        Err(e) => Err(e@),
    }
}

/// Each entry's model is the entry's name and the model of its meaning.
pub proof fn lemma_fields_model(fs: Seq<(String, FieldEntry)>)
    ensures
        fields_model(fs).len() == fs.len(),
        forall|i: int|
            0 <= i < fs.len() ==> #[trigger] fields_model(fs)[i] == (fs[i].0@, fs[i].1@),
    decreases fs.len(),
{
    if fs.len() > 0 {
        let init = fs.subrange(0, fs.len() - 1);
        lemma_fields_model(init);
        assert forall|i: int| 0 <= i < fs.len() implies #[trigger] fields_model(fs)[i] == (
            fs[i].0@,
            fs[i].1@,
        ) by {
            if i < fs.len() - 1 {
                assert(init[i] == fs[i]);
            }
        }
    }
}

// ---------------------------------------------------------------------------
// What a query document means
// ---------------------------------------------------------------------------
/// Options with nothing set.
pub open spec fn no_opts() -> OptsModel {
    OptsModel { order_by: None, order_dir: None, limit: None, offset: None }
}

/// A JSON value as an unsigned integer, when it is one.
pub open spec fn model_as_u64(v: JsonModel) -> Option<u64> {
    match v {
        JsonModel::Number(n) => n.spec_as_u64(),
        _ => None,
    }
}

/// The reason given when `^` or `v` holds something other than a string.
pub open spec fn reason_field_name() -> Seq<char> {
    "value must be a field name string"@
}

/// The reason given when `#` or `@` holds something other than an unsigned
/// integer.
pub open spec fn reason_unsigned() -> Seq<char> {
    "value must be a non-negative integer"@
}

/// The reason given when `|` holds something other than an array.
pub open spec fn reason_array() -> Seq<char> {
    "value must be an array"@
}

/// The query that an object's members describe, taken in order; the first
/// member in error decides the error.
pub open spec fn parse_members(ms: Seq<(Seq<char>, JsonModel)>) -> Result<
    QueryModel,
    ParseErrorModel,
>
    decreases ms, 0int,
{
    if ms.len() == 0 {
        Ok(QueryModel { fields: Seq::empty(), opts: no_opts() })
    } else {
        let k = ms[ms.len() - 1].0;
        let v = ms[ms.len() - 1].1;
        match parse_members(ms.subrange(0, ms.len() - 1)) {
            Err(e) => Err(e),
            Ok(q) => {
                if k == "^"@ {
                    match v {
                        JsonModel::Str(f) => Ok(
                            QueryModel {
                                opts: OptsModel {
                                    order_by: Some(f),
                                    order_dir: Some(OrderDir::Asc),
                                    ..q.opts
                                },
                                ..q
                            },
                        ),
                        _ => Err(
                            ParseErrorModel::InvalidCollectionOperator {
                                key: k,
                                reason: reason_field_name(),
                            },
                        ),
                    }
                } else if k == "v"@ {
                    match v {
                        JsonModel::Str(f) => Ok(
                            QueryModel {
                                opts: OptsModel {
                                    order_by: Some(f),
                                    order_dir: Some(OrderDir::Desc),
                                    ..q.opts
                                },
                                ..q
                            },
                        ),
                        _ => Err(
                            ParseErrorModel::InvalidCollectionOperator {
                                key: k,
                                reason: reason_field_name(),
                            },
                        ),
                    }
                } else if k == "#"@ {
                    match model_as_u64(v) {
                        Some(n) => Ok(
                            QueryModel { opts: OptsModel { limit: Some(n), ..q.opts }, ..q },
                        ),
                        None => Err(
                            ParseErrorModel::InvalidCollectionOperator {
                                key: k,
                                reason: reason_unsigned(),
                            },
                        ),
                    }
                } else if k == "@"@ {
                    match model_as_u64(v) {
                        Some(n) => Ok(
                            QueryModel { opts: OptsModel { offset: Some(n), ..q.opts }, ..q },
                        ),
                        None => Err(
                            ParseErrorModel::InvalidCollectionOperator {
                                key: k,
                                reason: reason_unsigned(),
                            },
                        ),
                    }
                } else {
                    match parse_entry(v) {
                        Ok(e) => Ok(QueryModel { fields: q.fields.push((k, e)), ..q }),
                        Err(err) => Err(err),
                    }
                }
            },
        }
    }
}

/// What a single field value of a query document means.
pub open spec fn parse_entry(v: JsonModel) -> Result<FieldModel, ParseErrorModel>
    decreases v, 0int,
{
    match v {
        JsonModel::Str(s) => if s == "*"@ {
            Ok(FieldModel::Projection)
        } else {
            Ok(FieldModel::Match(v))
        },
        JsonModel::Object(ms) => {
            let as_nested = match parse_members(ms) {
                Ok(q) => Ok(FieldModel::Nested(q)),
                Err(e) => Err(e),
            };
            if ms.len() == 1 {
                match parse_operator(ms[0].0, ms[0].1) {
                    Err(e) => Err(e),
                    Ok(Some(op)) => Ok(FieldModel::Operator(op)),
                    Ok(None) => as_nested,
                }
            } else {
                as_nested
            }
        },
        _ => Ok(FieldModel::Match(v)),
    }
}

/// What a one-member object `{ k: v }` means when `k` is an operator key:
/// the operator, or `UnknownOperator` for a key written as an operator that
/// is neither a field operator nor a collection operator; `None` when `k`
/// names a field.
pub open spec fn parse_operator(k: Seq<char>, v: JsonModel) -> Result<
    Option<OpModel>,
    ParseErrorModel,
>
    decreases v, 1int,
{
    if k == ">"@ {
        Ok(Some(OpModel::Gt(v)))
    } else if k == ">="@ {
        Ok(Some(OpModel::Gte(v)))
    } else if k == "<"@ {
        Ok(Some(OpModel::Lt(v)))
    } else if k == "<="@ {
        Ok(Some(OpModel::Lte(v)))
    } else if k == "!="@ {
        Ok(Some(OpModel::Ne(v)))
    } else if k == "|"@ {
        match v {
            JsonModel::Array(items) => Ok(Some(OpModel::In(items))),
            _ => Err(ParseErrorModel::InvalidOperatorValue { key: k, reason: reason_array() }),
        }
    } else if k == "?"@ {
        match parse_entry(v) {
            Ok(e) => Ok(Some(OpModel::MatchOnly(Box::new(e)))),
            Err(err) => Err(err),
        }
    } else if is_operator_symbol(k) && k != "^"@ && k != "#"@ && k != "@"@ {
        Err(ParseErrorModel::UnknownOperator(k))
    } else {
        Ok(None)
    }
}

/// Whether `c` is an ASCII punctuation character, the characters operator
/// keys are written with.
pub open spec fn is_symbol_char(c: char) -> bool {
    let u = c as u32;
    (33 <= u <= 47) || (58 <= u <= 64) || (91 <= u <= 96) || (123 <= u <= 126)
}

/// Whether a key is written as an operator: one or more ASCII punctuation
/// characters.
pub open spec fn is_operator_symbol(k: Seq<char>) -> bool {
    k.len() > 0 && forall|i: int| 0 <= i < k.len() ==> is_symbol_char(#[trigger] k[i])
}

/// What a query document means: a query for an object, `NotAnObject` for
/// anything else.
pub open spec fn spec_parse(v: JsonModel) -> Result<QueryModel, ParseErrorModel> {
    match v {
        JsonModel::Object(ms) => parse_members(ms),
        _ => Err(ParseErrorModel::NotAnObject),
    }
}


/// Once the members so far are in error, the members as a whole are in the
/// same error.
pub proof fn lemma_parse_error_persists(ms: Seq<(Seq<char>, JsonModel)>, j: int)
    requires
        0 <= j <= ms.len(),
        parse_members(ms.subrange(0, j)) is Err,
    ensures
        parse_members(ms) == parse_members(ms.subrange(0, j)),
    decreases ms.len() - j,
{
    if j < ms.len() {
        let next = ms.subrange(0, j + 1);
        assert(next.subrange(0, next.len() - 1) =~= ms.subrange(0, j));
        lemma_parse_error_persists(ms, j + 1);
    } else {
        assert(ms.subrange(0, j) =~= ms);
    }
}

/// The human-readable message of a parse error.
pub open spec fn spec_parse_error_message(e: ParseErrorModel) -> Seq<char> {
    match e {
        ParseErrorModel::NotAnObject => "Query document must be a JSON object"@,
        ParseErrorModel::InvalidOperatorValue { key, reason } => "Invalid value for operator \""@
            + key + "\": "@ + reason,
        ParseErrorModel::UnknownOperator(key) => "Unknown operator \""@ + key + "\""@,
        ParseErrorModel::InvalidCollectionOperator { key, reason } =>
            "Invalid collection operator \""@ + key + "\": "@ + reason,
    }
}

impl ParseError {
    /// The human-readable message of the error.
    pub fn message(&self) -> (r: String)
        ensures
            r@ == spec_parse_error_message(self@),
    {
        match self {
            ParseError::NotAnObject => String::from_str("Query document must be a JSON object"),
            ParseError::InvalidOperatorValue { key, reason } => {
                let mut r = concat("Invalid value for operator \"", key.as_str());
                r.append("\": ");
                r.append(reason.as_str());
                r
            },
            ParseError::UnknownOperator(key) => {
                let mut r = concat("Unknown operator \"", key.as_str());
                r.append("\"");
                r
            },
            ParseError::InvalidCollectionOperator { key, reason } => {
                let mut r = concat("Invalid collection operator \"", key.as_str());
                r.append("\": ");
                r.append(reason.as_str());
                r
            },
        }
    }
}

// ---------------------------------------------------------------------------
// Parser
// ---------------------------------------------------------------------------
/// Parse a JSON value into a query. The value must be an object.
pub fn parse(value: &JsonValue) -> (r: Result<QueryNode, ParseError>)
    ensures
        parse_outcome(r) == spec_parse(value@),
{
    match value {
        JsonValue::Object(map) => {
            proof {
                lemma_members_model(map@);
            }
            parse_object(map)
        },
        _ => Err(ParseError::NotAnObject),
    }
}

/// What a query document written as JSON text means: text that is not JSON
/// is refused as `NotAnObject`, like a value that is not an object.
pub open spec fn spec_parse_text(text: Seq<char>) -> Result<QueryModel, ParseErrorModel> {
    match json_text_value(text) {
        None => Err(ParseErrorModel::NotAnObject),
        Some(v) => spec_parse(v),
    }
}

/// Parse a query document from JSON text (see `spec_parse_text`).
pub fn parse_str(input: &str) -> (r: Result<QueryNode, ParseError>)
    ensures
        parse_outcome(r) == spec_parse_text(input@),
{
    match parse_json_text(input) {
        Ok(value) => parse(&value),
        Err(_) => Err(ParseError::NotAnObject),
    }
}

/// The error for a collection key holding a value of the wrong type.
fn collection_error(key: &str, reason: &str) -> (e: ParseError)
    ensures
        e@ == (ParseErrorModel::InvalidCollectionOperator { key: key@, reason: reason@ }),
{
    ParseError::InvalidCollectionOperator { key: String::from_str(key), reason: String::from_str(reason) }
}

/// Parse the members of a query object, in order.
#[verifier::loop_isolation(false)]
fn parse_object(map: &Vec<(String, JsonValue)>) -> (r: Result<QueryNode, ParseError>)
    ensures
        parse_outcome(r) == parse_members(members_model(map@)),
    decreases map, 0int,
{
    let ghost mm = members_model(map@);
    proof {
        lemma_members_model(map@);
    }
    let mut fields: Vec<(String, FieldEntry)> = Vec::new();
    let mut opts = CollectionOpts { order_by: None, order_dir: None, limit: None, offset: None };
    let mut i: usize = 0;
    proof {
        assert(mm.subrange(0, 0) =~= Seq::<(Seq<char>, JsonModel)>::empty());
        assert(fields_model(fields@) =~= Seq::<(Seq<char>, FieldModel)>::empty());
    }
    while i < map.len()
        invariant
            i <= map@.len(),
            parse_members(mm.subrange(0, i as int)) == Ok::<QueryModel, ParseErrorModel>(
                QueryModel { fields: fields_model(fields@), opts: opts@ },
            ),
        decreases map@.len() - i,
    {
        let ghost prefix = mm.subrange(0, i as int + 1);
        proof {
            assert(prefix.subrange(0, prefix.len() - 1) =~= mm.subrange(0, i as int));
            assert(prefix[prefix.len() - 1] == mm[i as int]);
        }
        let key = &map[i].0;
        let value = &map[i].1;
        proof {
            reveal_strlit("value must be a field name string");
            reveal_strlit("value must be a non-negative integer");
        }
        if str_eq(key.as_str(), "^") {
            match value.as_str() {
                Some(f) => {
                    opts.order_by = Some(String::from_str(f));
                    opts.order_dir = Some(OrderDir::Asc);
                },
                None => {
                    proof {
                        lemma_parse_error_persists(mm, i as int + 1);
                    }
                    return Err(collection_error("^", "value must be a field name string"));
                },
            }
        } else if str_eq(key.as_str(), "v") {
            match value.as_str() {
                Some(f) => {
                    opts.order_by = Some(String::from_str(f));
                    opts.order_dir = Some(OrderDir::Desc);
                },
                None => {
                    proof {
                        lemma_parse_error_persists(mm, i as int + 1);
                    }
                    return Err(collection_error("v", "value must be a field name string"));
                },
            }
        } else if str_eq(key.as_str(), "#") {
            match value.as_u64() {
                Some(n) => {
                    opts.limit = Some(n);
                },
                None => {
                    proof {
                        lemma_parse_error_persists(mm, i as int + 1);
                    }
                    return Err(collection_error("#", "value must be a non-negative integer"));
                },
            }
        } else if str_eq(key.as_str(), "@") {
            match value.as_u64() {
                Some(n) => {
                    opts.offset = Some(n);
                },
                None => {
                    proof {
                        lemma_parse_error_persists(mm, i as int + 1);
                    }
                    return Err(collection_error("@", "value must be a non-negative integer"));
                },
            }
        } else {
            proof {
                assert(decreases_to!(*map => map@));
                assert(decreases_to!(map@ => map@[i as int]));
                assert(decreases_to!(map@[i as int] => map@[i as int].1));
            }
            match parse_field_entry(value) {
                Ok(entry) => {
                    let ghost old_fields = fields@;
                    fields.push((key.clone(), entry));
                    proof {
                        assert(fields@.subrange(0, fields@.len() - 1) =~= old_fields);
                    }
                },
                Err(e) => {
                    proof {
                        lemma_parse_error_persists(mm, i as int + 1);
                    }
                    return Err(e);
                },
            }
        }
        i = i + 1;
    }
    assert(mm.subrange(0, i as int) =~= mm);
    Ok(QueryNode { fields, collection_opts: opts })
}

/// Parse the value of a single query field.
fn parse_field_entry(value: &JsonValue) -> (r: Result<FieldEntry, ParseError>)
    ensures
        parse_outcome(r) == parse_entry(value@),
    decreases value, 0int,
{
    match value {
        JsonValue::String(s) => {
            proof {
                reveal_strlit("*");
            }
            if str_eq(s.as_str(), "*") {
                Ok(FieldEntry::Projection)
            } else {
                Ok(FieldEntry::Match(value.deep_copy()))
            }
        },
        JsonValue::Object(map) => {
            proof {
                lemma_members_model(map@);
            }
            if map.len() == 1 {
                proof {
                    assert(decreases_to!(*value => value->Object_0));
                    assert(decreases_to!(value->Object_0 => value->Object_0@));
                    assert(decreases_to!(value->Object_0@ => value->Object_0@[0]));
                    assert(decreases_to!(value->Object_0@[0] => value->Object_0@[0].1));
                }
                match try_parse_operator(map[0].0.as_str(), &map[0].1) {
                    Err(e) => {
                        return Err(e);
                    },
                    Ok(Some(op)) => {
                        return Ok(FieldEntry::Operator(op));
                    },
                    Ok(None) => {},
                }
            }
            proof {
                assert(decreases_to!(*value => value->Object_0));
            }
            match parse_object(map) {
                Ok(q) => Ok(FieldEntry::Nested(q)),
                Err(e) => Err(e),
            }
        },
        _ => Ok(FieldEntry::Match(value.deep_copy())),
    }
}

/// The model of an operator parse outcome.
pub open spec fn operator_outcome(r: Result<Option<Operator>, ParseError>) -> Result<
    Option<OpModel>,
    ParseErrorModel,
> {
    match r {
        Ok(Some(op)) => Ok(Some(op@)),
        Ok(None) => Ok(None),
        Err(e) => Err(e@),
    }
}

/// Parse `{ key: value }` as an operator (see `parse_operator`); `None`
/// when `key` names a field.
fn try_parse_operator(key: &str, value: &JsonValue) -> (r: Result<Option<Operator>, ParseError>)
    ensures
        operator_outcome(r) == parse_operator(key@, value@),
    decreases value, 1int,
{
    if str_eq(key, ">") {
        Ok(Some(Operator::Gt(value.deep_copy())))
    } else if str_eq(key, ">=") {
        Ok(Some(Operator::Gte(value.deep_copy())))
    } else if str_eq(key, "<") {
        Ok(Some(Operator::Lt(value.deep_copy())))
    } else if str_eq(key, "<=") {
        Ok(Some(Operator::Lte(value.deep_copy())))
    } else if str_eq(key, "!=") {
        Ok(Some(Operator::Ne(value.deep_copy())))
    } else if str_eq(key, "|") {
        match value.deep_copy() {
            JsonValue::Array(items) => Ok(Some(Operator::In(items))),
            _ => {
                proof {
                    reveal_strlit("value must be an array");
                }
                Err(
                    ParseError::InvalidOperatorValue {
                        key: String::from_str("|"),
                        reason: String::from_str("value must be an array"),
                    },
                )
            },
        }
    } else if str_eq(key, "?") {
        match parse_field_entry(value) {
            Ok(inner) => Ok(Some(Operator::MatchOnly(Box::new(inner)))),
            Err(e) => Err(e),
        }
    } else if operator_symbol(key) && !str_eq(key, "^") && !str_eq(key, "#") && !str_eq(key, "@") {
        Err(ParseError::UnknownOperator(String::from_str(key)))
    } else {
        Ok(None)
    }
}

/// Whether a key is written as an operator (see `is_operator_symbol`).
fn operator_symbol(key: &str) -> (r: bool)
    ensures
        r == is_operator_symbol(key@),
{
    let n = key.unicode_len();
    if n == 0 {
        return false;
    }
    let mut i: usize = 0;
    while i < n
        invariant
            n == key@.len(),
            i <= n,
            forall|j: int| 0 <= j < i ==> is_symbol_char(#[trigger] key@[j]),
        decreases n - i,
    {
        let u = key.get_char(i) as u32;
        if !((33 <= u && u <= 47) || (58 <= u && u <= 64) || (91 <= u && u <= 96) || (123 <= u && u <= 126)) {
            assert(!is_symbol_char(key@[i as int]));
            return false;
        }
        i = i + 1;
    }
    true
}

} // verus!
