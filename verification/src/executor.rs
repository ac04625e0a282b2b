//! The query executor: runs a parsed query against a JSON document and
//! returns the document reshaped and filtered by the query.
//!
//! A field the query names must exist in the document, or the query is
//! refused; a document that has them all but does not satisfy the query's
//! constraints gives `null`. A nested query runs against a nested object, or
//! against each element of a nested array (a collection), keeping the
//! elements that match, ordered by the elements' values of the order field,
//! offset and limited as the collection options say. A document that is
//! itself an array is a collection too.
use crate::json::{
    has_name, items_model, json_eq, json_equal, lemma_items_model, lemma_members_model, lookup,
    members_insert, members_model, insert_member, JsonModel, JsonValue,
};
use crate::number::JsonNumber;
use crate::parser::{
    entry_model, fields_model, lemma_fields_model, op_model, query_model, FieldEntry, FieldModel,
    OpModel, Operator, OptsModel, OrderDir, QueryModel, QueryNode,
};
use crate::text::{concat, decimal, push_decimal, str_order, text_order, Compared};
use vstd::prelude::*;
use vstd::string::*;

verus! {

/// Why a query could not be run against a document.
#[derive(Debug)]
pub enum ExecuteError {
    /// A field of the query does not exist in the document.
    MissingField { path: String },
    /// An ordering operator met a value that is not a number.
    IncomparableType { path: String, operator: String },
    /// The query expected an object where the document holds something else.
    NotAnObject { path: String },
    /// The query expected an array where the document holds something else.
    NotAnArray { path: String },
}

/// The model of an execution error.
pub enum ExecErrorModel {
    MissingField { path: Seq<char> },
    IncomparableType { path: Seq<char>, operator: Seq<char> },
    NotAnObject { path: Seq<char> },
    NotAnArray { path: Seq<char> },
}

impl View for ExecuteError {
    type V = ExecErrorModel;

    open spec fn view(&self) -> ExecErrorModel {
        match self {
            ExecuteError::MissingField { path } => ExecErrorModel::MissingField { path: path@ },
            ExecuteError::IncomparableType { path, operator } => ExecErrorModel::IncomparableType {
                path: path@,
                operator: operator@,
            },
            ExecuteError::NotAnObject { path } => ExecErrorModel::NotAnObject { path: path@ },
            ExecuteError::NotAnArray { path } => ExecErrorModel::NotAnArray { path: path@ },
        }
    }
}

/// The model of an execution outcome.
pub open spec fn exec_outcome<T: View>(r: Result<T, ExecuteError>) -> Result<T::V, ExecErrorModel> {
    match r {
        Ok(t) => Ok(t@),
        Err(e) => Err(e@),
    }
}

/// The human-readable message of an execution error.
pub open spec fn spec_execute_error_message(e: ExecErrorModel) -> Seq<char> {
    match e {
        ExecErrorModel::MissingField { path } => "Field not found in document: "@ + path,
        ExecErrorModel::IncomparableType { path, operator } => "Cannot apply operator \""@ + operator
            + "\" to field: "@ + path,
        ExecErrorModel::NotAnObject { path } => "Expected an object at: "@ + path,
        ExecErrorModel::NotAnArray { path } => "Expected an array at: "@ + path,
    }
}

impl ExecuteError {
    /// The human-readable message of the error.
    pub fn message(&self) -> (r: String)
        ensures
            r@ == spec_execute_error_message(self@),
    {
        match self {
            ExecuteError::MissingField { path } => concat("Field not found in document: ", path.as_str()),
            ExecuteError::IncomparableType { path, operator } => {
                let mut r = concat("Cannot apply operator \"", operator.as_str());
                r.append("\" to field: ");
                r.append(path.as_str());
                r
            },
            ExecuteError::NotAnObject { path } => concat("Expected an object at: ", path.as_str()),
            ExecuteError::NotAnArray { path } => concat("Expected an array at: ", path.as_str()),
        }
    }
}

// ---------------------------------------------------------------------------
// Paths
// ---------------------------------------------------------------------------
/// The path of field `field` below `parent`: `parent.field`, or `field` at
/// the top.
pub open spec fn spec_build_path(parent: Seq<char>, field: Seq<char>) -> Seq<char> {
    if parent.len() == 0 {
        field
    } else {
        parent + "."@ + field
    }
}

/// The path as shown in errors: `<root>` for the top.
pub open spec fn spec_path_or_root(path: Seq<char>) -> Seq<char> {
    if path.len() == 0 {
        "<root>"@
    } else {
        path
    }
}

/// The path of element `i` of the collection at `path`: `path[i]`.
pub open spec fn item_path(path: Seq<char>, i: nat) -> Seq<char> {
    path + "["@ + decimal(i) + "]"@
}

/// The symbol an operator is written with.
pub open spec fn spec_op_symbol(op: OpModel) -> Seq<char> {
    match op {
        OpModel::Gt(_) => ">"@,
        OpModel::Gte(_) => ">="@,
        OpModel::Lt(_) => "<"@,
        OpModel::Lte(_) => "<="@,
        OpModel::Ne(_) => "!="@,
        OpModel::In(_) => "|"@,
        OpModel::MatchOnly(_) => "?"@,
    }
}

// ---------------------------------------------------------------------------
// What running a query means
// ---------------------------------------------------------------------------
/// Whether `v` equals one of the candidates.
pub open spec fn equals_any(candidates: Seq<JsonModel>, v: JsonModel) -> bool {
    exists|i: int| #![trigger candidates[i]] 0 <= i < candidates.len() && json_eq(candidates[i], v)
}

/// Whether an operator accepts a document value. `|` accepts a value equal
/// to one of its candidates and `!=` a value unequal to its operand, of any
/// type. The ordering operators need a number and compare it with their
/// operand, which must be a number too. `?` reaches here only nested in
/// another `?` (`{ "?": { "?": x } }`): it accepts any number and does not
/// look at `x`.
pub open spec fn spec_eval_op(op: OpModel, v: JsonModel, path: Seq<char>) -> Result<
    bool,
    ExecErrorModel,
> {
    let incomparable = ExecErrorModel::IncomparableType {
        path: path,
        operator: spec_op_symbol(op),
    };
    match op {
        OpModel::In(candidates) => Ok(equals_any(candidates, v)),
        OpModel::Ne(rhs) => Ok(!json_eq(v, rhs)),
        _ => match v {
            JsonModel::Number(lhs) => match op {
                OpModel::Gt(rhs) => match rhs {
                    JsonModel::Number(r) => Ok(lhs.greater(r)),
                    _ => Err(incomparable),
                },
                OpModel::Gte(rhs) => match rhs {
                    JsonModel::Number(r) => Ok(lhs.greater_eq(r)),
                    _ => Err(incomparable),
                },
                OpModel::Lt(rhs) => match rhs {
                    JsonModel::Number(r) => Ok(lhs.less(r)),
                    _ => Err(incomparable),
                },
                OpModel::Lte(rhs) => match rhs {
                    JsonModel::Number(r) => Ok(lhs.less_eq(r)),
                    _ => Err(incomparable),
                },
                OpModel::Ne(rhs) => Ok(!json_eq(v, rhs)),
                _ => Ok(true),
            },
            _ => Err(incomparable),
        },
    }
}

/// The state of a run through the fields of a query node.
pub enum Step {
    /// All fields so far hold; the members of the result so far.
    Continue(Seq<(Seq<char>, JsonModel)>),
    /// A constraint failed: the document does not match.
    NoMatch,
    /// An error.
    Fail(ExecErrorModel),
}

/// The outcome of the first `n` fields of a query node against the members
/// `obj` of a document object at `path`.
pub open spec fn exec_fields(
    fields: Seq<(Seq<char>, FieldModel)>,
    obj: Seq<(Seq<char>, JsonModel)>,
    path: Seq<char>,
    n: nat,
) -> Step
    decreases fields, 1int, n,
{
    if n == 0 || n > fields.len() {
        Step::Continue(Seq::empty())
    } else {
        match exec_fields(fields, obj, path, (n - 1) as nat) {
            Step::Continue(res) => {
                let name = fields[n - 1].0;
                let entry = fields[n - 1].1;
                let field_path = spec_build_path(path, name);
                match lookup(obj, name) {
                    None => Step::Fail(ExecErrorModel::MissingField { path: field_path }),
                    Some(dv) => match entry {
                        FieldModel::Projection => Step::Continue(members_insert(res, name, dv)),
                        FieldModel::Match(expected) => if json_eq(dv, expected) {
                            Step::Continue(members_insert(res, name, dv))
                        } else {
                            Step::NoMatch
                        },
                        FieldModel::Operator(OpModel::MatchOnly(inner)) => match *inner {
                            FieldModel::Match(expected) => if json_eq(dv, expected) {
                                Step::Continue(res)
                            } else {
                                Step::NoMatch
                            },
                            FieldModel::Operator(iop) => match spec_eval_op(iop, dv, field_path) {
                                Err(e) => Step::Fail(e),
                                Ok(false) => Step::NoMatch,
                                Ok(true) => Step::Continue(res),
                            },
                            _ => Step::Continue(res),
                        },
                        FieldModel::Operator(op) => match spec_eval_op(op, dv, field_path) {
                            Err(e) => Step::Fail(e),
                            Ok(false) => Step::NoMatch,
                            Ok(true) => Step::Continue(members_insert(res, name, dv)),
                        },
                        FieldModel::Nested(sub) => match dv {
                            JsonModel::Array(items) => match exec_collection(
                                sub,
                                items,
                                field_path,
                            ) {
                                Err(e) => Step::Fail(e),
                                Ok(matched) => Step::Continue(
                                    members_insert(res, name, JsonModel::Array(matched)),
                                ),
                            },
                            JsonModel::Object(_) => match exec_node(sub, dv, field_path) {
                                Err(e) => Step::Fail(e),
                                Ok(nested) => if nested is Null {
                                    Step::NoMatch
                                } else {
                                    Step::Continue(members_insert(res, name, nested))
                                },
                            },
                            _ => Step::Fail(ExecErrorModel::NotAnObject { path: field_path }),
                        },
                    },
                }
            },
            other => other,
        }
    }
}

/// The name of the first of the first `n` fields that the members `obj` of a
/// document object lack; `None` when it has them all.
pub open spec fn missing_field(
    fields: Seq<(Seq<char>, FieldModel)>,
    obj: Seq<(Seq<char>, JsonModel)>,
    n: nat,
) -> Option<Seq<char>>
    decreases n,
{
    if n == 0 || n > fields.len() {
        None
    } else {
        match missing_field(fields, obj, (n - 1) as nat) {
            Some(m) => Some(m),
            None => if has_name(obj, fields[n - 1].0) {
                None
            } else {
                Some(fields[n - 1].0)
            },
        }
    }
}

/// The outcome of a query node against a document at `path`: an error when
/// the document is not an object or lacks a field the query names (whatever
/// the other fields hold); else the reshaped object, `Null` when the document
/// does not match, or an error met on the way through the fields.
pub open spec fn exec_node(q: QueryModel, doc: JsonModel, path: Seq<char>) -> Result<
    JsonModel,
    ExecErrorModel,
>
    decreases q.fields, 2int, 0nat,
{
    match doc {
        JsonModel::Object(obj) => match missing_field(q.fields, obj, q.fields.len()) {
            Some(name) => Err(ExecErrorModel::MissingField { path: spec_build_path(path, name) }),
            None => match exec_fields(q.fields, obj, path, q.fields.len()) {
                Step::Continue(res) => Ok(JsonModel::Object(res)),
                Step::NoMatch => Ok(JsonModel::Null),
                Step::Fail(e) => Err(e),
            },
        },
        _ => Err(ExecErrorModel::NotAnObject { path: spec_path_or_root(path) }),
    }
}

/// The outcomes of a query node against the first `n` elements of a
/// collection, keeping each element that matches together with its result;
/// the first error decides.
pub open spec fn collect_items(q: QueryModel, items: Seq<JsonModel>, path: Seq<char>, n: nat) -> Result<
    Seq<(JsonModel, JsonModel)>,
    ExecErrorModel,
>
    decreases q.fields, 3int, n,
{
    if n == 0 || n > items.len() {
        Ok(Seq::empty())
    } else {
        match collect_items(q, items, path, (n - 1) as nat) {
            Err(e) => Err(e),
            Ok(acc) => match exec_node(q, items[n - 1], item_path(path, (n - 1) as nat)) {
                Err(e) => Err(e),
                Ok(r) => Ok(
                    if r is Null {
                        acc
                    } else {
                        acc.push((items[n - 1], r))
                    },
                ),
            },
        }
    }
}

/// The matching elements (each with its result) that a collection query
/// returns: ordered by the elements' values of the order field when the
/// query orders them, then offset and limited.
pub open spec fn chosen_matches(opts: OptsModel, matched: Seq<(JsonModel, JsonModel)>) -> Seq<
    (JsonModel, JsonModel),
> {
    let ordered = match opts.order_by {
        Some(field) => sort_items(matched, field, opts.order_dir == Some(OrderDir::Desc)),
        None => matched,
    };
    apply_window(ordered, opts)
}

/// The results of matching elements.
pub open spec fn results_of(s: Seq<(JsonModel, JsonModel)>) -> Seq<JsonModel> {
    s.map_values(|p: (JsonModel, JsonModel)| p.1)
}

/// The outcome of a query node against a collection: the results of the
/// matching elements, ordered by the elements' field when the query orders
/// them (the field need not be returned), then offset and limited.
pub open spec fn exec_collection(q: QueryModel, items: Seq<JsonModel>, path: Seq<char>) -> Result<
    Seq<JsonModel>,
    ExecErrorModel,
>
    decreases q.fields, 4int, 0nat,
{
    match collect_items(q, items, path, items.len()) {
        Err(e) => Err(e),
        Ok(matched) => Ok(results_of(chosen_matches(q.opts, matched))),
    }
}

/// What a query gives for a document: for a collection (an array), the
/// array of its matching members, each shaped by the query; for anything
/// else, what the query gives for it as a single document.
pub open spec fn spec_execute(q: QueryModel, doc: JsonModel) -> Result<JsonModel, ExecErrorModel> {
    match doc {
        JsonModel::Array(items) => match exec_collection(q, items, Seq::empty()) {
            Ok(matched) => Ok(JsonModel::Array(matched)),
            Err(e) => Err(e),
        },
        _ => exec_node(q, doc, Seq::empty()),
    }
}

// ---------------------------------------------------------------------------
// Ordering and paging of collections
// ---------------------------------------------------------------------------
/// How two ordering keys compare: numbers by their binary64 values (a NaN
/// equals everything), strings byte-wise, anything else as equal.
pub open spec fn compare_keys(a: Option<JsonModel>, b: Option<JsonModel>) -> Compared {
    match (a, b) {
        (Some(JsonModel::Number(x)), Some(JsonModel::Number(y))) => if x.spec_is_nan()
            || y.spec_is_nan() {
            Compared::Equal
        } else if x.order_key() < y.order_key() {
            Compared::Less
        } else if x.order_key() > y.order_key() {
            Compared::Greater
        } else {
            Compared::Equal
        },
        (Some(JsonModel::Str(x)), Some(JsonModel::Str(y))) => text_order(x, y),
        _ => Compared::Equal,
    }
}

/// How two matching elements of a collection compare when ordered by
/// `field`: by the elements' values of that field.
pub open spec fn item_order(
    a: (JsonModel, JsonModel),
    b: (JsonModel, JsonModel),
    field: Seq<char>,
    descending: bool,
) -> Compared {
    let o = compare_keys(a.0.get(field), b.0.get(field));
    if descending {
        o.spec_reverse()
    } else {
        o
    }
}

/// `x` placed into `sorted` after every element that does not order after
/// it: behind the last element that is not greater than `x`.
pub open spec fn insert_sorted(
    sorted: Seq<(JsonModel, JsonModel)>,
    x: (JsonModel, JsonModel),
    field: Seq<char>,
    descending: bool,
) -> Seq<(JsonModel, JsonModel)>
    decreases sorted.len(),
{
    if sorted.len() == 0 {
        seq![x]
    } else if item_order(sorted.last(), x, field, descending) == Compared::Greater {
        insert_sorted(sorted.drop_last(), x, field, descending).push(sorted.last())
    } else {
        sorted.push(x)
    }
}

/// The elements stably sorted by `field`: each placed in turn behind the
/// elements before it that do not order after it.
pub open spec fn sort_items(s: Seq<(JsonModel, JsonModel)>, field: Seq<char>, descending: bool) -> Seq<
    (JsonModel, JsonModel),
>
    decreases s.len(),
{
    if s.len() == 0 {
        s
    } else {
        insert_sorted(sort_items(s.drop_last(), field, descending), s.last(), field, descending)
    }
}

/// The elements after skipping `offset` of them, then keeping at most `limit`.
pub open spec fn apply_window<T>(s: Seq<T>, opts: OptsModel) -> Seq<T> {
    let offset = match opts.offset {
        Some(o) => o as int,
        None => 0,
    };
    let rest = if offset < s.len() {
        s.skip(offset)
    } else {
        Seq::empty()
    };
    match opts.limit {
        Some(l) => if l < rest.len() {
            rest.take(l as int)
        } else {
            rest
        },
        None => rest,
    }
}


// ---------------------------------------------------------------------------
// Lemmas
// ---------------------------------------------------------------------------
/// Once a run through the fields stops (no match, or an error), later fields
/// change nothing.
pub proof fn lemma_fields_stop(
    fields: Seq<(Seq<char>, FieldModel)>,
    obj: Seq<(Seq<char>, JsonModel)>,
    path: Seq<char>,
    i: nat,
    n: nat,
)
    requires
        0 < i <= n <= fields.len(),
        !(exec_fields(fields, obj, path, i) is Continue),
    ensures
        exec_fields(fields, obj, path, n) == exec_fields(fields, obj, path, i),
    decreases n - i,
{
    if n > i {
        lemma_fields_stop(fields, obj, path, i, (n - 1) as nat);
    }
}

/// Once a missing field is found, later fields do not change which.
pub proof fn lemma_missing_field_stays(
    fields: Seq<(Seq<char>, FieldModel)>,
    obj: Seq<(Seq<char>, JsonModel)>,
    i: nat,
    n: nat,
)
    requires
        0 < i <= n <= fields.len(),
        missing_field(fields, obj, i) is Some,
    ensures
        missing_field(fields, obj, n) == missing_field(fields, obj, i),
    decreases n - i,
{
    if n > i {
        lemma_missing_field_stays(fields, obj, i, (n - 1) as nat);
    }
}

/// Once a run through the elements of a collection meets an error, later
/// elements change nothing.
pub proof fn lemma_collect_stop(q: QueryModel, items: Seq<JsonModel>, path: Seq<char>, i: nat, n: nat)
    requires
        0 < i <= n <= items.len(),
        collect_items(q, items, path, i) is Err,
    ensures
        collect_items(q, items, path, n) == collect_items(q, items, path, i),
    decreases n - i,
{
    if n > i {
        lemma_collect_stop(q, items, path, i, (n - 1) as nat);
    }
}

/// Inserting behind a run of greater elements: `insert_sorted` passes over
/// the elements from `j` on when all of them order after `x`.
pub proof fn lemma_insert_sorted_skip(
    s: Seq<(JsonModel, JsonModel)>,
    x: (JsonModel, JsonModel),
    field: Seq<char>,
    descending: bool,
    j: int,
)
    requires
        0 <= j <= s.len(),
        forall|k: int| j <= k < s.len() ==> item_order(s[k], x, field, descending) == Compared::Greater,
    ensures
        insert_sorted(s, x, field, descending) == insert_sorted(s.take(j), x, field, descending) + s.skip(j),
    decreases s.len(),
{
    if j == s.len() {
        assert(s.take(j) =~= s);
        assert(s.skip(j) =~= Seq::<(JsonModel, JsonModel)>::empty());
        assert(insert_sorted(s.take(j), x, field, descending) + s.skip(j) =~= insert_sorted(s, x, field, descending));
    } else {
        let init = s.drop_last();
        assert(item_order(s.last(), x, field, descending) == Compared::Greater);
        lemma_insert_sorted_skip(init, x, field, descending, j);
        assert(init.take(j) =~= s.take(j));
        assert(init.skip(j).push(s.last()) =~= s.skip(j));
        assert(insert_sorted(s, x, field, descending) =~= insert_sorted(init, x, field, descending).push(s.last()));
        assert((insert_sorted(init.take(j), x, field, descending) + init.skip(j)).push(s.last())
            =~= insert_sorted(init.take(j), x, field, descending) + init.skip(j).push(s.last()));
    }
}

// ---------------------------------------------------------------------------
// Paths and operators
// ---------------------------------------------------------------------------
/// The path of field `field` below `parent`.
pub fn build_path(parent: &str, field: &str) -> (r: String)
    ensures
        r@ == spec_build_path(parent@, field@),
{
    if parent.is_empty() {
        String::from_str(field)
    } else {
        let mut r = concat(parent, ".");
        r.append(field);
        r
    }
}

/// The path as shown in errors.
pub fn path_or_root(path: &str) -> (r: String)
    ensures
        r@ == spec_path_or_root(path@),
{
    if path.is_empty() {
        String::from_str("<root>")
    } else {
        String::from_str(path)
    }
}

/// The path of element `i` of the collection at `path`.
fn element_path(path: &str, i: usize) -> (r: String)
    ensures
        r@ == item_path(path@, i as nat),
{
    let mut r = concat(path, "[");
    push_decimal(&mut r, i as u64);
    r.append("]");
    r
}

/// The symbol an operator is written with.
pub fn op_symbol(op: &Operator) -> (r: &'static str)
    ensures
        r@ == spec_op_symbol(op@),
{
    match op {
        Operator::Gt(_) => ">",
        Operator::Gte(_) => ">=",
        Operator::Lt(_) => "<",
        Operator::Lte(_) => "<=",
        Operator::Ne(_) => "!=",
        Operator::In(_) => "|",
        Operator::MatchOnly(_) => "?",
    }
}

/// The error for an operator applied where a number is needed.
fn incomparable(op: &Operator, path: &str) -> (e: ExecuteError)
    ensures
        e@ == (ExecErrorModel::IncomparableType { path: path@, operator: spec_op_symbol(op@) }),
{
    ExecuteError::IncomparableType {
        path: String::from_str(path),
        operator: String::from_str(op_symbol(op)),
    }
}

/// The number an operand of `op` must be.
fn numeric(value: &JsonValue, op: &Operator, path: &str) -> (r: Result<JsonNumber, ExecuteError>)
    ensures
        match value@ {
            JsonModel::Number(n) => r == Ok::<JsonNumber, ExecuteError>(n),
            _ => r matches Err(e) && e@ == (ExecErrorModel::IncomparableType {
                path: path@,
                operator: spec_op_symbol(op@),
            }),
        },
{
    match value {
        JsonValue::Number(n) => Ok(*n),
        _ => Err(incomparable(op, path)),
    }
}

/// Whether an operator accepts a document value (see `spec_eval_op`).
#[verifier::loop_isolation(false)]
fn evaluate_operator(op: &Operator, value: &JsonValue, path: &str) -> (r: Result<bool, ExecuteError>)
    ensures
        match (r, spec_eval_op(op@, value@, path@)) {
            (Ok(b), Ok(m)) => b == m,
            (Err(e), Err(m)) => e@ == m,
            _ => false,
        },
{
    if let Operator::In(candidates) = op {
        proof {
            lemma_items_model(candidates@);
        }
        let mut i: usize = 0;
        while i < candidates.len()
            invariant
                i <= candidates@.len(),
                forall|k: int|
                    0 <= k < i ==> !json_eq(#[trigger] items_model(candidates@)[k], value@),
            decreases candidates@.len() - i,
        {
            if json_equal(&candidates[i], value) {
                assert(json_eq(items_model(candidates@)[i as int], value@));
                assert(op@ == OpModel::In(items_model(candidates@)));
                return Ok(true);
            }
            i = i + 1;
        }
        return Ok(false);
    }
    if let Operator::Ne(rhs) = op {
        return Ok(!json_equal(value, rhs));
    }
    let lhs = numeric(value, op, path)?;
    match op {
        Operator::Gt(rhs) => {
            let r = numeric(rhs, op, path)?;
            Ok(!lhs.is_nan() && !r.is_nan() && lhs.key() > r.key())
        },
        Operator::Gte(rhs) => {
            let r = numeric(rhs, op, path)?;
            Ok(!lhs.is_nan() && !r.is_nan() && lhs.key() >= r.key())
        },
        Operator::Lt(rhs) => {
            let r = numeric(rhs, op, path)?;
            Ok(!lhs.is_nan() && !r.is_nan() && lhs.key() < r.key())
        },
        Operator::Lte(rhs) => {
            let r = numeric(rhs, op, path)?;
            Ok(!lhs.is_nan() && !r.is_nan() && lhs.key() <= r.key())
        },
        _ => Ok(true),
    }
}

// ---------------------------------------------------------------------------
// Ordering and paging
// ---------------------------------------------------------------------------
/// The model of an optional borrowed value.
pub open spec fn opt_model(v: Option<&JsonValue>) -> Option<JsonModel> {
    match v {
        Some(x) => Some(x@),
        None => None,
    }
}

/// How two ordering keys compare (see `compare_keys`).
pub fn compare_values(a: Option<&JsonValue>, b: Option<&JsonValue>) -> (r: Compared)
    ensures
        r == compare_keys(opt_model(a), opt_model(b)),
{
    match (a, b) {
        (Some(JsonValue::Number(x)), Some(JsonValue::Number(y))) => {
            if x.is_nan() || y.is_nan() {
                Compared::Equal
            } else {
                let kx = x.key();
                let ky = y.key();
                if kx < ky {
                    Compared::Less
                } else if kx > ky {
                    Compared::Greater
                } else {
                    Compared::Equal
                }
            }
        },
        (Some(JsonValue::String(x)), Some(JsonValue::String(y))) => str_order(x.as_str(), y.as_str()),
        _ => Compared::Equal,
    }
}

/// The model of matching elements held with their results.
pub open spec fn pairs_model(v: Seq<(JsonValue, JsonValue)>) -> Seq<(JsonModel, JsonModel)> {
    v.map_values(|p: (JsonValue, JsonValue)| (p.0@, p.1@))
}

/// How two matching elements compare when ordered by `field`.
fn order_of(a: &(JsonValue, JsonValue), b: &(JsonValue, JsonValue), field: &str, descending: bool) -> (r: Compared)
    ensures
        r == item_order((a.0@, a.1@), (b.0@, b.1@), field@, descending),
{
    let o = compare_values(a.0.get(field), b.0.get(field));
    if descending {
        o.reverse()
    } else {
        o
    }
}

/// Places `x` into `sorted` (see `insert_sorted`).
fn insert_in_order(
    sorted: &mut Vec<(JsonValue, JsonValue)>,
    x: (JsonValue, JsonValue),
    field: &str,
    descending: bool,
)
    ensures
        pairs_model(final(sorted)@) == insert_sorted(pairs_model(old(sorted)@), (x.0@, x.1@), field@, descending),
{
    let ghost s = pairs_model(sorted@);
    let ghost xm = (x.0@, x.1@);
    let mut j = sorted.len();
    while j > 0 && order_of(&sorted[j - 1], &x, field, descending) == Compared::Greater
        invariant
            j <= sorted@.len(),
            s == pairs_model(sorted@),
            s.len() == sorted@.len(),
            xm == (x.0@, x.1@),
            forall|k: int| j <= k < s.len() ==> item_order(s[k], xm, field@, descending) == Compared::Greater,
        decreases j,
    {
        j = j - 1;
    }
    proof {
        lemma_insert_sorted_skip(s, xm, field@, descending, j as int);
        if j > 0 {
            assert(s.take(j as int).last() == s[j - 1]);
            assert(s.take(j as int).drop_last() =~= s.take(j - 1));
        }
    }
    sorted.insert(j, x);
    proof {
        assert(pairs_model(sorted@) =~= s.take(j as int).push(xm) + s.skip(j as int));
    }
}

/// The matching elements stably sorted by `field` (see `sort_items`).
fn sort_results(results: Vec<(JsonValue, JsonValue)>, field: &str, descending: bool) -> (r: Vec<
    (JsonValue, JsonValue),
>)
    ensures
        pairs_model(r@) == sort_items(pairs_model(results@), field@, descending),
{
    let ghost orig = pairs_model(results@);
    let mut rest = results;
    let mut sorted: Vec<(JsonValue, JsonValue)> = Vec::new();
    proof {
        assert(orig.take(0) =~= Seq::<(JsonModel, JsonModel)>::empty());
        assert(pairs_model(sorted@) =~= Seq::<(JsonModel, JsonModel)>::empty());
        assert(pairs_model(rest@) =~= orig.skip(0));
    }
    while rest.len() > 0
        invariant
            rest@.len() <= orig.len(),
            pairs_model(rest@) == orig.skip(orig.len() - rest@.len()),
            pairs_model(sorted@) == sort_items(orig.take(orig.len() - rest@.len()), field@, descending),
        decreases rest@.len(),
    {
        let ghost k = orig.len() - rest@.len();
        let ghost before = rest@;
        proof {
            assert(pairs_model(before)[0] == (before[0].0@, before[0].1@));
            assert(orig.skip(k)[0] == orig[k]);
        }
        let x = rest.remove(0);
        proof {
            assert((x.0@, x.1@) == orig[k]);
            assert forall|j: int| 0 <= j < rest@.len() implies #[trigger] pairs_model(rest@)[j]
                == orig.skip(k + 1)[j] by {
                assert(rest@[j] == before[j + 1]);
                assert(pairs_model(before)[j + 1] == (before[j + 1].0@, before[j + 1].1@));
                assert(orig.skip(k)[j + 1] == orig[k + 1 + j]);
            }
            assert(pairs_model(rest@) =~= orig.skip(k + 1));
            let next = orig.take(k + 1);
            assert(next.drop_last() =~= orig.take(k));
            assert(next.last() == orig[k]);
        }
        insert_in_order(&mut sorted, x, field, descending);
    }
    proof {
        assert(orig.take(orig.len() as int) =~= orig);
    }
    sorted
}

/// The matching elements after the offset and limit of `opts`.
fn window(results: Vec<(JsonValue, JsonValue)>, offset: Option<u64>, limit: Option<u64>) -> (r: Vec<
    (JsonValue, JsonValue),
>)
    ensures
        pairs_model(r@) == apply_window(
            pairs_model(results@),
            OptsModel { order_by: None, order_dir: None, limit: limit, offset: offset },
        ),
{
    let ghost m = pairs_model(results@);
    let mut results = results;
    let off: u64 = match offset {
        Some(o) => o,
        None => 0,
    };
    let mut rest = if off < results.len() as u64 {
        results.split_off(off as usize)
    } else {
        Vec::new()
    };
    proof {
        if off < m.len() {
            assert(pairs_model(rest@) =~= m.skip(off as int));
        } else {
            assert(pairs_model(rest@) =~= Seq::<(JsonModel, JsonModel)>::empty());
        }
    }
    if let Some(l) = limit {
        if l < rest.len() as u64 {
            let ghost before = pairs_model(rest@);
            rest.truncate(l as usize);
            proof {
                assert(pairs_model(rest@) =~= before.take(l as int));
            }
        }
    }
    rest
}

/// The results of the matching elements, in their order.
fn results_only(pairs: Vec<(JsonValue, JsonValue)>) -> (r: Vec<JsonValue>)
    ensures
        items_model(r@) == results_of(pairs_model(pairs@)),
{
    let ghost pm = pairs_model(pairs@);
    let mut rest = pairs;
    let mut out: Vec<JsonValue> = Vec::new();
    proof {
        lemma_items_model(out@);
        assert(pairs_model(rest@) =~= pm.skip(0));
        assert(results_of(pm.take(0)) =~= items_model(out@));
    }
    while rest.len() > 0
        invariant
            rest@.len() <= pm.len(),
            pairs_model(rest@) == pm.skip(pm.len() - rest@.len()),
            items_model(out@) == results_of(pm.take(pm.len() - rest@.len())),
        decreases rest@.len(),
    {
        let ghost k = pm.len() - rest@.len();
        let ghost before = rest@;
        let ghost out_before = out@;
        let ghost outm = items_model(out@);
        proof {
            assert(pairs_model(before)[0] == (before[0].0@, before[0].1@));
            assert(pm.skip(k)[0] == pm[k]);
        }
        let (_member, result) = rest.remove(0);
        let ghost rm = result@;
        out.push(result);
        proof {
            lemma_items_model(out@);
            lemma_items_model(out_before);
            assert(rm == pm[k].1);
            assert forall|j: int| 0 <= j < rest@.len() implies #[trigger] pairs_model(rest@)[j]
                == pm.skip(k + 1)[j] by {
                assert(rest@[j] == before[j + 1]);
                assert(pairs_model(before)[j + 1] == (before[j + 1].0@, before[j + 1].1@));
                assert(pm.skip(k)[j + 1] == pm[k + 1 + j]);
            }
            assert(pairs_model(rest@) =~= pm.skip(k + 1));
            assert(items_model(out@) =~= outm.push(rm));
            assert(results_of(pm.take(k + 1)) =~= results_of(pm.take(k)).push(pm[k].1));
        }
    }
    proof {
        assert(pm.take(pm.len() as int) =~= pm);
    }
    out
}

// ---------------------------------------------------------------------------
// Executor
// ---------------------------------------------------------------------------
/// Run a query node against a document at `path` (see `exec_node`).
#[verifier::loop_isolation(false)]
fn execute_node(query: &QueryNode, document: &JsonValue, path: &str) -> (r: Result<
    JsonValue,
    ExecuteError,
>)
    ensures
        exec_outcome(r) == exec_node(query@, document@, path@),
    decreases query, 0int,
{
    match document {
        JsonValue::Object(obj) => {
            let ghost om = members_model(obj@);
            let ghost qf = query@.fields;
            proof {
                lemma_members_model(obj@);
                lemma_fields_model(query.fields@);
                assert(members_model(Seq::<(String, JsonValue)>::empty()) =~= Seq::<(Seq<char>, JsonModel)>::empty());
            }
            let mut c: usize = 0;
            while c < query.fields.len()
                invariant
                    c <= query.fields@.len(),
                    missing_field(qf, om, c as nat) is None,
                decreases query.fields@.len() - c,
            {
                let name = &query.fields[c].0;
                assert(qf[c as int].0 == name@);
                if crate::json::find_member(obj, name.as_str()).is_none() {
                    let ghost m = (c + 1) as nat;
                    proof {
                        lemma_missing_field_stays(qf, om, m, qf.len());
                    }
                    return Err(ExecuteError::MissingField { path: build_path(path, name.as_str()) });
                }
                c = c + 1;
            }
            let mut result: Vec<(String, JsonValue)> = Vec::new();
            let mut i: usize = 0;
            while i < query.fields.len()
                invariant
                    i <= query.fields@.len(),
                    exec_fields(qf, om, path@, i as nat) == Step::Continue(members_model(result@)),
                decreases query.fields@.len() - i,
            {
                let name = &query.fields[i].0;
                let entry = &query.fields[i].1;
                let field_path = build_path(path, name.as_str());
                let ghost next = (i + 1) as nat;
                assert(qf[i as int] == (name@, entry@));
                let doc_value = match crate::json::find_member(obj, name.as_str()) {
                    None => {
                        proof {
                            lemma_fields_stop(qf, om, path@, next, qf.len());
                        }
                        return Err(ExecuteError::MissingField { path: field_path });
                    },
                    Some(k) => &obj[k].1,
                };
                assert(lookup(om, name@) == Some(doc_value@));
                match entry {
                    FieldEntry::Projection => {
                        insert_member(&mut result, name.clone(), doc_value.deep_copy());
                    },
                    FieldEntry::Match(expected) => {
                        if !json_equal(doc_value, expected) {
                            proof {
                                lemma_fields_stop(qf, om, path@, next, qf.len());
                            }
                            return Ok(JsonValue::Null);
                        }
                        insert_member(&mut result, name.clone(), doc_value.deep_copy());
                    },
                    FieldEntry::Operator(op) => {
                        match op {
                            Operator::MatchOnly(inner) => {
                                assert(entry@ == FieldModel::Operator(op@));
                                assert(op@ == OpModel::MatchOnly(Box::new((**inner)@)));
                                match &**inner {
                                    FieldEntry::Match(expected) => {
                                        if !json_equal(doc_value, expected) {
                                            proof {
                                                lemma_fields_stop(qf, om, path@, next, qf.len());
                                            }
                                            return Ok(JsonValue::Null);
                                        }
                                    },
                                    FieldEntry::Operator(inner_op) => {
                                        match evaluate_operator(inner_op, doc_value, field_path.as_str()) {
                                            Err(e) => {
                                                proof {
                                                    lemma_fields_stop(qf, om, path@, next, qf.len());
                                                }
                                                return Err(e);
                                            },
                                            Ok(false) => {
                                                proof {
                                                    lemma_fields_stop(qf, om, path@, next, qf.len());
                                                }
                                                return Ok(JsonValue::Null);
                                            },
                                            Ok(true) => {},
                                        }
                                    },
                                    _ => {},
                                }
                            },
                            _ => {
                                assert(entry@ == FieldModel::Operator(op@));
                                assert(!(op@ is MatchOnly));
                                match evaluate_operator(op, doc_value, field_path.as_str()) {
                                    Err(e) => {
                                        proof {
                                            lemma_fields_stop(qf, om, path@, next, qf.len());
                                        }
                                        return Err(e);
                                    },
                                    Ok(false) => {
                                        proof {
                                            lemma_fields_stop(qf, om, path@, next, qf.len());
                                        }
                                        return Ok(JsonValue::Null);
                                    },
                                    Ok(true) => {
                                        insert_member(&mut result, name.clone(), doc_value.deep_copy());
                                    },
                                }
                            },
                        }
                    },
                    FieldEntry::Nested(sub) => {
                        proof {
                            assert(decreases_to!(*query => query.fields));
                            assert(decreases_to!(query.fields => query.fields@));
                            assert(decreases_to!(query.fields@ => query.fields@[i as int]));
                            assert(decreases_to!(query.fields@[i as int] => query.fields@[i as int].1));
                            assert(decreases_to!(query.fields@[i as int].1 => query.fields@[i as int].1->Nested_0));
                        }
                        match doc_value {
                            JsonValue::Array(arr) => {
                                proof {
                                    lemma_items_model(arr@);
                                }
                                match execute_collection(sub, arr, field_path.as_str()) {
                                    Err(e) => {
                                        proof {
                                            lemma_fields_stop(qf, om, path@, next, qf.len());
                                        }
                                        return Err(e);
                                    },
                                    Ok(matched) => {
                                        proof {
                                            lemma_items_model(matched@);
                                        }
                                        insert_member(&mut result, name.clone(), JsonValue::Array(matched));
                                    },
                                }
                            },
                            JsonValue::Object(_) => {
                                match execute_node(sub, doc_value, field_path.as_str()) {
                                    Err(e) => {
                                        proof {
                                            lemma_fields_stop(qf, om, path@, next, qf.len());
                                        }
                                        return Err(e);
                                    },
                                    Ok(nested) => {
                                        if nested.is_null() {
                                            proof {
                                                lemma_fields_stop(qf, om, path@, next, qf.len());
                                            }
                                            return Ok(JsonValue::Null);
                                        }
                                        insert_member(&mut result, name.clone(), nested);
                                    },
                                }
                            },
                            _ => {
                                proof {
                                    lemma_fields_stop(qf, om, path@, next, qf.len());
                                }
                                return Err(ExecuteError::NotAnObject { path: field_path });
                            },
                        }
                    },
                }
                i = i + 1;
            }
            Ok(JsonValue::Object(result))
        },
        _ => Err(ExecuteError::NotAnObject { path: path_or_root(path) }),
    }
}

/// Run a query node against each element of a collection at `path`, then
/// order, offset and limit the matches (see `exec_collection`).
#[verifier::loop_isolation(false)]
pub fn execute_collection(query: &QueryNode, arr: &Vec<JsonValue>, path: &str) -> (r: Result<
    Vec<JsonValue>,
    ExecuteError,
>)
    ensures
        match (r, exec_collection(query@, items_model(arr@), path@)) {
            (Ok(v), Ok(m)) => items_model(v@) == m,
            (Err(e), Err(m)) => e@ == m,
            _ => false,
        },
    decreases query, 1int,
{
    let ghost im = items_model(arr@);
    proof {
        lemma_items_model(arr@);
        assert(pairs_model(Seq::<(JsonValue, JsonValue)>::empty()) =~= Seq::<(JsonModel, JsonModel)>::empty());
    }
    let mut results: Vec<(JsonValue, JsonValue)> = Vec::new();
    let mut i: usize = 0;
    while i < arr.len()
        invariant
            i <= arr@.len(),
            im.len() == arr@.len(),
            forall|k: int| 0 <= k < arr@.len() ==> #[trigger] im[k] == arr@[k]@,
            collect_items(query@, im, path@, i as nat) == Ok::<Seq<(JsonModel, JsonModel)>, ExecErrorModel>(
                pairs_model(results@),
            ),
        decreases arr@.len() - i,
    {
        let item_path = element_path(path, i);
        match execute_node(query, &arr[i], item_path.as_str()) {
            Err(e) => {
                proof {
                    lemma_collect_stop(query@, im, path@, (i + 1) as nat, im.len());
                }
                return Err(e);
            },
            Ok(v) => {
                if !v.is_null() {
                    let ghost before = results@;
                    let ghost vm = v@;
                    let member = arr[i].deep_copy();
                    assert(member@ == im[i as int]);
                    results.push((member, v));
                    proof {
                        assert(pairs_model(results@) =~= pairs_model(before).push((im[i as int], vm)));
                    }
                }
            },
        }
        i = i + 1;
    }
    let ghost matched = pairs_model(results@);
    let ordered = match &query.collection_opts.order_by {
        Some(field) => {
            let descending = match query.collection_opts.order_dir {
                Some(OrderDir::Desc) => true,
                _ => false,
            };
            sort_results(results, field.as_str(), descending)
        },
        None => results,
    };
    let chosen = window(ordered, query.collection_opts.offset, query.collection_opts.limit);
    proof {
        assert(pairs_model(chosen@) == chosen_matches(query@.opts, matched));
    }
    Ok(results_only(chosen))
}

/// Run a query against a JSON document: the document reshaped by the query,
/// `null` when it does not match, the matching members of a collection, or
/// an error (see `spec_execute`).
pub fn execute(query: &QueryNode, document: &JsonValue) -> (r: Result<JsonValue, ExecuteError>)
    ensures
        exec_outcome(r) == spec_execute(query@, document@),
{
    let root = String::new();
    match document {
        JsonValue::Array(arr) => {
            proof {
                lemma_items_model(arr@);
            }
            match execute_collection(query, arr, root.as_str()) {
                Ok(matched) => {
                    proof {
                        lemma_items_model(matched@);
                    }
                    Ok(JsonValue::Array(matched))
                },
                Err(e) => Err(e),
            }
        },
        _ => execute_node(query, document, root.as_str()),
    }
}

} // verus!
