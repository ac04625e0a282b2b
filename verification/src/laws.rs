//! Properties of query execution that hold for every query and document.
use crate::executor::{
    apply_window, chosen_matches, collect_items, compare_keys, exec_collection, exec_fields, exec_node,
    missing_field, results_of, spec_op_symbol,
    insert_sorted, item_order, sort_items, spec_build_path, spec_eval_op, Step,
};
use crate::text::{bytes_order, text_order, Compared};
use crate::json::{has_name, json_eq, last_index, lemma_members_insert, lookup, JsonModel};
use crate::number::{
    exact_integer, float_exponent, float_fraction, float_is_nan, float_sign, int_value,
    lemma_float_fields, lemma_integer_keys, JsonNumber,
};
use crate::parser::{model_as_u64, parse_entry, parse_members, parse_operator, FieldModel, OpModel, OptsModel, OrderDir, QueryModel};
use crate::server::{error_reply_model, query_reply_model, read_query_model, LookupModel, ReplyModel};
use crate::json_text::json_text_value;
use crate::store::{fetch_model, strip_slashes, FetchModel};
use crate::executor::spec_execute;
use crate::executor::item_path;
use vstd::prelude::*;

verus! {

/// Whether a field entry is match-only (`{ "?": ... }`).
pub open spec fn is_match_only(e: FieldModel) -> bool {
    e matches FieldModel::Operator(OpModel::MatchOnly(_))
}

/// Whether a field entry returns the document's value as it is: a
/// projection, a literal, or an operator other than match-only.
pub open spec fn returns_value(e: FieldModel) -> bool {
    ||| e is Projection
    ||| e is Match
    ||| (e is Operator && !is_match_only(e))
}

/// Whether the constraint of a field entry holds of the document value `dv`
/// of that field (at `path`). Projections and nested queries constrain
/// nothing here.
pub open spec fn constraint_holds(e: FieldModel, dv: JsonModel, path: Seq<char>) -> bool {
    match e {
        FieldModel::Match(expected) => json_eq(dv, expected),
        FieldModel::Operator(OpModel::MatchOnly(inner)) => match *inner {
            FieldModel::Match(expected) => json_eq(dv, expected),
            FieldModel::Operator(iop) => spec_eval_op(iop, dv, path) == Ok::<
                bool,
                crate::executor::ExecErrorModel,
            >(true),
            _ => true,
        },
        FieldModel::Operator(op) => spec_eval_op(op, dv, path) == Ok::<
            bool,
            crate::executor::ExecErrorModel,
        >(true),
        _ => true,
    }
}

/// Whether one of the first `n` fields is a nested query named `k`.
pub open spec fn nested_among(fields: Seq<(Seq<char>, FieldModel)>, n: int, k: Seq<char>) -> bool {
    exists|j: int| 0 <= j < n && #[trigger] fields[j].0 == k && fields[j].1 is Nested
}

/// What holds after the first `n` fields of a query node have all passed,
/// leaving the result members `res`.
pub open spec fn fields_passed(
    fields: Seq<(Seq<char>, FieldModel)>,
    obj: Seq<(Seq<char>, JsonModel)>,
    path: Seq<char>,
    n: int,
    res: Seq<(Seq<char>, JsonModel)>,
) -> bool {
    &&& forall|i: int| 0 <= i < n ==> has_name(obj, #[trigger] fields[i].0)
    &&& forall|k: Seq<char>|
        #[trigger] has_name(res, k) ==> exists|i: int|
            0 <= i < n && #[trigger] fields[i].0 == k && !is_match_only(fields[i].1)
    &&& forall|i: int|
        0 <= i < n ==> constraint_holds(
            #[trigger] fields[i].1,
            lookup(obj, fields[i].0)->0,
            spec_build_path(path, fields[i].0),
        )
    &&& forall|i: int|
        0 <= i < n && returns_value(#[trigger] fields[i].1) && !nested_among(fields, n, fields[i].0)
            ==> lookup(res, fields[i].0) == lookup(obj, fields[i].0)
}

/// The fields that have passed satisfy `fields_passed`.
pub proof fn lemma_fields_passed(
    fields: Seq<(Seq<char>, FieldModel)>,
    obj: Seq<(Seq<char>, JsonModel)>,
    path: Seq<char>,
    n: nat,
)
    requires
        n <= fields.len(),
    ensures
        exec_fields(fields, obj, path, n) matches Step::Continue(res) ==> fields_passed(
            fields,
            obj,
            path,
            n as int,
            res,
        ),
    decreases n,
{
    if n > 0 {
        lemma_fields_passed(fields, obj, path, (n - 1) as nat);
        if let Step::Continue(res) = exec_fields(fields, obj, path, (n - 1) as nat) {
            if let Step::Continue(res2) = exec_fields(fields, obj, path, n) {
                let k = fields[n - 1].0;
                let e = fields[n - 1].1;
                let dv = lookup(obj, k)->0;
                assert(lookup(obj, k) is Some);
                let fp = spec_build_path(path, k);
                match e {
                    FieldModel::Nested(sub) => {
                        let v = match dv {
                            JsonModel::Array(items) => JsonModel::Array(
                                exec_collection(sub, items, fp)->Ok_0,
                            ),
                            _ => exec_node(sub, dv, fp)->Ok_0,
                        };
                        assert(res2 == crate::json::members_insert(res, k, v));
                        lemma_members_insert(res, k, v);
                    },
                    _ => {
                        if is_match_only(e) {
                            assert(res2 == res);
                        } else {
                            assert(res2 == crate::json::members_insert(res, k, dv));
                            lemma_members_insert(res, k, dv);
                        }
                    },
                }
                assert forall|k2: Seq<char>| #[trigger] has_name(res2, k2) implies exists|i: int|
                    0 <= i < n && #[trigger] fields[i].0 == k2 && !is_match_only(fields[i].1) by {
                    if k2 == k && !is_match_only(e) {
                        assert(fields[n - 1].0 == k2);
                    } else {
                        assert(has_name(res, k2));
                        let i = choose|i: int|
                            0 <= i < n - 1 && #[trigger] fields[i].0 == k2 && !is_match_only(
                                fields[i].1,
                            );
                        assert(fields[i].0 == k2);
                    }
                }
                assert forall|i: int|
                    0 <= i < n && returns_value(#[trigger] fields[i].1) && !nested_among(
                        fields,
                        n as int,
                        fields[i].0,
                    ) implies lookup(res2, fields[i].0) == lookup(obj, fields[i].0) by {
                    if fields[i].0 == k {
                        if e is Nested {
                            assert(fields[n - 1].0 == fields[i].0);
                        }
                    } else {
                        if i < n - 1 {
                            if nested_among(fields, n - 1, fields[i].0) {
                                let j = choose|j: int|
                                    0 <= j < n - 1 && #[trigger] fields[j].0 == fields[i].0
                                        && fields[j].1 is Nested;
                                assert(fields[j].0 == fields[i].0);
                            }
                        }
                    }
                }
                assert(fields_passed(fields, obj, path, n as int, res2));
            }
        }
    }
}

/// Absent fields are not returned, nor match-only ones: every field of a
/// matching result is named by a field of the query that is not match-only.
pub proof fn law_result_fields_come_from_query(q: QueryModel, doc: JsonModel, path: Seq<char>)
    ensures
        exec_node(q, doc, path) matches Ok(JsonModel::Object(res)) ==> forall|k: Seq<char>|
            #[trigger] has_name(res, k) ==> exists|i: int|
                0 <= i < q.fields.len() && #[trigger] q.fields[i].0 == k && !is_match_only(
                    q.fields[i].1,
                ),
{
    if let JsonModel::Object(obj) = doc {
        lemma_fields_passed(q.fields, obj, path, q.fields.len());
    }
}

/// A field that every mention in the query makes match-only is never
/// returned.
pub proof fn law_match_only_not_returned(q: QueryModel, doc: JsonModel, path: Seq<char>, k: Seq<char>)
    requires
        forall|i: int| 0 <= i < q.fields.len() && #[trigger] q.fields[i].0 == k ==> is_match_only(
            q.fields[i].1,
        ),
    ensures
        exec_node(q, doc, path) matches Ok(JsonModel::Object(res)) ==> !has_name(res, k),
{
    law_result_fields_come_from_query(q, doc, path);
}

/// Which field is missing: none of the first `n` fields is missing exactly
/// when the document has all of them; else the first it lacks.
pub proof fn lemma_missing_field(fields: Seq<(Seq<char>, FieldModel)>, obj: Seq<(Seq<char>, JsonModel)>, n: nat)
    requires
        n <= fields.len(),
    ensures
        (missing_field(fields, obj, n) is None) == (forall|i: int| 0 <= i < n ==> has_name(obj, #[trigger] fields[i].0)),
        missing_field(fields, obj, n) matches Some(name) ==> exists|i: int|
            0 <= i < n && #[trigger] fields[i].0 == name && !has_name(obj, name)
                && forall|j: int| 0 <= j < i ==> has_name(obj, #[trigger] fields[j].0),
    decreases n,
{
    if n > 0 {
        lemma_missing_field(fields, obj, (n - 1) as nat);
        if missing_field(fields, obj, (n - 1) as nat) is None && !has_name(obj, fields[n - 1].0) {
            assert(fields[n - 1].0 == fields[n - 1].0);
        }
    }
}

/// Strict field checking: a query runs without error against a document
/// only when the document has every field the query names, whether it
/// matches or not.
pub proof fn law_success_has_every_field(q: QueryModel, doc: JsonModel, path: Seq<char>)
    ensures
        exec_node(q, doc, path) is Ok ==> (doc matches JsonModel::Object(obj) && forall|i: int|
            0 <= i < q.fields.len() ==> has_name(obj, #[trigger] q.fields[i].0)),
{
    if let JsonModel::Object(obj) = doc {
        lemma_missing_field(q.fields, obj, q.fields.len());
    }
}

/// A query field absent from the document is reported, with its path, when
/// the document has every field before it, whatever the document holds.
pub proof fn law_missing_field_reported(
    q: QueryModel,
    obj: Seq<(Seq<char>, JsonModel)>,
    path: Seq<char>,
    i: nat,
)
    requires
        i < q.fields.len(),
        forall|j: int| 0 <= j < i ==> has_name(obj, #[trigger] q.fields[j].0),
        !has_name(obj, q.fields[i as int].0),
    ensures
        exec_node(q, JsonModel::Object(obj), path) == Err::<JsonModel, crate::executor::ExecErrorModel>(
            crate::executor::ExecErrorModel::MissingField {
                path: spec_build_path(path, q.fields[i as int].0),
            },
        ),
{
    lemma_missing_field(q.fields, obj, i);
    crate::executor::lemma_missing_field_stays(q.fields, obj, i + 1, q.fields.len());
}

/// Projection returns the document's value as it is: in a matching result,
/// a field the query projects (and does not also query as nested) holds the
/// document's value.
pub proof fn law_projection_returns_value(
    q: QueryModel,
    obj: Seq<(Seq<char>, JsonModel)>,
    path: Seq<char>,
    i: int,
)
    requires
        0 <= i < q.fields.len(),
        returns_value(q.fields[i].1),
        !nested_among(q.fields, q.fields.len() as int, q.fields[i].0),
    ensures
        exec_node(q, JsonModel::Object(obj), path) matches Ok(JsonModel::Object(res)) ==> lookup(
            res,
            q.fields[i].0,
        ) == lookup(obj, q.fields[i].0),
{
    lemma_fields_passed(q.fields, obj, path, q.fields.len());
}

/// A matching document satisfies every constraint of the query: literal
/// matches, operators, and match-only constraints.
pub proof fn law_match_satisfies_constraints(
    q: QueryModel,
    obj: Seq<(Seq<char>, JsonModel)>,
    path: Seq<char>,
    i: int,
)
    requires
        0 <= i < q.fields.len(),
    ensures
        exec_node(q, JsonModel::Object(obj), path) matches Ok(JsonModel::Object(_))
            ==> constraint_holds(
            q.fields[i].1,
            lookup(obj, q.fields[i].0)->0,
            spec_build_path(path, q.fields[i].0),
        ),
{
    lemma_fields_passed(q.fields, obj, path, q.fields.len());
}

/// A collection result never holds more members than the limit.
pub proof fn law_collection_within_limit(q: QueryModel, items: Seq<JsonModel>, path: Seq<char>)
    ensures
        exec_collection(q, items, path) matches Ok(r) ==> (q.opts.limit matches Some(l) ==> r.len()
            <= l),
{
}


// ---------------------------------------------------------------------------
// Ordering of collections
// ---------------------------------------------------------------------------
/// Byte-wise order reversed is byte-wise order with the sides swapped.
pub proof fn lemma_bytes_order_swap(a: Seq<u8>, b: Seq<u8>)
    ensures
        bytes_order(b, a) == bytes_order(a, b).spec_reverse(),
    decreases a.len(),
{
    if a.len() > 0 && b.len() > 0 && a[0] == b[0] {
        lemma_bytes_order_swap(a.drop_first(), b.drop_first());
    }
}

/// Byte-wise "not after" is transitive.
pub proof fn lemma_bytes_order_trans(a: Seq<u8>, b: Seq<u8>, c: Seq<u8>)
    requires
        bytes_order(a, b) != Compared::Greater,
        bytes_order(b, c) != Compared::Greater,
    ensures
        bytes_order(a, c) != Compared::Greater,
    decreases a.len(),
{
    if a.len() > 0 && b.len() > 0 && c.len() > 0 && a[0] == b[0] && b[0] == c[0] {
        lemma_bytes_order_trans(a.drop_first(), b.drop_first(), c.drop_first());
    }
}

/// Whether the value of `field` in `v` is a number other than NaN (when
/// `strings` is false), or a string (when it is true).
pub open spec fn key_of_kind(v: (JsonModel, JsonModel), field: Seq<char>, strings: bool) -> bool {
    match v.0.get(field) {
        Some(JsonModel::Number(n)) => !strings && !n.spec_is_nan(),
        Some(JsonModel::Str(_)) => strings,
        _ => false,
    }
}

/// Whether every element orders by a key of one kind: all numbers (none NaN)
/// or all strings.
pub open spec fn keys_of_one_kind(s: Seq<(JsonModel, JsonModel)>, field: Seq<char>) -> bool {
    ||| forall|i: int| 0 <= i < s.len() ==> key_of_kind(#[trigger] s[i], field, false)
    ||| forall|i: int| 0 <= i < s.len() ==> key_of_kind(#[trigger] s[i], field, true)
}

/// Whether a sequence is in order: no element orders after a later one.
pub open spec fn in_order(s: Seq<(JsonModel, JsonModel)>, field: Seq<char>, descending: bool) -> bool {
    forall|i: int, j: int|
        0 <= i < j < s.len() ==> item_order(#[trigger] s[i], #[trigger] s[j], field, descending)
            != Compared::Greater
}

/// Keys of one kind order as a total preorder.
pub proof fn lemma_item_order_preorder(
    a: (JsonModel, JsonModel),
    b: (JsonModel, JsonModel),
    c: (JsonModel, JsonModel),
    field: Seq<char>,
    descending: bool,
    strings: bool,
)
    requires
        key_of_kind(a, field, strings),
        key_of_kind(b, field, strings),
        key_of_kind(c, field, strings),
    ensures
        item_order(b, a, field, descending) == item_order(a, b, field, descending).spec_reverse(),
        item_order(a, b, field, descending) != Compared::Greater && item_order(
            b,
            c,
            field,
            descending,
        ) != Compared::Greater ==> item_order(a, c, field, descending) != Compared::Greater,
{
    if strings {
        let ka = a.0.get(field)->0->Str_0;
        let kb = b.0.get(field)->0->Str_0;
        let kc = c.0.get(field)->0->Str_0;
        let ea = vstd::utf8::encode_utf8(ka);
        let eb = vstd::utf8::encode_utf8(kb);
        let ec = vstd::utf8::encode_utf8(kc);
        lemma_bytes_order_swap(ea, eb);
        lemma_bytes_order_swap(eb, ec);
        lemma_bytes_order_swap(ea, ec);
        if !descending {
            if bytes_order(ea, eb) != Compared::Greater && bytes_order(eb, ec) != Compared::Greater {
                lemma_bytes_order_trans(ea, eb, ec);
            }
        } else {
            if bytes_order(ec, eb) != Compared::Greater && bytes_order(eb, ea) != Compared::Greater {
                lemma_bytes_order_trans(ec, eb, ea);
            }
        }
    }
}

/// Inserting keeps what the sequence holds, plus the new element.
pub proof fn lemma_insert_sorted_multiset(s: Seq<(JsonModel, JsonModel)>, x: (JsonModel, JsonModel), field: Seq<char>, descending: bool)
    ensures
        insert_sorted(s, x, field, descending).to_multiset() =~= s.to_multiset().insert(x),
    decreases s.len(),
{
    broadcast use vstd::seq_lib::group_to_multiset_ensures;

    if s.len() > 0 {
        let init = s.drop_last();
        assert(init.push(s.last()) =~= s);
        if item_order(s.last(), x, field, descending) == Compared::Greater {
            lemma_insert_sorted_multiset(init, x, field, descending);
        }
    } else {
        assert(seq![x] =~= Seq::<(JsonModel, JsonModel)>::empty().push(x));
    }
}

/// Sorting keeps what the sequence holds: the result is a permutation.
pub proof fn law_sort_is_permutation(s: Seq<(JsonModel, JsonModel)>, field: Seq<char>, descending: bool)
    ensures
        sort_items(s, field, descending).to_multiset() =~= s.to_multiset(),
    decreases s.len(),
{
    broadcast use vstd::seq_lib::group_to_multiset_ensures;

    if s.len() > 0 {
        let init = s.drop_last();
        assert(init.push(s.last()) =~= s);
        law_sort_is_permutation(init, field, descending);
        lemma_insert_sorted_multiset(sort_items(init, field, descending), s.last(), field, descending);
    }
}

/// An element of a sequence with the same contents as `t` plus `x` is `x`
/// or an element of `t`.
pub proof fn lemma_element_of_insert(r: Seq<(JsonModel, JsonModel)>, t: Seq<(JsonModel, JsonModel)>, x: (JsonModel, JsonModel), i: int)
    requires
        r.to_multiset() =~= t.to_multiset().insert(x),
        0 <= i < r.len(),
    ensures
        r[i] == x || t.contains(r[i]),
{
    broadcast use vstd::seq_lib::group_to_multiset_ensures, vstd::multiset::group_multiset_axioms;

    assert(r.contains(r[i]));
    assert(r.to_multiset().count(r[i]) > 0);
    if r[i] != x {
        assert(t.to_multiset().count(r[i]) > 0);
    }
}

/// Inserting into a sequence in order, with keys of one kind, keeps it in
/// order.
pub proof fn lemma_insert_sorted_in_order(
    s: Seq<(JsonModel, JsonModel)>,
    x: (JsonModel, JsonModel),
    field: Seq<char>,
    descending: bool,
    strings: bool,
)
    requires
        in_order(s, field, descending),
        forall|i: int| 0 <= i < s.len() ==> key_of_kind(#[trigger] s[i], field, strings),
        key_of_kind(x, field, strings),
    ensures
        in_order(insert_sorted(s, x, field, descending), field, descending),
    decreases s.len(),
{
    if s.len() > 0 {
        let init = s.drop_last();
        let last = s.last();
        if item_order(last, x, field, descending) == Compared::Greater {
            lemma_insert_sorted_in_order(init, x, field, descending, strings);
            let r1 = insert_sorted(init, x, field, descending);
            lemma_insert_sorted_multiset(init, x, field, descending);
            let r = r1.push(last);
            assert forall|i: int, j: int| 0 <= i < j < r.len() implies item_order(
                #[trigger] r[i],
                #[trigger] r[j],
                field,
                descending,
            ) != Compared::Greater by {
                if j == r.len() - 1 {
                    lemma_element_of_insert(r1, init, x, i);
                    assert(r[i] == r1[i]);
                    if r1[i] == x {
                        lemma_item_order_preorder(last, x, x, field, descending, strings);
                    } else {
                        let k = choose|k: int| 0 <= k < init.len() && init[k] == r1[i];
                        assert(s[k] == init[k]);
                        assert(item_order(s[k], s[s.len() - 1], field, descending) != Compared::Greater);
                    }
                } else {
                    assert(r[i] == r1[i] && r[j] == r1[j]);
                }
            }
        } else {
            let r = s.push(x);
            assert forall|i: int, j: int| 0 <= i < j < r.len() implies item_order(
                #[trigger] r[i],
                #[trigger] r[j],
                field,
                descending,
            ) != Compared::Greater by {
                if j == r.len() - 1 {
                    if i < s.len() - 1 {
                        assert(item_order(s[i], s[s.len() - 1], field, descending) != Compared::Greater);
                        lemma_item_order_preorder(s[i], last, x, field, descending, strings);
                    }
                } else {
                    assert(r[i] == s[i] && r[j] == s[j]);
                }
            }
        }
    }
}

/// Sorting by a key of one kind puts the elements in order.
pub proof fn law_sort_orders(s: Seq<(JsonModel, JsonModel)>, field: Seq<char>, descending: bool)
    requires
        keys_of_one_kind(s, field),
    ensures
        in_order(sort_items(s, field, descending), field, descending),
    decreases s.len(),
{
    broadcast use vstd::seq_lib::group_to_multiset_ensures;

    if s.len() > 0 {
        let strings = forall|i: int| 0 <= i < s.len() ==> key_of_kind(#[trigger] s[i], field, true);
        let init = s.drop_last();
        assert(keys_of_one_kind(init, field)) by {
            if strings {
                assert forall|i: int| 0 <= i < init.len() implies key_of_kind(
                    #[trigger] init[i],
                    field,
                    true,
                ) by {
                    assert(init[i] == s[i]);
                }
            } else {
                assert forall|i: int| 0 <= i < init.len() implies key_of_kind(
                    #[trigger] init[i],
                    field,
                    false,
                ) by {
                    assert(init[i] == s[i]);
                }
            }
        }
        law_sort_orders(init, field, descending);
        let sorted = sort_items(init, field, descending);
        law_sort_is_permutation(init, field, descending);
        assert forall|i: int| 0 <= i < sorted.len() implies key_of_kind(
            #[trigger] sorted[i],
            field,
            strings,
        ) by {
            assert(sorted.contains(sorted[i]));
            assert(sorted.to_multiset().count(sorted[i]) > 0);
            assert(init.contains(sorted[i]));
            let k = choose|k: int| 0 <= k < init.len() && init[k] == sorted[i];
            assert(s[k] == init[k]);
        }
        assert(key_of_kind(s[s.len() - 1], field, strings));
        lemma_insert_sorted_in_order(sorted, s.last(), field, descending, strings);
    }
}


/// Whether `a` orders level with `b` by `field`: neither orders before the
/// other.
pub open spec fn same_key(a: (JsonModel, JsonModel), b: (JsonModel, JsonModel), field: Seq<char>) -> bool {
    item_order(a, b, field, false) == Compared::Equal
}

/// Whether an element orders level with `y` by `field`.
pub open spec fn level_with(y: (JsonModel, JsonModel), field: Seq<char>) -> spec_fn((JsonModel, JsonModel)) -> bool {
    |a: (JsonModel, JsonModel)| same_key(a, y, field)
}

/// Filtering a sequence with one more element at its end.
proof fn lemma_filter_push<A>(s: Seq<A>, a: A, p: spec_fn(A) -> bool)
    ensures
        s.push(a).filter(p) == (if p(a) {
            s.filter(p).push(a)
        } else {
            s.filter(p)
        }),
{
    reveal(Seq::filter);
    assert(s.push(a).drop_last() =~= s);
}

/// Two elements level with a third are level with each other, in either
/// direction.
proof fn lemma_level_with_same(a: (JsonModel, JsonModel), x: (JsonModel, JsonModel), y: (JsonModel, JsonModel), field: Seq<char>, descending: bool, strings: bool)
    requires
        key_of_kind(a, field, strings),
        key_of_kind(x, field, strings),
        key_of_kind(y, field, strings),
        same_key(a, y, field),
        same_key(x, y, field),
    ensures
        item_order(a, x, field, descending) == Compared::Equal,
{
    lemma_item_order_preorder(a, y, x, field, false, strings);
    lemma_item_order_preorder(x, y, a, field, false, strings);
    lemma_item_order_preorder(x, a, y, field, false, strings);
}

/// Inserting `x` keeps the elements level with `y` in the order they had,
/// with `x` behind them when it is level with `y` too.
proof fn lemma_insert_sorted_level(
    t: Seq<(JsonModel, JsonModel)>,
    x: (JsonModel, JsonModel),
    y: (JsonModel, JsonModel),
    field: Seq<char>,
    descending: bool,
    strings: bool,
)
    requires
        forall|i: int| 0 <= i < t.len() ==> key_of_kind(#[trigger] t[i], field, strings),
        key_of_kind(x, field, strings),
        key_of_kind(y, field, strings),
    ensures
        insert_sorted(t, x, field, descending).filter(level_with(y, field)) == (if same_key(x, y, field) {
            t.filter(level_with(y, field)).push(x)
        } else {
            t.filter(level_with(y, field))
        }),
    decreases t.len(),
{
    let p = level_with(y, field);
    if t.len() == 0 {
        assert(seq![x] =~= t.push(x));
        lemma_filter_push(t, x, p);
    } else {
        let init = t.drop_last();
        let last = t.last();
        assert(init.push(last) =~= t);
        lemma_filter_push(init, last, p);
        if item_order(last, x, field, descending) == Compared::Greater {
            assert forall|i: int| 0 <= i < init.len() implies key_of_kind(
                #[trigger] init[i],
                field,
                strings,
            ) by {
                assert(init[i] == t[i]);
            }
            lemma_insert_sorted_level(init, x, y, field, descending, strings);
            lemma_filter_push(insert_sorted(init, x, field, descending), last, p);
            if same_key(x, y, field) && same_key(last, y, field) {
                lemma_level_with_same(last, x, y, field, descending, strings);
            }
        } else {
            lemma_filter_push(t, x, p);
        }
    }
}

/// Sorting keeps the elements level with `y` in the order they had.
proof fn lemma_sort_level(s: Seq<(JsonModel, JsonModel)>, y: (JsonModel, JsonModel), field: Seq<char>, descending: bool, strings: bool)
    requires
        forall|i: int| 0 <= i < s.len() ==> key_of_kind(#[trigger] s[i], field, strings),
        key_of_kind(y, field, strings),
    ensures
        sort_items(s, field, descending).filter(level_with(y, field)) == s.filter(level_with(y, field)),
    decreases s.len(),
{
    broadcast use vstd::seq_lib::group_to_multiset_ensures;

    if s.len() > 0 {
        let init = s.drop_last();
        let last = s.last();
        assert(init.push(last) =~= s);
        assert forall|i: int| 0 <= i < init.len() implies key_of_kind(
            #[trigger] init[i],
            field,
            strings,
        ) by {
            assert(init[i] == s[i]);
        }
        lemma_sort_level(init, y, field, descending, strings);
        let sorted = sort_items(init, field, descending);
        law_sort_is_permutation(init, field, descending);
        assert forall|i: int| 0 <= i < sorted.len() implies key_of_kind(
            #[trigger] sorted[i],
            field,
            strings,
        ) by {
            assert(sorted.contains(sorted[i]));
            assert(sorted.to_multiset().count(sorted[i]) > 0);
            assert(init.contains(sorted[i]));
        }
        assert(key_of_kind(last, field, strings));
        lemma_insert_sorted_level(sorted, last, y, field, descending, strings);
        lemma_filter_push(init, last, level_with(y, field));
    }
}

/// Sorting is stable: for keys of one kind, the elements whose key is level
/// with that of an element `y` come out in the order they went in.
pub proof fn law_sort_is_stable(s: Seq<(JsonModel, JsonModel)>, y: (JsonModel, JsonModel), field: Seq<char>, descending: bool)
    requires
        keys_of_one_kind(s, field),
        s.contains(y),
    ensures
        sort_items(s, field, descending).filter(level_with(y, field)) == s.filter(level_with(y, field)),
{
    let strings = forall|i: int| 0 <= i < s.len() ==> key_of_kind(#[trigger] s[i], field, true);
    let k = choose|k: int| 0 <= k < s.len() && s[k] == y;
    assert(key_of_kind(s[k], field, strings));
    lemma_sort_level(s, y, field, descending, strings);
}

// ---------------------------------------------------------------------------
// Collections
// ---------------------------------------------------------------------------
/// Whether `v` is the result of a query node for element `j` of a collection
/// that matched.
pub open spec fn matched_element(q: QueryModel, items: Seq<JsonModel>, path: Seq<char>, j: int, v: JsonModel) -> bool {
    &&& 0 <= j < items.len()
    &&& exec_node(q, items[j], item_path(path, j as nat)) == Ok::<JsonModel, crate::executor::ExecErrorModel>(v)
    &&& !(v is Null)
}

/// Whether `v` is the result of one of the first `n` elements of a
/// collection that matched.
pub open spec fn result_of_match(q: QueryModel, items: Seq<JsonModel>, path: Seq<char>, n: int, v: JsonModel) -> bool {
    exists|j: int| j < n && #[trigger] matched_element(q, items, path, j, v)
}

/// The matches collected from the first `n` elements are exactly the
/// elements that matched, each with its result, in order.
pub proof fn lemma_collect_items_elements(q: QueryModel, items: Seq<JsonModel>, path: Seq<char>, n: nat)
    requires
        n <= items.len(),
    ensures
        collect_items(q, items, path, n) matches Ok(acc) ==> {
            &&& forall|k: int| 0 <= k < acc.len() ==> result_of_match(q, items, path, n as int, #[trigger] acc[k].1)
            &&& forall|j: int, v: JsonModel| j < n && #[trigger] matched_element(q, items, path, j, v) ==> acc.contains((items[j], v))
        },
    decreases n,
{
    if n > 0 {
        lemma_collect_items_elements(q, items, path, (n - 1) as nat);
        if let Ok(acc) = collect_items(q, items, path, n) {
            let prev = collect_items(q, items, path, (n - 1) as nat)->Ok_0;
            assert forall|k: int| 0 <= k < acc.len() implies result_of_match(q, items, path, n as int, #[trigger] acc[k].1) by {
                if k < prev.len() {
                    assert(acc[k] == prev[k]);
                    assert(result_of_match(q, items, path, n - 1, prev[k].1));
                    let j = choose|j: int| j < n - 1 && #[trigger] matched_element(q, items, path, j, prev[k].1);
                    assert(matched_element(q, items, path, j, acc[k].1));
                } else {
                    assert(matched_element(q, items, path, n - 1, acc[k].1));
                }
            }
            assert forall|j: int, v: JsonModel| j < n && #[trigger] matched_element(q, items, path, j, v) implies acc.contains((items[j], v)) by {
                if j < n - 1 {
                    assert(prev.contains((items[j], v)));
                    let k = choose|k: int| 0 <= k < prev.len() && prev[k] == (items[j], v);
                    assert(acc[k] == prev[k]);
                } else {
                    assert(acc[acc.len() - 1] == (items[j], v));
                }
            }
        }
    }
}

/// The elements that a collection query returns are among those that
/// matched, and with no offset and no limit they are all of them.
proof fn lemma_chosen_matches(opts: OptsModel, matched: Seq<(JsonModel, JsonModel)>)
    ensures
        forall|k: int| 0 <= k < chosen_matches(opts, matched).len() ==> matched.contains(#[trigger] chosen_matches(opts, matched)[k]),
        opts.offset is None && opts.limit is None ==> chosen_matches(opts, matched).to_multiset() =~= matched.to_multiset(),
{
    broadcast use vstd::seq_lib::group_to_multiset_ensures;

    let ordered = match opts.order_by {
        Some(field) => sort_items(matched, field, opts.order_dir == Some(OrderDir::Desc)),
        None => matched,
    };
    if let Some(field) = opts.order_by {
        law_sort_is_permutation(matched, field, opts.order_dir == Some(OrderDir::Desc));
    }
    let offset = match opts.offset {
        Some(o) => o as int,
        None => 0,
    };
    let chosen = chosen_matches(opts, matched);
    assert forall|k: int| 0 <= k < chosen.len() implies matched.contains(#[trigger] chosen[k]) by {
        assert(chosen[k] == ordered[offset + k]);
        assert(ordered.contains(ordered[offset + k]));
        assert(ordered.to_multiset().count(chosen[k]) > 0);
    }
    if opts.offset is None && opts.limit is None {
        assert(ordered.skip(0) =~= ordered);
    }
}

/// Every member of a collection result is the result of an element of the
/// collection that matched the query.
pub proof fn law_collection_members_match(q: QueryModel, items: Seq<JsonModel>, path: Seq<char>)
    ensures
        exec_collection(q, items, path) matches Ok(r) ==> forall|k: int|
            0 <= k < r.len() ==> result_of_match(q, items, path, items.len() as int, #[trigger] r[k]),
{
    lemma_collect_items_elements(q, items, path, items.len());
    if let Ok(r) = exec_collection(q, items, path) {
        let matched = collect_items(q, items, path, items.len())->Ok_0;
        let chosen = chosen_matches(q.opts, matched);
        lemma_chosen_matches(q.opts, matched);
        assert forall|k: int| 0 <= k < r.len() implies result_of_match(q, items, path, items.len() as int, #[trigger] r[k]) by {
            assert(r[k] == chosen[k].1);
            assert(matched.contains(chosen[k]));
            let m = choose|m: int| 0 <= m < matched.len() && matched[m] == chosen[k];
            assert(result_of_match(q, items, path, items.len() as int, matched[m].1));
        }
    }
}

/// With no offset and no limit, a collection result holds every element
/// that matched the query.
pub proof fn law_collection_keeps_every_match(q: QueryModel, items: Seq<JsonModel>, path: Seq<char>, j: int, v: JsonModel)
    requires
        q.opts.offset is None,
        q.opts.limit is None,
        matched_element(q, items, path, j, v),
    ensures
        exec_collection(q, items, path) matches Ok(r) ==> r.contains(v),
{
    broadcast use vstd::seq_lib::group_to_multiset_ensures;

    lemma_collect_items_elements(q, items, path, items.len());
    if let Ok(r) = exec_collection(q, items, path) {
        let matched = collect_items(q, items, path, items.len())->Ok_0;
        let chosen = chosen_matches(q.opts, matched);
        lemma_chosen_matches(q.opts, matched);
        assert(matched.contains((items[j], v)));
        assert(matched.to_multiset().count((items[j], v)) > 0);
        assert(chosen.to_multiset().count((items[j], v)) > 0);
        assert(chosen.contains((items[j], v)));
        let k = choose|k: int| 0 <= k < chosen.len() && chosen[k] == (items[j], v);
        assert(r[k] == v);
    }
}

/// A collection query that orders by a field whose values in the matching
/// elements are all numbers (none NaN) or all strings returns the results of
/// elements in that order, whether or not the field itself is returned.
pub proof fn law_collection_ordered(q: QueryModel, items: Seq<JsonModel>, path: Seq<char>, field: Seq<char>)
    requires
        q.opts.order_by == Some(field),
        collect_items(q, items, path, items.len()) matches Ok(matched) && keys_of_one_kind(matched, field),
    ensures
        collect_items(q, items, path, items.len()) matches Ok(matched) && {
            let chosen = chosen_matches(q.opts, matched);
            &&& exec_collection(q, items, path) == Ok::<Seq<JsonModel>, crate::executor::ExecErrorModel>(results_of(chosen))
            &&& in_order(chosen, field, q.opts.order_dir == Some(OrderDir::Desc))
        },
{
    let matched = collect_items(q, items, path, items.len())->Ok_0;
    let desc = q.opts.order_dir == Some(OrderDir::Desc);
    law_sort_orders(matched, field, desc);
    let sorted = sort_items(matched, field, desc);
    let r = apply_window(sorted, q.opts);
    let offset = match q.opts.offset {
        Some(o) => o as int,
        None => 0,
    };
    assert forall|i: int, j: int| 0 <= i < j < r.len() implies item_order(#[trigger] r[i], #[trigger] r[j], field, desc) != Compared::Greater by {
        assert(r[i] == sorted[offset + i]);
        assert(r[j] == sorted[offset + j]);
    }
}


/// Whether each matching element's result holds the element's own value of
/// `field`, as it does when the query returns that field.
pub open spec fn returns_field(matched: Seq<(JsonModel, JsonModel)>, field: Seq<char>) -> bool {
    forall|k: int| 0 <= k < matched.len() ==> (#[trigger] matched[k]).1.get(field) == matched[k].0.get(field)
}

/// How two results compare by their own values of `field`.
pub open spec fn result_order(a: JsonModel, b: JsonModel, field: Seq<char>, descending: bool) -> Compared {
    let o = compare_keys(a.get(field), b.get(field));
    if descending {
        o.spec_reverse()
    } else {
        o
    }
}

/// Whether a result's value of `field` is level with that of `y`.
pub open spec fn result_level_with(y: JsonModel, field: Seq<char>) -> spec_fn(JsonModel) -> bool {
    |a: JsonModel| compare_keys(a.get(field), y.get(field)) == Compared::Equal
}

/// Inserting keeps the results held, plus the new one.
proof fn lemma_insert_sorted_results(
    t: Seq<(JsonModel, JsonModel)>,
    x: (JsonModel, JsonModel),
    field: Seq<char>,
    descending: bool,
)
    ensures
        results_of(insert_sorted(t, x, field, descending)).to_multiset() =~= results_of(t).to_multiset().insert(x.1),
    decreases t.len(),
{
    broadcast use vstd::seq_lib::group_to_multiset_ensures;

    if t.len() > 0 {
        let init = t.drop_last();
        assert(init.push(t.last()) =~= t);
        assert(results_of(t) =~= results_of(init).push(t.last().1));
        if item_order(t.last(), x, field, descending) == Compared::Greater {
            lemma_insert_sorted_results(init, x, field, descending);
            let ins = insert_sorted(init, x, field, descending);
            assert(results_of(ins.push(t.last())) =~= results_of(ins).push(t.last().1));
        } else {
            assert(results_of(t.push(x)) =~= results_of(t).push(x.1));
        }
    } else {
        assert(results_of(seq![x]) =~= Seq::<JsonModel>::empty().push(x.1));
        assert(results_of(t) =~= Seq::<JsonModel>::empty());
    }
}

/// Sorting keeps the results held.
proof fn lemma_sort_results(s: Seq<(JsonModel, JsonModel)>, field: Seq<char>, descending: bool)
    ensures
        results_of(sort_items(s, field, descending)).to_multiset() =~= results_of(s).to_multiset(),
    decreases s.len(),
{
    broadcast use vstd::seq_lib::group_to_multiset_ensures;

    if s.len() > 0 {
        let init = s.drop_last();
        assert(init.push(s.last()) =~= s);
        assert(results_of(s) =~= results_of(init).push(s.last().1));
        lemma_sort_results(init, field, descending);
        lemma_insert_sorted_results(sort_items(init, field, descending), s.last(), field, descending);
    } else {
        assert(results_of(s) =~= Seq::<JsonModel>::empty());
    }
}

/// Filtering results is filtering the elements by their results.
proof fn lemma_results_filter(s: Seq<(JsonModel, JsonModel)>, p: spec_fn(JsonModel) -> bool)
    ensures
        results_of(s).filter(p) == results_of(s.filter(|e: (JsonModel, JsonModel)| p(e.1))),
    decreases s.len(),
{
    let q = |e: (JsonModel, JsonModel)| p(e.1);
    if s.len() == 0 {
        reveal(Seq::filter);
        assert(results_of(s) =~= Seq::<JsonModel>::empty());
        assert(results_of(s.filter(q)) =~= Seq::<JsonModel>::empty());
    } else {
        let init = s.drop_last();
        assert(init.push(s.last()) =~= s);
        lemma_results_filter(init, p);
        assert(results_of(s) =~= results_of(init).push(s.last().1));
        lemma_filter_push(results_of(init), s.last().1, p);
        lemma_filter_push(init, s.last(), q);
        let f = init.filter(q);
        assert(results_of(f.push(s.last())) =~= results_of(f).push(s.last().1));
    }
}

/// Two predicates that agree on every element filter alike.
proof fn lemma_filter_agree<A>(s: Seq<A>, p: spec_fn(A) -> bool, q: spec_fn(A) -> bool)
    requires
        forall|k: int| 0 <= k < s.len() ==> p(#[trigger] s[k]) == q(s[k]),
    ensures
        s.filter(p) == s.filter(q),
    decreases s.len(),
{
    if s.len() == 0 {
        reveal(Seq::filter);
    } else {
        let init = s.drop_last();
        assert(init.push(s.last()) =~= s);
        assert forall|k: int| 0 <= k < init.len() implies p(#[trigger] init[k]) == q(init[k]) by {
            assert(init[k] == s[k]);
        }
        lemma_filter_agree(init, p, q);
        lemma_filter_push(init, s.last(), p);
        lemma_filter_push(init, s.last(), q);
        assert(p(s[s.len() - 1]) == q(s[s.len() - 1]));
    }
}

/// Ordering a collection by a field that the query returns orders the
/// returned items by their own values of that field, when those values are
/// all numbers (none NaN) or all strings. With no offset and no limit, the
/// items are exactly the results of the matching elements, and items whose
/// values of the field are level keep the order of their elements in the
/// collection.
pub proof fn law_collection_results_ordered(q: QueryModel, items: Seq<JsonModel>, path: Seq<char>, field: Seq<char>)
    requires
        q.opts.order_by == Some(field),
        collect_items(q, items, path, items.len()) matches Ok(matched) && keys_of_one_kind(matched, field)
            && returns_field(matched, field),
    ensures
        exec_collection(q, items, path) matches Ok(r) && collect_items(q, items, path, items.len()) matches Ok(matched) && {
            let desc = q.opts.order_dir == Some(OrderDir::Desc);
            &&& forall|i: int, j: int|
                0 <= i < j < r.len() ==> result_order(#[trigger] r[i], #[trigger] r[j], field, desc) != Compared::Greater
            &&& q.opts.offset is None && q.opts.limit is None ==> r.to_multiset() =~= results_of(matched).to_multiset()
            &&& q.opts.offset is None && q.opts.limit is None ==> forall|y: JsonModel|
                #[trigger] results_of(matched).contains(y) ==> r.filter(result_level_with(y, field))
                    == results_of(matched).filter(result_level_with(y, field))
        },
{
    let matched = collect_items(q, items, path, items.len())->Ok_0;
    let desc = q.opts.order_dir == Some(OrderDir::Desc);
    law_collection_ordered(q, items, path, field);
    lemma_chosen_matches(q.opts, matched);
    let chosen = chosen_matches(q.opts, matched);
    let r = results_of(chosen);
    assert forall|k: int| 0 <= k < chosen.len() implies (#[trigger] chosen[k]).1.get(field) == chosen[k].0.get(field) by {
        assert(matched.contains(chosen[k]));
        let m = choose|m: int| 0 <= m < matched.len() && matched[m] == chosen[k];
        assert(matched[m].1.get(field) == matched[m].0.get(field));
    }
    assert forall|i: int, j: int| 0 <= i < j < r.len() implies result_order(#[trigger] r[i], #[trigger] r[j], field, desc)
        != Compared::Greater by {
        assert(r[i] == chosen[i].1 && r[j] == chosen[j].1);
        assert(chosen[i].1.get(field) == chosen[i].0.get(field));
        assert(chosen[j].1.get(field) == chosen[j].0.get(field));
        assert(item_order(chosen[i], chosen[j], field, desc) != Compared::Greater);
    }
    if q.opts.offset is None && q.opts.limit is None {
        let sorted = sort_items(matched, field, desc);
        assert(sorted.skip(0) =~= sorted);
        assert(chosen == sorted);
        lemma_sort_results(matched, field, desc);
        assert forall|y: JsonModel| #[trigger] results_of(matched).contains(y) implies r.filter(result_level_with(y, field))
            == results_of(matched).filter(result_level_with(y, field)) by {
            let p = result_level_with(y, field);
            let k = choose|k: int| 0 <= k < results_of(matched).len() && results_of(matched)[k] == y;
            let yp = matched[k];
            assert(yp.1 == y);
            assert(yp.1.get(field) == yp.0.get(field));
            let by_result = |e: (JsonModel, JsonModel)| p(e.1);
            lemma_results_filter(sorted, p);
            lemma_results_filter(matched, p);
            assert forall|m: int| 0 <= m < sorted.len() implies by_result(#[trigger] sorted[m]) == level_with(yp, field)(sorted[m]) by {
                assert(sorted[m] == chosen[m]);
                assert(chosen[m].1.get(field) == chosen[m].0.get(field));
            }
            lemma_filter_agree(sorted, by_result, level_with(yp, field));
            assert forall|m: int| 0 <= m < matched.len() implies by_result(#[trigger] matched[m]) == level_with(yp, field)(matched[m]) by {
                assert(matched[m].1.get(field) == matched[m].0.get(field));
            }
            lemma_filter_agree(matched, by_result, level_with(yp, field));
            assert(matched.contains(yp));
            law_sort_is_stable(matched, yp, field, desc);
        }
    }
}


/// The matches collected from elements that all fail to match are none.
proof fn lemma_collect_no_match(q: QueryModel, items: Seq<JsonModel>, path: Seq<char>, n: nat)
    requires
        n <= items.len(),
        forall|j: int|
            0 <= j < items.len() ==> #[trigger] exec_node(q, items[j], item_path(path, j as nat))
                == Ok::<JsonModel, crate::executor::ExecErrorModel>(JsonModel::Null),
    ensures
        collect_items(q, items, path, n) == Ok::<Seq<(JsonModel, JsonModel)>, crate::executor::ExecErrorModel>(
            Seq::empty(),
        ),
    decreases n,
{
    if n > 0 {
        lemma_collect_no_match(q, items, path, (n - 1) as nat);
        assert(exec_node(q, items[n - 1], item_path(path, (n - 1) as nat)) == Ok::<
            JsonModel,
            crate::executor::ExecErrorModel,
        >(JsonModel::Null));
    }
}

/// A collection none of whose elements matches gives an empty result.
pub proof fn law_collection_without_matches_is_empty(q: QueryModel, items: Seq<JsonModel>, path: Seq<char>)
    requires
        forall|j: int|
            0 <= j < items.len() ==> #[trigger] exec_node(q, items[j], item_path(path, j as nat))
                == Ok::<JsonModel, crate::executor::ExecErrorModel>(JsonModel::Null),
    ensures
        exec_collection(q, items, path) == Ok::<Seq<JsonModel>, crate::executor::ExecErrorModel>(
            Seq::empty(),
        ),
{
    lemma_collect_no_match(q, items, path, items.len());
    let empty = Seq::<(JsonModel, JsonModel)>::empty();
    if let Some(field) = q.opts.order_by {
        assert(sort_items(empty, field, q.opts.order_dir == Some(OrderDir::Desc)) == empty);
    }
    assert(apply_window(empty, q.opts) =~= empty);
    assert(results_of(empty) =~= Seq::<JsonModel>::empty());
}


// ---------------------------------------------------------------------------
// Parsing
// ---------------------------------------------------------------------------
/// Whether a member name is a collection key (`^`, `v`, `#` or `@`).
pub open spec fn is_collection_key(k: Seq<char>) -> bool {
    k == "^"@ || k == "v"@ || k == "#"@ || k == "@"@
}

/// The members of a query object that are not collection keys, in order.
pub open spec fn field_members(ms: Seq<(Seq<char>, JsonModel)>) -> Seq<(Seq<char>, JsonModel)>
    decreases ms.len(),
{
    if ms.len() == 0 {
        Seq::empty()
    } else {
        let init = field_members(ms.subrange(0, ms.len() - 1));
        if is_collection_key(ms[ms.len() - 1].0) {
            init
        } else {
            init.push(ms[ms.len() - 1])
        }
    }
}

/// Collection keys are consumed; every other member of a query object
/// becomes a field entry of the same name, in the order written, meaning
/// what its value means on its own.
pub proof fn law_parse_fields(ms: Seq<(Seq<char>, JsonModel)>)
    ensures
        parse_members(ms) matches Ok(q) ==> {
            &&& q.fields.len() == field_members(ms).len()
            &&& forall|i: int|
                0 <= i < q.fields.len() ==> #[trigger] q.fields[i].0 == field_members(ms)[i].0
                    && parse_entry(field_members(ms)[i].1) == Ok::<
                    FieldModel,
                    crate::parser::ParseErrorModel,
                >(q.fields[i].1)
        },
    decreases ms.len(),
{
    if ms.len() > 0 {
        let init = ms.subrange(0, ms.len() - 1);
        law_parse_fields(init);
        if let Ok(q) = parse_members(ms) {
            let q0 = parse_members(init)->Ok_0;
            let fm0 = field_members(init);
            assert forall|i: int| 0 <= i < q.fields.len() implies #[trigger] q.fields[i].0
                == field_members(ms)[i].0 && parse_entry(field_members(ms)[i].1) == Ok::<
                FieldModel,
                crate::parser::ParseErrorModel,
            >(q.fields[i].1) by {
                if i < q0.fields.len() {
                    assert(q.fields[i] == q0.fields[i]);
                    assert(field_members(ms)[i] == fm0[i]);
                    assert(q0.fields[i].0 == fm0[i].0);
                }
            }
        }
    }
}

// ---------------------------------------------------------------------------
// Replies
// ---------------------------------------------------------------------------
/// A query is answered with 200 exactly when it runs without error against
/// the document found; a document that does not match is answered with `{}`.
pub proof fn law_reply_to_found_document(q: QueryModel, url_path: Seq<char>, doc: JsonModel)
    ensures
        (query_reply_model(q, url_path, LookupModel::Found(doc)).status == 200) == (spec_execute(
            q,
            doc,
        ) is Ok),
        spec_execute(q, doc) == Ok::<JsonModel, crate::executor::ExecErrorModel>(JsonModel::Null)
            ==> query_reply_model(q, url_path, LookupModel::Found(doc)) == (ReplyModel {
            status: 200,
            body: JsonModel::Object(Seq::empty()),
        }),
{
}


// ---------------------------------------------------------------------------
// Operators, keys and request bodies
// ---------------------------------------------------------------------------
/// An operator error names the key the client wrote: the symbol of an
/// operator is the key it was parsed from.
pub proof fn law_op_symbol_is_key(k: Seq<char>, v: JsonModel)
    ensures
        parse_operator(k, v) matches Ok(Some(op)) ==> spec_op_symbol(op) == k,
{
}

/// Byte-wise order puts every byte sequence level with itself.
pub proof fn lemma_bytes_order_reflexive(a: Seq<u8>)
    ensures
        bytes_order(a, a) == Compared::Equal,
    decreases a.len(),
{
    if a.len() > 0 {
        lemma_bytes_order_reflexive(a.drop_first());
    }
}

/// Ordering keys compare antisymmetrically (swapping the sides reverses the
/// answer), and every key is level with itself.
pub proof fn law_compare_keys_antisymmetric(a: Option<JsonModel>, b: Option<JsonModel>)
    ensures
        compare_keys(b, a) == compare_keys(a, b).spec_reverse(),
        compare_keys(a, a) == Compared::Equal,
{
    if let (Some(JsonModel::Str(x)), Some(JsonModel::Str(y))) = (a, b) {
        lemma_bytes_order_swap(vstd::utf8::encode_utf8(x), vstd::utf8::encode_utf8(y));
    }
    if let Some(JsonModel::Str(x)) = a {
        lemma_bytes_order_reflexive(vstd::utf8::encode_utf8(x));
    }
}

/// A request body that is not JSON text is refused with 400
/// `malformed_document` and no detail, before any document is looked up.
pub proof fn law_unreadable_query_text(body: Seq<char>)
    requires
        json_text_value(body) is None,
    ensures
        read_query_model(body) == Err::<QueryModel, ReplyModel>(
            error_reply_model(400, "malformed_document"@, "Query document must be a JSON object"@, None),
        ),
{
}


/// A document, once loaded into the cache under a URL path's key, is served
/// from the cache for that path: its file is not read again.
pub proof fn law_loaded_document_is_served_from_cache(
    cache: Map<Seq<char>, JsonModel>,
    url_path: Seq<char>,
    document: JsonModel,
)
    ensures
        fetch_model(cache.insert(strip_slashes(url_path), document), url_path) == FetchModel::Cached(document),
{
}


// ---------------------------------------------------------------------------
// Offset and limit, number order, membership, equality, collection keys
// ---------------------------------------------------------------------------
/// Offset and limit: the window of a sequence skips the first `offset`
/// elements (none when unset; all when the offset reaches past the end),
/// then keeps at most `limit` of the rest (all when unset).
pub proof fn law_window<T>(s: Seq<T>, opts: OptsModel)
    ensures
        ({
            let off: int = match opts.offset {
                Some(o) => o as int,
                None => 0,
            };
            let avail: int = if off < s.len() {
                s.len() - off
            } else {
                0
            };
            let w = apply_window(s, opts);
            &&& w.len() == match opts.limit {
                Some(l) => if l < avail {
                    l as int
                } else {
                    avail
                },
                None => avail,
            }
            &&& forall|k: int| 0 <= k < w.len() ==> #[trigger] w[k] == s[off + k]
        }),
{
}

/// A collection query that neither orders nor limits returns the results of
/// the matching elements from the offset on: as many as there are past it,
/// the first being the result of the match at the offset.
pub proof fn law_collection_offset(q: QueryModel, items: Seq<JsonModel>, path: Seq<char>)
    requires
        q.opts.order_by is None,
        q.opts.limit is None,
    ensures
        collect_items(q, items, path, items.len()) matches Ok(matched) ==> exec_collection(q, items, path) matches Ok(r) && {
            let off: int = match q.opts.offset {
                Some(o) => o as int,
                None => 0,
            };
            &&& r.len() == if off < matched.len() {
                matched.len() - off
            } else {
                0
            }
            &&& forall|k: int| 0 <= k < r.len() ==> #[trigger] r[k] == matched[off + k].1
        },
{
    if let Ok(matched) = collect_items(q, items, path, items.len()) {
        law_window(matched, q.opts);
    }
}

/// Numbers order by their values: for numbers other than NaN, a key orders
/// before another exactly when the `<` operator holds between them, and
/// integers that binary64 holds exactly (magnitude below `2^53`) order as
/// integers do.
pub proof fn law_numbers_order_by_value(a: JsonNumber, b: JsonNumber)
    ensures
        !a.spec_is_nan() && !b.spec_is_nan() ==> {
            let c = compare_keys(Some(JsonModel::Number(a)), Some(JsonModel::Number(b)));
            &&& (c == Compared::Less) == a.less(b)
            &&& (c == Compared::Greater) == a.greater(b)
        },
        exact_integer(a) && exact_integer(b) ==> {
            let c = compare_keys(Some(JsonModel::Number(a)), Some(JsonModel::Number(b)));
            &&& (c == Compared::Less) == (int_value(a) < int_value(b))
            &&& (c == Compared::Equal) == (int_value(a) == int_value(b))
            &&& (c == Compared::Greater) == (int_value(a) > int_value(b))
        },
{
    if exact_integer(a) && exact_integer(b) {
        lemma_integer_keys(a, b);
        lemma_integer_keys(b, a);
    }
}

/// `|` accepts a value equal to any of its candidates, the last included.
pub proof fn law_in_accepts_every_candidate(candidates: Seq<JsonModel>, v: JsonModel, path: Seq<char>, i: int)
    requires
        0 <= i < candidates.len(),
        json_eq(candidates[i], v),
    ensures
        spec_eval_op(OpModel::In(candidates), v, path) == Ok::<bool, crate::executor::ExecErrorModel>(true),
{
    assert(json_eq(candidates[i], v));
}

/// `|` never fails, and accepts only a value equal to one of its candidates.
pub proof fn law_in_accepts_only_candidates(candidates: Seq<JsonModel>, v: JsonModel, path: Seq<char>)
    ensures
        spec_eval_op(OpModel::In(candidates), v, path) is Ok,
        spec_eval_op(OpModel::In(candidates), v, path) == Ok::<bool, crate::executor::ExecErrorModel>(true)
            ==> exists|i: int| 0 <= i < candidates.len() && #[trigger] json_eq(candidates[i], v),
{
}

/// One more candidate: `|` with `x` added accepts what it accepted before,
/// and whatever equals `x`.
pub proof fn law_in_with_one_more(candidates: Seq<JsonModel>, x: JsonModel, v: JsonModel, path: Seq<char>)
    ensures
        spec_eval_op(OpModel::In(candidates.push(x)), v, path) == Ok::<bool, crate::executor::ExecErrorModel>(
            spec_eval_op(OpModel::In(candidates), v, path) == Ok::<bool, crate::executor::ExecErrorModel>(true)
                || json_eq(x, v),
        ),
{
    let c2 = candidates.push(x);
    if json_eq(x, v) {
        assert(json_eq(c2[candidates.len() as int], v));
    }
    if spec_eval_op(OpModel::In(candidates), v, path) == Ok::<bool, crate::executor::ExecErrorModel>(true) {
        let i = choose|i: int| #![trigger candidates[i]] 0 <= i < candidates.len() && json_eq(candidates[i], v);
        assert(c2[i] == candidates[i]);
    }
    if spec_eval_op(OpModel::In(c2), v, path) == Ok::<bool, crate::executor::ExecErrorModel>(true) {
        let i = choose|i: int| #![trigger c2[i]] 0 <= i < c2.len() && json_eq(c2[i], v);
        if i < candidates.len() {
            assert(c2[i] == candidates[i]);
        }
    }
}

/// Equality of scalars is sameness: `null`, a boolean, a string or an
/// integer equals exactly the same value, and values of different kinds are
/// never equal.
pub proof fn law_scalar_equality(b: JsonModel, x: bool, t: Seq<char>, u: u64, i: i64)
    ensures
        json_eq(JsonModel::Null, b) == (b == JsonModel::Null),
        json_eq(JsonModel::Bool(x), b) == (b == JsonModel::Bool(x)),
        json_eq(JsonModel::Str(t), b) == (b == JsonModel::Str(t)),
        json_eq(JsonModel::Number(JsonNumber::PosInt(u)), b) == (b == JsonModel::Number(JsonNumber::PosInt(u))),
        json_eq(JsonModel::Number(JsonNumber::NegInt(i)), b) == (b == JsonModel::Number(JsonNumber::NegInt(i))),
        json_eq(JsonModel::Bool(x), JsonModel::Bool(!x)) == false,
{
}

/// Values of different kinds are never equal.
pub proof fn law_equal_values_share_a_kind(a: JsonModel, b: JsonModel)
    ensures
        json_eq(a, b) ==> {
            ||| a is Null && b is Null
            ||| a is Bool && b is Bool
            ||| a is Number && b is Number
            ||| a is Str && b is Str
            ||| a is Array && b is Array
            ||| a is Object && b is Object
        },
{
}

/// The value of the last member named `k`, read as an unsigned integer.
pub open spec fn last_u64(ms: Seq<(Seq<char>, JsonModel)>, k: Seq<char>) -> Option<u64> {
    match lookup(ms, k) {
        Some(v) => model_as_u64(v),
        None => None,
    }
}

/// The collection keys of a query object act independently of each other
/// and of their order: the offset is the last `@`, the limit the last `#`,
/// and the ordering the last of `^` (ascending) and `v` (descending), each
/// unset when its key is absent.
pub proof fn law_collection_keys(ms: Seq<(Seq<char>, JsonModel)>)
    ensures
        parse_members(ms) matches Ok(q) ==> {
            let up = last_index(ms, "^"@);
            let down = last_index(ms, "v"@);
            &&& q.opts.offset == last_u64(ms, "@"@)
            &&& q.opts.limit == last_u64(ms, "#"@)
            &&& up < 0 && down < 0 ==> q.opts.order_by is None && q.opts.order_dir is None
            &&& up > down ==> q.opts.order_by == Some(ms[up].1->Str_0) && q.opts.order_dir == Some(OrderDir::Asc)
            &&& down > up ==> q.opts.order_by == Some(ms[down].1->Str_0) && q.opts.order_dir == Some(OrderDir::Desc)
        },
    decreases ms.len(),
{
    if ms.len() > 0 {
        let init = ms.subrange(0, ms.len() - 1);
        assert(init =~= ms.drop_last());
        law_collection_keys(init);
        let k = ms[ms.len() - 1].0;
        proof_collection_key_names();
        crate::json::lemma_last_index(init, "^"@);
        crate::json::lemma_last_index(init, "v"@);
        crate::json::lemma_last_index(init, "@"@);
        crate::json::lemma_last_index(init, "#"@);
        if let Ok(q) = parse_members(ms) {
            let up = last_index(init, "^"@);
            let down = last_index(init, "v"@);
            if up >= 0 {
                assert(ms[up] == init[up]);
            }
            if down >= 0 {
                assert(ms[down] == init[down]);
            }
            let ao = last_index(init, "@"@);
            if ao >= 0 {
                assert(ms[ao] == init[ao]);
            }
            let al = last_index(init, "#"@);
            if al >= 0 {
                assert(ms[al] == init[al]);
            }
        }
    }
}

/// The collection keys are four different names.
proof fn proof_collection_key_names()
    ensures
        "^"@ != "v"@,
        "^"@ != "#"@,
        "^"@ != "@"@,
        "v"@ != "#"@,
        "v"@ != "@"@,
        "#"@ != "@"@,
{
    reveal_strlit("^");
    reveal_strlit("v");
    reveal_strlit("#");
    reveal_strlit("@");
    assert("^"@[0] != "v"@[0]);
    assert("^"@[0] != "#"@[0]);
    assert("^"@[0] != "@"@[0]);
    assert("v"@[0] != "#"@[0]);
    assert("v"@[0] != "@"@[0]);
    assert("#"@[0] != "@"@[0]);
}


/// Binary64 values order by value, read off their fields: a negative value
/// (sign bit set, not a zero) orders before a value without the sign bit;
/// among values without the sign bit, a larger exponent, or the same
/// exponent and a larger fraction, is larger; among negative values it is
/// the other way round; the two zeros are level.
pub proof fn law_floats_order_by_value(a: u64, b: u64)
    requires
        !float_is_nan(a),
        !float_is_nan(b),
    ensures
        ({
            let c = compare_keys(
                Some(JsonModel::Number(JsonNumber::Float(a))),
                Some(JsonModel::Number(JsonNumber::Float(b))),
            );
            let ea = float_exponent(a);
            let eb = float_exponent(b);
            let fa = float_fraction(a);
            let fb = float_fraction(b);
            &&& float_sign(a) == 1 && (ea > 0 || fa > 0) && float_sign(b) == 0 ==> c == Compared::Less
            &&& float_sign(a) == 0 && float_sign(b) == 0 ==> (c == Compared::Less) == (ea < eb || (ea == eb
                && fa < fb))
            &&& float_sign(a) == 1 && float_sign(b) == 1 ==> (c == Compared::Less) == (ea > eb || (ea == eb
                && fa > fb))
            &&& ea == 0 && fa == 0 && eb == 0 && fb == 0 ==> c == Compared::Equal
        }),
{
    lemma_float_fields(a);
    lemma_float_fields(b);
}

} // verus!
