//! JSON values and their mathematical model.
//!
//! An object is a list of members in the order written. A name may occur
//! more than once, as JSON text allows; reading a member by name gives the
//! last member of that name, and two objects are equal when they have the
//! same names and equal values under each name, in whatever order.
use crate::number::JsonNumber;
use crate::text::str_eq;
use vstd::prelude::*;

verus! {

/// A JSON value.
#[derive(Debug)]
pub enum JsonValue {
    Null,
    Bool(bool),
    Number(JsonNumber),
    String(String),
    Array(Vec<JsonValue>),
    Object(Vec<(String, JsonValue)>),
}

/// The mathematical model of a JSON value: strings as sequences of
/// characters, arrays and objects as sequences.
pub enum JsonModel {
    Null,
    Bool(bool),
    Number(JsonNumber),
    Str(Seq<char>),
    Array(Seq<JsonModel>),
    Object(Seq<(Seq<char>, JsonModel)>),
}

/// The model of a JSON value.
pub open spec fn json_model(v: JsonValue) -> JsonModel
    decreases v,
{
    match v {
        JsonValue::Null => JsonModel::Null,
        JsonValue::Bool(b) => JsonModel::Bool(b),
        JsonValue::Number(n) => JsonModel::Number(n),
        JsonValue::String(s) => JsonModel::Str(s@),
        JsonValue::Array(items) => JsonModel::Array(items_model(items@)),
        JsonValue::Object(ms) => JsonModel::Object(members_model(ms@)),
    }
}

/// The models of a sequence of values.
pub open spec fn items_model(items: Seq<JsonValue>) -> Seq<JsonModel>
    decreases items,
{
    if items.len() == 0 {
        Seq::empty()
    } else {
        items_model(items.subrange(0, items.len() - 1)).push(json_model(items[items.len() - 1]))
    }
}

/// The models of a sequence of members.
pub open spec fn members_model(ms: Seq<(String, JsonValue)>) -> Seq<(Seq<char>, JsonModel)>
    decreases ms,
{
    if ms.len() == 0 {
        Seq::empty()
    } else {
        members_model(ms.subrange(0, ms.len() - 1)).push(
            (ms[ms.len() - 1].0@, json_model(ms[ms.len() - 1].1)),
        )
    }
}

impl View for JsonValue {
    type V = JsonModel;

    open spec fn view(&self) -> JsonModel {
        json_model(*self)
    }
}

/// The index of the last member named `k`, or -1 when there is none.
pub open spec fn last_index(ms: Seq<(Seq<char>, JsonModel)>, k: Seq<char>) -> int
    decreases ms.len(),
{
    if ms.len() == 0 {
        -1
    } else if ms.last().0 == k {
        ms.len() - 1
    } else {
        last_index(ms.drop_last(), k)
    }
}

/// The value of the last member named `k`.
pub open spec fn lookup(ms: Seq<(Seq<char>, JsonModel)>, k: Seq<char>) -> Option<JsonModel> {
    let i = last_index(ms, k);
    if i < 0 {
        None
    } else {
        Some(ms[i].1)
    }
}

/// Whether some member is named `k`.
pub open spec fn has_name(ms: Seq<(Seq<char>, JsonModel)>, k: Seq<char>) -> bool {
    last_index(ms, k) >= 0
}

/// The members after setting `k` to `v`: the last member named `k` takes the
/// new value, or a member is appended when none is named `k`.
pub open spec fn members_insert(
    ms: Seq<(Seq<char>, JsonModel)>,
    k: Seq<char>,
    v: JsonModel,
) -> Seq<(Seq<char>, JsonModel)> {
    let i = last_index(ms, k);
    if i < 0 {
        ms.push((k, v))
    } else {
        ms.update(i, (k, v))
    }
}

/// Whether every name of `xs` is a name of `ys`.
pub open spec fn names_within(xs: Seq<(Seq<char>, JsonModel)>, ys: Seq<(Seq<char>, JsonModel)>) -> bool {
    forall|i: int| 0 <= i < xs.len() ==> has_name(ys, #[trigger] xs[i].0)
}

/// Equality of JSON values: numbers as `same_number` says, strings by their
/// characters, arrays element by element, objects by their names and the
/// value each name reads.
pub open spec fn json_eq(a: JsonModel, b: JsonModel) -> bool
    decreases a,
{
    match (a, b) {
        (JsonModel::Null, JsonModel::Null) => true,
        (JsonModel::Bool(x), JsonModel::Bool(y)) => x == y,
        (JsonModel::Number(x), JsonModel::Number(y)) => x.same_number(y),
        (JsonModel::Str(x), JsonModel::Str(y)) => x == y,
        (JsonModel::Array(xs), JsonModel::Array(ys)) => {
            &&& xs.len() == ys.len()
            &&& forall|i: int| #![trigger xs[i]] 0 <= i < xs.len() ==> json_eq(xs[i], ys[i])
        },
        (JsonModel::Object(xs), JsonModel::Object(ys)) => {
            &&& names_within(xs, ys)
            &&& names_within(ys, xs)
            &&& forall|i: int|
                #![trigger xs[i]]
                0 <= i < xs.len() && last_index(xs, xs[i].0) == i ==> json_eq(
                    xs[i].1,
                    ys[last_index(ys, xs[i].0)].1,
                )
        },
        _ => false,
    }
}

impl JsonModel {
    /// The value of the member named `k`, for an object.
    pub open spec fn get(self, k: Seq<char>) -> Option<JsonModel> {
        match self {
            JsonModel::Object(ms) => lookup(ms, k),
            _ => None,
        }
    }
}

/// What `last_index` finds: the last member of the name, if any.
pub proof fn lemma_last_index(ms: Seq<(Seq<char>, JsonModel)>, k: Seq<char>)
    ensures
        -1 <= last_index(ms, k) < ms.len(),
        last_index(ms, k) >= 0 ==> ms[last_index(ms, k)].0 == k,
        forall|j: int| last_index(ms, k) < j < ms.len() ==> ms[j].0 != k,
    decreases ms.len(),
{
    if ms.len() > 0 && ms.last().0 != k {
        let init = ms.drop_last();
        lemma_last_index(init, k);
        assert forall|j: int| last_index(ms, k) < j < ms.len() implies ms[j].0 != k by {
            if j < ms.len() - 1 {
                assert(ms[j] == init[j]);
            }
        }
    }
}

/// `last_index` is the one index that holds the name with no later member
/// of that name, or -1 when no member holds the name.
pub proof fn lemma_last_index_is(ms: Seq<(Seq<char>, JsonModel)>, k: Seq<char>, x: int)
    requires
        (x == -1 && forall|j: int| 0 <= j < ms.len() ==> ms[j].0 != k) || (0 <= x < ms.len()
            && ms[x].0 == k && forall|j: int| x < j < ms.len() ==> ms[j].0 != k),
    ensures
        last_index(ms, k) == x,
{
    lemma_last_index(ms, k);
    let li = last_index(ms, k);
    if x == -1 {
        if li >= 0 {
            assert(ms[li].0 == k);
        }
    } else {
        if li < x {
            assert(ms[x].0 == k);
        }
        if li > x {
            assert(ms[li].0 == k);
        }
    }
}

/// Setting a name: that name then reads the new value, every other name
/// reads what it read before, and the names are the old ones and the new one.
pub proof fn lemma_members_insert(ms: Seq<(Seq<char>, JsonModel)>, k: Seq<char>, v: JsonModel)
    ensures
        lookup(members_insert(ms, k, v), k) == Some(v),
        forall|k2: Seq<char>| k2 != k ==> lookup(members_insert(ms, k, v), k2) == lookup(ms, k2),
        forall|k2: Seq<char>| #[trigger] has_name(members_insert(ms, k, v), k2) <==> (k2 == k || has_name(ms, k2)),
{
    let ins = members_insert(ms, k, v);
    let i = last_index(ms, k);
    lemma_last_index(ms, k);
    if i < 0 {
        lemma_last_index_is(ins, k, ms.len() as int);
        assert forall|k2: Seq<char>| k2 != k implies lookup(ins, k2) == lookup(ms, k2) by {
            lemma_last_index(ms, k2);
            let j = last_index(ms, k2);
            lemma_last_index_is(ins, k2, j);
            if j >= 0 {
                assert(ins[j] == ms[j]);
            }
        }
    } else {
        lemma_last_index_is(ins, k, i);
        assert forall|k2: Seq<char>| k2 != k implies lookup(ins, k2) == lookup(ms, k2) by {
            lemma_last_index(ms, k2);
            let j = last_index(ms, k2);
            if j >= 0 {
                assert(j != i);
                assert(ins[j] == ms[j]);
            }
            lemma_last_index_is(ins, k2, j);
        }
    }
    assert forall|k2: Seq<char>| #[trigger] has_name(ins, k2) <==> (k2 == k || has_name(ms, k2)) by {
        if k2 != k {
            assert(lookup(ins, k2) == lookup(ms, k2));
        }
    }
}

/// Each member's model is the member's name and the model of its value.
pub proof fn lemma_members_model(ms: Seq<(String, JsonValue)>)
    ensures
        members_model(ms).len() == ms.len(),
        forall|i: int|
            0 <= i < ms.len() ==> #[trigger] members_model(ms)[i] == (ms[i].0@, ms[i].1@),
    decreases ms.len(),
{
    if ms.len() > 0 {
        let init = ms.subrange(0, ms.len() - 1);
        lemma_members_model(init);
        assert forall|i: int| 0 <= i < ms.len() implies #[trigger] members_model(ms)[i] == (
            ms[i].0@,
            ms[i].1@,
        ) by {
            if i < ms.len() - 1 {
                assert(init[i] == ms[i]);
            }
        }
    }
}

/// Each item's model is the model of the item.
pub proof fn lemma_items_model(items: Seq<JsonValue>)
    ensures
        items_model(items).len() == items.len(),
        forall|i: int| 0 <= i < items.len() ==> #[trigger] items_model(items)[i] == items[i]@,
    decreases items.len(),
{
    if items.len() > 0 {
        let init = items.subrange(0, items.len() - 1);
        lemma_items_model(init);
        assert forall|i: int| 0 <= i < items.len() implies #[trigger] items_model(items)[i]
            == items[i]@ by {
            if i < items.len() - 1 {
                assert(init[i] == items[i]);
            }
        }
    }
}

/// The index of the last member of `ms` named `key`.
#[verifier::loop_isolation(false)]
pub fn find_member(ms: &Vec<(String, JsonValue)>, key: &str) -> (r: Option<usize>)
    ensures
        match r {
            Some(i) => i < ms@.len() && i as int == last_index(members_model(ms@), key@),
            None => last_index(members_model(ms@), key@) == -1,
        },
{
    let ghost mv = members_model(ms@);
    proof {
        lemma_members_model(ms@);
        lemma_last_index(mv, key@);
    }
    let mut i = ms.len();
    while i > 0
        invariant
            i <= ms@.len(),
            mv == members_model(ms@),
            -1 <= last_index(mv, key@) < mv.len(),
            last_index(mv, key@) >= 0 ==> mv[last_index(mv, key@)].0 == key@,
            forall|j: int| last_index(mv, key@) < j < mv.len() ==> mv[j].0 != key@,
            forall|j: int| i <= j < mv.len() ==> mv[j].0 != key@,
        decreases i,
    {
        i = i - 1;
        if str_eq(ms[i].0.as_str(), key) {
            assert(mv[i as int].0 == key@);
            return Some(i);
        }
    }
    None
}

/// Sets `key` to `value` in a member list (see `members_insert`).
pub fn insert_member(ms: &mut Vec<(String, JsonValue)>, key: String, value: JsonValue)
    ensures
        members_model(final(ms)@) == members_insert(members_model(old(ms)@), key@, value@),
{
    let ghost kv = key@;
    let ghost vv = value@;
    proof {
        lemma_members_model(old(ms)@);
        lemma_last_index(members_model(old(ms)@), kv);
    }
    match find_member(ms, key.as_str()) {
        Some(i) => {
            ms.set(i, (key, value));
            proof {
                lemma_members_model(ms@);
            }
            assert(members_model(ms@) =~= members_insert(members_model(old(ms)@), kv, vv));
        },
        None => {
            ms.push((key, value));
            proof {
                lemma_members_model(ms@);
            }
            assert(members_model(ms@) =~= members_insert(members_model(old(ms)@), kv, vv));
        },
    }
}

impl JsonValue {
    /// The value of the member named `key`, for an object (the last one of
    /// that name); `None` for anything else.
    pub fn get(&self, key: &str) -> (r: Option<&JsonValue>)
        ensures
            match r {
                Some(v) => self@.get(key@) == Some(v@),
                None => self@.get(key@) is None,
            },
    {
        match self {
            JsonValue::Object(ms) => {
                proof {
                    lemma_members_model(ms@);
                }
                match find_member(ms, key) {
                    Some(i) => Some(&ms[i].1),
                    None => None,
                }
            },
            _ => None,
        }
    }

    /// Whether the value is `null`.
    pub fn is_null(&self) -> (r: bool)
        ensures
            r == (self@ is Null),
    {
        match self {
            JsonValue::Null => true,
            _ => false,
        }
    }

    /// The characters of a string value.
    pub fn as_str(&self) -> (r: Option<&str>)
        ensures
            match r {
                Some(s) => self@ == JsonModel::Str(s@),
                None => !(self@ is Str),
            },
    {
        match self {
            JsonValue::String(s) => Some(s.as_str()),
            _ => None,
        }
    }

    /// The elements of an array value.
    pub fn as_array(&self) -> (r: Option<&Vec<JsonValue>>)
        ensures
            match r {
                Some(items) => self@ == JsonModel::Array(items_model(items@)),
                None => !(self@ is Array),
            },
    {
        match self {
            JsonValue::Array(items) => {
                proof {
                    lemma_items_model(items@);
                }
                Some(items)
            },
            _ => None,
        }
    }

    /// A number value as an unsigned integer, when it is one.
    pub fn as_u64(&self) -> (r: Option<u64>)
        ensures
            r == (match self@ {
                JsonModel::Number(n) => n.spec_as_u64(),
                _ => None,
            }),
    {
        match self {
            JsonValue::Number(n) => n.as_u64(),
            _ => None,
        }
    }

    /// A copy of the value.
    #[verifier::loop_isolation(false)]
    pub fn deep_copy(&self) -> (r: JsonValue)
        ensures
            r@ == self@,
        decreases self,
    {
        match self {
            JsonValue::Null => JsonValue::Null,
            JsonValue::Bool(b) => JsonValue::Bool(*b),
            JsonValue::Number(n) => JsonValue::Number(*n),
            JsonValue::String(s) => JsonValue::String(s.clone()),
            JsonValue::Array(items) => {
                let mut out: Vec<JsonValue> = Vec::new();
                let mut i: usize = 0;
                while i < items.len()
                    invariant
                        i <= items@.len(),
                        out@.len() == i,
                        forall|j: int| 0 <= j < i ==> #[trigger] out@[j]@ == items@[j]@,
                    decreases items@.len() - i,
                {
                    assert(decreases_to!(*self => self->Array_0));
                    assert(decreases_to!(self->Array_0 => self->Array_0@));
                    assert(decreases_to!(self->Array_0@ => self->Array_0@[i as int]));
                    out.push(items[i].deep_copy());
                    i = i + 1;
                }
                proof {
                    lemma_items_model(items@);
                    lemma_items_model(out@);
                    assert(items_model(out@) =~= items_model(items@));
                }
                JsonValue::Array(out)
            },
            JsonValue::Object(ms) => {
                let mut out: Vec<(String, JsonValue)> = Vec::new();
                let mut i: usize = 0;
                while i < ms.len()
                    invariant
                        i <= ms@.len(),
                        out@.len() == i,
                        forall|j: int|
                            0 <= j < i ==> #[trigger] out@[j].0@ == ms@[j].0@ && out@[j].1@
                                == ms@[j].1@,
                    decreases ms@.len() - i,
                {
                    assert(decreases_to!(*self => self->Object_0));
                    assert(decreases_to!(self->Object_0 => self->Object_0@));
                    assert(decreases_to!(self->Object_0@ => self->Object_0@[i as int]));
                    assert(decreases_to!(self->Object_0@[i as int] => self->Object_0@[i as int].1));
                    out.push((ms[i].0.clone(), ms[i].1.deep_copy()));
                    i = i + 1;
                }
                proof {
                    lemma_members_model(ms@);
                    lemma_members_model(out@);
                    assert(members_model(out@) =~= members_model(ms@));
                }
                JsonValue::Object(out)
            },
        }
    }
}

/// Equality of JSON values (see `json_eq`).
#[verifier::loop_isolation(false)]
pub fn json_equal(a: &JsonValue, b: &JsonValue) -> (r: bool)
    ensures
        r == json_eq(a@, b@),
    decreases a,
{
    match (a, b) {
        (JsonValue::Null, JsonValue::Null) => true,
        (JsonValue::Bool(x), JsonValue::Bool(y)) => *x == *y,
        (JsonValue::Number(x), JsonValue::Number(y)) => x.equals(y),
        (JsonValue::String(x), JsonValue::String(y)) => str_eq(x.as_str(), y.as_str()),
        (JsonValue::Array(xs), JsonValue::Array(ys)) => {
            proof {
                lemma_items_model(xs@);
                lemma_items_model(ys@);
            }
            if xs.len() != ys.len() {
                return false;
            }
            let mut i: usize = 0;
            while i < xs.len()
                invariant
                    xs@.len() == ys@.len(),
                    i <= xs@.len(),
                    forall|j: int|
                        0 <= j < i ==> #[trigger] json_eq(items_model(xs@)[j], items_model(ys@)[j]),
                decreases xs@.len() - i,
            {
                if !json_equal(&xs[i], &ys[i]) {
                    assert(!json_eq(items_model(xs@)[i as int], items_model(ys@)[i as int]));
                    assert(a@ == JsonModel::Array(items_model(xs@)));
                    assert(b@ == JsonModel::Array(items_model(ys@)));
                    return false;
                }
                i = i + 1;
            }
            assert(a@ == JsonModel::Array(items_model(xs@)));
            assert(b@ == JsonModel::Array(items_model(ys@)));
            assert(items_model(xs@).len() == items_model(ys@).len());
            assert forall|j: int| #![trigger items_model(xs@)[j]]
                0 <= j < items_model(xs@).len() implies json_eq(
                items_model(xs@)[j],
                items_model(ys@)[j],
            ) by {}
            assert(json_eq(a@, b@));
            true
        },
        (JsonValue::Object(xs), JsonValue::Object(ys)) => {
            proof {
                lemma_members_model(xs@);
                lemma_members_model(ys@);
            }
            let ghost xv = members_model(xs@);
            let ghost yv = members_model(ys@);
            let mut j: usize = 0;
            while j < ys.len()
                invariant
                    yv == members_model(ys@),
                    xv == members_model(xs@),
                    j <= ys@.len(),
                    forall|k: int| 0 <= k < j ==> has_name(xv, #[trigger] yv[k].0),
                decreases ys@.len() - j,
            {
                if find_member(xs, ys[j].0.as_str()).is_none() {
                    assert(!has_name(xv, yv[j as int].0));
                    assert(a@ == JsonModel::Object(xv));
                    assert(b@ == JsonModel::Object(yv));
                    return false;
                }
                j = j + 1;
            }
            let mut i: usize = 0;
            while i < xs.len()
                invariant
                    yv == members_model(ys@),
                    xv == members_model(xs@),
                    i <= xs@.len(),
                    names_within(yv, xv),
                    forall|k: int| 0 <= k < i ==> has_name(yv, #[trigger] xv[k].0),
                    forall|k: int|
                        #![trigger xv[k]]
                        0 <= k < i && last_index(xv, xv[k].0) == k ==> json_eq(
                            xv[k].1,
                            yv[last_index(yv, xv[k].0)].1,
                        ),
                decreases xs@.len() - i,
            {
                match find_member(ys, xs[i].0.as_str()) {
                    None => {
                        assert(!has_name(yv, xv[i as int].0));
                        assert(a@ == JsonModel::Object(xv));
                        assert(b@ == JsonModel::Object(yv));
                        return false;
                    },
                    Some(yi) => {
                        match find_member(xs, xs[i].0.as_str()) {
                            Some(xi) => {
                                if xi == i {
                                    if !json_equal(&xs[i].1, &ys[yi].1) {
                                        assert(!json_eq(
                                            xv[i as int].1,
                                            yv[last_index(yv, xv[i as int].0)].1,
                                        ));
                                        assert(a@ == JsonModel::Object(xv));
                                        assert(b@ == JsonModel::Object(yv));
                                        assert(last_index(xv, xv[i as int].0) == i);
                                        return false;
                                    }
                                }
                            },
                            None => {},
                        }
                    },
                }
                i = i + 1;
            }
            assert(a@ == JsonModel::Object(xv));
            assert(b@ == JsonModel::Object(yv));
            assert(names_within(xv, yv));
            assert(names_within(yv, xv));
            assert(json_eq(a@, b@));
            true
        },
        _ => false,
    }
}

} // verus!
