//! JSON values as the configuration trees of plugins see them.
use vstd::prelude::*;
use vstd::string::StrSliceExecFns;
use crate::text::{
    char_index, digits_value, is_digit, lemma_char_index, lemma_char_index_concat, unsigned_digits,
    lemma_split_once_shorter, lemma_seq_less_total, lemma_seq_less_transitive, parse_usize,
    seq_less, spec_parse_usize, split_once, split_once_spec, str_eq, str_lt,
};

verus! {

/// A JSON value. Numbers keep the text they are written with; an object
/// keeps its members in the order of their keys.
#[derive(Debug, PartialEq, Eq)]
pub enum JsonValue {
    Null,
    Bool(bool),
    Number(String),
    String(String),
    Array(Vec<JsonValue>),
    Object(Vec<(String, JsonValue)>),
}

/// The abstract value of a [`JsonValue`].
pub enum Json {
    Null,
    Bool(bool),
    Number(Seq<char>),
    Str(Seq<char>),
    Array(Seq<Json>),
    Object(Seq<(Seq<char>, Json)>),
}

pub open spec fn json_of(v: JsonValue) -> Json
    decreases v,
{
    match v {
        JsonValue::Null => Json::Null,
        JsonValue::Bool(b) => Json::Bool(b),
        JsonValue::Number(n) => Json::Number(n@),
        JsonValue::String(s) => Json::Str(s@),
        JsonValue::Array(a) => Json::Array(Seq::new(a@.len(), |i: int|
            if 0 <= i < a@.len() { json_of(a@[i]) } else { Json::Null })),
        JsonValue::Object(o) => Json::Object(Seq::new(o@.len(), |i: int|
            if 0 <= i < o@.len() { (o@[i].0@, json_of(o@[i].1)) } else { (Seq::empty(), Json::Null) })),
    }
}

impl View for JsonValue {
    type V = Json;

    open spec fn view(&self) -> Json {
        json_of(*self)
    }
}

/// The abstract values of a sequence of JSON values.
pub open spec fn jsons(a: Seq<JsonValue>) -> Seq<Json> {
    Seq::new(a.len(), |i: int| json_of(a[i]))
}

/// The abstract members of an object.
pub open spec fn entries(o: Seq<(String, JsonValue)>) -> Seq<(Seq<char>, Json)> {
    Seq::new(o.len(), |i: int| (o[i].0@, json_of(o[i].1)))
}

pub proof fn lemma_view_array(a: Vec<JsonValue>)
    ensures
        JsonValue::Array(a)@ == Json::Array(jsons(a@)),
{
    match JsonValue::Array(a)@ {
        Json::Array(s) => assert(s =~= jsons(a@)),
        _ => {},
    }
}

pub proof fn lemma_view_object(o: Vec<(String, JsonValue)>)
    ensures
        JsonValue::Object(o)@ == Json::Object(entries(o@)),
{
    match JsonValue::Object(o)@ {
        Json::Object(s) => assert(s =~= entries(o@)),
        _ => {},
    }
}

/// The abstract values of the sequence operations that the library applies
/// to arrays and objects.
pub proof fn lemma_jsons_ops(a: Seq<JsonValue>, x: JsonValue, i: int)
    ensures
        jsons(a.push(x)) == jsons(a).push(json_of(x)),
        0 <= i < a.len() ==> jsons(a.update(i, x)) == jsons(a).update(i, json_of(x)),
        0 <= i <= a.len() ==> jsons(a.insert(i, x)) == jsons(a).insert(i, json_of(x)),
        0 <= i < a.len() ==> jsons(a.remove(i)) == jsons(a).remove(i),
{
    assert(jsons(a.push(x)) =~= jsons(a).push(json_of(x)));
    if 0 <= i < a.len() {
        assert(jsons(a.update(i, x)) =~= jsons(a).update(i, json_of(x)));
        assert(jsons(a.remove(i)) =~= jsons(a).remove(i));
    }
    if 0 <= i <= a.len() {
        assert(jsons(a.insert(i, x)) =~= jsons(a).insert(i, json_of(x)));
    }
}

pub proof fn lemma_entries_ops(o: Seq<(String, JsonValue)>, x: (String, JsonValue), i: int)
    ensures
        entries(o.push(x)) == entries(o).push((x.0@, json_of(x.1))),
        0 <= i < o.len() ==> entries(o.update(i, x)) == entries(o).update(i, (x.0@, json_of(x.1))),
        0 <= i <= o.len() ==> entries(o.insert(i, x)) == entries(o).insert(i, (x.0@, json_of(x.1))),
        0 <= i < o.len() ==> entries(o.remove(i)) == entries(o).remove(i),
{
    assert(entries(o.push(x)) =~= entries(o).push((x.0@, json_of(x.1))));
    if 0 <= i < o.len() {
        assert(entries(o.update(i, x)) =~= entries(o).update(i, (x.0@, json_of(x.1))));
        assert(entries(o.remove(i)) =~= entries(o).remove(i));
    }
    if 0 <= i <= o.len() {
        assert(entries(o.insert(i, x)) =~= entries(o).insert(i, (x.0@, json_of(x.1))));
    }
}

/// Position of the first member named `k`.
pub open spec fn find_key(o: Seq<(Seq<char>, Json)>, k: Seq<char>) -> Option<int>
    decreases o.len(),
{
    if o.len() == 0 {
        None
    } else if o[0].0 == k {
        Some(0)
    } else {
        match find_key(o.drop_first(), k) {
            Some(i) => Some(i + 1),
            None => None,
        }
    }
}

/// The position at which a member named `k` belongs: before the first
/// member whose name orders after `k`.
pub open spec fn insert_pos(o: Seq<(Seq<char>, Json)>, k: Seq<char>) -> int
    decreases o.len(),
{
    if o.len() == 0 {
        0
    } else if seq_less(k, o[0].0) {
        0
    } else {
        1 + insert_pos(o.drop_first(), k)
    }
}

/// The members of `o` not named `k`, in order.
pub open spec fn without_key(o: Seq<(Seq<char>, Json)>, k: Seq<char>) -> Seq<(Seq<char>, Json)>
    decreases o.len(),
{
    if o.len() == 0 {
        o
    } else if o[0].0 == k {
        without_key(o.drop_first(), k)
    } else {
        seq![o[0]] + without_key(o.drop_first(), k)
    }
}

/// The value of the member named `k`, when `v` is an object that has one.
pub open spec fn get_key(v: Json, k: Seq<char>) -> Option<Json> {
    match v {
        Json::Object(o) => match find_key(o, k) {
            Some(i) => Some(o[i].1),
            None => None,
        },
        _ => None,
    }
}

/// `o` with the member named `k` set to `x`: replaced in place when there
/// is one, else added where it belongs.
pub open spec fn set_key(o: Seq<(Seq<char>, Json)>, k: Seq<char>, x: Json) -> Seq<(Seq<char>, Json)> {
    match find_key(o, k) {
        Some(i) => o.update(i, (o[i].0, x)),
        None => o.insert(insert_pos(o, k), (k, x)),
    }
}

/// `o` with a member named `k` added, with value `null`, when it has none.
pub open spec fn ensure_key(o: Seq<(Seq<char>, Json)>, k: Seq<char>) -> Seq<(Seq<char>, Json)> {
    match find_key(o, k) {
        Some(i) => o,
        None => o.insert(insert_pos(o, k), (k, Json::Null)),
    }
}

pub proof fn lemma_find_key(o: Seq<(Seq<char>, Json)>, k: Seq<char>)
    ensures
        find_key(o, k) matches Some(i) ==> 0 <= i < o.len() && o[i].0 == k && forall|j: int|
            0 <= j < i ==> o[j].0 != k,
        find_key(o, k) is None ==> forall|j: int| 0 <= j < o.len() ==> o[j].0 != k,
    decreases o.len(),
{
    if o.len() > 0 && o[0].0 != k {
        lemma_find_key(o.drop_first(), k);
        assert forall|j: int| 1 <= j < o.len() implies o[j] == o.drop_first()[j - 1] by {}
    }
}

/// `find_key` is determined by where the name first occurs.
pub proof fn lemma_find_key_at(o: Seq<(Seq<char>, Json)>, k: Seq<char>, i: int)
    requires
        0 <= i < o.len(),
        o[i].0 == k,
        forall|j: int| 0 <= j < i ==> o[j].0 != k,
    ensures
        find_key(o, k) == Some(i),
    decreases i,
{
    if i > 0 {
        assert forall|j: int| 0 <= j < i - 1 implies o.drop_first()[j].0 != k by {
            assert(o.drop_first()[j] == o[j + 1]);
        }
        lemma_find_key_at(o.drop_first(), k, i - 1);
    }
}

pub proof fn lemma_find_key_none(o: Seq<(Seq<char>, Json)>, k: Seq<char>)
    requires
        forall|j: int| 0 <= j < o.len() ==> o[j].0 != k,
    ensures
        find_key(o, k) is None,
{
    lemma_find_key(o, k);
}

pub proof fn lemma_insert_pos(o: Seq<(Seq<char>, Json)>, k: Seq<char>)
    ensures
        0 <= insert_pos(o, k) <= o.len(),
        forall|j: int| 0 <= j < insert_pos(o, k) ==> !seq_less(k, #[trigger] o[j].0),
        insert_pos(o, k) < o.len() ==> seq_less(k, o[insert_pos(o, k)].0),
    decreases o.len(),
{
    if o.len() > 0 && !seq_less(k, o[0].0) {
        lemma_insert_pos(o.drop_first(), k);
        assert forall|j: int| 1 <= j < o.len() implies o[j] == o.drop_first()[j - 1] by {}
    }
}

pub proof fn lemma_insert_pos_at(o: Seq<(Seq<char>, Json)>, k: Seq<char>, i: int)
    requires
        0 <= i <= o.len(),
        i < o.len() ==> seq_less(k, o[i].0),
        forall|j: int| 0 <= j < i ==> !seq_less(k, #[trigger] o[j].0),
    ensures
        insert_pos(o, k) == i,
    decreases i,
{
    if i > 0 {
        assert forall|j: int| 0 <= j < i - 1 implies !seq_less(k, #[trigger] o.drop_first()[j].0) by {
            assert(o.drop_first()[j] == o[j + 1]);
        }
        lemma_insert_pos_at(o.drop_first(), k, i - 1);
    }
}

/// Member lookup and placement depend on the names alone.
pub proof fn lemma_same_names(a: Seq<(Seq<char>, Json)>, b: Seq<(Seq<char>, Json)>, k: Seq<char>)
    requires
        a.len() == b.len(),
        forall|j: int| 0 <= j < a.len() ==> a[j].0 == b[j].0,
    ensures
        find_key(a, k) == find_key(b, k),
        insert_pos(a, k) == insert_pos(b, k),
{
    lemma_find_key(a, k);
    lemma_insert_pos(a, k);
    match find_key(a, k) {
        Some(i) => lemma_find_key_at(b, k, i),
        None => lemma_find_key_none(b, k),
    }
    lemma_insert_pos_at(b, k, insert_pos(a, k));
}

pub proof fn lemma_without_key(o: Seq<(Seq<char>, Json)>, k: Seq<char>)
    ensures
        find_key(without_key(o, k), k) is None,
        without_key(o, k).len() <= o.len(),
    decreases o.len(),
{
    if o.len() > 0 {
        lemma_without_key(o.drop_first(), k);
        if o[0].0 != k {
            let r = seq![o[0]] + without_key(o.drop_first(), k);
            assert(r.drop_first() =~= without_key(o.drop_first(), k));
        }
    }
}

/// After `set_key`, the member named `k` holds `x`; after `ensure_key`
/// there is a member named `k`.
pub proof fn lemma_set_key(o: Seq<(Seq<char>, Json)>, k: Seq<char>, x: Json)
    ensures
        get_key(Json::Object(set_key(o, k, x)), k) == Some(x),
        find_key(ensure_key(o, k), k) is Some,
        find_key(o, k) is Some ==> ensure_key(o, k) == o,
{
    lemma_find_key(o, k);
    match find_key(o, k) {
        Some(i) => {
            let r = o.update(i, (o[i].0, x));
            lemma_same_names(o, r, k);
        },
        None => {
            lemma_insert_pos(o, k);
            let p = insert_pos(o, k);
            let r = o.insert(p, (k, x));
            assert forall|j: int| 0 <= j < p implies r[j].0 != k by {
                assert(r[j] == o[j]);
            }
            lemma_find_key_at(r, k, p);
            let e = o.insert(p, (k, Json::Null));
            assert forall|j: int| 0 <= j < p implies e[j].0 != k by {
                assert(e[j] == o[j]);
            }
            lemma_find_key_at(e, k, p);
        },
    }
}

/// A copy of `v` with the same abstract value.
#[verifier::loop_isolation(false)]
pub fn clone_json(v: &JsonValue) -> (r: JsonValue)
    ensures
        r@ == v@,
    decreases v,
{
    broadcast use vstd::std_specs::vec::group_vec_axioms;
    match v {
        JsonValue::Null => JsonValue::Null,
        JsonValue::Bool(b) => JsonValue::Bool(*b),
        JsonValue::Number(n) => JsonValue::Number(n.clone()),
        JsonValue::String(s) => JsonValue::String(s.clone()),
        JsonValue::Array(a) => {
            let mut out: Vec<JsonValue> = Vec::new();
            let mut i: usize = 0;
            while i < a.len()
                invariant
                    i <= a.len(),
                    out@.len() == i,
                    forall|j: int| 0 <= j < i ==> json_of(#[trigger] out@[j]) == json_of(a@[j]),
                decreases a.len() - i,
            {
                let c = clone_json(&a[i]);
                out.push(c);
                i = i + 1;
            }
            proof {
                lemma_view_array(*a);
                lemma_view_array(out);
                assert(jsons(out@) =~= jsons(a@));
            }
            JsonValue::Array(out)
        },
        JsonValue::Object(o) => {
            let mut out: Vec<(String, JsonValue)> = Vec::new();
            let mut i: usize = 0;
            while i < o.len()
                invariant
                    i <= o.len(),
                    out@.len() == i,
                    forall|j: int| 0 <= j < i ==> (#[trigger] out@[j]).0@ == o@[j].0@ && json_of(out@[j].1) == json_of(o@[j].1),
                decreases o.len() - i,
            {
                let c = clone_json(&o[i].1);
                out.push((o[i].0.clone(), c));
                i = i + 1;
            }
            proof {
                lemma_view_object(*o);
                lemma_view_object(out);
                assert(entries(out@) =~= entries(o@));
            }
            JsonValue::Object(out)
        },
    }
}

impl Clone for JsonValue {
    fn clone(&self) -> (r: Self)
        ensures
            r@ == self@,
    {
        clone_json(self)
    }
}

/// Position of the first member of `o` named `k`.
pub fn find_member(o: &Vec<(String, JsonValue)>, k: &str) -> (r: Option<usize>)
    ensures
        r matches Some(i) ==> find_key(entries(o@), k@) == Some(i as int),
        r is None ==> find_key(entries(o@), k@) is None,
{
    let mut i: usize = 0;
    while i < o.len()
        invariant
            i <= o.len(),
            forall|j: int| 0 <= j < i ==> (#[trigger] entries(o@)[j]).0 != k@,
        decreases o.len() - i,
    {
        if str_eq(o[i].0.as_str(), k) {
            proof {
                lemma_find_key_at(entries(o@), k@, i as int);
            }
            return Some(i);
        }
        i = i + 1;
    }
    proof {
        lemma_find_key_none(entries(o@), k@);
    }
    None
}

/// The position at which a member named `k` belongs in `o`.
pub fn member_position(o: &Vec<(String, JsonValue)>, k: &str) -> (r: usize)
    ensures
        r == insert_pos(entries(o@), k@),
{
    let mut i: usize = 0;
    while i < o.len()
        invariant
            i <= o.len(),
            forall|j: int| 0 <= j < i ==> !seq_less(k@, #[trigger] entries(o@)[j].0),
        decreases o.len() - i,
    {
        if str_lt(k, o[i].0.as_str()) {
            proof {
                lemma_insert_pos_at(entries(o@), k@, i as int);
            }
            return i;
        }
        i = i + 1;
    }
    proof {
        lemma_insert_pos_at(entries(o@), k@, i as int);
    }
    i
}

/// Sets the member of `o` named `k` to `x`.
pub fn set_member(o: &mut Vec<(String, JsonValue)>, k: String, x: JsonValue)
    ensures
        entries(final(o)@) == set_key(entries(old(o)@), k@, x@),
{
    match find_member(o, k.as_str()) {
        Some(i) => {
            proof {
                lemma_find_key(entries(o@), k@);
            }
            let (name, _) = o.remove(i);
            o.insert(i, (name, x));
            proof {
                let p = old(o)@;
                let q = (p[i as int].0, x);
                assert(p.remove(i as int).insert(i as int, q) =~= p.update(i as int, q));
                lemma_entries_ops(p, q, i as int);
            }
        },
        None => {
            let p = member_position(o, k.as_str());
            proof {
                lemma_insert_pos(entries(o@), k@);
                lemma_entries_ops(o@, (k, x), p as int);
            }
            o.insert(p, (k, x));
        },
    }
}

/// Adds a member named `k` with value `null` to `o` when it has none, and
/// returns the position of the member named `k`.
pub fn ensure_member(o: &mut Vec<(String, JsonValue)>, k: &str) -> (r: usize)
    ensures
        entries(final(o)@) == ensure_key(entries(old(o)@), k@),
        find_key(entries(final(o)@), k@) == Some(r as int),
{
    match find_member(o, k) {
        Some(i) => i,
        None => {
            let p = member_position(o, k);
            let name = k.to_owned();
            proof {
                lemma_insert_pos(entries(o@), k@);
                lemma_entries_ops(o@, (name, JsonValue::Null), p as int);
                lemma_set_key(entries(o@), k@, Json::Null);
            }
            o.insert(p, (name, JsonValue::Null));
            proof {
                let e = entries(o@);
                lemma_find_key(entries(old(o)@), k@);
                assert forall|j: int| 0 <= j < p implies e[j].0 != k@ by {
                    assert(e[j] == entries(old(o)@)[j]);
                }
                lemma_find_key_at(e, k@, p as int);
            }
            p
        },
    }
}

/// Removes every member of `o` named `k`; returns whether there was one.
pub fn remove_member(o: &mut Vec<(String, JsonValue)>, k: &str) -> (r: bool)
    ensures
        entries(final(o)@) == without_key(entries(old(o)@), k@),
        r == find_key(entries(old(o)@), k@) is Some,
{
    let found = find_member(o, k).is_some();
    let ghost orig = entries(o@);
    let mut i: usize = 0;
    proof {
        assert(entries(o@).skip(0) =~= orig);
        assert(entries(o@).take(0) + orig =~= orig);
    }
    while i < o.len()
        invariant
            i <= o.len(),
            without_key(orig, k@) == entries(o@).take(i as int) + without_key(entries(o@).skip(i as int), k@),
        decreases o.len() - i,
    {
        let ghost e = entries(o@);
        if str_eq(o[i].0.as_str(), k) {
            o.remove(i);
            proof {
                lemma_entries_ops(old(o)@, o@[0], 0);
                let e2 = entries(o@);
                assert(e2 =~= e.remove(i as int));
                assert(e2.take(i as int) =~= e.take(i as int));
                assert(e2.skip(i as int) =~= e.skip(i as int).drop_first());
            }
        } else {
            proof {
                let s = e.skip(i as int);
                assert(s.drop_first() =~= e.skip(i + 1));
                assert(e.take(i + 1) =~= e.take(i as int).push(e[i as int]));
                assert(e.take(i as int) + (seq![s[0]] + without_key(s.drop_first(), k@))
                    =~= e.take(i + 1) + without_key(e.skip(i + 1), k@));
            }
            i = i + 1;
        }
    }
    proof {
        assert(entries(o@).skip(i as int) =~= Seq::<(Seq<char>, Json)>::empty());
        assert(entries(o@).take(i as int) =~= entries(o@));
        assert(entries(o@) + Seq::<(Seq<char>, Json)>::empty() =~= entries(o@));
    }
    found
}

/// The abstract value of an optional JSON value.
pub open spec fn opt_view(r: Option<JsonValue>) -> Option<Json> {
    match r {
        Some(x) => Some(x@),
        None => None,
    }
}

/// The member named `k` of `o`, or `null` when there is none.
pub open spec fn member_or_null(o: Seq<(Seq<char>, Json)>, k: Seq<char>) -> Json {
    match find_key(o, k) {
        Some(i) => o[i].1,
        None => Json::Null,
    }
}

/// Writes `new` at the `/`-separated path `key` inside `v`, creating what
/// is missing: empty segments are skipped; in `null` a segment `0` or `+`
/// makes a one-element array and any other segment an object; in an array
/// `+` (or `0` when it is empty) appends an element and a decimal index
/// selects one; in an object a segment names a member, added when missing.
/// `None` when the path runs into a boolean, number or string, or into an
/// array at a segment that is no index in it.
pub open spec fn merge_at(v: Json, key: Seq<char>, new: Json) -> Option<Json>
    decreases key.len(),
{
    if key.len() == 0 {
        Some(new)
    } else {
        let cur = split_once_spec(key, '/').0;
        let rest = split_once_spec(key, '/').1;
        proof {
            lemma_split_once_shorter(key, '/');
        }
        if cur.len() == 0 {
            merge_at(v, rest, new)
        } else {
            match v {
                Json::Null => match merge_at(Json::Null, rest, new) {
                    Some(c) => if cur == "0"@ || cur == "+"@ {
                        Some(Json::Array(seq![c]))
                    } else {
                        Some(Json::Object(seq![(cur, c)]))
                    },
                    None => None,
                },
                Json::Array(a) => if cur == "+"@ || (cur == "0"@ && a.len() == 0) {
                    match merge_at(Json::Null, rest, new) {
                        Some(c) => Some(Json::Array(a.push(c))),
                        None => None,
                    }
                } else {
                    match spec_parse_usize(cur) {
                        Some(i) => if i < a.len() {
                            match merge_at(a[i as int], rest, new) {
                                Some(c) => Some(Json::Array(a.update(i as int, c))),
                                None => None,
                            }
                        } else {
                            None
                        },
                        None => None,
                    }
                },
                Json::Object(o) => match merge_at(member_or_null(o, cur), rest, new) {
                    Some(c) => Some(Json::Object(set_key(o, cur, c))),
                    None => None,
                },
                _ => None,
            }
        }
    }
}

/// Writes `new` at the `/`-separated path `key` inside `v` (see [`merge_at`]).
pub fn merge_value(v: JsonValue, key: &str, new: JsonValue) -> (r: Option<JsonValue>)
    ensures
        opt_view(r) == merge_at(v@, key@, new@),
    decreases key@.len(),
{
    if key.is_empty() {
        return Some(new);
    }
    let (cur, rest) = split_once(key, '/');
    proof {
        lemma_split_once_shorter(key@, '/');
    }
    if cur.is_empty() {
        return merge_value(v, rest, new);
    }
    match v {
        JsonValue::Null => {
            let c = match merge_value(JsonValue::Null, rest, new) {
                Some(c) => c,
                None => { return None; },
            };
            if str_eq(cur, "0") || str_eq(cur, "+") {
                let mut a: Vec<JsonValue> = Vec::new();
                a.push(c);
                proof {
                    lemma_view_array(a);
                    assert(jsons(a@) =~= seq![c@]);
                }
                Some(JsonValue::Array(a))
            } else {
                let mut o: Vec<(String, JsonValue)> = Vec::new();
                let name = cur.to_owned();
                o.push((name, c));
                proof {
                    lemma_view_object(o);
                    assert(entries(o@) =~= seq![(cur@, c@)]);
                }
                Some(JsonValue::Object(o))
            }
        },
        JsonValue::Array(a) => {
            let mut a = a;
            proof {
                lemma_view_array(a);
            }
            if str_eq(cur, "+") || (str_eq(cur, "0") && a.len() == 0) {
                let c = match merge_value(JsonValue::Null, rest, new) {
                    Some(c) => c,
                    None => { return None; },
                };
                proof {
                    lemma_jsons_ops(a@, c, 0);
                }
                a.push(c);
                proof {
                    lemma_view_array(a);
                }
                Some(JsonValue::Array(a))
            } else {
                match parse_usize(cur) {
                    Some(i) => {
                        if i < a.len() {
                            let ghost a0 = a@;
                            let child = a.remove(i);
                            let c = match merge_value(child, rest, new) {
                                Some(c) => c,
                                None => { return None; },
                            };
                            a.insert(i, c);
                            proof {
                                assert(a@ =~= a0.update(i as int, c));
                                lemma_jsons_ops(a0, c, i as int);
                                lemma_view_array(a);
                            }
                            Some(JsonValue::Array(a))
                        } else {
                            None
                        }
                    },
                    None => None,
                }
            }
        },
        JsonValue::Object(o) => {
            let mut o = o;
            proof {
                lemma_view_object(o);
            }
            match find_member(&o, cur) {
                Some(i) => {
                    let ghost o0 = o@;
                    proof {
                        lemma_find_key(entries(o@), cur@);
                    }
                    let (name, child) = o.remove(i);
                    let c = match merge_value(child, rest, new) {
                        Some(c) => c,
                        None => { return None; },
                    };
                    o.insert(i, (name, c));
                    proof {
                        assert(o@ =~= o0.update(i as int, (name, c)));
                        lemma_entries_ops(o0, (name, c), i as int);
                        lemma_view_object(o);
                    }
                    Some(JsonValue::Object(o))
                },
                None => {
                    let c = match merge_value(JsonValue::Null, rest, new) {
                        Some(c) => c,
                        None => { return None; },
                    };
                    set_member(&mut o, cur.to_owned(), c);
                    proof {
                        lemma_view_object(o);
                    }
                    Some(JsonValue::Object(o))
                },
            }
        },
        _ => None,
    }
}

/// Follows the `/`-separated path `key` inside `v`: in an array a segment
/// is a decimal index, in an object it names a member. `None` when a
/// segment selects nothing or the path runs into a scalar.
pub open spec fn lookup_at(v: Json, key: Seq<char>) -> Option<Json>
    decreases key.len(),
{
    if key.len() == 0 {
        Some(v)
    } else {
        let cur = split_once_spec(key, '/').0;
        let rest = split_once_spec(key, '/').1;
        proof {
            lemma_split_once_shorter(key, '/');
        }
        match v {
            Json::Array(a) => match spec_parse_usize(cur) {
                Some(i) => if i < a.len() {
                    lookup_at(a[i as int], rest)
                } else {
                    None
                },
                None => None,
            },
            Json::Object(o) => match find_key(o, cur) {
                Some(i) => lookup_at(o[i].1, rest),
                None => None,
            },
            _ => None,
        }
    }
}

/// The value of the member named `k` of `v`, when `v` is an object that has one.
pub fn get_member<'a>(v: &'a JsonValue, k: &str) -> (r: Option<&'a JsonValue>)
    ensures
        r is Some == get_key(v@, k@) is Some,
        r matches Some(x) ==> get_key(v@, k@) == Some(x@),
{
    match v {
        JsonValue::Object(o) => {
            proof {
                lemma_view_object(*o);
                lemma_find_key(entries(o@), k@);
            }
            match find_member(o, k) {
                Some(i) => Some(&o[i].1),
                None => None,
            }
        },
        _ => None,
    }
}

/// The value at the `/`-separated path `key` inside `v` (see [`lookup_at`]).
pub fn lookup<'a>(v: &'a JsonValue, key: &str) -> (r: Option<&'a JsonValue>)
    ensures
        r is Some == lookup_at(v@, key@) is Some,
        r matches Some(x) ==> lookup_at(v@, key@) == Some(x@),
    decreases key@.len(),
{
    if key.is_empty() {
        return Some(v);
    }
    let (cur, rest) = split_once(key, '/');
    proof {
        lemma_split_once_shorter(key@, '/');
    }
    match v {
        JsonValue::Array(a) => {
            proof {
                lemma_view_array(*a);
            }
            match parse_usize(cur) {
                Some(i) => if i < a.len() {
                    lookup(&a[i], rest)
                } else {
                    None
                },
                None => None,
            }
        },
        JsonValue::Object(o) => {
            proof {
                lemma_view_object(*o);
                lemma_find_key(entries(o@), cur@);
            }
            match find_member(o, cur) {
                Some(i) => lookup(&o[i].1, rest),
                None => None,
            }
        },
        _ => None,
    }
}

/// Why a path could not be followed for a removal.
#[derive(Debug, PartialEq, Eq)]
pub enum PathError {
    /// An object has no member of that name.
    NoProperty(String),
    /// An array segment is not a decimal index.
    NotAnIndex(String),
    /// An array index is not below the length of the array.
    OutOfBounds(usize),
    /// The path runs into a boolean, number, string or `null` at that segment.
    NotIndexable(String),
}

pub enum PathErrorView {
    NoProperty(Seq<char>),
    NotAnIndex(Seq<char>),
    OutOfBounds(nat),
    NotIndexable(Seq<char>),
}

impl View for PathError {
    type V = PathErrorView;

    open spec fn view(&self) -> PathErrorView {
        match self {
            PathError::NoProperty(s) => PathErrorView::NoProperty(s@),
            PathError::NotAnIndex(s) => PathErrorView::NotAnIndex(s@),
            PathError::OutOfBounds(n) => PathErrorView::OutOfBounds(*n as nat),
            PathError::NotIndexable(s) => PathErrorView::NotIndexable(s@),
        }
    }
}

/// Removes what the `/`-separated path `key` names inside `v`: every
/// segment but the last selects a member of an object or an element of an
/// array (by decimal index); the last one removes the member (every member
/// of that name) or the element (shifting the later ones).
pub open spec fn remove_at(v: Json, key: Seq<char>) -> Result<Json, PathErrorView>
    decreases key.len(),
{
    let i = char_index(key, '/');
    proof {
        lemma_char_index(key, '/');
    }
    let cur = key.take(i);
    if i >= key.len() {
        match v {
            Json::Object(o) => if find_key(o, cur) is Some {
                Ok(Json::Object(without_key(o, cur)))
            } else {
                Err(PathErrorView::NoProperty(cur))
            },
            Json::Array(a) => match spec_parse_usize(cur) {
                Some(n) => if n < a.len() {
                    Ok(Json::Array(a.remove(n as int)))
                } else {
                    Err(PathErrorView::OutOfBounds(n as nat))
                },
                None => Err(PathErrorView::NotAnIndex(cur)),
            },
            _ => Err(PathErrorView::NotIndexable(cur)),
        }
    } else {
        let rest = key.skip(i + 1);
        match v {
            Json::Object(o) => match find_key(o, cur) {
                Some(j) => match remove_at(o[j].1, rest) {
                    Ok(c) => Ok(Json::Object(o.update(j, (o[j].0, c)))),
                    Err(e) => Err(e),
                },
                None => Err(PathErrorView::NoProperty(cur)),
            },
            Json::Array(a) => match spec_parse_usize(cur) {
                Some(n) => if n < a.len() {
                    match remove_at(a[n as int], rest) {
                        Ok(c) => Ok(Json::Array(a.update(n as int, c))),
                        Err(e) => Err(e),
                    }
                } else {
                    Err(PathErrorView::OutOfBounds(n as nat))
                },
                None => Err(PathErrorView::NotAnIndex(cur)),
            },
            _ => Err(PathErrorView::NotIndexable(cur)),
        }
    }
}

pub open spec fn path_result_view(r: Result<JsonValue, PathError>) -> Result<Json, PathErrorView> {
    match r {
        Ok(x) => Ok(x@),
        Err(e) => Err(e@),
    }
}

/// Removes what the `/`-separated path `key` names inside `v` (see [`remove_at`]).
pub fn remove_path(v: JsonValue, key: &str) -> (r: Result<JsonValue, PathError>)
    ensures
        path_result_view(r) == remove_at(v@, key@),
    decreases key@.len(),
{
    let (cur, rest) = split_once(key, '/');
    proof {
        lemma_char_index(key@, '/');
    }
    let last = cur.unicode_len() == key.unicode_len();
    assert(last == (char_index(key@, '/') >= key@.len()));
    match v {
        JsonValue::Object(o) => {
            let mut o = o;
            proof {
                lemma_view_object(o);
                lemma_find_key(entries(o@), cur@);
            }
            if last {
                let removed = remove_member(&mut o, cur);
                proof {
                    lemma_view_object(o);
                }
                if removed {
                    Ok(JsonValue::Object(o))
                } else {
                    Err(PathError::NoProperty(cur.to_owned()))
                }
            } else {
                match find_member(&o, cur) {
                    Some(j) => {
                        let ghost o0 = o@;
                        let (name, child) = o.remove(j);
                        let c = match remove_path(child, rest) {
                            Ok(c) => c,
                            Err(e) => { return Err(e); },
                        };
                        o.insert(j, (name, c));
                        proof {
                            assert(o@ =~= o0.update(j as int, (name, c)));
                            lemma_entries_ops(o0, (name, c), j as int);
                            lemma_view_object(o);
                        }
                        Ok(JsonValue::Object(o))
                    },
                    None => Err(PathError::NoProperty(cur.to_owned())),
                }
            }
        },
        JsonValue::Array(a) => {
            let mut a = a;
            proof {
                lemma_view_array(a);
            }
            match parse_usize(cur) {
                Some(n) => {
                    if n < a.len() {
                        let ghost a0 = a@;
                        let child = a.remove(n);
                        if last {
                            proof {
                                lemma_jsons_ops(a0, child, n as int);
                                lemma_view_array(a);
                            }
                            Ok(JsonValue::Array(a))
                        } else {
                            let c = match remove_path(child, rest) {
                                Ok(c) => c,
                                Err(e) => { return Err(e); },
                            };
                            a.insert(n, c);
                            proof {
                                assert(a@ =~= a0.update(n as int, c));
                                lemma_jsons_ops(a0, c, n as int);
                                lemma_view_array(a);
                            }
                            Ok(JsonValue::Array(a))
                        }
                    } else {
                        Err(PathError::OutOfBounds(n))
                    }
                },
                None => Err(PathError::NotAnIndex(cur.to_owned())),
            }
        },
        _ => Err(PathError::NotIndexable(cur.to_owned())),
    }
}

/// The members of `o` with `sifted` applied to their values.
pub open spec fn sift_members(o: Seq<(Seq<char>, Json)>) -> Seq<(Seq<char>, Json)>
    decreases o, 0int,
{
    Seq::new(o.len(), |i: int| if 0 <= i < o.len() { (o[i].0, sifted(o[i].1)) } else { (o[i].0, o[i].1) })
}

/// `v` with every member named `private`, at any depth, taken out.
pub open spec fn sifted(v: Json) -> Json
    decreases v, 1int,
{
    match v {
        Json::Array(a) => Json::Array(Seq::new(a.len(), |i: int|
            if 0 <= i < a.len() { sifted(a[i]) } else { Json::Null })),
        Json::Object(o) => Json::Object(without_key(sift_members(o), "private"@)),
        _ => v,
    }
}

pub proof fn lemma_sifted_unfold(v: Json)
    ensures
        v is Array ==> sifted(v) == Json::Array(Seq::new(v->Array_0.len(), |i: int| sifted(v->Array_0[i]))),
        v is Object ==> sifted(v) == Json::Object(without_key(sift_members(v->Object_0), "private"@)),
        v is Object ==> forall|i: int| 0 <= i < v->Object_0.len() ==> #[trigger] sift_members(v->Object_0)[i]
            == (v->Object_0[i].0, sifted(v->Object_0[i].1)),
        v is Object ==> sift_members(v->Object_0).len() == v->Object_0.len(),
{
    match v {
        Json::Array(a) => {
            match sifted(v) {
                Json::Array(s) => assert(s =~= Seq::new(a.len(), |i: int| sifted(a[i]))),
                _ => {},
            }
        },
        _ => {},
    }
}

/// `v` with every member named `private`, at any depth, taken out.
#[verifier::loop_isolation(false)]
pub fn sift_owned(v: JsonValue) -> (r: JsonValue)
    ensures
        r@ == sifted(v@),
    decreases v,
{
    broadcast use vstd::std_specs::vec::group_vec_axioms;
    proof {
        lemma_sifted_unfold(v@);
    }
    match v {
        JsonValue::Array(a) => {
            let ghost a0 = a;
            let mut a = a;
            let mut i: usize = 0;
            while i < a.len()
                invariant
                    a@.len() == a0@.len(),
                    i <= a.len(),
                    forall|j: int| 0 <= j < i ==> json_of(#[trigger] a@[j]) == sifted(json_of(a0@[j])),
                    forall|j: int| i <= j < a@.len() ==> #[trigger] a@[j] == a0@[j],
                decreases a.len() - i,
            {
                let ghost before = a@;
                let x = a.remove(i);
                assert(decreases_to!(a0 => a0@[i as int]));
                let y = sift_owned(x);
                a.insert(i, y);
                proof {
                    assert(a@ =~= before.update(i as int, y));
                }
                i = i + 1;
            }
            proof {
                lemma_view_array(a);
                lemma_view_array(a0);
                assert(jsons(a@) =~= Seq::new(jsons(a0@).len(), |j: int| sifted(jsons(a0@)[j])));
            }
            JsonValue::Array(a)
        },
        JsonValue::Object(o) => {
            let ghost o0 = o;
            let mut o = o;
            let mut i: usize = 0;
            while i < o.len()
                invariant
                    o@.len() == o0@.len(),
                    i <= o.len(),
                    forall|j: int| 0 <= j < o@.len() ==> (#[trigger] o@[j]).0 == o0@[j].0,
                    forall|j: int| 0 <= j < i ==> json_of(#[trigger] o@[j].1) == sifted(json_of(o0@[j].1)),
                    forall|j: int| i <= j < o@.len() ==> #[trigger] o@[j] == o0@[j],
                decreases o.len() - i,
            {
                let ghost before = o@;
                let (name, x) = o.remove(i);
                assert(decreases_to!(o0 => o0@[i as int]));
                let y = sift_owned(x);
                o.insert(i, (name, y));
                proof {
                    assert(o@ =~= before.update(i as int, (name, y)));
                }
                i = i + 1;
            }
            proof {
                lemma_view_object(o0);
                assert(entries(o@) =~= sift_members(entries(o0@)));
            }
            remove_member(&mut o, "private");
            proof {
                lemma_view_object(o);
            }
            JsonValue::Object(o)
        },
        _ => v,
    }
}

/// Takes every member named `private`, at any depth, out of `value`.
pub fn sift_privates(value: &mut JsonValue)
    ensures
        final(value)@ == sifted(old(value)@),
{
    let mut v = JsonValue::Null;
    std::mem::swap(&mut v, value);
    *value = sift_owned(v);
}

/// Every member left by `without_key` comes from the given sequence and
/// is named otherwise.
pub proof fn lemma_without_key_members(s: Seq<(Seq<char>, Json)>, k: Seq<char>)
    ensures
        forall|i: int| 0 <= i < without_key(s, k).len() ==> (#[trigger] without_key(s, k)[i]).0 != k
            && s.contains(without_key(s, k)[i]),
    decreases s.len(),
{
    if s.len() > 0 {
        let t = s.drop_first();
        lemma_without_key_members(t, k);
        assert forall|i: int| 0 <= i < t.len() implies s.contains(#[trigger] t[i]) by {
            assert(s[i + 1] == t[i]);
        }
        if s[0].0 != k {
            let w = seq![s[0]] + without_key(t, k);
            assert forall|i: int| 0 <= i < w.len() implies (#[trigger] w[i]).0 != k && s.contains(w[i]) by {
                if i > 0 {
                    assert(w[i] == without_key(t, k)[i - 1]);
                    assert(t.contains(w[i]));
                } else {
                    assert(s[0] == w[0]);
                }
            }
        }
    }
}

/// `without_key` leaves a sequence without such members unchanged.
pub proof fn lemma_without_key_absent(s: Seq<(Seq<char>, Json)>, k: Seq<char>)
    requires
        forall|j: int| 0 <= j < s.len() ==> s[j].0 != k,
    ensures
        without_key(s, k) == s,
    decreases s.len(),
{
    if s.len() > 0 {
        let t = s.drop_first();
        assert forall|j: int| 0 <= j < t.len() implies t[j].0 != k by {
            assert(t[j] == s[j + 1]);
        }
        lemma_without_key_absent(t, k);
        assert(seq![s[0]] + t =~= s);
    }
}

/// No member named `private` occurs anywhere in `v`.
pub open spec fn has_no_private(v: Json) -> bool
    decreases v,
{
    match v {
        Json::Array(a) => forall|i: int| 0 <= i < a.len() ==> has_no_private(#[trigger] a[i]),
        Json::Object(o) => forall|i: int|
            0 <= i < o.len() ==> (#[trigger] o[i]).0 != "private"@ && has_no_private(o[i].1),
        _ => true,
    }
}

/// After sifting, no member named `private` is left at any depth.
pub proof fn lemma_sifted_has_no_private(v: Json)
    ensures
        has_no_private(sifted(v)),
    decreases v,
{
    lemma_sifted_unfold(v);
    match v {
        Json::Array(a) => {
            assert forall|i: int| 0 <= i < a.len() implies has_no_private(#[trigger] sifted(a[i])) by {
                lemma_sifted_has_no_private(a[i]);
            }
        },
        Json::Object(o) => {
            let sm = sift_members(o);
            let w = without_key(sm, "private"@);
            lemma_without_key_members(sm, "private"@);
            assert forall|i: int| 0 <= i < w.len() implies (#[trigger] w[i]).0 != "private"@ && has_no_private(w[i].1) by {
                let j = choose|j: int| 0 <= j < sm.len() && sm[j] == w[i];
                assert(sm[j] == (o[j].0, sifted(o[j].1)));
                lemma_sifted_has_no_private(o[j].1);
            }
        },
        _ => {},
    }
}

/// Sifting twice is sifting once.
pub proof fn lemma_sifted_idempotent(v: Json)
    ensures
        sifted(sifted(v)) == sifted(v),
    decreases v,
{
    lemma_sifted_unfold(v);
    lemma_sifted_unfold(sifted(v));
    match v {
        Json::Array(a) => {
            let s = Seq::new(a.len(), |i: int| sifted(a[i]));
            assert forall|i: int| 0 <= i < a.len() implies #[trigger] sifted(s[i]) == s[i] by {
                lemma_sifted_idempotent(a[i]);
            }
            assert(Seq::new(s.len(), |i: int| sifted(s[i])) =~= s);
        },
        Json::Object(o) => {
            let sm = sift_members(o);
            let w = without_key(sm, "private"@);
            lemma_without_key_members(sm, "private"@);
            lemma_sifted_unfold(Json::Object(w));
            assert forall|i: int| 0 <= i < w.len() implies #[trigger] sift_members(w)[i] == w[i] by {
                let j = choose|j: int| 0 <= j < sm.len() && sm[j] == w[i];
                assert(sm[j] == (o[j].0, sifted(o[j].1)));
                lemma_sifted_idempotent(o[j].1);
            }
            assert(sift_members(w) =~= w);
            lemma_without_key_absent(w, "private"@);
        },
        _ => {},
    }
}

/// A path whose segments are all non-empty and none is `+`: the paths by
/// which a written value can be read back.
pub open spec fn plain_path(key: Seq<char>) -> bool
    decreases key.len(),
{
    if key.len() == 0 {
        true
    } else {
        let cur = split_once_spec(key, '/').0;
        let rest = split_once_spec(key, '/').1;
        proof {
            lemma_split_once_shorter(key, '/');
        }
        cur.len() > 0 && cur != "+"@ && plain_path(rest)
    }
}

/// What is written at a plain path is read back at that path.
pub proof fn lemma_merge_then_lookup(v: Json, key: Seq<char>, new: Json)
    requires
        merge_at(v, key, new) is Some,
        plain_path(key),
    ensures
        lookup_at(merge_at(v, key, new)->0, key) == Some(new),
    decreases key.len(),
{
    if key.len() > 0 {
        let cur = split_once_spec(key, '/').0;
        let rest = split_once_spec(key, '/').1;
        lemma_split_once_shorter(key, '/');
        reveal_strlit("0");
        let zero = "0"@;
        assert(zero.len() == 1 && zero[0] == '0');
        assert(digits_value(zero.drop_last()) == 0);
        assert(digits_value(zero) == 0);
        assert(is_digit(zero[0]));
        assert(spec_parse_usize(zero) == Some(0usize));
        match v {
            Json::Null => {
                lemma_merge_then_lookup(Json::Null, rest, new);
                let c = merge_at(Json::Null, rest, new)->0;
                if cur != "0"@ {
                    lemma_find_key_at(seq![(cur, c)], cur, 0);
                }
            },
            Json::Array(a) => {
                if cur == "0"@ && a.len() == 0 {
                    lemma_merge_then_lookup(Json::Null, rest, new);
                } else {
                    let i = spec_parse_usize(cur)->0;
                    lemma_merge_then_lookup(a[i as int], rest, new);
                }
            },
            Json::Object(o) => {
                lemma_merge_then_lookup(member_or_null(o, cur), rest, new);
                let c = merge_at(member_or_null(o, cur), rest, new)->0;
                lemma_set_key(o, cur, c);
            },
            _ => {},
        }
    }
}

/// The value that the last segment of a removal path is taken from is an
/// object (and not an array, whose later elements would move up).
pub open spec fn removes_member(v: Json, key: Seq<char>) -> bool
    decreases key.len(),
{
    let i = char_index(key, '/');
    proof {
        lemma_char_index(key, '/');
    }
    let cur = key.take(i);
    if i >= key.len() {
        v is Object
    } else {
        let rest = key.skip(i + 1);
        match v {
            Json::Object(o) => match find_key(o, cur) {
                Some(j) => removes_member(o[j].1, rest),
                None => false,
            },
            Json::Array(a) => match spec_parse_usize(cur) {
                Some(n) => n < a.len() && removes_member(a[n as int], rest),
                None => false,
            },
            _ => false,
        }
    }
}

/// A member removed from an object is no longer read at the path it was
/// removed by.
pub proof fn lemma_remove_then_lookup(v: Json, key: Seq<char>)
    requires
        remove_at(v, key) is Ok,
        removes_member(v, key),
        key.len() > 0,
        key.last() != '/',
    ensures
        lookup_at(remove_at(v, key)->Ok_0, key) is None,
    decreases key.len(),
{
    let i = char_index(key, '/');
    lemma_char_index(key, '/');
    let cur = key.take(i);
    lemma_split_once_shorter(key, '/');
    assert(split_once_spec(key, '/').0 == cur);
    if i >= key.len() {
        assert(split_once_spec(key, '/').1.len() == 0);
        match v {
            Json::Object(o) => {
                lemma_without_key(o, cur);
            },
            _ => {},
        }
    } else {
        let rest = key.skip(i + 1);
        assert(split_once_spec(key, '/').1 == rest);
        assert(rest.len() > 0);
        assert(rest.last() == key.last());
        match v {
            Json::Object(o) => {
                let j = find_key(o, cur)->0;
                lemma_find_key(o, cur);
                lemma_remove_then_lookup(o[j].1, rest);
                let c = remove_at(o[j].1, rest)->Ok_0;
                let u = o.update(j, (o[j].0, c));
                lemma_same_names(o, u, cur);
            },
            Json::Array(a) => {
                let n = spec_parse_usize(cur)->0;
                lemma_remove_then_lookup(a[n as int], rest);
            },
            _ => {},
        }
    }
}

/// The names of the members are in increasing order, so that no name
/// occurs twice.
pub open spec fn names_ordered(o: Seq<(Seq<char>, Json)>) -> bool {
    forall|i: int, j: int| 0 <= i < j < o.len() ==> seq_less(#[trigger] o[i].0, #[trigger] o[j].0)
}

/// Every object inside `v` has its members in increasing order of names.
pub open spec fn well_formed(v: Json) -> bool
    decreases v,
{
    match v {
        Json::Array(a) => forall|i: int| 0 <= i < a.len() ==> well_formed(#[trigger] a[i]),
        Json::Object(o) => names_ordered(o) && forall|i: int| 0 <= i < o.len() ==> well_formed(#[trigger] o[i].1),
        _ => true,
    }
}

/// The values of the members are all well formed.
pub open spec fn members_well_formed(o: Seq<(Seq<char>, Json)>) -> bool {
    forall|i: int| 0 <= i < o.len() ==> well_formed(#[trigger] o[i].1)
}

/// Removing a member keeps the others, and their order.
pub proof fn lemma_without_key_well_formed(o: Seq<(Seq<char>, Json)>, k: Seq<char>)
    requires
        names_ordered(o),
        members_well_formed(o),
    ensures
        names_ordered(without_key(o, k)),
        members_well_formed(without_key(o, k)),
    decreases o.len(),
{
    lemma_without_key_members(o, k);
    let w = without_key(o, k);
    assert forall|i: int| 0 <= i < w.len() implies well_formed(#[trigger] w[i].1) by {
        assert(o.contains(w[i]));
        let j = choose|j: int| 0 <= j < o.len() && o[j] == w[i];
        assert(well_formed(o[j].1));
    }
    if o.len() > 0 {
        let t = o.drop_first();
        assert forall|i: int, j: int| 0 <= i < j < t.len() implies seq_less(#[trigger] t[i].0, #[trigger] t[j].0) by {
            assert(t[i] == o[i + 1] && t[j] == o[j + 1]);
        }
        assert forall|i: int| 0 <= i < t.len() implies well_formed(#[trigger] t[i].1) by {
            assert(t[i] == o[i + 1]);
        }
        lemma_without_key_well_formed(t, k);
        lemma_without_key_members(t, k);
        if o[0].0 != k {
            let r = without_key(t, k);
            assert(w == seq![o[0]] + r);
            assert forall|i: int, j: int| 0 <= i < j < w.len() implies seq_less(#[trigger] w[i].0, #[trigger] w[j].0) by {
                assert(w[j] == r[j - 1]);
                if i == 0 {
                    assert(t.contains(r[j - 1]));
                    let m = choose|m: int| 0 <= m < t.len() && t[m] == r[j - 1];
                    assert(o[m + 1] == t[m]);
                    assert(seq_less(o[0].0, o[m + 1].0));
                } else {
                    assert(w[i] == r[i - 1]);
                }
            }
        }
    }
}

/// Setting a member keeps the names in order.
pub proof fn lemma_set_key_well_formed(o: Seq<(Seq<char>, Json)>, k: Seq<char>, x: Json)
    requires
        names_ordered(o),
        members_well_formed(o),
        well_formed(x),
    ensures
        names_ordered(set_key(o, k, x)),
        members_well_formed(set_key(o, k, x)),
        names_ordered(ensure_key(o, k)),
        members_well_formed(ensure_key(o, k)),
{
    lemma_find_key(o, k);
    match find_key(o, k) {
        Some(i) => {
            let r = o.update(i, (o[i].0, x));
            assert forall|a: int, b: int| 0 <= a < b < r.len() implies seq_less(#[trigger] r[a].0, #[trigger] r[b].0) by {
                assert(r[a].0 == o[a].0 && r[b].0 == o[b].0);
            }
            assert forall|a: int| 0 <= a < r.len() implies well_formed(#[trigger] r[a].1) by {
                if a != i {
                    assert(r[a] == o[a]);
                }
            }
        },
        None => {
            lemma_insert_pos(o, k);
            let p = insert_pos(o, k);
            assert forall|a: int| 0 <= a < p implies seq_less(#[trigger] o[a].0, k) by {
                assert(!seq_less(k, o[a].0));
                lemma_seq_less_total(k, o[a].0);
            }
            assert forall|a: int| p <= a < o.len() implies seq_less(k, #[trigger] o[a].0) by {
                if a > p {
                    assert(seq_less(o[p].0, o[a].0));
                    lemma_seq_less_transitive(k, o[p].0, o[a].0);
                }
            }
            lemma_insert_ordered(o, p, (k, x));
            lemma_insert_ordered(o, p, (k, Json::Null));
        },
    }
}

/// Inserting a member at the place where its name belongs keeps the names
/// in order.
proof fn lemma_insert_ordered(o: Seq<(Seq<char>, Json)>, p: int, m: (Seq<char>, Json))
    requires
        0 <= p <= o.len(),
        names_ordered(o),
        members_well_formed(o),
        well_formed(m.1),
        forall|a: int| 0 <= a < p ==> seq_less(#[trigger] o[a].0, m.0),
        forall|a: int| p <= a < o.len() ==> seq_less(m.0, #[trigger] o[a].0),
    ensures
        names_ordered(o.insert(p, m)),
        members_well_formed(o.insert(p, m)),
{
    let r = o.insert(p, m);
    assert forall|a: int| 0 <= a < r.len() implies r[a] == (if a < p { o[a] } else if a == p { m } else { o[a - 1] }) by {}
    assert forall|a: int, b: int| 0 <= a < b < r.len() implies seq_less(#[trigger] r[a].0, #[trigger] r[b].0) by {
        if a < p && b > p {
            assert(seq_less(o[a].0, o[b - 1].0));
        } else if a > p {
            assert(seq_less(o[a - 1].0, o[b - 1].0));
        }
    }
    assert forall|a: int| 0 <= a < r.len() implies well_formed(#[trigger] r[a].1) by {
        if a < p {
            assert(well_formed(o[a].1));
        } else if a > p {
            assert(well_formed(o[a - 1].1));
        }
    }
}

/// Writing a well-formed value into a well-formed value gives a
/// well-formed value.
pub proof fn lemma_merge_well_formed(v: Json, key: Seq<char>, new: Json)
    requires
        well_formed(v),
        well_formed(new),
        merge_at(v, key, new) is Some,
    ensures
        well_formed(merge_at(v, key, new)->0),
    decreases key.len(),
{
    if key.len() > 0 {
        let cur = split_once_spec(key, '/').0;
        let rest = split_once_spec(key, '/').1;
        lemma_split_once_shorter(key, '/');
        if cur.len() == 0 {
            lemma_merge_well_formed(v, rest, new);
        } else {
            match v {
                Json::Null => {
                    lemma_merge_well_formed(Json::Null, rest, new);
                    let c = merge_at(Json::Null, rest, new)->0;
                    assert(well_formed(seq![c][0]));
                    assert(well_formed(seq![(cur, c)][0].1));
                },
                Json::Array(a) => {
                    if cur == "+"@ || (cur == "0"@ && a.len() == 0) {
                        lemma_merge_well_formed(Json::Null, rest, new);
                        let c = merge_at(Json::Null, rest, new)->0;
                        let r = a.push(c);
                        assert forall|i: int| 0 <= i < r.len() implies well_formed(#[trigger] r[i]) by {
                            if i < a.len() {
                                assert(well_formed(a[i]));
                            }
                        }
                    } else {
                        let i = spec_parse_usize(cur)->0;
                        assert(well_formed(a[i as int]));
                        lemma_merge_well_formed(a[i as int], rest, new);
                        let c = merge_at(a[i as int], rest, new)->0;
                        let r = a.update(i as int, c);
                        assert forall|j: int| 0 <= j < r.len() implies well_formed(#[trigger] r[j]) by {
                            if j != i {
                                assert(well_formed(a[j]));
                            }
                        }
                    }
                },
                Json::Object(o) => {
                    lemma_find_key(o, cur);
                    let m = member_or_null(o, cur);
                    if find_key(o, cur) is Some {
                        assert(well_formed(o[find_key(o, cur)->0].1));
                    }
                    lemma_merge_well_formed(m, rest, new);
                    let c = merge_at(m, rest, new)->0;
                    lemma_set_key_well_formed(o, cur, c);
                },
                _ => {},
            }
        }
    }
}

/// Removing a part of a well-formed value leaves a well-formed value.
pub proof fn lemma_remove_well_formed(v: Json, key: Seq<char>)
    requires
        well_formed(v),
        remove_at(v, key) is Ok,
    ensures
        well_formed(remove_at(v, key)->Ok_0),
    decreases key.len(),
{
    let i = char_index(key, '/');
    lemma_char_index(key, '/');
    let cur = key.take(i);
    if i >= key.len() {
        match v {
            Json::Object(o) => {
                lemma_without_key_well_formed(o, cur);
            },
            Json::Array(a) => {
                let n = spec_parse_usize(cur)->0 as int;
                let r = a.remove(n);
                assert forall|j: int| 0 <= j < r.len() implies well_formed(#[trigger] r[j]) by {
                    if j < n {
                        assert(r[j] == a[j]);
                        assert(well_formed(a[j]));
                    } else {
                        assert(r[j] == a[j + 1]);
                        assert(well_formed(a[j + 1]));
                    }
                }
            },
            _ => {},
        }
    } else {
        let rest = key.skip(i + 1);
        match v {
            Json::Object(o) => {
                let j = find_key(o, cur)->0;
                lemma_find_key(o, cur);
                assert(well_formed(o[j].1));
                lemma_remove_well_formed(o[j].1, rest);
                let c = remove_at(o[j].1, rest)->Ok_0;
                let u = o.update(j, (o[j].0, c));
                assert forall|a: int, b: int| 0 <= a < b < u.len() implies seq_less(#[trigger] u[a].0, #[trigger] u[b].0) by {
                    assert(u[a].0 == o[a].0 && u[b].0 == o[b].0);
                }
                assert forall|a: int| 0 <= a < u.len() implies well_formed(#[trigger] u[a].1) by {
                    if a != j {
                        assert(u[a] == o[a]);
                    }
                }
            },
            Json::Array(a) => {
                let n = spec_parse_usize(cur)->0 as int;
                assert(well_formed(a[n]));
                lemma_remove_well_formed(a[n], rest);
                let c = remove_at(a[n], rest)->Ok_0;
                let u = a.update(n, c);
                assert forall|j: int| 0 <= j < u.len() implies well_formed(#[trigger] u[j]) by {
                    if j != n {
                        assert(well_formed(a[j]));
                    }
                }
            },
            _ => {},
        }
    }
}

/// Taking out the `private` members of a well-formed value leaves a
/// well-formed value.
pub proof fn lemma_sifted_well_formed(v: Json)
    requires
        well_formed(v),
    ensures
        well_formed(sifted(v)),
    decreases v,
{
    lemma_sifted_unfold(v);
    match v {
        Json::Array(a) => {
            let r = Seq::new(a.len(), |i: int| sifted(a[i]));
            assert forall|i: int| 0 <= i < r.len() implies well_formed(#[trigger] r[i]) by {
                assert(well_formed(a[i]));
                lemma_sifted_well_formed(a[i]);
            }
        },
        Json::Object(o) => {
            let m = sift_members(o);
            assert forall|a: int, b: int| 0 <= a < b < m.len() implies seq_less(#[trigger] m[a].0, #[trigger] m[b].0) by {
                assert(m[a].0 == o[a].0 && m[b].0 == o[b].0);
            }
            assert forall|a: int| 0 <= a < m.len() implies well_formed(#[trigger] m[a].1) by {
                assert(well_formed(o[a].1));
                lemma_sifted_well_formed(o[a].1);
            }
            lemma_without_key_well_formed(m, "private"@);
        },
        _ => {},
    }
}

/// `key` with its empty `/`-separated segments dropped.
pub open spec fn compact_path(key: Seq<char>) -> Seq<char>
    decreases key.len(),
{
    if key.len() == 0 {
        key
    } else {
        let cur = split_once_spec(key, '/').0;
        let rest = split_once_spec(key, '/').1;
        proof {
            lemma_split_once_shorter(key, '/');
        }
        if cur.len() == 0 {
            compact_path(rest)
        } else if compact_path(rest).len() == 0 {
            cur
        } else {
            cur + seq!['/'] + compact_path(rest)
        }
    }
}

/// Writing at the empty path replaces the whole value.
pub proof fn lemma_merge_empty_path(v: Json, new: Json)
    ensures
        merge_at(v, Seq::empty(), new) == Some(new),
{
}

/// Empty segments of a path are skipped: writing at `key` is writing at
/// `key` with its empty segments dropped (`/a//b/` acts as `a/b`).
pub proof fn lemma_merge_compact_path(v: Json, key: Seq<char>, new: Json)
    ensures
        merge_at(v, key, new) == merge_at(v, compact_path(key), new),
    decreases key.len(),
{
    if key.len() > 0 {
        let cur = split_once_spec(key, '/').0;
        let rest = split_once_spec(key, '/').1;
        lemma_split_once_shorter(key, '/');
        lemma_char_index(key, '/');
        if cur.len() == 0 {
            lemma_merge_compact_path(v, rest, new);
        } else {
            let c = compact_path(rest);
            let k = compact_path(key);
            assert forall|j: int| 0 <= j < cur.len() implies cur[j] != '/' by {
                assert(cur[j] == key[j]);
            }
            if c.len() == 0 {
                assert(k == cur);
                lemma_char_index_concat(cur, Seq::empty(), '/');
                assert(cur + Seq::<char>::empty() =~= cur);
                assert(split_once_spec(k, '/').0 =~= cur);
                assert(split_once_spec(k, '/').1 =~= c);
            } else {
                assert(k == cur + seq!['/'] + c);
                assert(k =~= cur + (seq!['/'] + c));
                lemma_char_index_concat(cur, seq!['/'] + c, '/');
                assert((seq!['/'] + c)[0] == '/');
                assert(char_index(k, '/') == cur.len());
                assert(split_once_spec(k, '/').0 =~= cur);
                assert(split_once_spec(k, '/').1 =~= c);
            }
            assert(k.len() > 0);
            lemma_merge_compact_path(Json::Null, rest, new);
            match v {
                Json::Array(a) => {
                    if !(cur == "+"@ || (cur == "0"@ && a.len() == 0)) {
                        match spec_parse_usize(cur) {
                            Some(i) => if i < a.len() {
                                lemma_merge_compact_path(a[i as int], rest, new);
                            },
                            None => {},
                        }
                    }
                },
                Json::Object(o) => {
                    lemma_merge_compact_path(member_or_null(o, cur), rest, new);
                },
                _ => {},
            }
        }
    }
}

/// A segment that reads as an array index is not empty, holds no `/` and
/// is not `+`.
proof fn lemma_index_segment(seg: Seq<char>)
    requires
        spec_parse_usize(seg) is Some,
    ensures
        seg.len() > 0,
        forall|j: int| 0 <= j < seg.len() ==> seg[j] != '/',
        seg != "+"@,
{
    reveal_strlit("+");
    let d = unsigned_digits(seg);
    assert forall|j: int| 0 <= j < seg.len() implies seg[j] != '/' by {
        if seg.len() > 0 && seg[0] == '+' {
            if j > 0 {
                assert(seg[j] == d[j - 1]);
                assert(is_digit(d[j - 1]));
            }
        } else {
            assert(is_digit(d[j]));
        }
    }
    if seg == "+"@ {
        assert(d.len() == 0);
    }
}

/// The first segment of `seg/rest`, where `seg` holds no `/`, is `seg` and
/// the rest is `rest`; a `seg` without `/` is a single segment.
proof fn lemma_split_segment(seg: Seq<char>, rest: Seq<char>)
    requires
        forall|j: int| 0 <= j < seg.len() ==> seg[j] != '/',
    ensures
        split_once_spec(seg + seq!['/'] + rest, '/') == (seg, rest),
        char_index(seg, '/') == seg.len(),
        split_once_spec(seg, '/') == (seg, Seq::<char>::empty()),
{
    let key = seg + seq!['/'] + rest;
    assert(key =~= seg + (seq!['/'] + rest));
    lemma_char_index_concat(seg, seq!['/'] + rest, '/');
    assert((seq!['/'] + rest)[0] == '/');
    assert(key.take(seg.len() as int) =~= seg);
    assert(key.skip(seg.len() as int + 1) =~= rest);
    lemma_char_index_concat(seg, Seq::empty(), '/');
    assert(seg + Seq::<char>::empty() =~= seg);
    assert(seg.take(seg.len() as int) =~= seg);
}

/// Writing through an existing element of an array merges into that
/// element, and leaves the other elements, and their order, as they are.
pub proof fn lemma_merge_into_element(a: Seq<Json>, seg: Seq<char>, rest: Seq<char>, x: Json)
    requires
        spec_parse_usize(seg) is Some,
        spec_parse_usize(seg)->0 < a.len(),
    ensures
        ({
            let i = spec_parse_usize(seg)->0 as int;
            &&& merge_at(Json::Array(a), seg + seq!['/'] + rest, x) == match merge_at(a[i], rest, x) {
                Some(c) => Some(Json::Array(a.update(i, c))),
                None => None::<Json>,
            }
            &&& merge_at(Json::Array(a), seg, x) == Some(Json::Array(a.update(i, x)))
        }),
{
    lemma_index_segment(seg);
    lemma_split_segment(seg, rest);
    let i = spec_parse_usize(seg)->0 as int;
    let key = seg + seq!['/'] + rest;
    assert(key.len() > 0);
    assert(split_once_spec(key, '/').0 == seg);
    assert(split_once_spec(key, '/').1 == rest);
    assert(merge_at(a[i], Seq::<char>::empty(), x) == Some(x));
    assert(seg.len() > 0);
}

/// Writing through an existing member of an object merges into that
/// member, and leaves the other members as they are.
pub proof fn lemma_merge_into_member(o: Seq<(Seq<char>, Json)>, name: Seq<char>, rest: Seq<char>, x: Json)
    requires
        name.len() > 0,
        forall|j: int| 0 <= j < name.len() ==> name[j] != '/',
        find_key(o, name) is Some,
    ensures
        ({
            let i = find_key(o, name)->0;
            merge_at(Json::Object(o), name + seq!['/'] + rest, x) == match merge_at(o[i].1, rest, x) {
                Some(c) => Some(Json::Object(o.update(i, (o[i].0, c)))),
                None => None::<Json>,
            }
        }),
{
    lemma_split_segment(name, rest);
    lemma_find_key(o, name);
}

/// Removing the element at an index of an array keeps the other elements in
/// their order: those before it stay, those after it move down by one.
pub proof fn lemma_remove_element(a: Seq<Json>, seg: Seq<char>)
    requires
        spec_parse_usize(seg) is Some,
        spec_parse_usize(seg)->0 < a.len(),
    ensures
        ({
            let n = spec_parse_usize(seg)->0 as int;
            &&& remove_at(Json::Array(a), seg) == Ok::<Json, PathErrorView>(Json::Array(a.take(n) + a.skip(n + 1)))
            &&& remove_at(Json::Array(a), seg) matches Ok(Json::Array(r)) && r.len() == a.len() - 1
                && (forall|j: int| 0 <= j < n ==> r[j] == a[j])
                && (forall|j: int| n <= j < r.len() ==> r[j] == a[j + 1])
        }),
{
    lemma_index_segment(seg);
    lemma_split_segment(seg, Seq::empty());
    let n = spec_parse_usize(seg)->0 as int;
    assert(seg.take(seg.len() as int) =~= seg);
    assert(a.remove(n) =~= a.take(n) + a.skip(n + 1));
}

} // verus!
