//! The JSON tree type and its mathematical model.
//!
//! `JsonValue` is the value a successful parse returns. Its model,
//! `JsonModel`, states each node over `Seq<char>` and `Seq` so that the
//! parser's contracts can speak of decoded text and of object entries
//! mathematically. A `Number` holds the scanned numeral text itself; turning
//! the numeral into a machine float is left to callers outside the engine.

use vstd::prelude::*;

verus! {

broadcast use vstd::std_specs::vec::group_vec_axioms;

/// One JSON value: the tree a parse returns.
///
/// An `Object` keeps one entry per key, in the order the keys first appear;
/// when the source text repeats a key, the entry holds the value of the last
/// occurrence.
#[derive(Debug, PartialEq)]
pub enum JsonValue {
    String(String),
    Bool(bool),
    Null,
    Number(String),
    Object(Vec<(String, JsonValue)>),
    Array(Vec<JsonValue>),
}

/// The mathematical shape of a `JsonValue`.
pub enum JsonModel {
    String(Seq<char>),
    Bool(bool),
    Null,
    Number(Seq<char>),
    Object(Seq<(Seq<char>, JsonModel)>),
    Array(Seq<JsonModel>),
}

/// The model of a tree: every string replaced by its view, every container by
/// the sequence of the models of its entries.
pub open spec fn model_of(v: JsonValue) -> JsonModel
    decreases v,
{
    match v {
        JsonValue::String(s) => JsonModel::String(s@),
        JsonValue::Bool(b) => JsonModel::Bool(b),
        JsonValue::Null => JsonModel::Null,
        JsonValue::Number(t) => JsonModel::Number(t@),
        JsonValue::Object(es) => JsonModel::Object(
            Seq::new(
                es@.len(),
                |i: int|
                    if 0 <= i < es@.len() {
                        (es@[i].0@, model_of(es@[i].1))
                    } else {
                        (Seq::empty(), JsonModel::Null)
                    },
            ),
        ),
        JsonValue::Array(xs) => JsonModel::Array(
            Seq::new(
                xs@.len(),
                |i: int|
                    if 0 <= i < xs@.len() {
                        model_of(xs@[i])
                    } else {
                        JsonModel::Null
                    },
            ),
        ),
    }
}

/// The models of a sequence of values, pointwise.
pub open spec fn models_of_seq(xs: Seq<JsonValue>) -> Seq<JsonModel> {
    Seq::new(xs.len(), |i: int| model_of(xs[i]))
}

/// The models of a sequence of key/value entries, pointwise.
pub open spec fn models_of_pairs(ps: Seq<(String, JsonValue)>) -> Seq<(Seq<char>, JsonModel)> {
    Seq::new(ps.len(), |i: int| (ps[i].0@, model_of(ps[i].1)))
}

pub proof fn lemma_model_array(xs: Vec<JsonValue>)
    ensures
        model_of(JsonValue::Array(xs)) == JsonModel::Array(models_of_seq(xs@)),
{
    let inner = model_of(JsonValue::Array(xs))->Array_0;
    assert(inner =~= models_of_seq(xs@));
}

pub proof fn lemma_model_object(es: Vec<(String, JsonValue)>)
    ensures
        model_of(JsonValue::Object(es)) == JsonModel::Object(models_of_pairs(es@)),
{
    let inner = model_of(JsonValue::Object(es))->Object_0;
    assert(inner =~= models_of_pairs(es@));
}

/// Entries with `k` bound to `v`: the entry holding `k` is overwritten in
/// place, and a new key goes to the end.
pub open spec fn obj_insert(
    m: Seq<(Seq<char>, JsonModel)>,
    k: Seq<char>,
    v: JsonModel,
) -> Seq<(Seq<char>, JsonModel)>
    decreases m.len(),
{
    if m.len() == 0 {
        seq![(k, v)]
    } else if m[0].0 == k {
        seq![(k, v)] + m.subrange(1, m.len() as int)
    } else {
        seq![m[0]] + obj_insert(m.subrange(1, m.len() as int), k, v)
    }
}

/// Entries after binding each of `ps` in order, so that a repeated key ends
/// up with the value of its last occurrence.
pub open spec fn obj_insert_all(
    m: Seq<(Seq<char>, JsonModel)>,
    ps: Seq<(Seq<char>, JsonModel)>,
) -> Seq<(Seq<char>, JsonModel)>
    decreases ps.len(),
{
    if ps.len() == 0 {
        m
    } else {
        obj_insert_all(obj_insert(m, ps[0].0, ps[0].1), ps.subrange(1, ps.len() as int))
    }
}

/// The value bound to `k`, scanning from the front.
pub open spec fn obj_lookup(m: Seq<(Seq<char>, JsonModel)>, k: Seq<char>) -> Option<JsonModel>
    decreases m.len(),
{
    if m.len() == 0 {
        None
    } else if m[0].0 == k {
        Some(m[0].1)
    } else {
        obj_lookup(m.subrange(1, m.len() as int), k)
    }
}

/// Where `k` first occurs at index `i`, binding `k` updates that entry in
/// place.
pub proof fn lemma_obj_insert_update(
    m: Seq<(Seq<char>, JsonModel)>,
    k: Seq<char>,
    v: JsonModel,
    i: int,
)
    requires
        0 <= i < m.len(),
        m[i].0 == k,
        forall|j: int| 0 <= j < i ==> (#[trigger] m[j]).0 != k,
    ensures
        obj_insert(m, k, v) == m.update(i, (k, v)),
    decreases i,
{
    let rest = m.subrange(1, m.len() as int);
    if i == 0 {
        assert(seq![(k, v)] + rest =~= m.update(0, (k, v)));
    } else {
        assert(forall|j: int| 0 <= j < i - 1 ==> (#[trigger] rest[j]).0 != k);
        lemma_obj_insert_update(rest, k, v, i - 1);
        assert(seq![m[0]] + rest.update(i - 1, (k, v)) =~= m.update(i, (k, v)));
    }
}

/// Where no entry holds `k`, binding `k` appends a new entry.
pub proof fn lemma_obj_insert_append(m: Seq<(Seq<char>, JsonModel)>, k: Seq<char>, v: JsonModel)
    requires
        forall|j: int| 0 <= j < m.len() ==> (#[trigger] m[j]).0 != k,
    ensures
        obj_insert(m, k, v) == m.push((k, v)),
    decreases m.len(),
{
    if m.len() == 0 {
        assert(seq![(k, v)] =~= m.push((k, v)));
    } else {
        let rest = m.subrange(1, m.len() as int);
        assert(forall|j: int| 0 <= j < rest.len() ==> (#[trigger] rest[j]).0 != k);
        lemma_obj_insert_append(rest, k, v);
        assert(seq![m[0]] + rest.push((k, v)) =~= m.push((k, v)));
    }
}

/// No two entries hold the same key.
pub open spec fn keys_unique(m: Seq<(Seq<char>, JsonModel)>) -> bool {
    forall|i: int, j: int| 0 <= i < j < m.len() ==> (#[trigger] m[i]).0 != (#[trigger] m[j]).0
}

/// A well-formed tree: at every object node the keys are unique.
pub open spec fn wf_model(m: JsonModel) -> bool
    decreases m,
{
    match m {
        JsonModel::Object(es) => keys_unique(es) && (forall|i: int|
            0 <= i < es.len() ==> wf_model((#[trigger] es[i]).1)),
        JsonModel::Array(xs) => forall|i: int| 0 <= i < xs.len() ==> wf_model(#[trigger] xs[i]),
        _ => true,
    }
}

/// Binding a key keeps the keys unique and the values well formed.
pub proof fn lemma_obj_insert_wf(m: Seq<(Seq<char>, JsonModel)>, k: Seq<char>, v: JsonModel)
    requires
        keys_unique(m),
        forall|i: int| 0 <= i < m.len() ==> wf_model((#[trigger] m[i]).1),
        wf_model(v),
    ensures
        keys_unique(obj_insert(m, k, v)),
        forall|i: int|
            0 <= i < obj_insert(m, k, v).len() ==> wf_model((#[trigger] obj_insert(m, k, v)[i]).1),
{
    let r = obj_insert(m, k, v);
    if exists|j: int| 0 <= j < m.len() && (#[trigger] m[j]).0 == k {
        let j = choose|j: int| 0 <= j < m.len() && (#[trigger] m[j]).0 == k;
        assert forall|j2: int| 0 <= j2 < j implies (#[trigger] m[j2]).0 != k by {
            assert(m[j2].0 != m[j].0);
        }
        lemma_obj_insert_update(m, k, v, j);
        assert forall|i1: int, i2: int| 0 <= i1 < i2 < r.len() implies (#[trigger] r[i1]).0 != (
        #[trigger] r[i2]).0 by {
            if i1 != j && i2 != j {
                assert(m[i1].0 != m[i2].0);
            } else if i1 == j {
                assert(m[i2].0 != m[j].0);
            } else {
                assert(m[i1].0 != m[j].0);
            }
        }
    } else {
        lemma_obj_insert_append(m, k, v);
        assert forall|i1: int, i2: int| 0 <= i1 < i2 < r.len() implies (#[trigger] r[i1]).0 != (
        #[trigger] r[i2]).0 by {
            if i2 < m.len() {
                assert(m[i1].0 != m[i2].0);
            } else {
                assert(!(0 <= i1 < m.len() && m[i1].0 == k));
            }
        }
    }
}

/// Binding every pair of a well-formed batch keeps the entries well formed.
pub proof fn lemma_obj_insert_all_wf(
    m: Seq<(Seq<char>, JsonModel)>,
    ps: Seq<(Seq<char>, JsonModel)>,
)
    requires
        keys_unique(m),
        forall|i: int| 0 <= i < m.len() ==> wf_model((#[trigger] m[i]).1),
        forall|i: int| 0 <= i < ps.len() ==> wf_model((#[trigger] ps[i]).1),
    ensures
        keys_unique(obj_insert_all(m, ps)),
        forall|i: int|
            0 <= i < obj_insert_all(m, ps).len() ==> wf_model(
                (#[trigger] obj_insert_all(m, ps)[i]).1,
            ),
    decreases ps.len(),
{
    if ps.len() == 0 {
    } else {
        lemma_obj_insert_wf(m, ps[0].0, ps[0].1);
        let rest = ps.subrange(1, ps.len() as int);
        assert(forall|i: int| 0 <= i < rest.len() ==> wf_model((#[trigger] rest[i]).1));
        lemma_obj_insert_all_wf(obj_insert(m, ps[0].0, ps[0].1), rest);
    }
}

/// Last write wins: after binding `k` to `v`, looking `k` up yields `v`,
/// whatever the entries held for `k` before.
pub proof fn lemma_insert_last_wins(m: Seq<(Seq<char>, JsonModel)>, k: Seq<char>, v: JsonModel)
    ensures
        obj_lookup(obj_insert(m, k, v), k) == Some(v),
    decreases m.len(),
{
    if m.len() == 0 {
    } else if m[0].0 == k {
    } else {
        let rest = m.subrange(1, m.len() as int);
        lemma_insert_last_wins(rest, k, v);
        assert((seq![m[0]] + obj_insert(rest, k, v)).subrange(
            1,
            (seq![m[0]] + obj_insert(rest, k, v)).len() as int,
        ) =~= obj_insert(rest, k, v));
    }
}

/// Binding the entries of `ps` and then one more is binding the extended
/// sequence in one pass.
pub proof fn lemma_insert_all_snoc(
    m: Seq<(Seq<char>, JsonModel)>,
    ps: Seq<(Seq<char>, JsonModel)>,
    k: Seq<char>,
    v: JsonModel,
)
    ensures
        obj_insert_all(m, ps.push((k, v))) == obj_insert(obj_insert_all(m, ps), k, v),
    decreases ps.len(),
{
    reveal_with_fuel(obj_insert_all, 3);
    let whole = ps.push((k, v));
    if ps.len() == 0 {
        assert(whole.subrange(1, whole.len() as int) =~= Seq::<(Seq<char>, JsonModel)>::empty());
        assert(whole[0] == (k, v));
    } else {
        assert(whole[0] == ps[0]);
        assert(whole.subrange(1, whole.len() as int) =~= ps.subrange(1, ps.len() as int).push(
            (k, v),
        ));
        lemma_insert_all_snoc(obj_insert(m, ps[0].0, ps[0].1), ps.subrange(1, ps.len() as int), k, v);
    }
}

} // verus!
