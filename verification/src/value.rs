//! The document value type, its mathematical model, and the model-level
//! operations on object entry lists that the tree operations are specified
//! with.

use vstd::prelude::*;

verus! {

/// A JSON document value. Number leaves carry the IEEE-754 double-precision
/// bit pattern of the number as a plain 64-bit word: the tree logic never
/// interprets numbers, it only stores and moves them, and the all-zero word
/// stands for the zero number. Objects keep their entries in insertion
/// order; well-formed objects have pairwise distinct keys.
#[derive(Debug, PartialEq)]
pub enum Value {
    Null,
    Boolean(bool),
    Number(u64),
    Text(String),
    Array(Vec<Value>),
    Object(Vec<(String, Value)>),
}

/// The error kinds of every path-addressed operation: a named child is
/// absent, or a node that had to be an object (or, for injection, a string)
/// is something else.
#[derive(Debug, Clone, Copy, PartialEq, Eq, Structural)]
pub enum PathError {
    MissingSegment,
    NotAnObject,
}

/// The type tag chosen when a field is added to the tree.
#[derive(Debug, Clone, Copy, PartialEq, Eq, Structural)]
pub enum FieldType {
    Bool,
    Number,
    Text,
    ArrayBool,
    ArrayNumber,
    ArrayText,
    Object,
}

/// The mathematical model of a [`Value`]: the same shape with every string
/// replaced by its character sequence.
pub enum SpecValue {
    Null,
    Boolean(bool),
    Number(u64),
    Text(Seq<char>),
    Array(Seq<SpecValue>),
    Object(Seq<(Seq<char>, SpecValue)>),
}

/// The entry list of a modelled object.
pub type SpecObj = Seq<(Seq<char>, SpecValue)>;

pub open spec fn value_model(v: Value) -> SpecValue
    decreases v,
{
    match v {
        Value::Null => SpecValue::Null,
        Value::Boolean(b) => SpecValue::Boolean(b),
        Value::Number(bits) => SpecValue::Number(bits),
        Value::Text(s) => SpecValue::Text(s@),
        Value::Array(items) => SpecValue::Array(seq_model(items@)),
        Value::Object(entries) => SpecValue::Object(entries_model(entries@)),
    }
}

pub open spec fn seq_model(s: Seq<Value>) -> Seq<SpecValue>
    decreases s,
{
    if s.len() == 0 {
        Seq::empty()
    } else {
        seq_model(s.subrange(0, s.len() - 1)).push(value_model(s[s.len() - 1]))
    }
}

pub open spec fn entries_model(s: Seq<(String, Value)>) -> SpecObj
    decreases s,
{
    if s.len() == 0 {
        Seq::empty()
    } else {
        entries_model(s.subrange(0, s.len() - 1)).push(
            (s[s.len() - 1].0@, value_model(s[s.len() - 1].1)),
        )
    }
}

impl View for Value {
    type V = SpecValue;

    open spec fn view(&self) -> SpecValue {
        value_model(*self)
    }
}

pub broadcast proof fn lemma_seq_model_len(s: Seq<Value>)
    ensures
        #[trigger] seq_model(s).len() == s.len(),
    decreases s,
{
    if s.len() > 0 {
        lemma_seq_model_len(s.subrange(0, s.len() - 1));
    }
}

pub broadcast proof fn lemma_seq_model_index(s: Seq<Value>, i: int)
    requires
        0 <= i < s.len(),
    ensures
        #[trigger] seq_model(s)[i] == value_model(s[i]),
    decreases s,
{
    lemma_seq_model_len(s.subrange(0, s.len() - 1));
    if i < s.len() - 1 {
        lemma_seq_model_index(s.subrange(0, s.len() - 1), i);
    }
}

pub broadcast proof fn lemma_entries_model_len(s: Seq<(String, Value)>)
    ensures
        #[trigger] entries_model(s).len() == s.len(),
    decreases s,
{
    if s.len() > 0 {
        lemma_entries_model_len(s.subrange(0, s.len() - 1));
    }
}

pub broadcast proof fn lemma_entries_model_index(s: Seq<(String, Value)>, i: int)
    requires
        0 <= i < s.len(),
    ensures
        #[trigger] entries_model(s)[i] == (s[i].0@, value_model(s[i].1)),
    decreases s,
{
    lemma_entries_model_len(s.subrange(0, s.len() - 1));
    if i < s.len() - 1 {
        lemma_entries_model_index(s.subrange(0, s.len() - 1), i);
    }
}

/// The position of the first entry named `key`, or -1 when no entry is.
pub open spec fn key_index(es: SpecObj, key: Seq<char>) -> int
    decreases es,
{
    if es.len() == 0 {
        -1
    } else if es[0].0 == key {
        0
    } else {
        let r = key_index(es.subrange(1, es.len() as int), key);
        if r < 0 {
            -1
        } else {
            r + 1
        }
    }
}

pub proof fn lemma_key_index(es: SpecObj, key: Seq<char>)
    ensures
        -1 <= key_index(es, key) < es.len(),
        key_index(es, key) >= 0 ==> es[key_index(es, key)].0 == key,
        forall|j: int| 0 <= j < key_index(es, key) ==> es[j].0 != key,
        key_index(es, key) == -1 ==> forall|j: int| 0 <= j < es.len() ==> es[j].0 != key,
    decreases es,
{
    if es.len() > 0 && es[0].0 != key {
        lemma_key_index(es.subrange(1, es.len() as int), key);
        assert forall|j: int| 1 <= j < es.len() implies es[j]
            == es.subrange(1, es.len() as int)[j - 1] by {}
    }
}

pub open spec fn obj_has(es: SpecObj, key: Seq<char>) -> bool {
    key_index(es, key) >= 0
}

pub open spec fn obj_get(es: SpecObj, key: Seq<char>) -> SpecValue
    recommends
        obj_has(es, key),
{
    es[key_index(es, key)].1
}

/// Insert or overwrite: an existing entry keeps its position, a new one is
/// appended.
pub open spec fn obj_insert(es: SpecObj, key: Seq<char>, v: SpecValue) -> SpecObj {
    if obj_has(es, key) {
        es.update(key_index(es, key), (key, v))
    } else {
        es.push((key, v))
    }
}

/// Pairwise distinct keys: the well-formedness of one object level.
pub open spec fn keys_unique(es: SpecObj) -> bool {
    forall|i: int, j: int| 0 <= i < j < es.len() ==> es[i].0 != es[j].0
}

/// Every object in the tree, at every depth, has pairwise distinct keys.
pub open spec fn spec_value_wf(m: SpecValue) -> bool
    decreases m,
{
    match m {
        SpecValue::Array(items) => spec_seq_wf(items),
        SpecValue::Object(es) => keys_unique(es) && spec_entries_wf(es),
        _ => true,
    }
}

pub open spec fn spec_seq_wf(items: Seq<SpecValue>) -> bool
    decreases items,
{
    items.len() == 0 || (spec_value_wf(items[0]) && spec_seq_wf(
        items.subrange(1, items.len() as int),
    ))
}

pub open spec fn spec_entries_wf(es: SpecObj) -> bool
    decreases es,
{
    es.len() == 0 || (spec_value_wf(es[0].1) && spec_entries_wf(es.subrange(1, es.len() as int)))
}

pub proof fn lemma_seq_wf_index(items: Seq<SpecValue>)
    ensures
        spec_seq_wf(items) <==> (forall|i: int|
            0 <= i < items.len() ==> #[trigger] spec_value_wf(items[i])),
    decreases items,
{
    if items.len() > 0 {
        let tail = items.subrange(1, items.len() as int);
        lemma_seq_wf_index(tail);
        if spec_seq_wf(items) {
            assert forall|i: int| 0 <= i < items.len() implies #[trigger] spec_value_wf(
                items[i],
            ) by {
                if i >= 1 {
                    assert(items[i] == tail[i - 1]);
                    assert(spec_value_wf(tail[i - 1]));
                }
            }
        }
        if forall|i: int| 0 <= i < items.len() ==> #[trigger] spec_value_wf(items[i]) {
            assert forall|j: int| 0 <= j < tail.len() implies #[trigger] spec_value_wf(
                tail[j],
            ) by {
                assert(tail[j] == items[j + 1]);
                assert(spec_value_wf(items[j + 1]));
            }
            assert(spec_value_wf(items[0]));
        }
    }
}

pub proof fn lemma_entries_wf_index(es: SpecObj)
    ensures
        spec_entries_wf(es) <==> (forall|i: int|
            0 <= i < es.len() ==> #[trigger] spec_value_wf(es[i].1)),
    decreases es,
{
    if es.len() > 0 {
        let tail = es.subrange(1, es.len() as int);
        lemma_entries_wf_index(tail);
        if spec_entries_wf(es) {
            assert forall|i: int| 0 <= i < es.len() implies #[trigger] spec_value_wf(es[i].1) by {
                if i >= 1 {
                    assert(es[i] == tail[i - 1]);
                    assert(spec_value_wf(tail[i - 1].1));
                }
            }
        }
        if forall|i: int| 0 <= i < es.len() ==> #[trigger] spec_value_wf(es[i].1) {
            assert forall|j: int| 0 <= j < tail.len() implies #[trigger] spec_value_wf(
                tail[j].1,
            ) by {
                assert(tail[j] == es[j + 1]);
                assert(spec_value_wf(es[j + 1].1));
            }
            assert(spec_value_wf(es[0].1));
        }
    }
}

/// Inserting preserves key uniqueness, and looks up as expected afterwards.
pub proof fn lemma_obj_insert(es: SpecObj, key: Seq<char>, v: SpecValue)
    requires
        keys_unique(es),
    ensures
        keys_unique(obj_insert(es, key, v)),
        obj_has(obj_insert(es, key, v), key),
        obj_get(obj_insert(es, key, v), key) == v,
        forall|k: Seq<char>|
            k != key ==> #[trigger] obj_has(obj_insert(es, key, v), k) == obj_has(es, k),
        forall|k: Seq<char>|
            k != key && obj_has(es, k) ==> #[trigger] obj_get(obj_insert(es, key, v), k) == obj_get(
                es,
                k,
            ),
{
    lemma_key_index(es, key);
    let es2 = obj_insert(es, key, v);
    assert forall|k: Seq<char>| true implies {
        &&& (k != key ==> obj_has(es2, k) == obj_has(es, k))
        &&& (k != key && obj_has(es, k) ==> obj_get(es2, k) == obj_get(es, k))
        &&& (k == key ==> obj_has(es2, k) && obj_get(es2, k) == v)
    } by {
        lemma_key_index(es, k);
        lemma_key_index(es2, k);
        lemma_key_index_frame(es, es2, k, key, v);
    }
    assert(keys_unique(es2)) by {
        lemma_key_index(es, key);
    }
}

/// Helper: relate `key_index` on an object before and after an insert.
proof fn lemma_key_index_frame(es: SpecObj, es2: SpecObj, k: Seq<char>, key: Seq<char>, v: SpecValue)
    requires
        keys_unique(es),
        es2 == obj_insert(es, key, v),
    ensures
        k == key ==> key_index(es2, k) == (if obj_has(es, key) {
            key_index(es, key)
        } else {
            es.len() as int
        }),
        k != key ==> key_index(es2, k) == key_index(es, k),
    decreases es,
{
    lemma_key_index(es, k);
    lemma_key_index(es, key);
    lemma_key_index(es2, k);
    if es.len() == 0 {
    } else if es[0].0 == key {
        assert(es2 =~= seq![(key, v)] + es.subrange(1, es.len() as int));
        if k != key {
            lemma_key_index_tail(es, k);
            lemma_key_index_tail(es2, k);
            assert(es2.subrange(1, es2.len() as int) =~= es.subrange(1, es.len() as int));
        }
    } else {
        let tail = es.subrange(1, es.len() as int);
        let tail2 = es2.subrange(1, es2.len() as int);
        assert(keys_unique(tail)) by {
            assert forall|i: int, j: int| 0 <= i < j < tail.len() implies tail[i].0
                != tail[j].0 by {
                assert(tail[i] == es[i + 1]);
                assert(tail[j] == es[j + 1]);
            }
        }
        assert(tail2 =~= obj_insert(tail, key, v)) by {
            lemma_key_index(tail, key);
            if obj_has(es, key) {
                assert(es2 == es.update(key_index(es, key), (key, v)));
            } else {
                assert(es2 == es.push((key, v)));
            }
        }
        lemma_key_index_frame(tail, tail2, k, key, v);
        if es[0].0 == k {
            assert(key_index(es2, k) == 0);
        } else {
            lemma_key_index_tail(es, k);
            lemma_key_index_tail(es2, k);
        }
    }
}

/// The model of an entry list with one pair replaced is the model with the
/// modelled pair replaced.
pub proof fn lemma_entries_model_update(s: Seq<(String, Value)>, j: int, e: (String, Value))
    requires
        0 <= j < s.len(),
    ensures
        entries_model(s.update(j, e)) == entries_model(s).update(j, (e.0@, value_model(e.1))),
{
    broadcast use lemma_entries_model_len, lemma_entries_model_index;

    assert(entries_model(s.update(j, e)) =~= entries_model(s).update(j, (e.0@, value_model(e.1))));
}

/// The model of an entry list with one pair appended is the model with the
/// modelled pair appended.
pub proof fn lemma_entries_model_push(s: Seq<(String, Value)>, e: (String, Value))
    ensures
        entries_model(s.push(e)) == entries_model(s).push((e.0@, value_model(e.1))),
{
    broadcast use lemma_entries_model_len, lemma_entries_model_index;

    assert(entries_model(s.push(e)) =~= entries_model(s).push((e.0@, value_model(e.1))));
}

/// The model of an item list with one item appended.
pub proof fn lemma_seq_model_push(s: Seq<Value>, v: Value)
    ensures
        seq_model(s.push(v)) == seq_model(s).push(value_model(v)),
{
    broadcast use lemma_seq_model_len, lemma_seq_model_index;

    assert(seq_model(s.push(v)) =~= seq_model(s).push(value_model(v)));
}

/// Inserting a well-formed value into a level whose entries are all
/// well-formed keeps every entry well-formed.
pub proof fn lemma_obj_insert_wf(es: SpecObj, key: Seq<char>, v: SpecValue)
    requires
        keys_unique(es),
        spec_entries_wf(es),
        spec_value_wf(v),
    ensures
        keys_unique(obj_insert(es, key, v)),
        spec_entries_wf(obj_insert(es, key, v)),
{
    lemma_obj_insert(es, key, v);
    lemma_key_index(es, key);
    lemma_entries_wf_index(es);
    let es2 = obj_insert(es, key, v);
    lemma_entries_wf_index(es2);
    assert forall|i: int| 0 <= i < es2.len() implies #[trigger] spec_value_wf(es2[i].1) by {
        if obj_has(es, key) {
            if i != key_index(es, key) {
                assert(es2[i] == es[i]);
            }
        } else {
            if i < es.len() {
                assert(es2[i] == es[i]);
            }
        }
    }
}

/// Helper: `key_index` on a non-empty object whose head key differs.
proof fn lemma_key_index_tail(es: SpecObj, k: Seq<char>)
    requires
        es.len() > 0,
        es[0].0 != k,
    ensures
        key_index(es, k) == (if key_index(es.subrange(1, es.len() as int), k) < 0 {
            -1
        } else {
            key_index(es.subrange(1, es.len() as int), k) + 1
        }),
{
}

} // verus!
