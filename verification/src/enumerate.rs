//! Depth-first, pre-order enumeration of every object-valued key in the
//! tree: for each entry whose value is an object, the path to it is
//! emitted before the paths inside it, siblings in entry order. The list
//! drives the interactive "add a nested field here" affordances.

use vstd::prelude::*;

use crate::tree::{spec_walk, SchemaTree};
use crate::value::{
    entries_model, key_index, lemma_entries_model_index, lemma_entries_model_len,
    lemma_entries_wf_index, lemma_key_index, obj_get, obj_has, spec_entries_wf, spec_value_wf,
    SpecObj, SpecValue, Value,
};

verus! {

broadcast use lemma_entries_model_len, lemma_entries_model_index;

/// The paths emitted under `prefix` for the entry list `es`: the head
/// entry's path and its subtree first (when the head holds an object),
/// then the rest of the entries.
pub open spec fn spec_enum_entries(es: SpecObj, prefix: Seq<Seq<char>>) -> Seq<Seq<Seq<char>>>
    decreases es,
{
    if es.len() == 0 {
        Seq::empty()
    } else {
        let rest = spec_enum_entries(es.subrange(1, es.len() as int), prefix);
        match es[0].1 {
            SpecValue::Object(ces) => seq![prefix.push(es[0].0)] + spec_enum_entries(
                ces,
                prefix.push(es[0].0),
            ) + rest,
            _ => rest,
        }
    }
}

/// All object paths of a root entry list, in pre-order.
pub open spec fn spec_enumerate(root: SpecObj) -> Seq<Seq<Seq<char>>> {
    spec_enum_entries(root, Seq::empty())
}

/// Does walking `p` from `cursor` reach an object?
pub open spec fn walk_to_object(cursor: SpecValue, p: Seq<Seq<char>>) -> bool {
    match spec_walk(cursor, p) {
        Ok(v) => v is Object,
        Err(_) => false,
    }
}

/// Dropping a head entry whose key is not the first segment does not
/// change the walk.
proof fn lemma_walk_skip_head(es: SpecObj, p: Seq<Seq<char>>)
    requires
        es.len() > 0,
        p.len() > 0,
        es[0].0 != p[0],
    ensures
        spec_walk(SpecValue::Object(es), p) == spec_walk(
            SpecValue::Object(es.subrange(1, es.len() as int)),
            p,
        ),
{
    let tail = es.subrange(1, es.len() as int);
    lemma_key_index(es, p[0]);
    lemma_key_index(tail, p[0]);
    if obj_has(es, p[0]) {
        assert(es[key_index(es, p[0])] == tail[key_index(es, p[0]) - 1]);
    }
}

/// The head key restricts: a well-formed tail never holds the head key.
proof fn lemma_tail_wf(es: SpecObj)
    requires
        es.len() > 0,
        spec_value_wf(SpecValue::Object(es)),
    ensures
        spec_value_wf(SpecValue::Object(es.subrange(1, es.len() as int))),
        spec_value_wf(es[0].1),
        forall|j: int|
            0 <= j < es.subrange(1, es.len() as int).len() ==> es.subrange(1, es.len() as int)[j].0
                != es[0].0,
{
    let tail = es.subrange(1, es.len() as int);
    assert(spec_entries_wf(es));
    assert(spec_entries_wf(tail));
    assert forall|i: int, j: int| 0 <= i < j < tail.len() implies tail[i].0 != tail[j].0 by {
        assert(tail[i] == es[i + 1]);
        assert(tail[j] == es[j + 1]);
    }
    assert forall|j: int| 0 <= j < tail.len() implies tail[j].0 != es[0].0 by {
        assert(tail[j] == es[j + 1]);
    }
}

/// Every emitted path extends the prefix by at least one segment, its
/// first own segment is a key of this level, and walking its own segments
/// from this level reaches an object.
proof fn lemma_enum_sound(es: SpecObj, prefix: Seq<Seq<char>>)
    requires
        spec_value_wf(SpecValue::Object(es)),
    ensures
        forall|t: int|
            0 <= t < spec_enum_entries(es, prefix).len() ==> {
                let q = #[trigger] spec_enum_entries(es, prefix)[t];
                &&& q.len() > prefix.len()
                &&& q.take(prefix.len() as int) == prefix
                &&& obj_has(es, q[prefix.len() as int])
                &&& walk_to_object(SpecValue::Object(es), q.skip(prefix.len() as int))
            },
    decreases es,
{
    if es.len() > 0 {
        let plen = prefix.len() as int;
        let tail = es.subrange(1, es.len() as int);
        let k0 = es[0].0;
        let ec = spec_enum_entries(tail, prefix);
        lemma_tail_wf(es);
        lemma_enum_sound(tail, prefix);
        lemma_key_index(es, k0);
        assert(key_index(es, k0) == 0);
        match es[0].1 {
            SpecValue::Object(ces) => {
                let np = prefix.push(k0);
                let eb = spec_enum_entries(ces, np);
                lemma_enum_sound(ces, np);
                let e = spec_enum_entries(es, prefix);
                assert(e == seq![np] + eb + ec);
                assert forall|t: int| 0 <= t < e.len() implies {
                    let q = #[trigger] e[t];
                    &&& q.len() > plen
                    &&& q.take(plen) == prefix
                    &&& obj_has(es, q[plen])
                    &&& walk_to_object(SpecValue::Object(es), q.skip(plen))
                } by {
                    let q = e[t];
                    if t == 0 {
                        assert(q == np);
                        assert(q.take(plen) =~= prefix);
                        assert(q[plen] == k0);
                        assert(q.skip(plen) =~= seq![k0]);
                        assert(obj_get(es, k0) == es[0].1);
                        assert(seq![k0].subrange(1, 1) =~= Seq::<Seq<char>>::empty());
                        assert(spec_walk(es[0].1, seq![k0].subrange(1, 1)) == Ok::<
                            SpecValue,
                            crate::value::PathError,
                        >(es[0].1));
                    } else if t < 1 + eb.len() {
                        assert(q == eb[t - 1]);
                        assert(q.len() > np.len());
                        assert(q.take(np.len() as int) == np);
                        assert(q.take(plen) =~= q.take(np.len() as int).take(plen));
                        assert(q.take(np.len() as int).take(plen) =~= np.take(plen));
                        assert(np.take(plen) =~= prefix);
                        assert(q[plen] == q.take(np.len() as int)[plen]);
                        assert(q[plen] == k0);
                        let po = q.skip(plen);
                        assert(po[0] == k0);
                        assert(obj_get(es, k0) == es[0].1);
                        assert(po.subrange(1, po.len() as int) =~= q.skip(np.len() as int));
                        assert(walk_to_object(SpecValue::Object(ces), q.skip(np.len() as int)));
                    } else {
                        assert(q == ec[t - 1 - eb.len()]);
                        assert(obj_has(tail, q[plen]));
                        lemma_key_index(tail, q[plen]);
                        assert(tail[key_index(tail, q[plen])].0 == q[plen]);
                        assert(q[plen] != k0);
                        lemma_key_index(es, q[plen]);
                        lemma_walk_skip_head(es, q.skip(plen));
                    }
                }
            },
            _ => {
                let e = spec_enum_entries(es, prefix);
                assert(e == ec);
                assert forall|t: int| 0 <= t < e.len() implies {
                    let q = #[trigger] e[t];
                    &&& q.len() > plen
                    &&& q.take(plen) == prefix
                    &&& obj_has(es, q[plen])
                    &&& walk_to_object(SpecValue::Object(es), q.skip(plen))
                } by {
                    let q = e[t];
                    assert(q == ec[t]);
                    assert(obj_has(tail, q[plen]));
                    lemma_key_index(tail, q[plen]);
                    assert(tail[key_index(tail, q[plen])].0 == q[plen]);
                    assert(q[plen] != k0);
                    lemma_key_index(es, q[plen]);
                    lemma_walk_skip_head(es, q.skip(plen));
                }
            },
        }
    }
}

/// Every path that walks from this level to an object is emitted, under
/// the extended prefix.
proof fn lemma_enum_complete(es: SpecObj, prefix: Seq<Seq<char>>, p: Seq<Seq<char>>)
    requires
        spec_value_wf(SpecValue::Object(es)),
        p.len() >= 1,
        walk_to_object(SpecValue::Object(es), p),
    ensures
        spec_enum_entries(es, prefix).contains(prefix + p),
    decreases es,
{
    lemma_key_index(es, p[0]);
    assert(obj_has(es, p[0]));
    let ki = key_index(es, p[0]);
    let tail = es.subrange(1, es.len() as int);
    lemma_tail_wf(es);
    let e = spec_enum_entries(es, prefix);
    if ki == 0 {
        assert(es[0].0 == p[0]);
        assert(obj_get(es, p[0]) == es[0].1);
        match es[0].1 {
            SpecValue::Object(ces) => {
                let np = prefix.push(p[0]);
                let eb = spec_enum_entries(ces, np);
                assert(e == seq![np] + eb + spec_enum_entries(tail, prefix));
                if p.len() == 1 {
                    assert(prefix + p =~= np);
                    assert(e[0] == np);
                    assert(e.contains(prefix + p));
                } else {
                    assert(spec_walk(SpecValue::Object(es), p) == spec_walk(
                        es[0].1,
                        p.subrange(1, p.len() as int),
                    ));
                    lemma_enum_complete(ces, np, p.subrange(1, p.len() as int));
                    let x = np + p.subrange(1, p.len() as int);
                    assert(eb.contains(x));
                    let w = choose|w: int| 0 <= w < eb.len() && eb[w] == x;
                    assert(e[1 + w] == x);
                    assert(prefix + p =~= x);
                    assert(e.contains(prefix + p));
                }
            },
            _ => {
                if p.len() == 1 {
                    assert(spec_walk(SpecValue::Object(es), p) == Ok::<
                        SpecValue,
                        crate::value::PathError,
                    >(es[0].1)) by {
                        assert(p.subrange(1, 1) =~= Seq::<Seq<char>>::empty());
                    }
                    assert(false);
                } else {
                    assert(spec_walk(SpecValue::Object(es), p) == spec_walk(
                        es[0].1,
                        p.subrange(1, p.len() as int),
                    ));
                    assert(p.subrange(1, p.len() as int).len() > 0);
                    assert(false);
                }
            },
        }
    } else {
        assert(es[0].0 != p[0]);
        lemma_walk_skip_head(es, p);
        lemma_enum_complete(tail, prefix, p);
        let ec = spec_enum_entries(tail, prefix);
        let x = prefix + p;
        let w = choose|w: int| 0 <= w < ec.len() && ec[w] == x;
        match es[0].1 {
            SpecValue::Object(ces) => {
                let np = prefix.push(es[0].0);
                let eb = spec_enum_entries(ces, np);
                assert(e == seq![np] + eb + ec);
                assert(e[1 + eb.len() + w] == x);
                assert(e.contains(x));
            },
            _ => {
                assert(e == ec);
                assert(e.contains(x));
            },
        }
    }
}

/// No path is emitted twice.
proof fn lemma_enum_distinct(es: SpecObj, prefix: Seq<Seq<char>>)
    requires
        spec_value_wf(SpecValue::Object(es)),
    ensures
        forall|i: int, j: int|
            0 <= i < j < spec_enum_entries(es, prefix).len() ==> spec_enum_entries(es, prefix)[i]
                != spec_enum_entries(es, prefix)[j],
    decreases es,
{
    if es.len() > 0 {
        let plen = prefix.len() as int;
        let tail = es.subrange(1, es.len() as int);
        let k0 = es[0].0;
        let ec = spec_enum_entries(tail, prefix);
        lemma_tail_wf(es);
        lemma_enum_distinct(tail, prefix);
        lemma_enum_sound(tail, prefix);
        let e = spec_enum_entries(es, prefix);
        match es[0].1 {
            SpecValue::Object(ces) => {
                let np = prefix.push(k0);
                let eb = spec_enum_entries(ces, np);
                lemma_enum_distinct(ces, np);
                lemma_enum_sound(ces, np);
                assert(e == seq![np] + eb + ec);
                assert forall|i: int, j: int| 0 <= i < j < e.len() implies e[i] != e[j] by {
                    let a = e[i];
                    let b = e[j];
                    if i == 0 {
                        assert(a == np);
                        if j < 1 + eb.len() {
                            assert(b == eb[j - 1]);
                            assert(b.len() > np.len());
                        } else {
                            assert(b == ec[j - 1 - eb.len()]);
                            assert(obj_has(tail, b[plen]));
                            lemma_key_index(tail, b[plen]);
                            assert(tail[key_index(tail, b[plen])].0 == b[plen]);
                            assert(b[plen] != k0);
                            assert(a[plen] == k0);
                        }
                    } else if i < 1 + eb.len() {
                        assert(a == eb[i - 1]);
                        if j < 1 + eb.len() {
                            assert(b == eb[j - 1]);
                        } else {
                            assert(b == ec[j - 1 - eb.len()]);
                            assert(a.take(np.len() as int) == np);
                            assert(a[plen] == a.take(np.len() as int)[plen]);
                            assert(a[plen] == k0);
                            assert(obj_has(tail, b[plen]));
                            lemma_key_index(tail, b[plen]);
                            assert(tail[key_index(tail, b[plen])].0 == b[plen]);
                            assert(b[plen] != k0);
                        }
                    } else {
                        assert(a == ec[i - 1 - eb.len()]);
                        assert(b == ec[j - 1 - eb.len()]);
                    }
                }
            },
            _ => {
                assert(e == ec);
            },
        }
    }
}

/// Enumeration is sound: every returned path is non-empty and resolves,
/// by the resolver's walk, to an object of the tree.
pub proof fn lemma_enumeration_sound(root: SpecObj)
    requires
        spec_value_wf(SpecValue::Object(root)),
    ensures
        forall|t: int|
            0 <= t < spec_enumerate(root).len() ==> {
                let q = #[trigger] spec_enumerate(root)[t];
                q.len() >= 1 && walk_to_object(SpecValue::Object(root), q)
            },
{
    lemma_enum_sound(root, Seq::empty());
    assert forall|t: int| 0 <= t < spec_enumerate(root).len() implies {
        let q = #[trigger] spec_enumerate(root)[t];
        q.len() >= 1 && walk_to_object(SpecValue::Object(root), q)
    } by {
        let q = spec_enumerate(root)[t];
        assert(q.skip(0) =~= q);
    }
}

/// Enumeration is complete: every non-empty path whose walk reaches an
/// object of the tree is in the returned list.
pub proof fn lemma_enumeration_complete(root: SpecObj, p: Seq<Seq<char>>)
    requires
        spec_value_wf(SpecValue::Object(root)),
        p.len() >= 1,
        walk_to_object(SpecValue::Object(root), p),
    ensures
        spec_enumerate(root).contains(p),
{
    lemma_enum_complete(root, Seq::empty(), p);
    assert(Seq::<Seq<char>>::empty() + p =~= p);
}

/// Enumeration emits every such path exactly once: no two positions of
/// the returned list hold the same path.
pub proof fn lemma_enumeration_distinct(root: SpecObj)
    requires
        spec_value_wf(SpecValue::Object(root)),
    ensures
        forall|i: int, j: int|
            0 <= i < j < spec_enumerate(root).len() ==> spec_enumerate(root)[i] != spec_enumerate(
                root,
            )[j],
{
    lemma_enum_distinct(root, Seq::empty());
}

/// Copy a path so one copy can be emitted and one extended.
fn clone_path(v: &Vec<String>) -> (r: Vec<String>)
    ensures
        r.deep_view() == v.deep_view(),
{
    let mut r: Vec<String> = Vec::new();
    let mut i: usize = 0;
    while i < v.len()
        invariant
            i <= v@.len(),
            r.deep_view() =~= v.deep_view().take(i as int),
        decreases v@.len() - i,
    {
        let ghost r0 = r.deep_view();
        r.push(v[i].clone());
        proof {
            assert(r.deep_view() =~= r0.push(v@[i as int]@));
            assert(r.deep_view() =~= v.deep_view().take(i + 1));
        }
        i = i + 1;
    }
    proof {
        assert(r.deep_view() =~= v.deep_view());
    }
    r
}

/// Append to `out` the paths of every object-valued key under `entries`,
/// pre-order, each extending `prefix`.
fn enum_entries(entries: &Vec<(String, Value)>, prefix: &Vec<String>, out: &mut Vec<Vec<String>>)
    ensures
        final(out).deep_view() == old(out).deep_view() + spec_enum_entries(
            entries_model(entries@),
            prefix.deep_view(),
        ),
    decreases entries@,
{
    let ghost m0 = entries_model(entries@);
    let ghost p = prefix.deep_view();
    let ghost out0 = out.deep_view();
    let mut i: usize = 0;
    proof {
        assert(m0.skip(0) =~= m0);
    }
    while i < entries.len()
        invariant
            i <= entries@.len(),
            m0 == entries_model(entries@),
            p == prefix.deep_view(),
            m0.len() == entries@.len(),
            out.deep_view() + spec_enum_entries(m0.skip(i as int), p) =~= out0 + spec_enum_entries(
                m0,
                p,
            ),
        decreases entries@.len() - i,
    {
        proof {
            assert(m0.skip(i as int)[0] == m0[i as int]);
            assert(m0.skip(i as int).subrange(1, m0.skip(i as int).len() as int) =~= m0.skip(
                i as int + 1,
            ));
        }
        let entry_val: &Value = &entries[i].1;
        match entry_val {
            Value::Object(ces) => {
                let mut np = clone_path(prefix);
                np.push(entries[i].0.clone());
                proof {
                    assert(np.deep_view() =~= p.push(m0[i as int].0));
                }
                let emitted = clone_path(&np);
                let ghost out1 = out.deep_view();
                out.push(emitted);
                proof {
                    assert(out.deep_view() =~= out1.push(np.deep_view()));
                    assert(m0[i as int].1 == SpecValue::Object(entries_model(ces@)));
                    assert(decreases_to!(entries@ => entries@[i as int]));
                    assert(decreases_to!(entries@[i as int] => entries@[i as int].1));
                    assert(decreases_to!(entries@[i as int].1 => entries@[i as int].1->Object_0));
                    assert(decreases_to!(
                        entries@[i as int].1->Object_0 => entries@[i as int].1->Object_0@));
                }
                enum_entries(ces, &np, out);
                proof {
                    assert(out.deep_view() =~= out1.push(np.deep_view()) + spec_enum_entries(
                        entries_model(ces@),
                        np.deep_view(),
                    ));
                    assert(out.deep_view() + spec_enum_entries(m0.skip(i as int + 1), p) =~= out0
                        + spec_enum_entries(m0, p));
                }
            },
            _ => {
                proof {
                    assert(spec_enum_entries(m0.skip(i as int), p) == spec_enum_entries(
                        m0.skip(i as int + 1),
                        p,
                    ));
                }
            },
        }
        i = i + 1;
    }
    proof {
        assert(m0.skip(i as int) =~= Seq::empty());
        assert(out.deep_view() =~= out0 + spec_enum_entries(m0, p));
    }
}

impl SchemaTree {
    /// Enumerate every object-valued key of the tree, pre-order, as
    /// array-of-segments paths fit for the resolver.
    pub fn enumerate_objects(&self) -> (r: Vec<Vec<String>>)
        ensures
            r.deep_view() == spec_enumerate(self@),
    {
        let prefix: Vec<String> = Vec::new();
        let mut out: Vec<Vec<String>> = Vec::new();
        proof {
            assert(prefix.deep_view() =~= Seq::<Seq<char>>::empty());
            assert(out.deep_view() =~= Seq::<Seq<Seq<char>>>::empty());
        }
        enum_entries(&self.root, &prefix, &mut out);
        proof {
            assert(out.deep_view() =~= spec_enumerate(self@));
        }
        out
    }
}

} // verus!
