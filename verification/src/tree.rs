//! The schema tree: a path-addressed document root, its resolver and its
//! add-field operation.
//!
//! Paths here are the array-of-segments kind: segment 0 names a child of the
//! root object (usually the empty-string key under which the user-visible
//! top-level object sits), each later segment names a child of the previous
//! one.

use vstd::prelude::*;

use crate::value::{
    entries_model, key_index, keys_unique, lemma_entries_model_index, lemma_entries_model_len,
    lemma_entries_model_push, lemma_entries_model_update, lemma_entries_wf_index, lemma_key_index,
    lemma_obj_insert, lemma_obj_insert_wf, obj_get,
    obj_has, obj_insert, spec_value_wf, FieldType, PathError, SpecObj, SpecValue, Value,
};

use crate::parse::spec_value_of_raw;

verus! {

broadcast use lemma_entries_model_len, lemma_entries_model_index;

/// Walk `path` from `cursor`, as the resolver does: every visited node must
/// be an object, every segment must name an existing child.
pub open spec fn spec_walk(cursor: SpecValue, path: Seq<Seq<char>>) -> Result<
    SpecValue,
    PathError,
>
    decreases path.len(),
{
    if path.len() == 0 {
        Ok(cursor)
    } else {
        match cursor {
            SpecValue::Object(es) => if obj_has(es, path[0]) {
                spec_walk(obj_get(es, path[0]), path.subrange(1, path.len() as int))
            } else {
                Err(PathError::MissingSegment)
            },
            _ => Err(PathError::NotAnObject),
        }
    }
}

/// Walk `path` from `cursor` and insert (or overwrite) `field` in the object
/// found there. Fails exactly where the walk fails, or with `NotAnObject`
/// when the resolved node is no object; on failure nothing is changed.
pub open spec fn spec_update(
    cursor: SpecValue,
    path: Seq<Seq<char>>,
    field: Seq<char>,
    val: SpecValue,
) -> Result<SpecValue, PathError>
    decreases path.len(),
{
    if path.len() == 0 {
        match cursor {
            SpecValue::Object(es) => Ok(SpecValue::Object(obj_insert(es, field, val))),
            _ => Err(PathError::NotAnObject),
        }
    } else {
        match cursor {
            SpecValue::Object(es) => if obj_has(es, path[0]) {
                match spec_update(
                    obj_get(es, path[0]),
                    path.subrange(1, path.len() as int),
                    field,
                    val,
                ) {
                    Ok(nv) => Ok(SpecValue::Object(obj_insert(es, path[0], nv))),
                    Err(e) => Err(e),
                }
            } else {
                Err(PathError::MissingSegment)
            },
            _ => Err(PathError::NotAnObject),
        }
    }
}

/// The add-field operation on a root entry list. An empty path is invalid
/// and is rejected without looking at the tree.
pub open spec fn spec_add_field(
    root: SpecObj,
    path: Seq<Seq<char>>,
    field: Seq<char>,
    val: SpecValue,
) -> Result<SpecObj, PathError> {
    if path.len() == 0 {
        Err(PathError::MissingSegment)
    } else {
        match spec_update(SpecValue::Object(root), path, field, val) {
            Ok(SpecValue::Object(es)) => Ok(es),
            Ok(_) => Err(PathError::NotAnObject),
            Err(e) => Err(e),
        }
    }
}

/// Resolving is deterministic: whatever two calls on the same tree and
/// path return, the walk pins both to the same node, so repeating a
/// resolve without an intervening mutation yields identical contents.
pub proof fn lemma_resolver_deterministic(
    root: SpecObj,
    path: Seq<Seq<char>>,
    r1: Result<SpecValue, PathError>,
    r2: Result<SpecValue, PathError>,
)
    requires
        r1 == spec_walk(SpecValue::Object(root), path),
        r2 == spec_walk(SpecValue::Object(root), path),
    ensures
        r1 == r2,
{
}

/// A successful update always hands back an object.
pub proof fn lemma_spec_update_is_object(
    cursor: SpecValue,
    path: Seq<Seq<char>>,
    field: Seq<char>,
    val: SpecValue,
)
    ensures
        match spec_update(cursor, path, field, val) {
            Ok(nv) => nv is Object,
            Err(_) => true,
        },
{
}

/// A successful update of a well-formed tree with a well-formed value is
/// well-formed again.
pub proof fn lemma_spec_update_wf(
    cursor: SpecValue,
    path: Seq<Seq<char>>,
    field: Seq<char>,
    val: SpecValue,
)
    requires
        spec_value_wf(cursor),
        spec_value_wf(val),
    ensures
        match spec_update(cursor, path, field, val) {
            Ok(nv) => spec_value_wf(nv),
            Err(_) => true,
        },
    decreases path.len(),
{
    match cursor {
        SpecValue::Object(es) => {
            lemma_entries_wf_index(es);
            if path.len() == 0 {
                lemma_obj_insert_wf(es, field, val);
            } else if obj_has(es, path[0]) {
                lemma_key_index(es, path[0]);
                let child = obj_get(es, path[0]);
                assert(spec_value_wf(child));
                lemma_spec_update_wf(child, path.subrange(1, path.len() as int), field, val);
                match spec_update(child, path.subrange(1, path.len() as int), field, val) {
                    Ok(nv) => {
                        lemma_obj_insert_wf(es, path[0], nv);
                    },
                    Err(_) => {},
                }
            }
        },
        _ => {},
    }
}

/// An update never touches entries other than the one on its path: at the
/// level it passes through, every other key keeps its value.
pub proof fn lemma_spec_update_frame(
    cursor: SpecValue,
    path: Seq<Seq<char>>,
    field: Seq<char>,
    val: SpecValue,
)
    requires
        path.len() > 0,
        cursor is Object,
        keys_unique(cursor->Object_0),
    ensures
        match spec_update(cursor, path, field, val) {
            Ok(nv) => {
                &&& nv is Object
                &&& forall|k: Seq<char>|
                    k != path[0] ==> #[trigger] obj_has(nv->Object_0, k) == obj_has(
                        cursor->Object_0,
                        k,
                    )
                &&& forall|k: Seq<char>|
                    k != path[0] && obj_has(cursor->Object_0, k) ==> #[trigger] obj_get(
                        nv->Object_0,
                        k,
                    ) == obj_get(cursor->Object_0, k)
                &&& obj_has(nv->Object_0, path[0])
            },
            Err(_) => true,
        },
{
    let es = cursor->Object_0;
    if obj_has(es, path[0]) {
        let child = obj_get(es, path[0]);
        match spec_update(child, path.subrange(1, path.len() as int), field, val) {
            Ok(nv) => {
                lemma_obj_insert(es, path[0], nv);
            },
            Err(_) => {},
        }
    }
}

/// The schema tree being assembled. Its root object always holds the
/// user-visible top-level object under the empty-string key.
#[derive(Debug, PartialEq)]
pub struct SchemaTree {
    pub root: Vec<(String, Value)>,
}

impl View for SchemaTree {
    type V = SpecObj;

    open spec fn view(&self) -> SpecObj {
        entries_model(self.root@)
    }
}

impl SchemaTree {
    /// Keys are distinct everywhere and the empty-string entry of the root
    /// is an object.
    pub open spec fn wf(self) -> bool {
        &&& spec_value_wf(SpecValue::Object(self@))
        &&& obj_has(self@, Seq::empty())
        &&& obj_get(self@, Seq::empty()) is Object
    }

    /// A fresh tree: one empty top-level object under the empty-string key.
    pub fn new() -> (t: SchemaTree)
        ensures
            t.wf(),
            t@ =~= seq![(Seq::<char>::empty(), SpecValue::Object(Seq::empty()))],
    {
        let mut root: Vec<(String, Value)> = Vec::new();
        root.push((String::new(), Value::Object(Vec::new())));
        let t = SchemaTree { root };
        proof {
            assert(t@ =~= seq![(Seq::<char>::empty(), SpecValue::Object(Seq::empty()))]);
            let es = t@;
            assert(es[0].0 == Seq::<char>::empty());
            assert(obj_has(es, Seq::empty()));
            lemma_entries_wf_index(es);
        }
        t
    }
}

/// Find the first entry of `entries` named `key`.
pub(crate) fn obj_find(entries: &Vec<(String, Value)>, key: &String) -> (r: Option<usize>)
    ensures
        match r {
            Some(j) => j < entries@.len() && key_index(entries_model(entries@), key@) == j as int,
            None => key_index(entries_model(entries@), key@) == -1,
        },
{
    let mut i: usize = 0;
    while i < entries.len()
        invariant
            i <= entries@.len(),
            forall|j: int| 0 <= j < i ==> entries_model(entries@)[j].0 != key@,
        decreases entries@.len() - i,
    {
        if entries[i].0 == *key {
            proof {
                assert(entries_model(entries@)[i as int].0 == key@);
                lemma_key_index(entries_model(entries@), key@);
            }
            return Some(i);
        }
        proof {
            assert(entries_model(entries@)[i as int].0 != key@);
        }
        i = i + 1;
    }
    proof {
        lemma_key_index(entries_model(entries@), key@);
    }
    None
}

/// Walk the remaining segments of `path` from `cursor`, read-only.
fn walk_value<'a>(cursor: &'a Value, path: &Vec<String>, i: usize) -> (r: Result<
    &'a Value,
    PathError,
>)
    requires
        i <= path@.len(),
    ensures
        match r {
            Ok(v) => spec_walk(cursor@, path.deep_view().skip(i as int)) == Ok::<
                SpecValue,
                PathError,
            >(v@),
            Err(e) => spec_walk(cursor@, path.deep_view().skip(i as int)) == Err::<
                SpecValue,
                PathError,
            >(e),
        },
    decreases path@.len() - i,
{
    let ghost segs = path.deep_view().skip(i as int);
    if i == path.len() {
        proof {
            assert(segs.len() == 0);
        }
        Ok(cursor)
    } else {
        match cursor {
            Value::Object(entries) => {
                proof {
                    assert(cursor@ == SpecValue::Object(entries_model(entries@)));
                    assert(segs[0] == path.deep_view()[i as int]);
                }
                match obj_find(entries, &path[i]) {
                    Some(j) => {
                        proof {
                            lemma_key_index(entries_model(entries@), path@[i as int]@);
                            assert(obj_get(entries_model(entries@), segs[0]) == entries@[
                                j as int].1@);
                            assert(path.deep_view().skip(i as int).subrange(
                                1,
                                path.deep_view().skip(i as int).len() as int,
                            ) =~= path.deep_view().skip(i as int + 1));
                        }
                        walk_value(&entries[j].1, path, i + 1)
                    },
                    None => {
                        proof {
                            lemma_key_index(entries_model(entries@), path@[i as int]@);
                        }
                        Err(PathError::MissingSegment)
                    },
                }
            },
            _ => Err(PathError::NotAnObject),
        }
    }
}

/// Rebuild `cursor` with `field` inserted into the object named by the
/// segments of `path` from position `i` on. On failure the unchanged
/// cursor comes back beside the error.
fn update_at(cursor: Value, path: &Vec<String>, i: usize, field: &String, val: Value) -> (r:
    Result<Value, (Value, PathError)>)
    requires
        i <= path@.len(),
    ensures
        match r {
            Ok(nv) => spec_update(cursor@, path.deep_view().skip(i as int), field@, val@) == Ok::<
                SpecValue,
                PathError,
            >(nv@),
            Err((back, e)) => spec_update(cursor@, path.deep_view().skip(i as int), field@, val@)
                == Err::<SpecValue, PathError>(e) && back@ == cursor@,
        },
    decreases path@.len() - i,
{
    let ghost segs = path.deep_view().skip(i as int);
    if i == path.len() {
        proof {
            assert(segs.len() == 0);
        }
        match cursor {
            Value::Object(mut entries) => {
                let ghost e0 = entries@;
                let ghost m0 = entries_model(e0);
                proof {
                    assert(cursor@ == SpecValue::Object(m0));
                }
                match obj_find(&entries, field) {
                    Some(j) => {
                        proof {
                            lemma_key_index(m0, field@);
                        }
                        let _replaced = entries.remove(j);
                        entries.insert(j, (field.clone(), val));
                        proof {
                            assert(entries@ =~= e0.update(
                                j as int,
                                (entries@[j as int].0, entries@[j as int].1),
                            ));
                            lemma_entries_model_update(
                                e0,
                                j as int,
                                (entries@[j as int].0, entries@[j as int].1),
                            );
                            assert(entries_model(entries@) =~= obj_insert(m0, field@, val@));
                        }
                        Ok(Value::Object(entries))
                    },
                    None => {
                        entries.push((field.clone(), val));
                        proof {
                            lemma_entries_model_push(
                                e0,
                                (entries@[e0.len() as int].0, entries@[e0.len() as int].1),
                            );
                            assert(entries@ =~= e0.push(
                                (entries@[e0.len() as int].0, entries@[e0.len() as int].1),
                            ));
                            assert(entries_model(entries@) =~= obj_insert(m0, field@, val@));
                        }
                        Ok(Value::Object(entries))
                    },
                }
            },
            other => Err((other, PathError::NotAnObject)),
        }
    } else {
        proof {
            assert(segs[0] == path.deep_view()[i as int]);
            assert(segs.subrange(1, segs.len() as int) =~= path.deep_view().skip(i as int + 1));
        }
        match cursor {
            Value::Object(mut entries) => {
                let ghost e0 = entries@;
                let ghost m0 = entries_model(e0);
                proof {
                    assert(cursor@ == SpecValue::Object(m0));
                }
                match obj_find(&entries, &path[i]) {
                    Some(j) => {
                        proof {
                            lemma_key_index(m0, path@[i as int]@);
                            assert(obj_get(m0, segs[0]) == e0[j as int].1@);
                        }
                        let (k, child) = entries.remove(j);
                        match update_at(child, path, i + 1, field, val) {
                            Ok(nc) => {
                                entries.insert(j, (k, nc));
                                proof {
                                    assert(entries@ =~= e0.update(
                                        j as int,
                                        (entries@[j as int].0, entries@[j as int].1),
                                    ));
                                    lemma_entries_model_update(
                                        e0,
                                        j as int,
                                        (entries@[j as int].0, entries@[j as int].1),
                                    );
                                    assert(entries_model(entries@) =~= obj_insert(
                                        m0,
                                        segs[0],
                                        entries@[j as int].1@,
                                    ));
                                }
                                Ok(Value::Object(entries))
                            },
                            Err((back, e)) => {
                                entries.insert(j, (k, back));
                                proof {
                                    assert(entries@ =~= e0.update(
                                        j as int,
                                        (entries@[j as int].0, entries@[j as int].1),
                                    ));
                                    lemma_entries_model_update(
                                        e0,
                                        j as int,
                                        (entries@[j as int].0, entries@[j as int].1),
                                    );
                                    assert(entries_model(entries@) =~= m0);
                                }
                                Err((Value::Object(entries), e))
                            },
                        }
                    },
                    None => {
                        proof {
                            lemma_key_index(m0, path@[i as int]@);
                        }
                        Err((Value::Object(entries), PathError::MissingSegment))
                    },
                }
            },
            other => Err((other, PathError::NotAnObject)),
        }
    }
}

impl SchemaTree {
    /// Insert (or overwrite) `field_name` in the object that `path` names,
    /// leaving the rest of the tree as it was; on any path error the whole
    /// tree is exactly as it was before the call.
    pub fn add_value(&mut self, path: &Vec<String>, field_name: &String, val: Value) -> (r: Result<
        (),
        PathError,
    >)
        requires
            old(self).wf(),
            spec_value_wf(val@),
        ensures
            match r {
                Ok(_) => spec_add_field(old(self)@, path.deep_view(), field_name@, val@) == Ok::<
                    SpecObj,
                    PathError,
                >(final(self)@),
                Err(e) => spec_add_field(old(self)@, path.deep_view(), field_name@, val@) == Err::<
                    SpecObj,
                    PathError,
                >(e) && final(self)@ == old(self)@,
            },
            final(self).wf(),
    {
        if path.len() == 0 {
            return Err(PathError::MissingSegment);
        }
        let ghost segs = path.deep_view();
        let ghost m0 = old(self)@;
        let mut root: Vec<(String, Value)> = Vec::new();
        core::mem::swap(&mut root, &mut self.root);
        let cursor = Value::Object(root);
        proof {
            assert(cursor@ == SpecValue::Object(m0));
            assert(segs.skip(0) =~= segs);
            lemma_spec_update_wf(cursor@, segs, field_name@, val@);
            lemma_spec_update_frame(cursor@, segs, field_name@, val@);
        }
        match update_at(cursor, path, 0, field_name, val) {
            Ok(nv) => {
                match nv {
                    Value::Object(es) => {
                        self.root = es;
                        proof {
                            lemma_wf_after_update(m0, segs, field_name@, val@);
                        }
                        Ok(())
                    },
                    _ => {
                        proof {
                            assert(false);
                        }
                        vstd::pervasive::unreached()
                    },
                }
            },
            Err((back, e)) => {
                match back {
                    Value::Object(es) => {
                        self.root = es;
                        proof {
                            assert(self@ =~= m0);
                        }
                        Err(e)
                    },
                    _ => {
                        proof {
                            assert(false);
                        }
                        vstd::pervasive::unreached()
                    },
                }
            },
        }
    }
}

/// After a successful update of a well-formed tree root with a well-formed
/// value, the root is well-formed again: keys stay unique everywhere and
/// the empty-string entry is still an object.
proof fn lemma_wf_after_update(m0: SpecObj, segs: Seq<Seq<char>>, field: Seq<char>, val: SpecValue)
    requires
        segs.len() > 0,
        spec_value_wf(SpecValue::Object(m0)),
        spec_value_wf(val),
        obj_has(m0, Seq::empty()),
        obj_get(m0, Seq::empty()) is Object,
        spec_update(SpecValue::Object(m0), segs, field, val) is Ok,
    ensures
        match spec_update(SpecValue::Object(m0), segs, field, val) {
            Ok(nv) => {
                &&& nv is Object
                &&& spec_value_wf(nv)
                &&& obj_has(nv->Object_0, Seq::empty())
                &&& obj_get(nv->Object_0, Seq::empty()) is Object
            },
            Err(_) => true,
        },
{
    let cursor = SpecValue::Object(m0);
    lemma_spec_update_wf(cursor, segs, field, val);
    lemma_spec_update_frame(cursor, segs, field, val);
    match spec_update(cursor, segs, field, val) {
        Ok(nv) => {
            if segs[0] == Seq::<char>::empty() {
                let child = obj_get(m0, segs[0]);
                lemma_spec_update_is_object(
                    child,
                    segs.subrange(1, segs.len() as int),
                    field,
                    val,
                );
                lemma_obj_insert(
                    m0,
                    segs[0],
                    match spec_update(child, segs.subrange(1, segs.len() as int), field, val) {
                        Ok(nc) => nc,
                        Err(_) => val,
                    },
                );
            }
        },
        Err(_) => {},
    }
}

impl SchemaTree {
    /// The add-field operation: parse `raw_value` under `type_tag` (with
    /// the number words for the comma-separated pieces supplied in
    /// `number_bits`), then insert the result under `field_name` in the
    /// object that `path` names. An empty path is rejected, and on any
    /// error the tree is exactly as it was.
    pub fn add_field(
        &mut self,
        path: &Vec<String>,
        field_name: &String,
        type_tag: FieldType,
        raw_value: &String,
        number_bits: &Vec<Option<u64>>,
    ) -> (r: Result<(), PathError>)
        requires
            old(self).wf(),
        ensures
            match r {
                Ok(_) => spec_add_field(
                    old(self)@,
                    path.deep_view(),
                    field_name@,
                    spec_value_of_raw(type_tag, raw_value@, number_bits@),
                ) == Ok::<SpecObj, PathError>(final(self)@),
                Err(e) => spec_add_field(
                    old(self)@,
                    path.deep_view(),
                    field_name@,
                    spec_value_of_raw(type_tag, raw_value@, number_bits@),
                ) == Err::<SpecObj, PathError>(e) && final(self)@ == old(self)@,
            },
            final(self).wf(),
    {
        let val = crate::parse::value_of_raw(type_tag, raw_value, number_bits);
        self.add_value(path, field_name, val)
    }

    /// Resolve an array-of-segments path to the node it names, for the
    /// caller to inspect before growing the tree there. The result is
    /// exactly what walking the path in the model gives, so two calls
    /// without an intervening mutation return the same node.
    pub fn resolve_for_write<'a>(&'a self, path: &Vec<String>) -> (r: Result<&'a Value, PathError>)
        requires
            path@.len() >= 1,
        ensures
            match r {
                Ok(v) => spec_walk(SpecValue::Object(self@), path.deep_view()) == Ok::<
                    SpecValue,
                    PathError,
                >(v@),
                Err(e) => spec_walk(SpecValue::Object(self@), path.deep_view()) == Err::<
                    SpecValue,
                    PathError,
                >(e),
            },
    {
        proof {
            assert(path.deep_view().skip(0) =~= path.deep_view());
        }
        match obj_find(&self.root, &path[0]) {
            Some(j) => {
                proof {
                    lemma_key_index(self@, path@[0]@);
                    assert(obj_get(self@, path.deep_view()[0]) == self.root@[j as int].1@);
                    assert(path.deep_view().subrange(1, path.deep_view().len() as int)
                        =~= path.deep_view().skip(1));
                }
                walk_value(&self.root[j].1, path, 1)
            },
            None => {
                proof {
                    lemma_key_index(self@, path@[0]@);
                }
                Err(PathError::MissingSegment)
            },
        }
    }
}

} // verus!
