//! The content injector: writes a generated string into the tree at a
//! dot-joined path.
//!
//! This walk is deliberately distinct from the resolver's: it splits its
//! path string on `.`, starts at the top-level object (the value under the
//! root's empty-string key), and overwrites the first string-typed node it
//! meets, ignoring any remaining segments. A path that runs out without
//! meeting a string changes nothing and reports success.

use vstd::prelude::*;

use crate::parse::{spec_split, split_at_char};
use crate::tree::SchemaTree;
use crate::value::{
    entries_model, lemma_entries_model_index, lemma_entries_model_len, lemma_entries_model_update,
    lemma_entries_wf_index, lemma_key_index, lemma_obj_insert, lemma_obj_insert_wf, obj_get,
    obj_has, obj_insert, spec_value_wf, PathError, SpecObj, SpecValue, Value,
};

verus! {

broadcast use lemma_entries_model_len, lemma_entries_model_index;

/// Inject `text` along `segs` from `cursor`: the first string child on the
/// way is overwritten and the walk stops; object children are walked into;
/// anything else is `NotAnObject`; a missing child is `MissingSegment`; an
/// exhausted path leaves the tree as it is.
pub open spec fn spec_inject(cursor: SpecValue, segs: Seq<Seq<char>>, text: Seq<char>) -> Result<
    SpecValue,
    PathError,
>
    decreases segs.len(),
{
    if segs.len() == 0 {
        Ok(cursor)
    } else {
        match cursor {
            SpecValue::Object(es) => if !obj_has(es, segs[0]) {
                Err(PathError::MissingSegment)
            } else {
                let child = obj_get(es, segs[0]);
                match child {
                    SpecValue::Text(_) => Ok(
                        SpecValue::Object(obj_insert(es, segs[0], SpecValue::Text(text))),
                    ),
                    SpecValue::Object(_) => match spec_inject(
                        child,
                        segs.subrange(1, segs.len() as int),
                        text,
                    ) {
                        Ok(nc) => Ok(SpecValue::Object(obj_insert(es, segs[0], nc))),
                        Err(e) => Err(e),
                    },
                    _ => Err(PathError::NotAnObject),
                }
            },
            _ => Err(PathError::NotAnObject),
        }
    }
}

/// The whole injection operation on a root entry list: split the dotted
/// path, walk from the top-level object, put the updated top-level object
/// back under the empty-string key.
pub open spec fn spec_tree_inject(root: SpecObj, dotted: Seq<char>, text: Seq<char>) -> Result<
    SpecObj,
    PathError,
>
    recommends
        obj_has(root, Seq::empty()),
{
    match spec_inject(obj_get(root, Seq::empty()), spec_split(dotted, '.'), text) {
        Ok(nt) => Ok(obj_insert(root, Seq::empty(), nt)),
        Err(e) => Err(e),
    }
}

/// Injection keeps the tree well-formed, and keeps an object an object.
pub proof fn lemma_spec_inject_wf(cursor: SpecValue, segs: Seq<Seq<char>>, text: Seq<char>)
    requires
        spec_value_wf(cursor),
    ensures
        match spec_inject(cursor, segs, text) {
            Ok(nv) => spec_value_wf(nv) && (cursor is Object ==> nv is Object),
            Err(_) => true,
        },
    decreases segs.len(),
{
    if segs.len() > 0 {
        match cursor {
            SpecValue::Object(es) => {
                lemma_entries_wf_index(es);
                if obj_has(es, segs[0]) {
                    lemma_key_index(es, segs[0]);
                    let child = obj_get(es, segs[0]);
                    match child {
                        SpecValue::Text(_) => {
                            lemma_obj_insert_wf(es, segs[0], SpecValue::Text(text));
                        },
                        SpecValue::Object(_) => {
                            lemma_spec_inject_wf(child, segs.subrange(1, segs.len() as int), text);
                            match spec_inject(child, segs.subrange(1, segs.len() as int), text) {
                                Ok(nc) => {
                                    lemma_obj_insert_wf(es, segs[0], nc);
                                },
                                Err(_) => {},
                            }
                        },
                        _ => {},
                    }
                }
            },
            _ => {},
        }
    }
}

/// Rebuild `cursor` with `text` injected along the segments of `segs` from
/// position `i` on. On failure the unchanged cursor comes back beside the
/// error.
fn inject_at(cursor: Value, segs: &Vec<String>, i: usize, text: &String) -> (r: Result<
    Value,
    (Value, PathError),
>)
    requires
        i <= segs@.len(),
    ensures
        match r {
            Ok(nv) => spec_inject(cursor@, segs.deep_view().skip(i as int), text@) == Ok::<
                SpecValue,
                PathError,
            >(nv@),
            Err((back, e)) => spec_inject(cursor@, segs.deep_view().skip(i as int), text@) == Err::<
                SpecValue,
                PathError,
            >(e) && back@ == cursor@,
        },
    decreases segs@.len() - i,
{
    let ghost gsegs = segs.deep_view().skip(i as int);
    if i == segs.len() {
        proof {
            assert(gsegs.len() == 0);
        }
        Ok(cursor)
    } else {
        proof {
            assert(gsegs[0] == segs.deep_view()[i as int]);
            assert(gsegs.subrange(1, gsegs.len() as int) =~= segs.deep_view().skip(i as int + 1));
        }
        match cursor {
            Value::Object(mut entries) => {
                let ghost e0 = entries@;
                let ghost m0 = entries_model(e0);
                proof {
                    assert(cursor@ == SpecValue::Object(m0));
                }
                match crate::tree::obj_find(&entries, &segs[i]) {
                    Some(j) => {
                        proof {
                            lemma_key_index(m0, segs@[i as int]@);
                            assert(obj_get(m0, gsegs[0]) == e0[j as int].1@);
                        }
                        let (k, child) = entries.remove(j);
                        match &child {
                            Value::Text(_) => {
                                entries.insert(j, (k, Value::Text(text.clone())));
                                proof {
                                    assert(entries@ =~= e0.update(
                                        j as int,
                                        (entries@[j as int].0, entries@[j as int].1),
                                    ));
                                    lemma_entries_model_update(
                                        e0,
                                        j as int,
                                        (entries@[j as int].0, entries@[j as int].1),
                                    );
                                    assert(entries_model(entries@) =~= obj_insert(
                                        m0,
                                        gsegs[0],
                                        SpecValue::Text(text@),
                                    ));
                                }
                                Ok(Value::Object(entries))
                            },
                            Value::Object(_) => {
                                match inject_at(child, segs, i + 1, text) {
                                    Ok(nc) => {
                                        entries.insert(j, (k, nc));
                                        proof {
                                            assert(entries@ =~= e0.update(
                                                j as int,
                                                (entries@[j as int].0, entries@[j as int].1),
                                            ));
                                            lemma_entries_model_update(
                                                e0,
                                                j as int,
                                                (entries@[j as int].0, entries@[j as int].1),
                                            );
                                            assert(entries_model(entries@) =~= obj_insert(
                                                m0,
                                                gsegs[0],
                                                entries@[j as int].1@,
                                            ));
                                        }
                                        Ok(Value::Object(entries))
                                    },
                                    Err((back, e)) => {
                                        entries.insert(j, (k, back));
                                        proof {
                                            assert(entries@ =~= e0.update(
                                                j as int,
                                                (entries@[j as int].0, entries@[j as int].1),
                                            ));
                                            lemma_entries_model_update(
                                                e0,
                                                j as int,
                                                (entries@[j as int].0, entries@[j as int].1),
                                            );
                                            assert(entries_model(entries@) =~= m0);
                                        }
                                        Err((Value::Object(entries), e))
                                    },
                                }
                            },
                            _ => {
                                entries.insert(j, (k, child));
                                proof {
                                    assert(entries@ =~= e0.update(
                                        j as int,
                                        (entries@[j as int].0, entries@[j as int].1),
                                    ));
                                    lemma_entries_model_update(
                                        e0,
                                        j as int,
                                        (entries@[j as int].0, entries@[j as int].1),
                                    );
                                    assert(entries_model(entries@) =~= m0);
                                }
                                Err((Value::Object(entries), PathError::NotAnObject))
                            },
                        }
                    },
                    None => {
                        proof {
                            lemma_key_index(m0, segs@[i as int]@);
                        }
                        Err((Value::Object(entries), PathError::MissingSegment))
                    },
                }
            },
            other => Err((other, PathError::NotAnObject)),
        }
    }
}

impl SchemaTree {
    /// Inject a generated string at a dot-joined path, overwriting the
    /// first string-typed node along it; on any path error the tree is
    /// exactly as it was, and a path that never meets a string node leaves
    /// it unchanged too.
    pub fn inject(&mut self, dotted_path: &String, new_value: &String) -> (r: Result<
        (),
        PathError,
    >)
        requires
            old(self).wf(),
        ensures
            match r {
                Ok(_) => spec_tree_inject(old(self)@, dotted_path@, new_value@) == Ok::<
                    SpecObj,
                    PathError,
                >(final(self)@),
                Err(e) => spec_tree_inject(old(self)@, dotted_path@, new_value@) == Err::<
                    SpecObj,
                    PathError,
                >(e) && final(self)@ == old(self)@,
            },
            final(self).wf(),
    {
        let segs = split_at_char(dotted_path, '.');
        let empty_key = String::new();
        let ghost m0 = old(self)@;
        let ghost r0 = self.root@;
        proof {
            lemma_key_index(m0, Seq::empty());
            lemma_entries_wf_index(m0);
        }
        match crate::tree::obj_find(&self.root, &empty_key) {
            Some(j) => {
                let (k, top) = self.root.remove(j);
                proof {
                    assert(obj_get(m0, Seq::empty()) == r0[j as int].1@);
                    assert(spec_value_wf(top@));
                    assert(segs.deep_view().skip(0) =~= segs.deep_view());
                    lemma_spec_inject_wf(top@, segs.deep_view(), new_value@);
                }
                match inject_at(top, &segs, 0, new_value) {
                    Ok(nt) => {
                        self.root.insert(j, (k, nt));
                        proof {
                            assert(self.root@ =~= r0.update(
                                j as int,
                                (self.root@[j as int].0, self.root@[j as int].1),
                            ));
                            lemma_entries_model_update(
                                r0,
                                j as int,
                                (self.root@[j as int].0, self.root@[j as int].1),
                            );
                            assert(self@ =~= obj_insert(m0, Seq::empty(), self.root@[j as int].1@));
                            lemma_obj_insert_wf(m0, Seq::empty(), self.root@[j as int].1@);
                            lemma_obj_insert(m0, Seq::empty(), self.root@[j as int].1@);
                        }
                        Ok(())
                    },
                    Err((back, e)) => {
                        self.root.insert(j, (k, back));
                        proof {
                            assert(self.root@ =~= r0.update(
                                j as int,
                                (self.root@[j as int].0, self.root@[j as int].1),
                            ));
                            lemma_entries_model_update(
                                r0,
                                j as int,
                                (self.root@[j as int].0, self.root@[j as int].1),
                            );
                            assert(self@ =~= m0);
                        }
                        Err(e)
                    },
                }
            },
            None => {
                proof {
                    assert(false);
                }
                vstd::pervasive::unreached()
            },
        }
    }
}

} // verus!
