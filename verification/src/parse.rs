//! Raw-input parsing for the add-field operation: the boolean rule, the
//! comma splitting of array input, and the assembly of a new leaf value.
//! Malformed scalar input never fails: it degrades to the type's zero
//! value, and the helpers say when that happened.

use vstd::prelude::*;
use vstd::string::StrSliceExecFns;

use crate::value::{
    lemma_seq_model_len, lemma_seq_model_push, lemma_seq_wf_index, seq_model, spec_value_wf,
    FieldType, SpecValue, Value,
};

verus! {

/// What a raw string parses to as a boolean: only `"true"` is true,
/// everything else falls back to false.
pub open spec fn spec_bool_of(s: Seq<char>) -> bool {
    s == "true"@
}

/// Whether the boolean rule fell back to its default.
pub open spec fn spec_bool_defaulted(s: Seq<char>) -> bool {
    s != "true"@ && s != "false"@
}

/// Parse a boolean, defaulting to false; the second component reports
/// whether the default was used.
pub fn parse_bool_or_default(s: &String) -> (r: (bool, bool))
    ensures
        r.0 == spec_bool_of(s@),
        r.1 == spec_bool_defaulted(s@),
{
    let t: String = "true".to_owned();
    if *s == t {
        (true, false)
    } else {
        let f: String = "false".to_owned();
        if *s == f {
            (false, false)
        } else {
            (false, true)
        }
    }
}

/// The position of the first occurrence of `c` in `s`, or -1.
pub open spec fn spec_find_char(s: Seq<char>, c: char) -> int
    decreases s.len(),
{
    if s.len() == 0 {
        -1
    } else if s[0] == c {
        0
    } else {
        let r = spec_find_char(s.skip(1), c);
        if r < 0 {
            -1
        } else {
            r + 1
        }
    }
}

pub proof fn lemma_find_char(s: Seq<char>, c: char)
    ensures
        -1 <= spec_find_char(s, c) < s.len(),
        spec_find_char(s, c) >= 0 ==> s[spec_find_char(s, c)] == c,
        forall|j: int| 0 <= j < spec_find_char(s, c) ==> s[j] != c,
        spec_find_char(s, c) == -1 ==> forall|j: int| 0 <= j < s.len() ==> s[j] != c,
    decreases s.len(),
{
    if s.len() > 0 && s[0] != c {
        lemma_find_char(s.skip(1), c);
        assert forall|j: int| 1 <= j < s.len() implies s[j] == s.skip(1)[j - 1] by {}
    }
}

/// The first occurrence is pinned by being an occurrence with none before.
pub proof fn lemma_find_char_is(s: Seq<char>, c: char, k: int)
    requires
        0 <= k < s.len(),
        s[k] == c,
        forall|j: int| 0 <= j < k ==> s[j] != c,
    ensures
        spec_find_char(s, c) == k,
{
    lemma_find_char(s, c);
}

/// Splitting on a separator character: every separator ends a piece, and a
/// string without one is a single piece — so the empty string splits into
/// one empty piece.
pub open spec fn spec_split(s: Seq<char>, c: char) -> Seq<Seq<char>>
    decreases s.len(),
    via spec_split_decreases
{
    let i = spec_find_char(s, c);
    if i < 0 {
        seq![s]
    } else {
        seq![s.take(i)] + spec_split(s.skip(i + 1), c)
    }
}

#[via_fn]
proof fn spec_split_decreases(s: Seq<char>, c: char) {
    lemma_find_char(s, c);
}

/// Split a string on a separator character.
pub fn split_at_char(s: &String, sep: char) -> (r: Vec<String>)
    ensures
        r.deep_view() == spec_split(s@, sep),
        r@.len() >= 1,
{
    let mut result: Vec<String> = Vec::new();
    let n = s.as_str().unicode_len();
    let mut start: usize = 0;
    let mut i: usize = 0;
    proof {
        assert(s@.skip(0) =~= s@);
        assert(result.deep_view() =~= Seq::<Seq<char>>::empty());
    }
    while i < n
        invariant
            0 <= start <= i <= n == s@.len(),
            spec_split(s@, sep) =~= result.deep_view() + spec_split(s@.skip(start as int), sep),
            forall|j: int| start <= j < i ==> s@[j] != sep,
        decreases n - i,
    {
        if s.as_str().get_char(i) == sep {
            let ghost r0 = result.deep_view();
            let ghost rest0 = s@.skip(start as int);
            let piece = s.as_str().substring_char(start, i);
            result.push(piece.to_owned());
            proof {
                assert forall|j: int| 0 <= j < i - start implies rest0[j] == s@[start + j] by {}
                lemma_find_char_is(rest0, sep, i - start);
                assert(rest0.take(i - start) =~= s@.subrange(start as int, i as int));
                assert(rest0.skip(i - start + 1) =~= s@.skip(i + 1));
                assert(result.deep_view() =~= r0.push(piece@));
                assert(r0 + spec_split(rest0, sep) =~= result.deep_view() + spec_split(
                    s@.skip(i + 1),
                    sep,
                ));
            }
            start = i + 1;
        }
        i = i + 1;
    }
    let ghost r0 = result.deep_view();
    let ghost rest0 = s@.skip(start as int);
    let piece = s.as_str().substring_char(start, n);
    result.push(piece.to_owned());
    proof {
        assert forall|j: int| 0 <= j < rest0.len() implies rest0[j] == s@[start + j] by {}
        lemma_find_char(rest0, sep);
        assert(spec_find_char(rest0, sep) == -1);
        assert(rest0 =~= s@.subrange(start as int, n as int));
        assert(result.deep_view() =~= r0.push(piece@));
        assert(spec_split(s@, sep) =~= result.deep_view());
    }
    result
}

/// The number bits supplied for piece `i`, or the zero word when the parse
/// failed or no bits were supplied.
pub open spec fn spec_bits_at(bits: Seq<Option<u64>>, i: int) -> u64 {
    if 0 <= i < bits.len() && bits[i] is Some {
        bits[i]->0
    } else {
        0
    }
}

/// The value that the add-field parsing rules build from a type tag, the
/// raw input string, and the already-parsed number bits for each
/// comma-separated piece (numbers are parsed outside the tree logic, which
/// only stores their 64-bit words).
pub open spec fn spec_value_of_raw(tag: FieldType, raw: Seq<char>, bits: Seq<Option<u64>>) -> SpecValue {
    match tag {
        FieldType::Bool => SpecValue::Boolean(spec_bool_of(raw)),
        FieldType::Number => SpecValue::Number(spec_bits_at(bits, 0)),
        FieldType::Text => SpecValue::Text(raw),
        FieldType::ArrayBool => SpecValue::Array(
            Seq::new(
                spec_split(raw, ',').len(),
                |i: int| SpecValue::Boolean(spec_bool_of(spec_split(raw, ',')[i])),
            ),
        ),
        FieldType::ArrayNumber => SpecValue::Array(
            Seq::new(spec_split(raw, ',').len(), |i: int| SpecValue::Number(spec_bits_at(bits, i))),
        ),
        FieldType::ArrayText => SpecValue::Array(
            Seq::new(spec_split(raw, ',').len(), |i: int| SpecValue::Text(spec_split(raw, ',')[i])),
        ),
        FieldType::Object => SpecValue::Object(Seq::empty()),
    }
}

/// Fetch the supplied bits for piece `i`, defaulting to the zero word.
fn bits_at(bits: &Vec<Option<u64>>, i: usize) -> (r: u64)
    ensures
        r == spec_bits_at(bits@, i as int),
{
    if i < bits.len() {
        match bits[i] {
            Some(b) => b,
            None => 0,
        }
    } else {
        0
    }
}

/// Build the leaf (or empty object) that an add-field call inserts.
pub fn value_of_raw(tag: FieldType, raw_value: &String, number_bits: &Vec<Option<u64>>) -> (v:
    Value)
    ensures
        v@ == spec_value_of_raw(tag, raw_value@, number_bits@),
        spec_value_wf(v@),
{
    broadcast use lemma_seq_model_len;

    let v = match tag {
        FieldType::Bool => {
            let (b, _) = parse_bool_or_default(raw_value);
            Value::Boolean(b)
        },
        FieldType::Number => Value::Number(bits_at(number_bits, 0)),
        FieldType::Text => Value::Text(raw_value.clone()),
        FieldType::ArrayBool => {
            let pieces = split_at_char(raw_value, ',');
            let ghost target = spec_value_of_raw(tag, raw_value@, number_bits@)->Array_0;
            let mut items: Vec<Value> = Vec::new();
            let mut i: usize = 0;
            while i < pieces.len()
                invariant
                    i <= pieces@.len(),
                    pieces.deep_view() == spec_split(raw_value@, ','),
                    target == (Seq::new(
                        spec_split(raw_value@, ',').len(),
                        |k: int| SpecValue::Boolean(spec_bool_of(spec_split(raw_value@, ',')[k])),
                    )),
                    seq_model(items@) =~= target.take(i as int),
                decreases pieces@.len() - i,
            {
                let ghost items0 = items@;
                let (b, _) = parse_bool_or_default(&pieces[i]);
                items.push(Value::Boolean(b));
                proof {
                    lemma_seq_model_push(items0, Value::Boolean(b));
                    assert(seq_model(items@) =~= target.take(i + 1));
                }
                i = i + 1;
            }
            proof {
                assert(seq_model(items@) =~= target);
            }
            Value::Array(items)
        },
        FieldType::ArrayNumber => {
            let pieces = split_at_char(raw_value, ',');
            let ghost target = spec_value_of_raw(tag, raw_value@, number_bits@)->Array_0;
            let mut items: Vec<Value> = Vec::new();
            let mut i: usize = 0;
            while i < pieces.len()
                invariant
                    i <= pieces@.len(),
                    pieces.deep_view() == spec_split(raw_value@, ','),
                    target == (Seq::new(
                        spec_split(raw_value@, ',').len(),
                        |k: int| SpecValue::Number(spec_bits_at(number_bits@, k)),
                    )),
                    seq_model(items@) =~= target.take(i as int),
                decreases pieces@.len() - i,
            {
                let ghost items0 = items@;
                let b = bits_at(number_bits, i);
                items.push(Value::Number(b));
                proof {
                    lemma_seq_model_push(items0, Value::Number(b));
                    assert(seq_model(items@) =~= target.take(i + 1));
                }
                i = i + 1;
            }
            proof {
                assert(seq_model(items@) =~= target);
            }
            Value::Array(items)
        },
        FieldType::ArrayText => {
            let pieces = split_at_char(raw_value, ',');
            let ghost target = spec_value_of_raw(tag, raw_value@, number_bits@)->Array_0;
            let mut items: Vec<Value> = Vec::new();
            let mut i: usize = 0;
            while i < pieces.len()
                invariant
                    i <= pieces@.len(),
                    pieces.deep_view() == spec_split(raw_value@, ','),
                    target == (Seq::new(
                        spec_split(raw_value@, ',').len(),
                        |k: int| SpecValue::Text(spec_split(raw_value@, ',')[k]),
                    )),
                    seq_model(items@) =~= target.take(i as int),
                decreases pieces@.len() - i,
            {
                let ghost items0 = items@;
                let piece = pieces[i].clone();
                let ghost pv = Value::Text(piece);
                items.push(Value::Text(piece));
                proof {
                    lemma_seq_model_push(items0, pv);
                    assert(seq_model(items@) =~= target.take(i + 1));
                }
                i = i + 1;
            }
            proof {
                assert(seq_model(items@) =~= target);
            }
            Value::Array(items)
        },
        FieldType::Object => Value::Object(Vec::new()),
    };
    proof {
        match v@ {
            SpecValue::Array(items) => {
                lemma_seq_wf_index(items);
                assert forall|k: int| 0 <= k < items.len() implies #[trigger] spec_value_wf(
                    items[k],
                ) by {}
            },
            SpecValue::Object(es) => {
                assert(es.len() == 0);
            },
            _ => {},
        }
    }
    v
}

} // verus!
