//! The template engine: positional placeholders `{0}`, `{1}`, ... in a raw
//! string are replaced, in increasing index order, by the fields of the
//! current record. Replacement at each index rewrites every occurrence in
//! the whole accumulator, so a later index can match text introduced by an
//! earlier replacement; that hazard is part of the engine's contract, not
//! guarded against.

use vstd::prelude::*;
use vstd::string::StrSliceExecFns;
use vstd::string::StringExecFns;

use crate::record::Record;

verus! {

/// Left-to-right, non-overlapping replacement of every occurrence of
/// `pat` in `s` by `rep` — the behaviour of replacing all occurrences in
/// one pass. A pattern longer than the rest, or absent, leaves characters
/// as they are.
pub open spec fn spec_replaced(s: Seq<char>, pat: Seq<char>, rep: Seq<char>) -> Seq<char>
    recommends
        pat.len() > 0,
    decreases s.len(),
{
    if pat.len() == 0 || s.len() == 0 {
        s
    } else if pat.len() <= s.len() && s.take(pat.len() as int) == pat {
        rep + spec_replaced(s.skip(pat.len() as int), pat, rep)
    } else {
        seq![s[0]] + spec_replaced(s.skip(1), pat, rep)
    }
}

/// The character of a single decimal digit.
pub open spec fn spec_digit(d: int) -> char {
    if d == 0 {
        '0'
    } else if d == 1 {
        '1'
    } else if d == 2 {
        '2'
    } else if d == 3 {
        '3'
    } else if d == 4 {
        '4'
    } else if d == 5 {
        '5'
    } else if d == 6 {
        '6'
    } else if d == 7 {
        '7'
    } else if d == 8 {
        '8'
    } else {
        '9'
    }
}

/// The decimal digits of `n`, most significant first, no leading zeros.
pub open spec fn spec_decimal(n: nat) -> Seq<char>
    decreases n,
{
    if n < 10 {
        seq![spec_digit(n as int)]
    } else {
        spec_decimal(n / 10).push(spec_digit((n % 10) as int))
    }
}

/// The placeholder for index `i`: `{` + decimal digits + `}`.
pub open spec fn spec_placeholder(i: nat) -> Seq<char> {
    seq!['{'] + spec_decimal(i) + seq!['}']
}

/// Substituting the fields with indices below `n`, in increasing order.
pub open spec fn spec_subst_upto(raw: Seq<char>, fields: Seq<Seq<char>>, n: int) -> Seq<char>
    decreases n,
{
    if n <= 0 {
        raw
    } else {
        spec_replaced(
            spec_subst_upto(raw, fields, n - 1),
            spec_placeholder((n - 1) as nat),
            fields[n - 1],
        )
    }
}

/// Substituting every field of the record, index 0 first.
pub open spec fn spec_substitute(raw: Seq<char>, fields: Seq<Seq<char>>) -> Seq<char> {
    spec_subst_upto(raw, fields, fields.len() as int)
}

/// Without a record the raw text stands as it is.
pub open spec fn spec_substitute_opt(raw: Seq<char>, rec: Option<Seq<Seq<char>>>) -> Seq<char> {
    match rec {
        Some(fields) => spec_substitute(raw, fields),
        None => raw,
    }
}

fn digit_char(d: usize) -> (c: char)
    requires
        d < 10,
    ensures
        c == spec_digit(d as int),
{
    if d == 0 {
        '0'
    } else if d == 1 {
        '1'
    } else if d == 2 {
        '2'
    } else if d == 3 {
        '3'
    } else if d == 4 {
        '4'
    } else if d == 5 {
        '5'
    } else if d == 6 {
        '6'
    } else if d == 7 {
        '7'
    } else if d == 8 {
        '8'
    } else {
        '9'
    }
}

fn decimal_chars(n: usize) -> (r: Vec<char>)
    ensures
        r@ == spec_decimal(n as nat),
    decreases n,
{
    if n < 10 {
        let mut r: Vec<char> = Vec::new();
        r.push(digit_char(n));
        proof {
            assert(r@ =~= spec_decimal(n as nat));
        }
        r
    } else {
        let mut r = decimal_chars(n / 10);
        r.push(digit_char(n % 10));
        proof {
            assert(r@ =~= spec_decimal(n as nat));
        }
        r
    }
}

/// The placeholder characters for index `i`.
pub fn placeholder_chars(i: usize) -> (r: Vec<char>)
    ensures
        r@ == spec_placeholder(i as nat),
        r@.len() > 0,
{
    let mut r: Vec<char> = Vec::new();
    r.push('{');
    let mut digits = decimal_chars(i);
    let mut k: usize = 0;
    while k < digits.len()
        invariant
            k <= digits@.len(),
            digits@ == spec_decimal(i as nat),
            r@ =~= seq!['{'] + digits@.take(k as int),
        decreases digits@.len() - k,
    {
        r.push(digits[k]);
        proof {
            assert(r@ =~= seq!['{'] + digits@.take(k + 1));
        }
        k = k + 1;
    }
    r.push('}');
    proof {
        assert(digits@.take(digits@.len() as int) =~= digits@);
        assert(r@ =~= spec_placeholder(i as nat));
    }
    r
}

/// Do the characters of `pat` stand in `s` at position `i`?
fn match_at(s: &String, i: usize, pat: &Vec<char>) -> (b: bool)
    requires
        i + pat@.len() <= s@.len(),
        s@.len() <= usize::MAX,
    ensures
        b <==> s@.subrange(i as int, i + pat@.len()) == pat@,
{
    let m = pat.len();
    let mut k: usize = 0;
    while k < m
        invariant
            k <= m == pat@.len(),
            i + m <= s@.len(),
            s@.len() <= usize::MAX,
            forall|j: int| 0 <= j < k ==> s@[i + j] == pat@[j],
        decreases m - k,
    {
        if s.as_str().get_char(i + k) != pat[k] {
            proof {
                assert(s@.subrange(i as int, i + pat@.len())[k as int] == s@[i + k]);
            }
            return false;
        }
        k = k + 1;
    }
    proof {
        assert(s@.subrange(i as int, i + pat@.len()) =~= pat@);
    }
    true
}

/// Replace every occurrence of `pat` in `s` by `rep`, scanning left to
/// right without overlap.
pub fn replace_all(s: &String, pat: &Vec<char>, rep: &String) -> (r: String)
    requires
        pat@.len() > 0,
    ensures
        r@ == spec_replaced(s@, pat@, rep@),
{
    let n = s.as_str().unicode_len();
    let m = pat.len();
    let mut out = String::new();
    let mut i: usize = 0;
    proof {
        assert(s@.skip(0) =~= s@);
    }
    while i < n
        invariant
            i <= n == s@.len(),
            m == pat@.len(),
            m > 0,
            out@ + spec_replaced(s@.skip(i as int), pat@, rep@) =~= spec_replaced(s@, pat@, rep@),
        decreases n - i,
    {
        let ghost rest = s@.skip(i as int);
        let is_match = if m <= n - i {
            match_at(s, i, pat)
        } else {
            false
        };
        if is_match {
            let ghost out0 = out@;
            out.append(rep.as_str());
            proof {
                assert(rest.take(m as int) =~= s@.subrange(i as int, i + m));
                assert(rest.skip(m as int) =~= s@.skip(i + m));
                assert(out@ + spec_replaced(s@.skip(i + m), pat@, rep@) =~= spec_replaced(
                    s@,
                    pat@,
                    rep@,
                ));
            }
            i = i + m;
        } else {
            let ghost out0 = out@;
            let piece = s.as_str().substring_char(i, i + 1);
            out.append(piece);
            proof {
                if m <= n - i {
                    assert(rest.take(m as int) =~= s@.subrange(i as int, i + m));
                    assert(rest.take(m as int) != pat@);
                }
                assert(rest[0] == s@[i as int]);
                assert(piece@ =~= seq![s@[i as int]]);
                assert(rest.skip(1) =~= s@.skip(i + 1));
                assert(out@ + spec_replaced(s@.skip(i + 1), pat@, rep@) =~= spec_replaced(
                    s@,
                    pat@,
                    rep@,
                ));
            }
            i = i + 1;
        }
    }
    proof {
        assert(s@.skip(n as int) =~= Seq::<char>::empty());
        assert(out@ =~= spec_replaced(s@, pat@, rep@));
    }
    out
}

/// The template engine's contract: with no record the raw string comes
/// back unchanged; with a record, each field index in turn rewrites every
/// occurrence of its placeholder in the whole accumulator.
pub fn substitute(raw: &String, record: Option<&Record>) -> (r: String)
    ensures
        r@ == spec_substitute_opt(
            raw@,
            match record {
                Some(rec) => Some(rec@),
                None => None,
            },
        ),
{
    match record {
        None => raw.clone(),
        Some(rec) => {
            let mut edited = raw.clone();
            let mut i: usize = 0;
            while i < rec.fields.len()
                invariant
                    i <= rec@.len(),
                    edited@ == spec_subst_upto(raw@, rec@, i as int),
                decreases rec@.len() - i,
            {
                let pat = placeholder_chars(i);
                edited = replace_all(&edited, &pat, &rec.fields[i]);
                i = i + 1;
            }
            edited
        },
    }
}

} // verus!
