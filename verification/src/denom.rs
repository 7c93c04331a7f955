//! Denominations: which strings name one, and how they are ordered.
//!
//! A denomination is written directly behind its amount and tokens are set
//! apart by single spaces. So a denomination is not empty, holds no space and
//! does not begin with a decimal digit. Denominations are ordered as strings
//! are: character by character, a proper prefix first.

use vstd::prelude::*;
use crate::decimal::{is_digit, is_digit_char};

verus! {

/// The character that separates two tokens of a serialized bag.
pub const SEPARATOR: char = ' ';

/// Whether no character of `s` is the separator.
pub open spec fn no_separator(s: Seq<char>) -> bool {
    forall|i: int| 0 <= i < s.len() ==> s[i] != SEPARATOR
}

/// Whether `d` can stand as a denomination in a serialized bag.
pub open spec fn valid_denom(d: Seq<char>) -> bool {
    &&& d.len() > 0
    &&& !is_digit(d[0])
    &&& no_separator(d)
}

/// The strict order of denominations: the order of strings.
pub open spec fn denom_lt(a: Seq<char>, b: Seq<char>) -> bool
    decreases a.len(),
{
    if b.len() == 0 {
        false
    } else if a.len() == 0 {
        true
    } else if a[0] != b[0] {
        a[0] < b[0]
    } else {
        denom_lt(a.drop_first(), b.drop_first())
    }
}

/// No denomination comes before itself.
pub proof fn lemma_denom_lt_irreflexive(a: Seq<char>)
    ensures
        !denom_lt(a, a),
    decreases a.len(),
{
    if a.len() > 0 {
        lemma_denom_lt_irreflexive(a.drop_first());
    }
}

/// The order of denominations is transitive.
pub proof fn lemma_denom_lt_transitive(a: Seq<char>, b: Seq<char>, c: Seq<char>)
    requires
        denom_lt(a, b),
        denom_lt(b, c),
    ensures
        denom_lt(a, c),
    decreases a.len(),
{
    if a.len() > 0 && a[0] == b[0] && b[0] == c[0] {
        lemma_denom_lt_transitive(a.drop_first(), b.drop_first(), c.drop_first());
    }
}

/// Of two different denominations one comes before the other.
pub proof fn lemma_denom_lt_total(a: Seq<char>, b: Seq<char>)
    ensures
        denom_lt(a, b) || denom_lt(b, a) || a == b,
    decreases a.len(),
{
    if a.len() == 0 || b.len() == 0 {
        if a.len() == 0 && b.len() == 0 {
            assert(a =~= b);
        }
    } else if a[0] == b[0] {
        lemma_denom_lt_total(a.drop_first(), b.drop_first());
        if a.drop_first() == b.drop_first() {
            assert(a =~= seq![a[0]] + a.drop_first());
            assert(b =~= seq![b[0]] + b.drop_first());
        }
    }
}

/// Checks that `denom` can stand as a denomination in a serialized bag.
pub fn denom_is_valid(denom: &str) -> (ok: bool)
    ensures
        ok == valid_denom(denom@),
{
    broadcast use vstd::string::group_string_axioms;

    let mut first = true;
    let mut ok = true;
    for c in iter: denom.chars()
        invariant
            iter.seq() == denom@,
            first <==> iter.index() == 0,
            ok <==> (forall|k: int| 0 <= k < iter.index() ==> denom@[k] != SEPARATOR) && (
            iter.index() > 0 ==> !is_digit(denom@[0])),
    {
        if c == SEPARATOR {
            ok = false;
        }
        if first {
            if is_digit_char(c) {
                ok = false;
            }
            first = false;
        }
    }
    ok && !first
}

} // verus!
