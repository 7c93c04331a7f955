//! Amounts in decimal digits.
//!
//! An amount is written without sign and without leading zeros. It is read
//! from any run of digits, leading zeros or not, as long as the number fits
//! into 128 bits.

use vstd::prelude::*;

verus! {

/// Whether `c` is one of the ten decimal digits.
pub open spec fn is_digit(c: char) -> bool {
    '0' <= c && c <= '9'
}

/// The value of a decimal digit. The digits follow each other from code 48
/// on.
pub open spec fn digit_val(c: char) -> nat {
    (c as u32 - 48) as nat
}

/// The decimal digit of a value below ten.
pub open spec fn digit_of(v: nat) -> char {
    ((v + 48) as u8) as char
}

/// Whether `s` holds decimal digits only.
pub open spec fn all_digits(s: Seq<char>) -> bool {
    forall|i: int| 0 <= i < s.len() ==> is_digit(#[trigger] s[i])
}

/// `n` in decimal digits, without leading zeros.
pub open spec fn render_amount(n: nat) -> Seq<char>
    decreases n,
{
    if n < 10 {
        seq![digit_of(n)]
    } else {
        render_amount(n / 10).push(digit_of(n % 10))
    }
}

/// The number that the decimal digits `ds` stand for.
pub open spec fn decimal_value(ds: Seq<char>) -> nat
    decreases ds.len(),
{
    if ds.len() == 0 {
        0
    } else {
        10 * decimal_value(ds.drop_last()) + digit_val(ds.last())
    }
}

/// The number of decimal digits that `t` begins with.
pub open spec fn digit_run(t: Seq<char>) -> nat
    decreases t.len(),
{
    if t.len() > 0 && is_digit(t[0]) {
        1 + digit_run(t.drop_first())
    } else {
        0
    }
}

/// An amount is written in digits, and its digits stand for it.
pub proof fn lemma_render_amount(n: nat)
    ensures
        render_amount(n).len() > 0,
        all_digits(render_amount(n)),
        decimal_value(render_amount(n)) == n,
    decreases n,
{
    if n < 10 {
        assert(render_amount(n).drop_last() =~= Seq::<char>::empty());
        assert(decimal_value(Seq::<char>::empty()) == 0);
    } else {
        lemma_render_amount(n / 10);
        assert(render_amount(n).drop_last() =~= render_amount(n / 10));
    }
}

/// A text whose first `k` characters are digits and whose next one is not
/// begins with exactly `k` digits.
pub proof fn lemma_digit_run(t: Seq<char>, k: int)
    requires
        0 <= k <= t.len(),
        forall|i: int| 0 <= i < k ==> is_digit(#[trigger] t[i]),
        k == t.len() || !is_digit(t[k]),
    ensures
        digit_run(t) == k,
    decreases k,
{
    if k > 0 {
        let rest = t.drop_first();
        assert forall|i: int| 0 <= i < k - 1 implies is_digit(#[trigger] rest[i]) by {
            assert(rest[i] == t[i + 1]);
        }
        lemma_digit_run(rest, k - 1);
    }
}

/// More digits never stand for a smaller number.
pub proof fn lemma_decimal_value_grows(ds: Seq<char>, k: int)
    requires
        0 <= k <= ds.len(),
    ensures
        decimal_value(ds.take(k)) <= decimal_value(ds),
    decreases ds.len() - k,
{
    if k < ds.len() {
        lemma_decimal_value_grows(ds, k + 1);
        assert(ds.take(k + 1).drop_last() =~= ds.take(k));
    } else {
        assert(ds.take(k) =~= ds);
    }
}

/// Whether `c` is one of the ten decimal digits.
pub fn is_digit_char(c: char) -> (b: bool)
    ensures
        b == is_digit(c),
{
    c >= '0' && c <= '9'
}

/// Appends `n` in decimal digits to `out`.
pub fn push_amount(out: &mut String, n: u128)
    ensures
        final(out)@ == old(out)@ + render_amount(n as nat),
    decreases n,
{
    if n >= 10 {
        push_amount(out, n / 10);
    }
    let digit: u8 = (n % 10) as u8;
    out.push((48u8 + digit) as char);
    proof {
        assert(final(out)@ =~= old(out)@ + render_amount(n as nat));
    }
}

/// The number that the first `k` characters of `token`, all digits, stand
/// for, unless it exceeds `u128::MAX`.
pub(crate) fn read_amount(token: &Vec<char>, k: usize) -> (r: Option<u128>)
    requires
        k <= token@.len(),
        forall|i: int| 0 <= i < k ==> is_digit(#[trigger] token@[i]),
    ensures
        match r {
            Some(v) => v == decimal_value(token@.take(k as int)),
            None => decimal_value(token@.take(k as int)) > u128::MAX,
        },
{
    let mut value: u128 = 0;
    let mut i: usize = 0;
    while i < k
        invariant
            i <= k <= token@.len(),
            forall|j: int| 0 <= j < k ==> is_digit(#[trigger] token@[j]),
            value == decimal_value(token@.take(i as int)),
        decreases k - i,
    {
        let c = token[i];
        assert(is_digit(token@[i as int]));
        let digit: u128 = (c as u32 - 48) as u128;
        proof {
            let digits = token@.take(k as int);
            assert(digits.take(i + 1) =~= token@.take(i + 1));
            assert(token@.take(i + 1).drop_last() =~= token@.take(i as int));
            assert(token@.take(i + 1).last() == c);
            lemma_decimal_value_grows(digits, i + 1);
        }
        let shifted = match value.checked_mul(10) {
            Some(v) => v,
            None => {
                return None;
            },
        };
        value = match shifted.checked_add(digit) {
            Some(v) => v,
            None => {
                return None;
            },
        };
        i += 1;
    }
    Some(value)
}

} // verus!
