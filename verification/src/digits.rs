//! Decimal digit strings and the integers they denote.
//!
//! The numeric checks of the generator reason about literals through the
//! mathematical value of their digit strings; this module defines that value
//! and proves the facts the checkers need: bounds from the string's length,
//! the effect of splitting or zero-padding a string, and that lexicographic
//! order of equal-length digit strings is numeric order.

use vstd::prelude::*;

verus! {

use vstd::arithmetic::power::{pow, lemma_pow0, lemma_pow1, lemma_pow_adds, lemma_pow_positive};
use vstd::arithmetic::mul::{
    lemma_mul_inequality,
    lemma_mul_is_associative,
    lemma_mul_is_distributive_add_other_way,
};

/// True when `c` is a decimal digit.
pub open spec fn is_digit(c: char) -> bool {
    48 <= c as u32 && c as u32 <= 57
}

/// Numeric value of a decimal digit character.
pub open spec fn digit_val(c: char) -> int {
    c as u32 - 48
}

/// True when every character of `s` is a decimal digit.
pub open spec fn all_digits(s: Seq<char>) -> bool {
    forall|i: int| 0 <= i < s.len() ==> is_digit(#[trigger] s[i])
}

/// The integer denoted by the digit string `s`, most significant digit
/// first; the empty string denotes 0.
pub open spec fn digits_val(s: Seq<char>) -> int
    decreases s.len(),
{
    if s.len() == 0 {
        0
    } else {
        digits_val(s.drop_last()) * 10 + digit_val(s.last())
    }
}

/// Ten to the power `e`.
pub open spec fn pow10(e: nat) -> int {
    pow(10, e)
}

/// A run of `k` zero digits.
pub open spec fn zero_seq(k: nat) -> Seq<char> {
    Seq::new(k, |i: int| '0')
}

pub proof fn lemma_pow10_pos(e: nat)
    ensures
        pow10(e) >= 1,
{
    lemma_pow_positive(10, e);
}

pub proof fn lemma_pow10_zero()
    ensures
        pow10(0) == 1,
{
    lemma_pow0(10);
}

pub proof fn lemma_pow10_unfold(e: nat)
    requires
        e >= 1,
    ensures
        pow10(e) == pow10((e - 1) as nat) * 10,
{
    lemma_pow_adds(10, (e - 1) as nat, 1);
    lemma_pow1(10);
}

pub proof fn lemma_digits_val_nonneg(s: Seq<char>)
    requires
        all_digits(s),
    ensures
        digits_val(s) >= 0,
    decreases s.len(),
{
    if s.len() > 0 {
        lemma_digits_val_nonneg(s.drop_last());
        assert(is_digit(s[s.len() - 1]));
    }
}

/// A one-digit string denotes its digit's value.
pub proof fn lemma_digits_val_singleton(c: char)
    ensures
        digits_val(seq![c]) == digit_val(c),
{
    let s = seq![c];
    assert(s.drop_last() =~= Seq::<char>::empty());
    assert(digits_val(Seq::<char>::empty()) == 0);
    assert(s.last() == c);
}

/// A digit string of length n denotes a value below 10^n.
pub proof fn lemma_digits_val_upper(s: Seq<char>)
    requires
        all_digits(s),
    ensures
        digits_val(s) < pow10(s.len()),
    decreases s.len(),
{
    if s.len() == 0 {
        lemma_pow10_zero();
    } else {
        let d = s.drop_last();
        lemma_digits_val_upper(d);
        lemma_pow10_unfold(s.len());
        lemma_mul_inequality(digits_val(d), pow10(d.len()) - 1, 10);
        assert(is_digit(s[s.len() - 1]));
    }
}

/// A digit string of length n with a nonzero leading digit denotes a value
/// of at least 10^(n-1).
pub proof fn lemma_digits_val_lower(s: Seq<char>)
    requires
        all_digits(s),
        s.len() >= 1,
        digit_val(s[0]) >= 1,
    ensures
        digits_val(s) >= pow10((s.len() - 1) as nat),
    decreases s.len(),
{
    assert(is_digit(s[s.len() - 1]));
    if s.len() == 1 {
        assert(s.drop_last() =~= Seq::<char>::empty());
        assert(digits_val(Seq::<char>::empty()) == 0);
        lemma_pow10_zero();
    } else {
        let d = s.drop_last();
        lemma_digits_val_lower(d);
        lemma_pow10_unfold((s.len() - 1) as nat);
        lemma_mul_inequality(pow10((d.len() - 1) as nat), digits_val(d), 10);
    }
}

/// Splitting a digit string splits its value: the prefix is scaled by ten to
/// the length of the suffix.
pub proof fn lemma_digits_val_split(s: Seq<char>, k: int)
    requires
        0 <= k <= s.len(),
    ensures
        digits_val(s) == digits_val(s.take(k)) * pow10((s.len() - k) as nat) + digits_val(
            s.skip(k),
        ),
    decreases s.len(),
{
    if k == s.len() {
        assert(s.take(k) =~= s);
        assert(s.skip(k) =~= Seq::<char>::empty());
        assert(digits_val(Seq::<char>::empty()) == 0);
        lemma_pow10_zero();
    } else {
        let d = s.drop_last();
        lemma_digits_val_split(d, k);
        assert(d.take(k) =~= s.take(k));
        assert(d.skip(k) =~= s.skip(k).drop_last());
        assert(s.skip(k).last() == s.last());
        let t = digits_val(s.take(k));
        let p = pow10((s.len() - 1 - k) as nat);
        let a = digits_val(d.skip(k));
        assert(digits_val(s) == (t * p + a) * 10 + digit_val(s.last()));
        assert((t * p + a) * 10 == t * p * 10 + a * 10);
        lemma_mul_is_associative(t, p, 10);
        lemma_pow10_unfold((s.len() - k) as nat);
        assert(digits_val(s.skip(k)) == a * 10 + digit_val(s.last()));
    }
}

/// A digit string denotes zero exactly when every one of its digits is zero.
pub proof fn lemma_digits_val_zero_iff(s: Seq<char>)
    requires
        all_digits(s),
    ensures
        (digits_val(s) == 0) <==> (forall|i: int| 0 <= i < s.len() ==> digit_val(#[trigger] s[i])
            == 0),
    decreases s.len(),
{
    if s.len() > 0 {
        let d = s.drop_last();
        lemma_digits_val_zero_iff(d);
        lemma_digits_val_nonneg(d);
        assert(is_digit(s[s.len() - 1]));
        if digits_val(s) == 0 {
            assert(digits_val(d) == 0);
            assert(digit_val(s.last()) == 0);
            assert(forall|i: int| 0 <= i < s.len() ==> digit_val(#[trigger] s[i]) == 0) by {
                assert(forall|i: int| 0 <= i < d.len() ==> d[i] == #[trigger] s[i]);
            }
        } else {
            if forall|i: int| 0 <= i < s.len() ==> digit_val(#[trigger] s[i]) == 0 {
                assert(forall|i: int| 0 <= i < d.len() ==> digit_val(#[trigger] d[i]) == 0) by {
                    assert(forall|i: int| 0 <= i < d.len() ==> d[i] == #[trigger] s[i]);
                }
                assert(digit_val(s.last()) == 0);
                assert(digits_val(s) == 0);
            }
        }
    }
}

/// Appending k zero digits multiplies the denoted value by 10^k.
pub proof fn lemma_digits_val_append_zeros(s: Seq<char>, k: nat)
    ensures
        digits_val(s + zero_seq(k)) == digits_val(s) * pow10(k),
    decreases k,
{
    if k == 0 {
        assert(s + zero_seq(0) =~= s);
        lemma_pow10_zero();
    } else {
        let w = s + zero_seq(k);
        assert(w.drop_last() =~= s + zero_seq((k - 1) as nat));
        assert(w.last() == '0');
        lemma_digits_val_append_zeros(s, (k - 1) as nat);
        lemma_mul_is_associative(digits_val(s), pow10((k - 1) as nat), 10);
        lemma_pow10_unfold(k);
    }
}

/// Equal-length digit strings that agree up to position i and differ there
/// order their values as the digits at i do.
pub proof fn lemma_digits_val_lt(a: Seq<char>, b: Seq<char>, i: int)
    requires
        all_digits(a),
        all_digits(b),
        a.len() == b.len(),
        0 <= i < a.len(),
        a.take(i) == b.take(i),
        digit_val(a[i]) < digit_val(b[i]),
    ensures
        digits_val(a) < digits_val(b),
{
    lemma_digits_val_split(a, i);
    lemma_digits_val_split(b, i);
    let sa = a.skip(i);
    let sb = b.skip(i);
    let r = (a.len() - i) as nat;
    assert(all_digits(sa));
    assert(all_digits(sb));
    lemma_digits_val_split(sa, 1);
    lemma_digits_val_split(sb, 1);
    assert(sa.take(1) =~= seq![a[i]]);
    assert(sb.take(1) =~= seq![b[i]]);
    lemma_digits_val_singleton(a[i]);
    lemma_digits_val_singleton(b[i]);
    let p = pow10((r - 1) as nat);
    lemma_pow10_pos((r - 1) as nat);
    assert(all_digits(sa.skip(1)));
    assert(all_digits(sb.skip(1)));
    lemma_digits_val_upper(sa.skip(1));
    lemma_digits_val_nonneg(sb.skip(1));
    assert(digits_val(sa) < (digit_val(a[i]) + 1) * p) by {
        assert(digits_val(sa) == digit_val(a[i]) * p + digits_val(sa.skip(1)));
        lemma_mul_is_distributive_add_other_way(p, digit_val(a[i]), 1);
    }
    lemma_mul_inequality(digit_val(a[i]) + 1, digit_val(b[i]), p);
    assert(digits_val(sb) >= digit_val(b[i]) * p);
    assert(digits_val(sa) < digits_val(sb));
}

} // verus!
