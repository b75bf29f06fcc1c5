//! Executable decimal arithmetic for the range checks.
//!
//! A literal's magnitude is the value of its digit string; comparing it
//! against a type's bound needs an exact unbounded comparison. Values up to
//! `u128::MAX` are computed directly; beyond that only the comparisons
//! matter, and they are decided on digit strings with the lemmas of
//! `digits`.

use vstd::prelude::*;

verus! {

use vstd::arithmetic::mul::{lemma_mul_inequality, lemma_mul_strict_inequality};
use vstd::arithmetic::div_mod::lemma_fundamental_div_mod;
use crate::digits::{
    is_digit,
    digit_val,
    all_digits,
    digits_val,
    pow10,
    zero_seq,
    lemma_pow10_pos,
    lemma_digits_val_nonneg,
    lemma_digits_val_upper,
    lemma_digits_val_lower,
    lemma_digits_val_split,
    lemma_digits_val_zero_iff,
    lemma_digits_val_append_zeros,
    lemma_digits_val_lt,
};

/// The value of a digit string when it fits in `u128`; `None` exactly when
/// it does not.
pub fn parse_u128(ds: &Vec<char>) -> (r: Option<u128>)
    requires
        all_digits(ds@),
    ensures
        match r {
            Some(v) => v as int == digits_val(ds@),
            None => digits_val(ds@) > u128::MAX,
        },
{
    let n: usize = ds.len();
    let mut acc: u128 = 0;
    let mut i: usize = 0;
    proof {
        assert(ds@.take(0) =~= Seq::<char>::empty());
    }
    while i < n
        invariant
            i <= n,
            n == ds@.len(),
            all_digits(ds@),
            acc as int == digits_val(ds@.take(i as int)),
        decreases n - i,
    {
        let c = ds[i];
        assert(is_digit(ds@[i as int]));
        let d: u128 = (c as u32 - 48) as u128;
        proof {
            assert(ds@.take(i + 1 as int).drop_last() =~= ds@.take(i as int));
            assert(ds@.take(i + 1 as int).last() == ds@[i as int]);
        }
        if acc > (u128::MAX - d) / 10 {
            proof {
                let q = ((u128::MAX - d) / 10) as int;
                lemma_fundamental_div_mod((u128::MAX - d) as int, 10);
                lemma_mul_inequality(q + 1, acc as int, 10);
                assert(acc as int * 10 + d > u128::MAX);
                let taken = ds@.take(i + 1 as int);
                assert(digits_val(taken) == acc as int * 10 + d);
                lemma_digits_val_split(ds@, i + 1 as int);
                lemma_pow10_pos((ds@.len() - i - 1) as nat);
                lemma_digits_val_nonneg(ds@.skip(i + 1 as int));
                lemma_digits_val_nonneg(taken);
                lemma_mul_inequality(1, pow10((ds@.len() - i - 1) as nat), digits_val(taken));
                vstd::arithmetic::mul::lemma_mul_is_commutative(
                    digits_val(taken),
                    pow10((ds@.len() - i - 1) as nat),
                );
                assert(digits_val(ds@) >= digits_val(taken));
            }
            return None;
        }
        proof {
            let q = ((u128::MAX - d) / 10) as int;
            lemma_fundamental_div_mod((u128::MAX - d) as int, 10);
            lemma_mul_inequality(acc as int, q, 10);
            assert(acc as int * 10 <= u128::MAX - d);
        }
        acc = acc * 10 + d;
        i += 1;
    }
    proof {
        assert(ds@.take(n as int) =~= ds@);
    }
    Some(acc)
}

/// Numeric order of two equal-length digit strings.
pub fn digits_le(a: &Vec<char>, b: &Vec<char>) -> (r: bool)
    requires
        all_digits(a@),
        all_digits(b@),
        a@.len() == b@.len(),
    ensures
        r == (digits_val(a@) <= digits_val(b@)),
{
    let n: usize = a.len();
    let mut i: usize = 0;
    while i < n
        invariant
            i <= n,
            n == a@.len(),
            n == b@.len(),
            all_digits(a@),
            all_digits(b@),
            a@.take(i as int) == b@.take(i as int),
        decreases n - i,
    {
        let ca: u32 = a[i] as u32;
        let cb: u32 = b[i] as u32;
        if ca < cb {
            proof {
                lemma_digits_val_lt(a@, b@, i as int);
            }
            return true;
        }
        if ca > cb {
            proof {
                lemma_digits_val_lt(b@, a@, i as int);
            }
            return false;
        }
        proof {
            assert(a@[i as int] as u32 == b@[i as int] as u32);
            assert(digit_val(a@[i as int]) == digit_val(b@[i as int]));
            assert forall|k: int| 0 <= k < i + 1 implies #[trigger] a@.take(i + 1 as int)[k]
                == b@.take(i + 1 as int)[k] by {
                if k < i {
                    assert(a@.take(i as int)[k] == b@.take(i as int)[k]);
                }
                if k == i {
                    lemma_digit_char_eq(a@[i as int], b@[i as int]);
                }
            }
            assert(a@.take(i + 1 as int) =~= b@.take(i + 1 as int));
        }
        i += 1;
    }
    proof {
        assert(a@.take(n as int) =~= a@);
        assert(b@.take(n as int) =~= b@);
        assert(a@ == b@);
    }
    true
}

/// Two digit characters with equal code points are equal.
proof fn lemma_digit_char_eq(a: char, b: char)
    requires
        a as u32 == b as u32,
    ensures
        a == b,
{
    assert(a == b) by {
        assert(a as u32 == b as u32);
        assert(a as int == b as int);
    }
}

/// Append `k` zero digit characters.
pub fn append_zero_chars(v: &mut Vec<char>, k: usize)
    ensures
        final (v)@ == old(v)@ + zero_seq(k as nat),
{
    let ghost base = old(v)@;
    let mut j: usize = 0;
    proof {
        assert(base + zero_seq(0) =~= base);
    }
    while j < k
        invariant
            j <= k,
            v@ == base + zero_seq(j as nat),
        decreases k - j,
    {
        v.push('0');
        proof {
            assert(v@ =~= base + zero_seq((j + 1) as nat));
        }
        j += 1;
    }
}

/// Exact decimal order: the value `dv * 10^e` is at most `max`, stated
/// without rationals by scaling whichever side has the smaller exponent.
pub open spec fn dec_le(dv: int, e: int, max: int) -> bool {
    if e >= 0 {
        dv * pow10(e as nat) <= max
    } else {
        dv <= max * pow10((-e) as nat)
    }
}

/// A zero value fits any nonnegative bound.
pub proof fn lemma_dec_le_zero(e: int, max: int)
    requires
        max >= 0,
    ensures
        dec_le(0, e, max),
{
    if e >= 0 {
        assert(0 * pow10(e as nat) == 0);
    } else {
        lemma_pow10_pos((-e) as nat);
        lemma_mul_inequality(0, max, pow10((-e) as nat));
        assert(0 * pow10((-e) as nat) == 0);
    }
}

/// With fewer scaled digits than the bound has digits, the value fits.
pub proof fn lemma_dec_le_few_digits(d: Seq<char>, e: int, mx: Seq<char>)
    requires
        all_digits(d),
        all_digits(mx),
        mx.len() >= 1,
        digit_val(mx[0]) >= 1,
        d.len() + e < mx.len(),
    ensures
        dec_le(digits_val(d), e, digits_val(mx)),
{
    let dv = digits_val(d);
    let m = mx.len() as int;
    let n = d.len() as int;
    lemma_digits_val_upper(d);
    lemma_digits_val_lower(mx);
    lemma_digits_val_nonneg(d);
    if e >= 0 {
        // dv * 10^e < 10^n * 10^e = 10^(n+e) <= 10^(m-1) <= M
        lemma_pow10_pos(e as nat);
        lemma_mul_strict_inequality(dv, pow10(d.len()), pow10(e as nat));
        vstd::arithmetic::power::lemma_pow_adds(10, d.len(), e as nat);
        vstd::arithmetic::power::lemma_pow_increases(10, (n + e) as nat, (m - 1) as nat);
        assert(dv * pow10(e as nat) < pow10(((n + e)) as nat));
    } else {
        // dv < 10^n <= 10^(m-1-e) = 10^(m-1) * 10^(-e) <= M * 10^(-e)
        let k = (-e) as nat;
        lemma_pow10_pos(k);
        vstd::arithmetic::power::lemma_pow_increases(10, d.len(), (m - 1 + k) as nat);
        vstd::arithmetic::power::lemma_pow_adds(10, (m - 1) as nat, k);
        lemma_mul_inequality(pow10((m - 1) as nat), digits_val(mx), pow10(k));
        assert(digits_val(d) < pow10(d.len()));
        assert(pow10(d.len()) <= pow10((m - 1 + k) as nat));
        assert(pow10((m - 1 + k) as nat) == pow10((m - 1) as nat) * pow10(k));
    }
}

/// Copy the characters of positions `a..b`.
pub fn copy_char_range(ds: &Vec<char>, a: usize, b: usize) -> (r: Vec<char>)
    requires
        a <= b <= ds.len(),
    ensures
        r@ == ds@.subrange(a as int, b as int),
{
    let mut out: Vec<char> = Vec::new();
    let mut i: usize = a;
    proof {
        assert(out@ =~= ds@.subrange(a as int, a as int));
    }
    while i < b
        invariant
            a <= i <= b <= ds.len(),
            out@ == ds@.subrange(a as int, i as int),
        decreases b - i,
    {
        out.push(ds[i]);
        proof {
            assert(out@ =~= ds@.subrange(a as int, i + 1 as int));
        }
        i += 1;
    }
    out
}

/// Append the characters of positions `a..b` of `src` to `dst`.
pub fn append_char_range(dst: &mut Vec<char>, src: &Vec<char>, a: usize, b: usize)
    requires
        a <= b <= src.len(),
    ensures
        final (dst)@ == old(dst)@ + src@.subrange(a as int, b as int),
{
    let ghost base = old(dst)@;
    let mut i: usize = a;
    proof {
        assert(base + src@.subrange(a as int, a as int) =~= base);
    }
    while i < b
        invariant
            a <= i <= b <= src.len(),
            dst@ == base + src@.subrange(a as int, i as int),
        decreases b - i,
    {
        dst.push(src[i]);
        proof {
            assert(dst@ =~= base + src@.subrange(a as int, i + 1 as int));
        }
        i += 1;
    }
}

/// Index of the first nonzero digit, or the length if all digits are zero.
pub fn first_nonzero(ds: &Vec<char>) -> (z: usize)
    requires
        all_digits(ds@),
    ensures
        z <= ds.len(),
        forall|k: int| 0 <= k < z ==> digit_val(#[trigger] ds@[k]) == 0,
        z < ds.len() ==> digit_val(ds@[z as int]) >= 1,
{
    let n: usize = ds.len();
    let mut i: usize = 0;
    while i < n
        invariant
            i <= n,
            n == ds.len(),
            all_digits(ds@),
            forall|k: int| 0 <= k < i ==> digit_val(#[trigger] ds@[k]) == 0,
        decreases n - i,
    {
        let u: u32 = ds[i] as u32;
        if u != 48 {
            assert(is_digit(ds@[i as int]));
            return i;
        }
        i += 1;
    }
    i
}

/// The exponent's signed value.
pub open spec fn exp_val_of(neg: bool, ed: Seq<char>) -> int {
    if neg {
        -digits_val(ed)
    } else {
        digits_val(ed)
    }
}

/// Decide `dec_le` for a normalized significand and a nonnegative exponent.
fn float_pos(sig: &Vec<char>, epos: u128, mx: &Vec<char>) -> (r: bool)
    requires
        all_digits(sig@),
        sig.len() >= 1,
        digit_val(sig@[0]) >= 1,
        all_digits(mx@),
        mx.len() >= 1,
        digit_val(mx@[0]) >= 1,
    ensures
        r == dec_le(digits_val(sig@), epos as int, digits_val(mx@)),
{
    let n: usize = sig.len();
    let m: usize = mx.len();
    if epos > m as u128 {
        proof {
            lemma_dec_le_many_digits(sig@, epos as int, mx@);
        }
        return false;
    }
    let ep: usize = epos as usize;
    if (n as u128) + (ep as u128) < m as u128 {
        proof {
            lemma_dec_le_few_digits(sig@, epos as int, mx@);
        }
        return true;
    }
    if (n as u128) + (ep as u128) > m as u128 {
        proof {
            lemma_dec_le_many_digits(sig@, epos as int, mx@);
        }
        return false;
    }
    // as many scaled digits as the bound has: compare digit strings
    let mut lhs = copy_char_range(sig, 0, n);
    proof {
        assert(lhs@ =~= sig@);
    }
    append_zero_chars(&mut lhs, ep);
    proof {
        lemma_digits_val_append_zeros(sig@, ep as nat);
        assert(all_digits(lhs@)) by {
            assert(forall|k: int|
                0 <= k < sig@.len() ==> #[trigger] lhs@[k] == sig@[k]);
            assert(forall|k: int|
                sig@.len() <= k < lhs@.len() ==> #[trigger] lhs@[k] == '0');
            assert(is_digit('0'));
        }
    }
    digits_le(&lhs, mx)
}

/// Decide `dec_le` for a normalized significand and a nonpositive exponent
/// of magnitude `emag`.
fn float_neg(sig: &Vec<char>, emag: u128, mx: &Vec<char>) -> (r: bool)
    requires
        all_digits(sig@),
        sig.len() >= 1,
        digit_val(sig@[0]) >= 1,
        all_digits(mx@),
        mx.len() >= 1,
        digit_val(mx@[0]) >= 1,
    ensures
        r == dec_le(digits_val(sig@), -(emag as int), digits_val(mx@)),
{
    let n: usize = sig.len();
    let m: usize = mx.len();
    if emag == 0 {
        return float_pos(sig, 0, mx);
    }
    match (m as u128).checked_add(emag) {
        None => {
            proof {
                lemma_dec_le_few_digits(sig@, -(emag as int), mx@);
            }
            true
        },
        Some(s) => {
            if (n as u128) < s {
                proof {
                    lemma_dec_le_few_digits(sig@, -(emag as int), mx@);
                }
                true
            } else if (n as u128) > s {
                proof {
                    lemma_dec_le_many_digits(sig@, -(emag as int), mx@);
                }
                false
            } else {
                // n == m + emag: compare against the bound scaled up
                let nm: usize = n - m;
                proof {
                    assert(emag == nm as u128);
                }
                let mut rhs = copy_char_range(mx, 0, m);
                proof {
                    assert(rhs@ =~= mx@);
                }
                append_zero_chars(&mut rhs, nm);
                proof {
                    lemma_digits_val_append_zeros(mx@, nm as nat);
                    assert(all_digits(rhs@)) by {
                        assert(forall|k: int|
                            0 <= k < mx@.len() ==> #[trigger] rhs@[k] == mx@[k]);
                        assert(forall|k: int|
                            mx@.len() <= k < rhs@.len() ==> #[trigger] rhs@[k] == '0');
                        assert(is_digit('0'));
                    }
                }
                digits_le(sig, &rhs)
            }
        },
    }
}

/// Decide whether the decimal value `digits * 10^(exponent - frac)` is at
/// most the value of the digit string `mx` (see `dec_le`): whether a float
/// literal with the given significand digits, fraction length, and signed
/// exponent fits a type whose largest finite value `mx` spells out.
pub fn float_fits(
    digits: &Vec<char>,
    frac: usize,
    exp_neg: bool,
    exp_digits: &Vec<char>,
    mx: &Vec<char>,
) -> (r: bool)
    requires
        all_digits(digits@),
        all_digits(exp_digits@),
        all_digits(mx@),
        mx.len() >= 1,
        digit_val(mx@[0]) >= 1,
    ensures
        r == dec_le(
            digits_val(digits@),
            exp_val_of(exp_neg, exp_digits@) - frac as int,
            digits_val(mx@),
        ),
{
    let ghost e: int = exp_val_of(exp_neg, exp_digits@) - frac as int;
    proof {
        lemma_digits_val_nonneg(mx@);
        lemma_digits_val_nonneg(exp_digits@);
    }
    let z = first_nonzero(digits);
    if z == digits.len() {
        proof {
            lemma_digits_val_zero_iff(digits@);
            lemma_dec_le_zero(e, digits_val(mx@));
        }
        return true;
    }
    let sig = copy_char_range(digits, z, digits.len());
    proof {
        lemma_digits_val_split(digits@, z as int);
        lemma_digits_val_zero_iff(digits@.take(z as int));
        assert(digits_val(digits@.take(z as int)) == 0);
        assert(digits_val(digits@.take(z as int)) * pow10((digits@.len() - z) as nat) == 0);
        assert(sig@ =~= digits@.skip(z as int));
        assert(digits_val(sig@) == digits_val(digits@));
        assert(digit_val(sig@[0]) >= 1);
    }
    match parse_u128(exp_digits) {
        None => {
            // the exponent magnitude exceeds u128: far outside any bound
            if exp_neg {
                proof {
                    lemma_dec_le_few_digits(sig@, e, mx@);
                }
                true
            } else {
                proof {
                    lemma_dec_le_many_digits(sig@, e, mx@);
                }
                false
            }
        },
        Some(ev) => {
            if exp_neg {
                match ev.checked_add(frac as u128) {
                    None => {
                        proof {
                            lemma_dec_le_few_digits(sig@, e, mx@);
                        }
                        true
                    },
                    Some(emag) => float_neg(&sig, emag, mx),
                }
            } else {
                if ev >= frac as u128 {
                    float_pos(&sig, ev - frac as u128, mx)
                } else {
                    float_neg(&sig, frac as u128 - ev, mx)
                }
            }
        },
    }
}

/// With more scaled digits than the bound has digits, the value overflows.
pub proof fn lemma_dec_le_many_digits(d: Seq<char>, e: int, mx: Seq<char>)
    requires
        all_digits(d),
        all_digits(mx),
        d.len() >= 1,
        digit_val(d[0]) >= 1,
        d.len() + e > mx.len(),
    ensures
        !dec_le(digits_val(d), e, digits_val(mx)),
{
    let dv = digits_val(d);
    let m = mx.len() as int;
    let n = d.len() as int;
    lemma_digits_val_lower(d);
    lemma_digits_val_upper(mx);
    lemma_digits_val_nonneg(mx);
    if e >= 0 {
        // dv * 10^e >= 10^(n-1) * 10^e = 10^(n-1+e) >= 10^m > M
        lemma_pow10_pos(e as nat);
        lemma_mul_inequality(pow10((n - 1) as nat), dv, pow10(e as nat));
        vstd::arithmetic::power::lemma_pow_adds(10, (n - 1) as nat, e as nat);
        vstd::arithmetic::power::lemma_pow_increases(10, m as nat, (n - 1 + e) as nat);
    } else {
        // dv >= 10^(n-1) >= 10^(m-e) = 10^m * 10^(-e) > M * 10^(-e)
        let k = (-e) as nat;
        lemma_pow10_pos(k);
        vstd::arithmetic::power::lemma_pow_increases(10, (m + k) as nat, (n - 1) as nat);
        vstd::arithmetic::power::lemma_pow_adds(10, m as nat, k);
        lemma_mul_strict_inequality(digits_val(mx), pow10(m as nat), pow10(k));
    }
}

} // verus!
