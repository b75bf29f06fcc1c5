//! The numeric literal checks.
//!
//! When a declaration's initializer is a single decimal literal, optionally
//! negated, the generator itself rejects values the requested types cannot
//! hold: an integer literal outside an integer type's range, a zero
//! initializer for a non-zero type, a float literal beyond a float type's
//! largest finite value, and a literal of the wrong kind (integer for a
//! float type or float for an integer type). Any other initializer shape,
//! literal form (such as hex), or unknown type name is left to the compiler
//! of the emitted code, as is every non-literal expression. `isize` and
//! `usize` are checked with 64-bit ranges.

use vstd::prelude::*;

verus! {

use vstd::string::StringExecFns;
use crate::digits::{is_digit, digit_val, all_digits, digits_val};
use crate::token::{Token, TokenV, TokenKind, token_views, digit_run, digit_run_end, str_chars};
use crate::token::{lemma_token_views_len, lemma_token_views_index};
use crate::parse::{Variant, VariantV, Strategy, variant_views, Decl, DeclV};
use crate::parse::{lemma_variant_views_len, lemma_variant_views_index, tv_is_punct};
use crate::numeric::{parse_u128, float_fits, dec_le, exp_val_of};
use crate::Error;

broadcast use {lemma_token_views_len, lemma_token_views_index};

/// The shape of a number literal's text.
pub enum LitPartsV {
    /// Plain decimal digits.
    IntLit { digits: Seq<char> },
    /// Decimal digits with a fraction and/or an exponent: `digits` holds
    /// the significand's digits without the dot, `frac` of them after it.
    FloatLit { digits: Seq<char>, frac: nat, exp_neg: bool, exp_digits: Seq<char> },
    /// Anything else (such as a hex literal): not analyzed.
    OtherLit,
}

/// Exec counterpart of `LitPartsV`.
pub enum NumParts {
    IntLit { digits: Vec<char> },
    FloatLit { digits: Vec<char>, frac: usize, exp_neg: bool, exp_digits: Vec<char> },
    OtherLit,
}

impl View for NumParts {
    type V = LitPartsV;

    open spec fn view(&self) -> LitPartsV {
        match self {
            NumParts::IntLit { digits } => LitPartsV::IntLit { digits: digits@ },
            NumParts::FloatLit { digits, frac, exp_neg, exp_digits } => LitPartsV::FloatLit {
                digits: digits@,
                frac: *frac as nat,
                exp_neg: *exp_neg,
                exp_digits: exp_digits@,
            },
            NumParts::OtherLit => LitPartsV::OtherLit,
        }
    }
}

/// All digit fields hold digits only.
pub open spec fn parts_wf(p: LitPartsV) -> bool {
    match p {
        LitPartsV::IntLit { digits } => all_digits(digits),
        LitPartsV::FloatLit { digits, frac, exp_neg, exp_digits } => all_digits(digits)
            && all_digits(exp_digits),
        LitPartsV::OtherLit => true,
    }
}

/// The shape of the literal text `s`: all digits is an integer; digits
/// with a dot-fraction and/or an exponent is a float; anything else is
/// unanalyzed.
pub open spec fn lit_parts(s: Seq<char>) -> LitPartsV {
    let a = digit_run(s, 0) as int;
    if a == s.len() {
        LitPartsV::IntLit { digits: s }
    } else {
        let hasf = a + 1 < s.len() && s[a] == '.' && is_digit(s[a + 1]);
        let f = if hasf {
            digit_run(s, a + 1) as int
        } else {
            0
        };
        let b = if hasf {
            a + 1 + f
        } else {
            a
        };
        let mant = if hasf {
            s.subrange(0, a) + s.subrange(a + 1, b)
        } else {
            s.subrange(0, a)
        };
        if b >= s.len() {
            if hasf {
                LitPartsV::FloatLit {
                    digits: mant,
                    frac: f as nat,
                    exp_neg: false,
                    exp_digits: Seq::empty(),
                }
            } else {
                LitPartsV::OtherLit
            }
        } else if s[b] == 'e' || s[b] == 'E' {
            if b + 1 < s.len() && is_digit(s[b + 1]) {
                let g = digit_run(s, b + 1) as int;
                if b + 1 + g == s.len() {
                    LitPartsV::FloatLit {
                        digits: mant,
                        frac: f as nat,
                        exp_neg: false,
                        exp_digits: s.subrange(b + 1, s.len() as int),
                    }
                } else {
                    LitPartsV::OtherLit
                }
            } else if b + 2 < s.len() && (s[b + 1] == '+' || s[b + 1] == '-') && is_digit(
                s[b + 2],
            ) {
                let g = digit_run(s, b + 2) as int;
                if b + 2 + g == s.len() {
                    LitPartsV::FloatLit {
                        digits: mant,
                        frac: f as nat,
                        exp_neg: s[b + 1] == '-',
                        exp_digits: s.subrange(b + 2, s.len() as int),
                    }
                } else {
                    LitPartsV::OtherLit
                }
            } else {
                LitPartsV::OtherLit
            }
        } else {
            LitPartsV::OtherLit
        }
    }
}

/// Exec classification of a literal's text (see `lit_parts`).
pub fn classify(lit: &String) -> (r: NumParts)
    ensures
        r@ == lit_parts(lit@),
        parts_wf(r@),
{
    let ghost s = lit@;
    let cs = str_chars(lit.as_str());
    let n: usize = cs.len();
    let a = digit_run_end(&cs, 0);
    if a == n {
        let digits = crate::numeric::copy_char_range(&cs, 0, n);
        proof {
            assert(digits@ =~= s);
        }
        return NumParts::IntLit { digits };
    }
    let hasf: bool = a + 1 < n && cs[a] == '.' && {
        let u: u32 = cs[a + 1] as u32;
        48 <= u && u <= 57
    };
    let f: usize;
    let b: usize;
    if hasf {
        let fe = digit_run_end(&cs, a + 1);
        f = fe - (a + 1);
        b = fe;
    } else {
        f = 0;
        b = a;
    }
    let mut mant = crate::numeric::copy_char_range(&cs, 0, a);
    if hasf {
        crate::numeric::append_char_range(&mut mant, &cs, a + 1, b);
    } else {
        proof {
            assert(mant@ + s.subrange(a as int, a as int) =~= mant@);
        }
    }
    if b >= n {
        if hasf {
            let exp_digits: Vec<char> = Vec::new();
            proof {
                assert(exp_digits@ =~= Seq::<char>::empty());
            }
            return NumParts::FloatLit { digits: mant, frac: f, exp_neg: false, exp_digits };
        }
        return NumParts::OtherLit;
    }
    if cs[b] == 'e' || cs[b] == 'E' {
        let digit_after: bool = b + 1 < n && {
            let u: u32 = cs[b + 1] as u32;
            48 <= u && u <= 57
        };
        if digit_after {
            let g = digit_run_end(&cs, b + 1);
            if g == n {
                let exp_digits = crate::numeric::copy_char_range(&cs, b + 1, n);
                return NumParts::FloatLit { digits: mant, frac: f, exp_neg: false, exp_digits };
            }
            return NumParts::OtherLit;
        }
        let signed_digit: bool = b + 1 < n && (cs[b + 1] == '+' || cs[b + 1] == '-') && b + 2 < n
            && {
            let u: u32 = cs[b + 2] as u32;
            48 <= u && u <= 57
        };
        if signed_digit {
            let g = digit_run_end(&cs, b + 2);
            if g == n {
                let exp_digits = crate::numeric::copy_char_range(&cs, b + 2, n);
                return NumParts::FloatLit {
                    digits: mant,
                    frac: f,
                    exp_neg: cs[b + 1] == '-',
                    exp_digits,
                };
            }
            return NumParts::OtherLit;
        }
        return NumParts::OtherLit;
    }
    NumParts::OtherLit
}

/// The signed range of an integer type tag, plain or non-zero; `None` for
/// tags that are not known integer types.
pub open spec fn int_tag_bounds(tag: Seq<char>) -> Option<(int, int)> {
    if tag == "i8"@ || tag == "nz_i8"@ {
        Some((-128int, 127int))
    } else if tag == "i16"@ || tag == "nz_i16"@ {
        Some((-32768int, 32767int))
    } else if tag == "i32"@ || tag == "nz_i32"@ {
        Some((-2147483648int, 2147483647int))
    } else if tag == "i64"@ || tag == "nz_i64"@ || tag == "isize"@ || tag == "nz_isize"@ {
        Some((-9223372036854775808int, 9223372036854775807int))
    } else if tag == "i128"@ || tag == "nz_i128"@ {
        Some((-170141183460469231731687303715884105728int, 170141183460469231731687303715884105727int))
    } else if tag == "u8"@ || tag == "nz_u8"@ {
        Some((0int, 255int))
    } else if tag == "u16"@ || tag == "nz_u16"@ {
        Some((0int, 65535int))
    } else if tag == "u32"@ || tag == "nz_u32"@ {
        Some((0int, 4294967295int))
    } else if tag == "u64"@ || tag == "nz_u64"@ || tag == "usize"@ || tag == "nz_usize"@ {
        Some((0int, 18446744073709551615int))
    } else if tag == "u128"@ || tag == "nz_u128"@ {
        Some((0int, 340282366920938463463374607431768211455int))
    } else {
        None
    }
}

/// The decimal expansion of the largest finite `f32` value.
pub open spec fn f32_max_digits() -> Seq<char> {
    "340282346638528859811704183484516925440"@
}

/// The decimal expansion of the largest finite `f64` value.
pub open spec fn f64_max_digits() -> Seq<char> {
    "179769313486231570814527423731704356798070567525844996598917476803157260780028538760589558632766878171540458953514382464234321326889464182768467546703537516986049910576551282076245490090389328944075868508455133942304583236903222948165808559332123348274797826204144723168738177180919299881250404026184124858368"@
}

/// What one variant says about the literal `(neg, parts)`: `None` when it
/// raises no objection.
pub open spec fn check_variant(v: VariantV, neg: bool, parts: LitPartsV) -> Option<Error> {
    if v.tag == "f32"@ || v.tag == "f64"@ {
        match parts {
            LitPartsV::IntLit { digits } => Some(Error::TypeMismatch),
            LitPartsV::FloatLit { digits, frac, exp_neg, exp_digits } => {
                let mx = if v.tag == "f32"@ {
                    f32_max_digits()
                } else {
                    f64_max_digits()
                };
                if dec_le(
                    digits_val(digits),
                    exp_val_of(exp_neg, exp_digits) - frac,
                    digits_val(mx),
                ) {
                    None
                } else {
                    Some(Error::OutOfRange)
                }
            },
            LitPartsV::OtherLit => None,
        }
    } else {
        match int_tag_bounds(v.tag) {
            None => None,
            Some((lo, hi)) => match parts {
                LitPartsV::FloatLit { digits, frac, exp_neg, exp_digits } => Some(
                    Error::TypeMismatch,
                ),
                LitPartsV::OtherLit => None,
                LitPartsV::IntLit { digits } => {
                    let val = if neg {
                        -digits_val(digits)
                    } else {
                        digits_val(digits)
                    };
                    if !(lo <= val && val <= hi) {
                        Some(Error::OutOfRange)
                    } else if v.strategy == Strategy::NonZeroWrap && val == 0 {
                        Some(Error::ZeroValue)
                    } else {
                        None
                    }
                },
            },
        }
    }
}

/// The first objection any variant raises, in declaration order.
pub open spec fn check_variants_seq(vs: Seq<VariantV>, neg: bool, parts: LitPartsV) -> Option<
    Error,
>
    decreases vs.len(),
{
    if vs.len() == 0 {
        None
    } else {
        match check_variant(vs[0], neg, parts) {
            Some(e) => Some(e),
            None => check_variants_seq(vs.skip(1), neg, parts),
        }
    }
}

/// The checked literal of an initializer: a single number token, or a
/// minus sign and a number token. Any other initializer is not checked.
pub open spec fn lit_shape(init: Seq<TokenV>) -> Option<(bool, Seq<char>)> {
    if init.len() == 1 && init[0].kind == TokenKind::Number {
        Some((false, init[0].text))
    } else if init.len() == 2 && tv_is_punct(init[0], '-') && init[1].kind == TokenKind::Number {
        Some((true, init[1].text))
    } else {
        None
    }
}

/// What the checks say about one declaration: `None` when nothing is
/// rejected (including every initializer that is not a plain literal).
pub open spec fn spec_check_decl(d: DeclV) -> Option<Error> {
    match lit_shape(d.init) {
        None => None,
        Some((neg, lit)) => check_variants_seq(d.variants, neg, lit_parts(lit)),
    }
}

/// Magnitude test of a literal against a bound.
fn mag_le(mag: &Option<u128>, bound: u128, Ghost(dval): Ghost<int>) -> (r: bool)
    requires
        match mag {
            Some(v) => *v as int == dval,
            None => dval > u128::MAX,
        },
    ensures
        r == (dval <= bound as int),
{
    match mag {
        Some(v) => *v <= bound,
        None => false,
    }
}

/// Exec check of one variant against a classified literal
/// (see `check_variant`).
fn check_one(v: &Variant, neg: bool, parts: &NumParts) -> (r: Option<Error>)
    requires
        parts_wf(parts@),
    ensures
        r == check_variant(v@, neg, parts@),
{
    let is_f32 = v.tag == String::from_str("f32");
    let is_f64 = v.tag == String::from_str("f64");
    if is_f32 || is_f64 {
        match parts {
            NumParts::IntLit { digits } => Some(Error::TypeMismatch),
            NumParts::OtherLit => None,
            NumParts::FloatLit { digits, frac, exp_neg, exp_digits } => {
                let mxs: &str = if is_f32 {
                    "340282346638528859811704183484516925440"
                } else {
                    "179769313486231570814527423731704356798070567525844996598917476803157260780028538760589558632766878171540458953514382464234321326889464182768467546703537516986049910576551282076245490090389328944075868508455133942304583236903222948165808559332123348274797826204144723168738177180919299881250404026184124858368"
                };
                let mx = str_chars(mxs);
                proof {
                    lemma_float_max_digits_wf();
                }
                if float_fits(digits, *frac, *exp_neg, exp_digits, &mx) {
                    None
                } else {
                    Some(Error::OutOfRange)
                }
            },
        }
    } else {
        // integer tags, plain or non-zero; unknown tags raise nothing
        let t = &v.tag;
        let nb_pb: Option<(u128, u128)> = if *t == String::from_str("i8") || *t
            == String::from_str("nz_i8") {
            Some((128, 127))
        } else if *t == String::from_str("i16") || *t == String::from_str("nz_i16") {
            Some((32768, 32767))
        } else if *t == String::from_str("i32") || *t == String::from_str("nz_i32") {
            Some((2147483648, 2147483647))
        } else if *t == String::from_str("i64") || *t == String::from_str("nz_i64") || *t
            == String::from_str("isize") || *t == String::from_str("nz_isize") {
            Some((9223372036854775808, 9223372036854775807))
        } else if *t == String::from_str("i128") || *t == String::from_str("nz_i128") {
            Some((170141183460469231731687303715884105728, 170141183460469231731687303715884105727))
        } else if *t == String::from_str("u8") || *t == String::from_str("nz_u8") {
            Some((0, 255))
        } else if *t == String::from_str("u16") || *t == String::from_str("nz_u16") {
            Some((0, 65535))
        } else if *t == String::from_str("u32") || *t == String::from_str("nz_u32") {
            Some((0, 4294967295))
        } else if *t == String::from_str("u64") || *t == String::from_str("nz_u64") || *t
            == String::from_str("usize") || *t == String::from_str("nz_usize") {
            Some((0, 18446744073709551615))
        } else if *t == String::from_str("u128") || *t == String::from_str("nz_u128") {
            Some((0, 340282366920938463463374607431768211455))
        } else {
            None
        };
        match nb_pb {
            None => {
                proof {
                    assert(int_tag_bounds(v@.tag) is None);
                }
                None
            },
            Some((nb, pb)) => {
                match parts {
                    NumParts::FloatLit { digits, frac, exp_neg, exp_digits } => Some(
                        Error::TypeMismatch,
                    ),
                    NumParts::OtherLit => None,
                    NumParts::IntLit { digits } => {
                        let ghost dval = digits_val(digits@);
                        proof {
                            crate::digits::lemma_digits_val_nonneg(digits@);
                        }
                        let mag = parse_u128(digits);
                        let ok_low: bool = if neg {
                            mag_le(&mag, nb, Ghost(dval))
                        } else {
                            true
                        };
                        let ok_high: bool = if neg {
                            true
                        } else {
                            mag_le(&mag, pb, Ghost(dval))
                        };
                        if !(ok_low && ok_high) {
                            Some(Error::OutOfRange)
                        } else {
                            let is_zero: bool = match &mag {
                                Some(mv) => *mv == 0,
                                None => false,
                            };
                            let nz: bool = matches!(v.strategy, Strategy::NonZeroWrap);
                            if nz && is_zero {
                                Some(Error::ZeroValue)
                            } else {
                                None
                            }
                        }
                    },
                }
            },
        }
    }
}

/// The two float bound strings are digit strings with nonzero leading
/// digits.
proof fn lemma_float_max_digits_wf()
    ensures
        all_digits(f32_max_digits()),
        f32_max_digits().len() >= 1,
        digit_val(f32_max_digits()[0]) >= 1,
        all_digits(f64_max_digits()),
        f64_max_digits().len() >= 1,
        digit_val(f64_max_digits()[0]) >= 1,
{
    reveal_strlit("340282346638528859811704183484516925440");
    reveal_strlit(
        "179769313486231570814527423731704356798070567525844996598917476803157260780028538760589558632766878171540458953514382464234321326889464182768467546703537516986049910576551282076245490090389328944075868508455133942304583236903222948165808559332123348274797826204144723168738177180919299881250404026184124858368",
    );
}

/// Exec check of one declaration (see `spec_check_decl`).
pub fn check_decl(d: &Decl) -> (r: Option<Error>)
    ensures
        r == spec_check_decl(d@),
{
    broadcast use {lemma_variant_views_len, lemma_variant_views_index};

    let neg: bool;
    let lit: &String;
    if d.init.len() == 1 && matches!(d.init[0].kind, TokenKind::Number) {
        neg = false;
        lit = &d.init[0].text;
    } else if d.init.len() == 2 && d.init[0].is_punct('-') && matches!(
        d.init[1].kind,
        TokenKind::Number,
    ) {
        neg = true;
        lit = &d.init[1].text;
    } else {
        proof {
            assert(lit_shape(d@.init) is None);
        }
        return None;
    }
    let parts = classify(lit);
    let ghost vsv = variant_views(d.variants@);
    let n: usize = d.variants.len();
    let mut k: usize = 0;
    proof {
        assert(vsv.skip(0) =~= vsv);
    }
    while k < n
        invariant
            k <= n,
            n == d.variants.len(),
            vsv == variant_views(d.variants@),
            parts_wf(parts@),
            parts@ == lit_parts(lit@),
            lit_shape(d@.init) == Some((neg, lit@)),
            spec_check_decl(d@) == check_variants_seq(vsv.skip(k as int), neg, parts@),
        decreases n - k,
    {
        proof {
            lemma_variant_views_len(d.variants@);
            lemma_variant_views_index(d.variants@, k as int);
            assert(vsv.skip(k as int)[0] == vsv[k as int]);
            assert(vsv.skip(k as int).skip(1) =~= vsv.skip(k + 1 as int));
        }
        match check_one(&d.variants[k], neg, &parts) {
            Some(e) => {
                return Some(e);
            },
            None => {
            },
        }
        k += 1;
    }
    proof {
        assert(vsv.skip(n as int) =~= Seq::<VariantV>::empty());
    }
    None
}

} // verus!
