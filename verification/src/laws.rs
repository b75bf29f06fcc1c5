//! Laws of the generator.
//!
//! Each proof function here states a property of the whole pipeline that
//! the contracts of the modules imply: what the emitted container holds,
//! that checked casts are exact, which declarations fail translation, and
//! how substitution treats bound and unbound names.

use vstd::prelude::*;

verus! {

use crate::token::TokenV;
use crate::parse::{DeclV, VariantV, spec_parse_variants, variant_of_tag, tv_is_punct};
use crate::subst::{DictEntryV, dict_get, dict_has, repl, spec_subst};
use crate::check::{
    spec_check_decl,
    check_variant,
    check_variants_seq,
    lit_shape,
    lit_parts,
    LitPartsV,
    int_tag_bounds,
    f32_max_digits,
    f64_max_digits,
};
use crate::numeric::{dec_le, exp_val_of};
use crate::digits::digits_val;
use crate::emit::{fields_text, field_text, intos_text, into_text};
use crate::parse::Strategy;
use crate::{Error, spec_expand, spec_process, stored_entry, tags_distinct};
use crate::token::spec_tokenize;
use crate::parse::spec_parse_list;

/// A parsed variant list is never empty, and K tags separated by K-1 bars
/// span exactly 2K-1 tokens.
pub proof fn lemma_variants_count(ts: Seq<TokenV>, i: int)
    requires
        spec_parse_variants(ts, i) is Some,
    ensures
        spec_parse_variants(ts, i)->Some_0.0.len() >= 1,
        spec_parse_variants(ts, i)->Some_0.1 == 2 * spec_parse_variants(ts, i)->Some_0.0.len()
            - 1,
    decreases ts.len() - i,
{
    if i + 1 < ts.len() && tv_is_punct(ts[i + 1], '|') {
        lemma_variants_count(ts, i + 2);
    }
}

/// A parsed variant list holds exactly one variant per declared tag, in
/// declaration order: the k-th variant is the resolution of the k-th tag.
pub proof fn lemma_variants_one_per_tag(ts: Seq<TokenV>, i: int, k: int)
    requires
        spec_parse_variants(ts, i) is Some,
        0 <= k < spec_parse_variants(ts, i)->Some_0.0.len(),
    ensures
        spec_parse_variants(ts, i)->Some_0.0[k] == variant_of_tag(ts[i + 2 * k].text),
    decreases ts.len() - i,
{
    if i + 1 < ts.len() && tv_is_punct(ts[i + 1], '|') {
        if k > 0 {
            lemma_variants_one_per_tag(ts, i + 2, k - 1);
        }
    }
}

/// The emitted container and its conversions grow by exactly one field and
/// one conversion for each declared variant, in declaration order: with K
/// variants there are exactly K fields and K conversions, one per tag.
pub proof fn lemma_one_accessor_per_variant(vs: Seq<VariantV>, sn: Seq<char>, k: int)
    requires
        0 <= k < vs.len(),
    ensures
        fields_text(vs.take(k + 1)) == fields_text(vs.take(k)) + field_text(vs[k]),
        intos_text(vs.take(k + 1), sn) == intos_text(vs.take(k), sn) + into_text(vs[k], sn),
{
    assert(vs.take(k + 1).drop_last() =~= vs.take(k));
    assert(vs.take(k + 1).last() == vs[k]);
}

/// A value the checker admits for a fixed-width integer type is preserved
/// exactly by the cast the emitted code performs: no wraparound, no sign
/// change. The ranges are exactly the checker's (`int_tag_bounds`).
pub proof fn lemma_direct_cast_exact(v: int)
    ensures
        -128 <= v <= 127 ==> (v as i8) as int == v,
        -32768 <= v <= 32767 ==> (v as i16) as int == v,
        -2147483648 <= v <= 2147483647 ==> (v as i32) as int == v,
        -9223372036854775808 <= v <= 9223372036854775807 ==> (v as i64) as int == v,
        -170141183460469231731687303715884105728int <= v
            <= 170141183460469231731687303715884105727int ==> (v as i128) as int == v,
        0 <= v <= 255 ==> (v as u8) as int == v,
        0 <= v <= 65535 ==> (v as u16) as int == v,
        0 <= v <= 4294967295 ==> (v as u32) as int == v,
        0 <= v <= 18446744073709551615 ==> (v as u64) as int == v,
        0 <= v <= 340282366920938463463374607431768211455int ==> (v as u128) as int == v,
{
}

/// If some variant of a declaration objects to the literal, the whole
/// declaration is rejected.
pub proof fn lemma_check_variants_some(vs: Seq<VariantV>, neg: bool, parts: LitPartsV, k: int)
    requires
        0 <= k < vs.len(),
        check_variant(vs[k], neg, parts) is Some,
    ensures
        check_variants_seq(vs, neg, parts) is Some,
    decreases vs.len(),
{
    if k > 0 && check_variant(vs[0], neg, parts) is None {
        lemma_check_variants_some(vs.skip(1), neg, parts, k - 1);
    }
}

/// A declaration whose checks object never reaches emission: processing
/// the list it stands in fails, wherever it stands.
pub proof fn lemma_rejected_decl_fails_translation(
    ds: Seq<DeclV>,
    dict: Seq<DictEntryV>,
    j: int,
)
    requires
        0 <= j < ds.len(),
        spec_check_decl(ds[j]) is Some,
    ensures
        spec_process(ds, dict) is Err,
    decreases ds.len(),
{
    if j > 0 && !dict_has(dict, ds[0].name) && tags_distinct(ds[0].variants) && spec_check_decl(
        ds[0],
    ) is None {
        assert(ds.skip(1)[j - 1] == ds[j]);
        lemma_rejected_decl_fails_translation(ds.skip(1), dict.push(stored_entry(ds[0])), j - 1);
    }
}

/// A declaration that the checks reject fails the whole translation of
/// any source text it parses out of: there is no partial output.
pub proof fn lemma_rejected_decl_fails_expand(s: Seq<char>, j: int)
    requires
        spec_tokenize(s) is Some,
        spec_parse_list(spec_tokenize(s)->Some_0, 0) is Some,
        0 <= j < spec_parse_list(spec_tokenize(s)->Some_0, 0)->Some_0.len(),
        spec_check_decl(spec_parse_list(spec_tokenize(s)->Some_0, 0)->Some_0[j]) is Some,
    ensures
        spec_expand(s) is Err,
{
    let ds = spec_parse_list(spec_tokenize(s)->Some_0, 0)->Some_0;
    lemma_rejected_decl_fails_translation(ds, Seq::empty(), j);
}

/// Declaring one constant name twice fails the whole translation of any
/// source text the two declarations parse out of.
pub proof fn lemma_duplicate_name_fails_expand(s: Seq<char>, i: int, j: int)
    requires
        spec_tokenize(s) is Some,
        spec_parse_list(spec_tokenize(s)->Some_0, 0) is Some,
        0 <= i < j < spec_parse_list(spec_tokenize(s)->Some_0, 0)->Some_0.len(),
        spec_parse_list(spec_tokenize(s)->Some_0, 0)->Some_0[i].name == spec_parse_list(
            spec_tokenize(s)->Some_0,
            0,
        )->Some_0[j].name,
    ensures
        spec_expand(s) is Err,
{
    let ds = spec_parse_list(spec_tokenize(s)->Some_0, 0)->Some_0;
    lemma_duplicate_name_fails(ds, Seq::empty(), i, j);
}

/// A non-zero variant given the integer literal zero objects, so the
/// declaration fails translation.
pub proof fn lemma_zero_literal_rejected(d: DeclV, k: int)
    requires
        lit_shape(d.init) is Some,
        lit_parts(lit_shape(d.init)->Some_0.1) matches LitPartsV::IntLit { digits } && digits_val(
            digits,
        ) == 0,
        0 <= k < d.variants.len(),
        d.variants[k].strategy == Strategy::NonZeroWrap,
        int_tag_bounds(d.variants[k].tag) is Some,
        d.variants[k].tag != "f32"@ && d.variants[k].tag != "f64"@,
    ensures
        spec_check_decl(d) is Some,
{
    let (neg, lit) = lit_shape(d.init)->Some_0;
    let parts = lit_parts(lit);
    assert(check_variant(d.variants[k], neg, parts) is Some);
    lemma_check_variants_some(d.variants, neg, parts, k);
}

/// A negated nonzero integer literal objected to by any unsigned variant
/// (one whose admitted range starts at zero): the declaration fails.
pub proof fn lemma_negative_for_unsigned_rejected(d: DeclV, k: int)
    requires
        lit_shape(d.init) is Some,
        lit_shape(d.init)->Some_0.0 == true,
        lit_parts(lit_shape(d.init)->Some_0.1) matches LitPartsV::IntLit { digits } && digits_val(
            digits,
        ) >= 1,
        0 <= k < d.variants.len(),
        int_tag_bounds(d.variants[k].tag) matches Some(b) && b.0 == 0,
        d.variants[k].tag != "f32"@ && d.variants[k].tag != "f64"@,
    ensures
        spec_check_decl(d) is Some,
{
    let (neg, lit) = lit_shape(d.init)->Some_0;
    let parts = lit_parts(lit);
    assert(check_variant(d.variants[k], neg, parts) is Some);
    lemma_check_variants_some(d.variants, neg, parts, k);
}

/// An integer literal outside some variant's admitted range: the
/// declaration fails.
pub proof fn lemma_out_of_range_rejected(d: DeclV, k: int)
    requires
        lit_shape(d.init) is Some,
        lit_parts(lit_shape(d.init)->Some_0.1) is IntLit,
        int_tag_bounds(d.variants[k].tag) is Some,
        d.variants[k].tag != "f32"@ && d.variants[k].tag != "f64"@,
        0 <= k < d.variants.len(),
        ({
            let digits = lit_parts(lit_shape(d.init)->Some_0.1)->IntLit_digits;
            let v = if lit_shape(d.init)->Some_0.0 {
                -digits_val(digits)
            } else {
                digits_val(digits)
            };
            let b = int_tag_bounds(d.variants[k].tag)->Some_0;
            v < b.0 || v > b.1
        }),
    ensures
        spec_check_decl(d) is Some,
{
    let (neg, lit) = lit_shape(d.init)->Some_0;
    let parts = lit_parts(lit);
    assert(check_variant(d.variants[k], neg, parts) is Some);
    lemma_check_variants_some(d.variants, neg, parts, k);
}

/// A float literal whose magnitude exceeds the largest finite value of a
/// requested float type: the declaration fails.
pub proof fn lemma_float_overflow_rejected(d: DeclV, k: int)
    requires
        lit_shape(d.init) is Some,
        lit_parts(lit_shape(d.init)->Some_0.1) is FloatLit,
        0 <= k < d.variants.len(),
        d.variants[k].tag == "f32"@ || d.variants[k].tag == "f64"@,
        ({
            let p = lit_parts(lit_shape(d.init)->Some_0.1);
            let mx = if d.variants[k].tag == "f32"@ {
                f32_max_digits()
            } else {
                f64_max_digits()
            };
            !dec_le(
                digits_val(p->FloatLit_digits),
                exp_val_of(p->FloatLit_exp_neg, p->FloatLit_exp_digits) - p->FloatLit_frac,
                digits_val(mx),
            )
        }),
    ensures
        spec_check_decl(d) is Some,
{
    let (neg, lit) = lit_shape(d.init)->Some_0;
    let parts = lit_parts(lit);
    assert(check_variant(d.variants[k], neg, parts) is Some);
    lemma_check_variants_some(d.variants, neg, parts, k);
}

/// Substitution is pointwise: each token of the initializer is replaced
/// independently, a bound identifier by the stored parenthesized
/// initializer of the earlier constant and every other token by itself.
pub proof fn lemma_substitution_pointwise(ts: Seq<TokenV>, d: Seq<DictEntryV>, k: int)
    requires
        0 <= k < ts.len(),
    ensures
        spec_subst(ts.take(k + 1), d) == spec_subst(ts.take(k), d) + repl(ts[k], d),
    decreases ts.len(),
{
    assert(ts.take(k + 1).drop_last() =~= ts.take(k));
    assert(ts.take(k + 1).last() == ts[k]);
}

/// An identifier not bound in the dictionary (undeclared, or declared
/// later) passes through substitution unchanged.
pub proof fn lemma_unbound_ident_unchanged(t: TokenV, d: Seq<DictEntryV>)
    requires
        !dict_has(d, t.text),
    ensures
        repl(t, d) == seq![t],
{
}

/// Pushing an entry does not unbind a name.
pub proof fn lemma_dict_get_push(d: Seq<DictEntryV>, e: DictEntryV, k: Seq<char>)
    ensures
        dict_get(d.push(e), k) == (match dict_get(d, k) {
            Some(v) => Some(v),
            None => if e.name == k {
                Some(e.toks)
            } else {
                None::<Seq<TokenV>>
            },
        }),
    decreases d.len(),
{
    if d.len() == 0 {
        assert(d.push(e)[0] == e);
        assert(d.push(e).skip(1) =~= Seq::<DictEntryV>::empty());
        assert(dict_get(Seq::<DictEntryV>::empty(), k) is None);
        assert(dict_get(d, k) is None);
        if e.name == k {
            assert(dict_get(d.push(e), k) == Some(e.toks));
        } else {
            assert(dict_get(d.push(e), k) == dict_get(d.push(e).skip(1), k));
        }
    } else {
        assert(d.push(e)[0] == d[0]);
        assert(d.push(e).skip(1) =~= d.skip(1).push(e));
        lemma_dict_get_push(d.skip(1), e, k);
        if d[0].name == k {
            assert(dict_get(d, k) == Some(d[0].toks));
            assert(dict_get(d.push(e), k) == Some(d[0].toks));
        } else {
            assert(dict_get(d, k) == dict_get(d.skip(1), k));
            assert(dict_get(d.push(e), k) == dict_get(d.skip(1).push(e), k));
        }
    }
}

/// A declaration whose name is already bound fails translation.
pub proof fn lemma_name_in_dict_fails(ds: Seq<DeclV>, dict: Seq<DictEntryV>, j: int)
    requires
        0 <= j < ds.len(),
        dict_has(dict, ds[j].name),
    ensures
        spec_process(ds, dict) is Err,
    decreases ds.len(),
{
    if j > 0 && !dict_has(dict, ds[0].name) && tags_distinct(ds[0].variants) && spec_check_decl(
        ds[0],
    ) is None {
        assert(ds.skip(1)[j - 1] == ds[j]);
        lemma_dict_get_push(dict, stored_entry(ds[0]), ds[j].name);
        lemma_name_in_dict_fails(ds.skip(1), dict.push(stored_entry(ds[0])), j - 1);
    }
}

/// Declaring the same constant name twice fails translation: re-declaring
/// a name is rejected, never shadowed.
pub proof fn lemma_duplicate_name_fails(ds: Seq<DeclV>, dict: Seq<DictEntryV>, i: int, j: int)
    requires
        0 <= i < j < ds.len(),
        ds[i].name == ds[j].name,
    ensures
        spec_process(ds, dict) is Err,
    decreases ds.len(),
{
    if !dict_has(dict, ds[0].name) && tags_distinct(ds[0].variants) && spec_check_decl(
        ds[0],
    ) is None {
        let dict2 = dict.push(stored_entry(ds[0]));
        if i == 0 {
            assert(ds.skip(1)[j - 1] == ds[j]);
            lemma_dict_get_push(dict, stored_entry(ds[0]), ds[j].name);
            assert(dict_has(dict2, ds[j].name));
            lemma_name_in_dict_fails(ds.skip(1), dict2, j - 1);
        } else {
            assert(ds.skip(1)[i - 1] == ds[i]);
            assert(ds.skip(1)[j - 1] == ds[j]);
            lemma_duplicate_name_fails(ds.skip(1), dict2, i - 1, j - 1);
        }
    }
}

} // verus!
