//! Code emission.
//!
//! For one declaration the generator emits three artifacts as Rust source
//! text: the container struct with one field per variant, one
//! `Into<target>` conversion per variant, and the frozen constant instance
//! whose fields apply each variant's construction strategy to the rewritten
//! initializer. `emit_decl_text` defines the emitted text; `emit_decl`
//! computes it. Tokens are printed with a single following space, which
//! preserves token boundaries.

use vstd::prelude::*;

verus! {

use vstd::string::StringExecFns;
use crate::token::{Token, TokenV, token_views, lemma_token_views_len, lemma_token_views_index};
use crate::parse::{Decl, DeclV, Variant, VariantV, Strategy, variant_views};
use crate::parse::{lemma_variant_views_len, lemma_variant_views_index};

broadcast use {lemma_token_views_len, lemma_token_views_index};

/// The text of a token sequence: each token's text followed by one space.
pub open spec fn tokens_text(ts: Seq<TokenV>) -> Seq<char>
    decreases ts.len(),
{
    if ts.len() == 0 {
        Seq::empty()
    } else {
        tokens_text(ts.drop_last()) + ts.last().text + " "@
    }
}

pub proof fn lemma_tokens_text_push(ts: Seq<TokenV>, t: TokenV)
    ensures
        tokens_text(ts.push(t)) == tokens_text(ts) + t.text + " "@,
{
    assert(ts.push(t).drop_last() =~= ts);
    assert(ts.push(t).last() == t);
}

/// One field declaration of the container: `tag : type ,`.
pub open spec fn field_text(v: VariantV) -> Seq<char> {
    v.tag + " : "@ + v.ty_text + " , "@
}

/// The field declarations of all variants, in order.
pub open spec fn fields_text(vs: Seq<VariantV>) -> Seq<char>
    decreases vs.len(),
{
    if vs.len() == 0 {
        Seq::empty()
    } else {
        fields_text(vs.drop_last()) + field_text(vs.last())
    }
}

/// One conversion: an `Into` impl returning the variant's field.
pub open spec fn into_text(v: VariantV, sn: Seq<char>) -> Seq<char> {
    "impl ::core::convert::Into< "@ + v.ty_text + " > for "@ + sn
        + " { fn into ( self ) -> "@ + v.ty_text + " { self . "@ + v.tag + " } }\n"@
}

/// The conversions of all variants, in order: one per variant.
pub open spec fn intos_text(vs: Seq<VariantV>, sn: Seq<char>) -> Seq<char>
    decreases vs.len(),
{
    if vs.len() == 0 {
        Seq::empty()
    } else {
        intos_text(vs.drop_last(), sn) + into_text(vs.last(), sn)
    }
}

/// One field initializer of the instance: a parenthesized cast for
/// `DirectCast`, a checked non-zero construction for `NonZeroWrap`.
pub open spec fn init_field_text(v: VariantV, init: Seq<TokenV>) -> Seq<char> {
    match v.strategy {
        Strategy::DirectCast => v.tag + " : ( "@ + tokens_text(init) + ") as "@ + v.ty_text
            + " , "@,
        Strategy::NonZeroWrap => v.tag + " : "@ + v.ty_text + " :: new ( "@ + tokens_text(init)
            + ") . unwrap ( ) , "@,
    }
}

/// The field initializers of all variants, in order.
pub open spec fn init_fields_text(vs: Seq<VariantV>, init: Seq<TokenV>) -> Seq<char>
    decreases vs.len(),
{
    if vs.len() == 0 {
        Seq::empty()
    } else {
        init_fields_text(vs.drop_last(), init) + init_field_text(vs.last(), init)
    }
}

/// Everything emitted for one declaration: the attributed, visible
/// container struct, its conversions, and the frozen instance.
pub open spec fn emit_decl_text(d: DeclV, sn: Seq<char>, init_subst: Seq<TokenV>) -> Seq<char> {
    tokens_text(d.attrs) + tokens_text(d.vis) + "struct "@ + sn + " { "@ + fields_text(d.variants)
        + "}\n"@ + intos_text(d.variants, sn) + tokens_text(d.vis) + "const "@ + d.name + " : "@
        + sn + " = "@ + sn + " { "@ + init_fields_text(d.variants, init_subst) + "} ;\n"@
}

/// Append the text of a token sequence to `out`.
pub fn push_tokens_text(out: &mut String, ts: &Vec<Token>)
    ensures
        final (out)@ == old(out)@ + tokens_text(token_views(ts@)),
{
    let ghost base = old(out)@;
    let ghost tsv = token_views(ts@);
    let n: usize = ts.len();
    let mut i: usize = 0;
    proof {
        assert(tsv.take(0) =~= Seq::<TokenV>::empty());
        assert(base + tokens_text(tsv.take(0)) =~= base);
    }
    while i < n
        invariant
            i <= n,
            n == ts.len(),
            tsv == token_views(ts@),
            out@ == base + tokens_text(tsv.take(i as int)),
        decreases n - i,
    {
        proof {
            lemma_tokens_text_push(tsv.take(i as int), tsv[i as int]);
            assert(tsv.take(i + 1 as int) =~= tsv.take(i as int).push(tsv[i as int]));
        }
        out.append(ts[i].text.as_str());
        out.append(" ");
        proof {
            assert(out@ =~= base + tokens_text(tsv.take(i + 1 as int)));
        }
        i += 1;
    }
    proof {
        assert(tsv.take(n as int) =~= tsv);
    }
}

/// Append one variant's field declaration to `out`.
fn push_field_text(out: &mut String, v: &Variant)
    ensures
        final (out)@ == old(out)@ + field_text(v@),
{
    out.append(v.tag.as_str());
    out.append(" : ");
    out.append(v.ty_text.as_str());
    out.append(" , ");
    proof {
        assert(out@ =~= old(out)@ + field_text(v@));
    }
}

/// Append one variant's conversion impl to `out`.
fn push_into_text(out: &mut String, v: &Variant, sn: &String)
    ensures
        final (out)@ == old(out)@ + into_text(v@, sn@),
{
    out.append("impl ::core::convert::Into< ");
    out.append(v.ty_text.as_str());
    out.append(" > for ");
    out.append(sn.as_str());
    out.append(" { fn into ( self ) -> ");
    out.append(v.ty_text.as_str());
    out.append(" { self . ");
    out.append(v.tag.as_str());
    out.append(" } }\n");
    proof {
        assert(out@ =~= old(out)@ + into_text(v@, sn@));
    }
}

/// Append one variant's field initializer to `out`.
fn push_init_field_text(out: &mut String, v: &Variant, init: &Vec<Token>)
    ensures
        final (out)@ == old(out)@ + init_field_text(v@, token_views(init@)),
{
    match v.strategy {
        Strategy::DirectCast => {
            out.append(v.tag.as_str());
            out.append(" : ( ");
            push_tokens_text(out, init);
            out.append(") as ");
            out.append(v.ty_text.as_str());
            out.append(" , ");
        },
        Strategy::NonZeroWrap => {
            out.append(v.tag.as_str());
            out.append(" : ");
            out.append(v.ty_text.as_str());
            out.append(" :: new ( ");
            push_tokens_text(out, init);
            out.append(") . unwrap ( ) , ");
        },
    }
    proof {
        assert(out@ =~= old(out)@ + init_field_text(v@, token_views(init@)));
    }
}

/// Append everything emitted for one declaration to `out`
/// (see `emit_decl_text`).
pub fn emit_decl(out: &mut String, d: &Decl, sn: &String, init_subst: &Vec<Token>)
    ensures
        final (out)@ == old(out)@ + emit_decl_text(d@, sn@, token_views(init_subst@)),
{
    broadcast use {lemma_variant_views_len, lemma_variant_views_index};

    let ghost base = old(out)@;
    let ghost vsv = variant_views(d.variants@);
    push_tokens_text(out, &d.attrs);
    push_tokens_text(out, &d.vis);
    out.append("struct ");
    out.append(sn.as_str());
    out.append(" { ");
    let ghost mark1 = out@;
    let n: usize = d.variants.len();
    let mut i: usize = 0;
    proof {
        assert(fields_text(vsv.take(0)) =~= Seq::<char>::empty());
        assert(mark1 + fields_text(vsv.take(0)) =~= mark1);
    }
    while i < n
        invariant
            i <= n,
            n == d.variants.len(),
            vsv == variant_views(d.variants@),
            out@ == mark1 + fields_text(vsv.take(i as int)),
        decreases n - i,
    {
        proof {
            lemma_variant_views_index(d.variants@, i as int);
            lemma_variant_views_len(d.variants@);
            assert(vsv.take(i + 1 as int) =~= vsv.take(i as int).push(vsv[i as int]));
            assert(vsv.take(i + 1 as int).drop_last() =~= vsv.take(i as int));
        }
        push_field_text(out, &d.variants[i]);
        proof {
            assert(out@ =~= mark1 + fields_text(vsv.take(i + 1 as int)));
        }
        i += 1;
    }
    proof {
        assert(vsv.take(n as int) =~= vsv);
    }
    out.append("}\n");
    let ghost mark2 = out@;
    let mut i2: usize = 0;
    proof {
        assert(mark2 + intos_text(vsv.take(0), sn@) =~= mark2);
    }
    while i2 < n
        invariant
            i2 <= n,
            n == d.variants.len(),
            vsv == variant_views(d.variants@),
            out@ == mark2 + intos_text(vsv.take(i2 as int), sn@),
        decreases n - i2,
    {
        proof {
            lemma_variant_views_index(d.variants@, i2 as int);
            lemma_variant_views_len(d.variants@);
            assert(vsv.take(i2 + 1 as int) =~= vsv.take(i2 as int).push(vsv[i2 as int]));
            assert(vsv.take(i2 + 1 as int).drop_last() =~= vsv.take(i2 as int));
        }
        push_into_text(out, &d.variants[i2], sn);
        proof {
            assert(out@ =~= mark2 + intos_text(vsv.take(i2 + 1 as int), sn@));
        }
        i2 += 1;
    }
    proof {
        assert(vsv.take(n as int) =~= vsv);
    }
    push_tokens_text(out, &d.vis);
    out.append("const ");
    out.append(d.name.as_str());
    out.append(" : ");
    out.append(sn.as_str());
    out.append(" = ");
    out.append(sn.as_str());
    out.append(" { ");
    let ghost mark3 = out@;
    let ghost initv = token_views(init_subst@);
    let mut i3: usize = 0;
    proof {
        assert(mark3 + init_fields_text(vsv.take(0), initv) =~= mark3);
    }
    while i3 < n
        invariant
            i3 <= n,
            n == d.variants.len(),
            vsv == variant_views(d.variants@),
            initv == token_views(init_subst@),
            out@ == mark3 + init_fields_text(vsv.take(i3 as int), initv),
        decreases n - i3,
    {
        proof {
            lemma_variant_views_index(d.variants@, i3 as int);
            lemma_variant_views_len(d.variants@);
            assert(vsv.take(i3 + 1 as int) =~= vsv.take(i3 as int).push(vsv[i3 as int]));
            assert(vsv.take(i3 + 1 as int).drop_last() =~= vsv.take(i3 as int));
        }
        push_init_field_text(out, &d.variants[i3], init_subst);
        proof {
            assert(out@ =~= mark3 + init_fields_text(vsv.take(i3 + 1 as int), initv));
        }
        i3 += 1;
    }
    proof {
        assert(vsv.take(n as int) =~= vsv);
    }
    out.append("} ;\n");
    proof {
        assert(out@ =~= base + emit_decl_text(d@, sn@, token_views(init_subst@)));
    }
}

} // verus!
