//! A source-to-source generator for polymorphic numeric constants.
//!
//! A declaration list such as `const HEIGHT: i8 | u8 | i16 = 16;` is parsed,
//! each type tag is resolved to a target type and a construction strategy,
//! bare references to earlier constants inside an initializer are replaced by
//! the earlier constant's parenthesized initializer, decimal literals are
//! checked against the target types' ranges, and for every declaration a
//! container struct, one conversion per variant, and a frozen instance are
//! emitted as Rust source text.
//!
//! Two choices the declaration language leaves open are fixed here:
//! declaring the same constant name twice is rejected, never shadowed, and
//! requesting the same type tag twice in one declaration is rejected.

use vstd::prelude::*;
use convert_case::Case;
use convert_case::Casing;

pub mod check;
pub mod digits;
pub mod laws;
pub mod emit;
pub mod numeric;
pub mod parse;
pub mod subst;
pub mod token;

verus! {

use vstd::string::StringExecFns;
use crate::token::{Token, TokenV, TokenKind, token_views, tokenize, spec_tokenize};
use crate::parse::{
    Decl,
    DeclV,
    Variant,
    VariantV,
    decl_views,
    variant_views,
    parse_declarations,
    spec_parse_list,
    lemma_decl_views_len,
    lemma_decl_views_index,
    lemma_variant_views_len,
    lemma_variant_views_index,
};
use crate::subst::{
    DictEntry,
    DictEntryV,
    dict_views,
    dict_has,
    dict_lookup,
    spec_subst,
    substitute,
    append_tokens,
    lemma_dict_views_push,
};
use crate::check::{spec_check_decl, check_decl};
use crate::emit::{emit_decl_text, emit_decl};

/// Why a declaration list was rejected.
#[derive(Clone, Copy, PartialEq, Eq, Structural, Debug)]
pub enum Error {
    /// The input does not match the declaration grammar.
    Syntax,
    /// A constant name was declared twice in one list.
    DuplicateName,
    /// One declaration requests the same type tag twice.
    DuplicateTag,
    /// An integer literal was given for a float type, or a float literal
    /// for an integer type.
    TypeMismatch,
    /// A decimal literal does not fit the requested type's range.
    OutOfRange,
    /// A non-zero type was initialized with a literal equal to zero.
    ZeroValue,
}

/// The upper-camel-case form of an identifier.
pub uninterp spec fn upper_camel_of(s: Seq<char>) -> Seq<char>;

/// Relies on convert_case's `Casing::to_case` with `Case::UpperCamel`: the
/// result depends on the input characters alone.
#[verifier::external_body]
fn upper_camel(s: &str) -> (r: String)
    ensures
        r@ == upper_camel_of(s@),
{
    s.to_case(Case::UpperCamel)
}

/// The generated container type's name: a fixed marker followed by the
/// upper-camel-cased constant name.
pub open spec fn type_name_of(name: Seq<char>) -> Seq<char> {
    "PolymorphicConstant"@ + upper_camel_of(name)
}

/// Exec derivation of the container type's name (see `type_name_of`).
pub fn derive_struct_name(name: &String) -> (r: String)
    ensures
        r@ == type_name_of(name@),
{
    let mut s = String::from_str("PolymorphicConstant");
    let tail = upper_camel(name.as_str());
    s.append(tail.as_str());
    s
}

/// Pairwise distinct variant tags.
pub open spec fn tags_distinct(vs: Seq<VariantV>) -> bool {
    forall|i: int, j: int|
        0 <= i < j < vs.len() ==> (#[trigger] vs[i].tag) != (#[trigger] vs[j].tag)
}

/// Exec test for `tags_distinct`.
pub fn check_tags_distinct(vs: &Vec<Variant>) -> (r: bool)
    ensures
        r == tags_distinct(variant_views(vs@)),
{
    broadcast use {lemma_variant_views_len, lemma_variant_views_index};

    let ghost vsv = variant_views(vs@);
    let n: usize = vs.len();
    let mut i: usize = 0;
    while i < n
        invariant
            i <= n,
            n == vs.len(),
            vsv == variant_views(vs@),
            forall|a: int, b: int|
                0 <= a < b < n && a < i ==> (#[trigger] vsv[a].tag) != (#[trigger] vsv[b].tag),
        decreases n - i,
    {
        let mut j: usize = i + 1;
        while j < n
            invariant
                i < j <= n,
                i < n,
                n == vs.len(),
                vsv == variant_views(vs@),
                forall|b: int| i < b < j ==> (#[trigger] vsv[b].tag) != vsv[i as int].tag,
            decreases n - j,
        {
            proof {
                lemma_variant_views_len(vs@);
                lemma_variant_views_index(vs@, i as int);
                lemma_variant_views_index(vs@, j as int);
            }
            if vs[i].tag == vs[j].tag {
                proof {
                    assert(vsv[i as int].tag == vsv[j as int].tag);
                    assert(!tags_distinct(vsv));
                }
                return false;
            }
            j += 1;
        }
        i += 1;
    }
    true
}

/// One fully processed declaration: its record, the derived container type
/// name, and the rewritten initializer.
#[derive(Debug)]
pub struct Expanded {
    pub decl: Decl,
    pub struct_name: String,
    pub init_subst: Vec<Token>,
}

/// The mathematical content of an `Expanded`.
pub struct ExpandedV {
    pub decl: DeclV,
    pub struct_name: Seq<char>,
    pub init_subst: Seq<TokenV>,
}

impl View for Expanded {
    type V = ExpandedV;

    open spec fn view(&self) -> ExpandedV {
        ExpandedV {
            decl: self.decl@,
            struct_name: self.struct_name@,
            init_subst: token_views(self.init_subst@),
        }
    }
}

/// The views of processed declarations, in order.
pub open spec fn expanded_views(es: Seq<Expanded>) -> Seq<ExpandedV>
    decreases es.len(),
{
    if es.len() == 0 {
        Seq::empty()
    } else {
        expanded_views(es.drop_last()).push(es.last()@)
    }
}

pub proof fn lemma_expanded_views_push(es: Seq<Expanded>, e: Expanded)
    ensures
        expanded_views(es.push(e)) == expanded_views(es).push(e@),
{
    assert(es.push(e).drop_last() =~= es);
    assert(es.push(e).last() == e);
}

/// The dictionary entry a declaration leaves behind: its name bound to its
/// original initializer wrapped in parentheses.
pub open spec fn stored_entry(d: DeclV) -> DictEntryV {
    DictEntryV {
        name: d.name,
        toks: seq![TokenV { kind: TokenKind::Punct, text: "("@ }] + d.init + seq![
            TokenV { kind: TokenKind::Punct, text: ")"@ },
        ],
    }
}

/// Process a declaration list left to right, threading the substitution
/// dictionary: each declaration must have a fresh name and pairwise
/// distinct tags and pass the numeric checks; its initializer is rewritten
/// under the dictionary of the declarations before it, and its own original
/// initializer is added for those after it.
pub open spec fn spec_process(ds: Seq<DeclV>, dict: Seq<DictEntryV>) -> Result<
    Seq<ExpandedV>,
    Error,
>
    decreases ds.len(),
{
    if ds.len() == 0 {
        Ok(Seq::empty())
    } else {
        let d = ds[0];
        if dict_has(dict, d.name) {
            Err(Error::DuplicateName)
        } else if !tags_distinct(d.variants) {
            Err(Error::DuplicateTag)
        } else {
            match spec_check_decl(d) {
                Some(e) => Err(e),
                None => {
                    let ev = ExpandedV {
                        decl: d,
                        struct_name: type_name_of(d.name),
                        init_subst: spec_subst(d.init, dict),
                    };
                    match spec_process(ds.skip(1), dict.push(stored_entry(d))) {
                        Err(e) => Err(e),
                        Ok(rest) => Ok(seq![ev] + rest),
                    }
                },
            }
        }
    }
}

/// The whole pipeline on source text: tokenize, parse, process.
pub open spec fn spec_expand(s: Seq<char>) -> Result<Seq<ExpandedV>, Error> {
    match spec_tokenize(s) {
        None => Err(Error::Syntax),
        Some(ts) => match spec_parse_list(ts, 0) {
            None => Err(Error::Syntax),
            Some(ds) => spec_process(ds, Seq::empty()),
        },
    }
}

/// The emitted text of a processed declaration list, in order.
pub open spec fn emit_all(es: Seq<ExpandedV>) -> Seq<char>
    decreases es.len(),
{
    if es.len() == 0 {
        Seq::empty()
    } else {
        emit_all(es.drop_last()) + emit_decl_text(
            es.last().decl,
            es.last().struct_name,
            es.last().init_subst,
        )
    }
}

pub proof fn lemma_emit_all_push(es: Seq<ExpandedV>, e: ExpandedV)
    ensures
        emit_all(es.push(e)) == emit_all(es) + emit_decl_text(e.decl, e.struct_name, e.init_subst),
{
    assert(es.push(e).drop_last() =~= es);
    assert(es.push(e).last() == e);
}

/// Expand a declaration list: the processed records and the emitted text
/// (see `spec_expand` and `emit_all`).
pub fn expand(input: &str) -> (r: Result<(Vec<Expanded>, String), Error>)
    ensures
        match r {
            Ok(p) => spec_expand(input@) == Ok::<Seq<ExpandedV>, Error>(expanded_views(p.0@))
                && p.1@ == emit_all(expanded_views(p.0@)),
            Err(e) => spec_expand(input@) == Err::<Seq<ExpandedV>, Error>(e),
        },
{
    broadcast use {lemma_decl_views_len, lemma_decl_views_index};

    let toks = match tokenize(input) {
        Err(e) => {
            return Err(e);
        },
        Ok(t) => t,
    };
    let decls = match parse_declarations(&toks) {
        Err(e) => {
            return Err(e);
        },
        Ok(d) => d,
    };
    let ghost dsv = decl_views(decls@);
    let n: usize = decls.len();
    let mut dict: Vec<DictEntry> = Vec::new();
    let mut out: Vec<Expanded> = Vec::new();
    let mut text = String::new();
    let mut i: usize = 0;
    proof {
        assert(dsv.skip(0) =~= dsv);
        assert(dict_views(dict@) =~= Seq::<DictEntryV>::empty());
        if spec_process(dsv, Seq::empty()) is Ok {
            assert(expanded_views(out@) + spec_process(dsv, Seq::empty())->Ok_0
                =~= spec_process(dsv, Seq::empty())->Ok_0);
        }
    }
    while i < n
        invariant
            i <= n,
            n == decls.len(),
            dsv == decl_views(decls@),
            text@ == emit_all(expanded_views(out@)),
            spec_expand(input@) == spec_process(dsv, Seq::<DictEntryV>::empty()),
            spec_process(dsv, Seq::<DictEntryV>::empty()) == match spec_process(
                dsv.skip(i as int),
                dict_views(dict@),
            ) {
                Ok(rest) => Ok::<Seq<ExpandedV>, Error>(expanded_views(out@) + rest),
                Err(e) => Err::<Seq<ExpandedV>, Error>(e),
            },
        decreases n - i,
    {
        proof {
            lemma_decl_views_len(decls@);
            lemma_decl_views_index(decls@, i as int);
            assert(dsv.skip(i as int)[0] == dsv[i as int]);
            assert(dsv.skip(i as int).skip(1) =~= dsv.skip(i + 1 as int));
        }
        let d = &decls[i];
        match dict_lookup(&dict, &d.name) {
            Some(_) => {
                return Err(Error::DuplicateName);
            },
            None => {
            },
        }
        if !check_tags_distinct(&d.variants) {
            return Err(Error::DuplicateTag);
        }
        match check_decl(d) {
            Some(e) => {
                return Err(e);
            },
            None => {
            },
        }
        let init_subst = substitute(&d.init, &dict);
        let sn = derive_struct_name(&d.name);
        emit_decl(&mut text, d, &sn, &init_subst);
        let ghost old_out = out@;
        let ghost old_dictv = dict_views(dict@);
        let ev = Expanded { decl: d.duplicate_decl(), struct_name: sn, init_subst };
        let ghost evv = ev@;
        out.push(ev);
        proof {
            lemma_expanded_views_push(old_out, out@.last());
            lemma_emit_all_push(expanded_views(old_out), evv);
        }
        let mut stored: Vec<Token> = Vec::new();
        stored.push(Token { kind: TokenKind::Punct, text: String::from_str("(") });
        proof {
            crate::token::lemma_token_views_push(Seq::<Token>::empty(), stored@.last());
            assert(token_views(stored@) =~= seq![TokenV { kind: TokenKind::Punct, text: "("@ }]);
        }
        append_tokens(&mut stored, &decls[i].init);
        let ghost midv = stored@;
        stored.push(Token { kind: TokenKind::Punct, text: String::from_str(")") });
        proof {
            crate::token::lemma_token_views_push(midv, stored@.last());
            assert(token_views(stored@) == token_views(midv).push(
                TokenV { kind: TokenKind::Punct, text: ")"@ },
            ));
            assert(token_views(stored@) =~= stored_entry(dsv[i as int]).toks);
        }
        let ghost old_dict = dict@;
        dict.push(DictEntry { name: decls[i].name.clone(), toks: stored });
        proof {
            lemma_dict_views_push(old_dict, dict@.last());
            assert(dict_views(dict@) =~= old_dictv.push(stored_entry(dsv[i as int])));
            if spec_process(dsv.skip(i + 1 as int), dict_views(dict@)) is Ok {
                let rest = spec_process(dsv.skip(i + 1 as int), dict_views(dict@))->Ok_0;
                assert(expanded_views(old_out) + (seq![evv] + rest) =~= expanded_views(out@)
                    + rest);
            }
        }
        i += 1;
    }
    proof {
        assert(dsv.skip(n as int) =~= Seq::<DeclV>::empty());
        assert(expanded_views(out@) + Seq::<ExpandedV>::empty() =~= expanded_views(out@));
    }
    Ok((out, text))
}

/// Expand a declaration list to its emitted source text: the whole
/// generator as one call (see `spec_expand` and `emit_all`).
pub fn polymorphic_constant(input: &str) -> (r: Result<String, Error>)
    ensures
        match r {
            Ok(out) => spec_expand(input@) is Ok && out@ == emit_all(spec_expand(input@)->Ok_0),
            Err(e) => spec_expand(input@) == Err::<Seq<ExpandedV>, Error>(e),
        },
{
    match expand(input) {
        Ok(p) => Ok(p.1),
        Err(e) => Err(e),
    }
}

} // verus!
