//! The cross-reference substitution engine.
//!
//! The driver keeps a dictionary from each already-declared constant's name
//! to that constant's original initializer wrapped in parentheses. Rewriting
//! an initializer replaces every identifier token bound in the dictionary by
//! the stored token sequence and leaves every other token unchanged.

use vstd::prelude::*;

verus! {

use crate::token::{Token, TokenV, TokenKind, token_views};
use crate::token::{
    lemma_token_views_len,
    lemma_token_views_index,
    lemma_token_views_push,
    duplicate_tokens,
};

broadcast use {lemma_token_views_len, lemma_token_views_index};

/// One dictionary binding: a constant's name and its stored (parenthesized)
/// initializer tokens.
#[derive(Debug)]
pub struct DictEntry {
    pub name: String,
    pub toks: Vec<Token>,
}

/// The mathematical content of a `DictEntry`.
pub struct DictEntryV {
    pub name: Seq<char>,
    pub toks: Seq<TokenV>,
}

impl View for DictEntry {
    type V = DictEntryV;

    open spec fn view(&self) -> DictEntryV {
        DictEntryV { name: self.name@, toks: token_views(self.toks@) }
    }
}

/// The views of a dictionary, in insertion order.
pub open spec fn dict_views(d: Seq<DictEntry>) -> Seq<DictEntryV>
    decreases d.len(),
{
    if d.len() == 0 {
        Seq::empty()
    } else {
        dict_views(d.drop_last()).push(d.last()@)
    }
}

pub broadcast proof fn lemma_dict_views_len(d: Seq<DictEntry>)
    ensures
        #[trigger] dict_views(d).len() == d.len(),
    decreases d.len(),
{
    if d.len() > 0 {
        lemma_dict_views_len(d.drop_last());
    }
}

pub broadcast proof fn lemma_dict_views_index(d: Seq<DictEntry>, i: int)
    requires
        0 <= i < d.len(),
    ensures
        #[trigger] dict_views(d)[i] == d[i]@,
    decreases d.len(),
{
    lemma_dict_views_len(d);
    if i < d.len() - 1 {
        lemma_dict_views_index(d.drop_last(), i);
        lemma_dict_views_len(d.drop_last());
    }
}

pub proof fn lemma_dict_views_push(d: Seq<DictEntry>, e: DictEntry)
    ensures
        dict_views(d.push(e)) == dict_views(d).push(e@),
{
    assert(d.push(e).drop_last() =~= d);
    assert(d.push(e).last() == e);
}

/// The binding of `k`, if any: the earliest entry with that name.
pub open spec fn dict_get(d: Seq<DictEntryV>, k: Seq<char>) -> Option<Seq<TokenV>>
    decreases d.len(),
{
    if d.len() == 0 {
        None
    } else if d[0].name == k {
        Some(d[0].toks)
    } else {
        dict_get(d.skip(1), k)
    }
}

/// Exec lookup (see `dict_get`): a copy of the stored tokens.
pub fn dict_lookup(d: &Vec<DictEntry>, k: &String) -> (r: Option<Vec<Token>>)
    ensures
        match r {
            Some(v) => dict_get(dict_views(d@), k@) == Some(token_views(v@)),
            None => dict_get(dict_views(d@), k@) is None,
        },
{
    broadcast use {lemma_dict_views_len, lemma_dict_views_index};

    let ghost dv = dict_views(d@);
    let n: usize = d.len();
    let mut j: usize = 0;
    proof {
        lemma_dict_views_len(d@);
        assert(dv.skip(0) =~= dv);
    }
    while j < n
        invariant
            j <= n,
            n == d.len(),
            dv == dict_views(d@),
            dv.len() == n,
            dict_get(dv, k@) == dict_get(dv.skip(j as int), k@),
        decreases n - j,
    {
        proof {
            lemma_dict_views_index(d@, j as int);
            assert(dv.skip(j as int)[0] == dv[j as int]);
            assert(dv.skip(j as int).skip(1) =~= dv.skip(j + 1 as int));
        }
        if d[j].name == *k {
            return Some(duplicate_tokens(&d[j].toks));
        }
        j += 1;
    }
    proof {
        assert(dv.skip(n as int) =~= Seq::<DictEntryV>::empty());
    }
    None
}

/// True when `k` is bound in the dictionary.
pub open spec fn dict_has(d: Seq<DictEntryV>, k: Seq<char>) -> bool {
    dict_get(d, k) is Some
}

/// What one token is rewritten to: an identifier bound in the dictionary
/// becomes the stored token sequence, every other token stays itself.
pub open spec fn repl(t: TokenV, d: Seq<DictEntryV>) -> Seq<TokenV> {
    if t.kind == TokenKind::Ident {
        match dict_get(d, t.text) {
            Some(e) => e,
            None => seq![t],
        }
    } else {
        seq![t]
    }
}

/// The rewritten token sequence: each token replaced by `repl`, in order.
pub open spec fn spec_subst(ts: Seq<TokenV>, d: Seq<DictEntryV>) -> Seq<TokenV>
    decreases ts.len(),
{
    if ts.len() == 0 {
        Seq::empty()
    } else {
        spec_subst(ts.drop_last(), d) + repl(ts.last(), d)
    }
}

/// Appending one token appends its replacement.
pub proof fn lemma_spec_subst_push(ts: Seq<TokenV>, t: TokenV, d: Seq<DictEntryV>)
    ensures
        spec_subst(ts.push(t), d) == spec_subst(ts, d) + repl(t, d),
{
    assert(ts.push(t).drop_last() =~= ts);
    assert(ts.push(t).last() == t);
}

/// Append copies of all of `src` to `dst`.
pub fn append_tokens(dst: &mut Vec<Token>, src: &Vec<Token>)
    ensures
        token_views(final (dst)@) == token_views(old(dst)@) + token_views(src@),
{
    let ghost base = token_views(old(dst)@);
    let ghost srcv = token_views(src@);
    let n: usize = src.len();
    let mut k: usize = 0;
    while k < n
        invariant
            k <= n,
            n == src.len(),
            srcv == token_views(src@),
            token_views(dst@) == base + srcv.subrange(0, k as int),
        decreases n - k,
    {
        let ghost oldv = dst@;
        let x = src[k].duplicate();
        let ghost xv = x@;
        proof {
            lemma_token_views_index(src@, k as int);
            assert(xv == srcv[k as int]);
        }
        dst.push(x);
        proof {
            lemma_token_views_push(oldv, dst@.last());
            assert(token_views(dst@) =~= base + srcv.subrange(0, k + 1 as int));
        }
        k += 1;
    }
    proof {
        assert(srcv.subrange(0, n as int) =~= srcv);
    }
}

/// Rewrite `ts` under dictionary `d` (see `spec_subst`).
pub fn substitute(ts: &Vec<Token>, d: &Vec<DictEntry>) -> (r: Vec<Token>)
    ensures
        token_views(r@) == spec_subst(token_views(ts@), dict_views(d@)),
{
    let ghost tsv = token_views(ts@);
    let ghost dv = dict_views(d@);
    let n: usize = ts.len();
    let mut out: Vec<Token> = Vec::new();
    let mut i: usize = 0;
    proof {
        assert(tsv.take(0) =~= Seq::<TokenV>::empty());
    }
    while i < n
        invariant
            i <= n,
            n == ts.len(),
            tsv == token_views(ts@),
            dv == dict_views(d@),
            token_views(out@) == spec_subst(tsv.take(i as int), dv),
        decreases n - i,
    {
        proof {
            lemma_spec_subst_push(tsv.take(i as int), tsv[i as int], dv);
            assert(tsv.take(i + 1 as int) =~= tsv.take(i as int).push(tsv[i as int]));
        }
        let replaced: bool;
        match ts[i].kind {
            TokenKind::Ident => {
                match dict_lookup(d, &ts[i].text) {
                    Some(stored) => {
                        append_tokens(&mut out, &stored);
                        replaced = true;
                    },
                    None => {
                        replaced = false;
                    },
                }
            },
            _ => {
                replaced = false;
            },
        }
        if !replaced {
            let ghost oldv = out@;
            out.push(ts[i].duplicate());
            proof {
                lemma_token_views_push(oldv, out@.last());
                assert(token_views(out@) =~= token_views(oldv) + seq![tsv[i as int]]);
            }
        }
        i += 1;
    }
    proof {
        assert(tsv.take(n as int) =~= tsv);
    }
    out
}

} // verus!
