//! The declaration grammar and its parser.
//!
//! A declaration list is `(Decl ';')*` with a tolerated final declaration
//! not followed by `';'`; a declaration is
//! `Attr* Visibility? 'const' Name ':' Tag ('|' Tag)* '=' Expr`.
//! Each type tag resolves to a target type and a construction strategy: the
//! twelve `nz_*` tags map to the non-zero wrappers of `::core::num` and are
//! built by checked construction; every other tag is used verbatim as a type
//! name and filled by a cast. `spec_parse_list` defines the parse of a token
//! stream; `parse_declarations` computes it.

use vstd::prelude::*;

verus! {

use vstd::string::StringExecFns;
use crate::token::{Token, TokenV, TokenKind, token_views};
use crate::token::{lemma_token_views_len, lemma_token_views_index, lemma_token_views_push};
use crate::Error;

broadcast use {lemma_token_views_len, lemma_token_views_index};

/// How a variant's field of the container is initialized.
#[derive(Clone, Copy, PartialEq, Eq, Structural, Debug)]
pub enum Strategy {
    /// A plain numeric cast of the initializer to the target type.
    DirectCast,
    /// Checked construction of a non-zero wrapper from the initializer.
    NonZeroWrap,
}

/// One requested representation of a constant.
#[derive(Debug)]
pub struct Variant {
    /// The type tag as written (also the field name of the container).
    pub tag: String,
    /// The target type's text in the emitted code.
    pub ty_text: String,
    /// How the field is initialized.
    pub strategy: Strategy,
}

/// The mathematical content of a `Variant`.
pub struct VariantV {
    pub tag: Seq<char>,
    pub ty_text: Seq<char>,
    pub strategy: Strategy,
}

impl View for Variant {
    type V = VariantV;

    open spec fn view(&self) -> VariantV {
        VariantV { tag: self.tag@, ty_text: self.ty_text@, strategy: self.strategy }
    }
}

/// The views of a sequence of variants, in order.
pub open spec fn variant_views(vs: Seq<Variant>) -> Seq<VariantV>
    decreases vs.len(),
{
    if vs.len() == 0 {
        Seq::empty()
    } else {
        variant_views(vs.drop_last()).push(vs.last()@)
    }
}

pub broadcast proof fn lemma_variant_views_len(vs: Seq<Variant>)
    ensures
        #[trigger] variant_views(vs).len() == vs.len(),
    decreases vs.len(),
{
    if vs.len() > 0 {
        lemma_variant_views_len(vs.drop_last());
    }
}

pub broadcast proof fn lemma_variant_views_index(vs: Seq<Variant>, i: int)
    requires
        0 <= i < vs.len(),
    ensures
        #[trigger] variant_views(vs)[i] == vs[i]@,
    decreases vs.len(),
{
    lemma_variant_views_len(vs);
    if i < vs.len() - 1 {
        lemma_variant_views_index(vs.drop_last(), i);
        lemma_variant_views_len(vs.drop_last());
    }
}

pub proof fn lemma_variant_views_push(vs: Seq<Variant>, v: Variant)
    ensures
        variant_views(vs.push(v)) == variant_views(vs).push(v@),
{
    assert(vs.push(v).drop_last() =~= vs);
    assert(vs.push(v).last() == v);
}

/// One parsed constant declaration.
#[derive(Debug)]
pub struct Decl {
    /// The attribute tokens, verbatim (`#`, `[`, contents, `]`, repeated).
    pub attrs: Vec<Token>,
    /// The visibility tokens, verbatim (empty, `pub`, or `pub ( path )`).
    pub vis: Vec<Token>,
    /// The constant's name.
    pub name: String,
    /// The requested representations, in declaration order.
    pub variants: Vec<Variant>,
    /// The initializer expression tokens, verbatim.
    pub init: Vec<Token>,
}

/// The mathematical content of a `Decl`.
pub struct DeclV {
    pub attrs: Seq<TokenV>,
    pub vis: Seq<TokenV>,
    pub name: Seq<char>,
    pub variants: Seq<VariantV>,
    pub init: Seq<TokenV>,
}

impl View for Decl {
    type V = DeclV;

    open spec fn view(&self) -> DeclV {
        DeclV {
            attrs: token_views(self.attrs@),
            vis: token_views(self.vis@),
            name: self.name@,
            variants: variant_views(self.variants@),
            init: token_views(self.init@),
        }
    }
}

/// The views of a sequence of declarations, in order.
pub open spec fn decl_views(ds: Seq<Decl>) -> Seq<DeclV>
    decreases ds.len(),
{
    if ds.len() == 0 {
        Seq::empty()
    } else {
        decl_views(ds.drop_last()).push(ds.last()@)
    }
}

pub broadcast proof fn lemma_decl_views_len(ds: Seq<Decl>)
    ensures
        #[trigger] decl_views(ds).len() == ds.len(),
    decreases ds.len(),
{
    if ds.len() > 0 {
        lemma_decl_views_len(ds.drop_last());
    }
}

pub broadcast proof fn lemma_decl_views_index(ds: Seq<Decl>, i: int)
    requires
        0 <= i < ds.len(),
    ensures
        #[trigger] decl_views(ds)[i] == ds[i]@,
    decreases ds.len(),
{
    lemma_decl_views_len(ds);
    if i < ds.len() - 1 {
        lemma_decl_views_index(ds.drop_last(), i);
        lemma_decl_views_len(ds.drop_last());
    }
}

pub proof fn lemma_decl_views_push(ds: Seq<Decl>, d: Decl)
    ensures
        decl_views(ds.push(d)) == decl_views(ds).push(d@),
{
    assert(ds.push(d).drop_last() =~= ds);
    assert(ds.push(d).last() == d);
}

/// The target type text and construction strategy of a type tag: the twelve
/// `nz_*` tags map to the non-zero wrappers, every other tag is itself the
/// type name and is filled by a cast.
pub open spec fn resolve_tag(tag: Seq<char>) -> (Seq<char>, Strategy) {
    if tag == "nz_i8"@ {
        ("::core::num::NonZeroI8"@, Strategy::NonZeroWrap)
    } else if tag == "nz_i16"@ {
        ("::core::num::NonZeroI16"@, Strategy::NonZeroWrap)
    } else if tag == "nz_i32"@ {
        ("::core::num::NonZeroI32"@, Strategy::NonZeroWrap)
    } else if tag == "nz_i64"@ {
        ("::core::num::NonZeroI64"@, Strategy::NonZeroWrap)
    } else if tag == "nz_i128"@ {
        ("::core::num::NonZeroI128"@, Strategy::NonZeroWrap)
    } else if tag == "nz_isize"@ {
        ("::core::num::NonZeroIsize"@, Strategy::NonZeroWrap)
    } else if tag == "nz_u8"@ {
        ("::core::num::NonZeroU8"@, Strategy::NonZeroWrap)
    } else if tag == "nz_u16"@ {
        ("::core::num::NonZeroU16"@, Strategy::NonZeroWrap)
    } else if tag == "nz_u32"@ {
        ("::core::num::NonZeroU32"@, Strategy::NonZeroWrap)
    } else if tag == "nz_u64"@ {
        ("::core::num::NonZeroU64"@, Strategy::NonZeroWrap)
    } else if tag == "nz_u128"@ {
        ("::core::num::NonZeroU128"@, Strategy::NonZeroWrap)
    } else if tag == "nz_usize"@ {
        ("::core::num::NonZeroUsize"@, Strategy::NonZeroWrap)
    } else {
        (tag, Strategy::DirectCast)
    }
}

/// The variant a tag denotes.
pub open spec fn variant_of_tag(tag: Seq<char>) -> VariantV {
    VariantV { tag: tag, ty_text: resolve_tag(tag).0, strategy: resolve_tag(tag).1 }
}

/// Exec resolution of one tag (see `resolve_tag`).
pub fn resolve(tag: &String) -> (r: (String, Strategy))
    ensures
        (r.0@, r.1) == resolve_tag(tag@),
{
    if *tag == String::from_str("nz_i8") {
        (String::from_str("::core::num::NonZeroI8"), Strategy::NonZeroWrap)
    } else if *tag == String::from_str("nz_i16") {
        (String::from_str("::core::num::NonZeroI16"), Strategy::NonZeroWrap)
    } else if *tag == String::from_str("nz_i32") {
        (String::from_str("::core::num::NonZeroI32"), Strategy::NonZeroWrap)
    } else if *tag == String::from_str("nz_i64") {
        (String::from_str("::core::num::NonZeroI64"), Strategy::NonZeroWrap)
    } else if *tag == String::from_str("nz_i128") {
        (String::from_str("::core::num::NonZeroI128"), Strategy::NonZeroWrap)
    } else if *tag == String::from_str("nz_isize") {
        (String::from_str("::core::num::NonZeroIsize"), Strategy::NonZeroWrap)
    } else if *tag == String::from_str("nz_u8") {
        (String::from_str("::core::num::NonZeroU8"), Strategy::NonZeroWrap)
    } else if *tag == String::from_str("nz_u16") {
        (String::from_str("::core::num::NonZeroU16"), Strategy::NonZeroWrap)
    } else if *tag == String::from_str("nz_u32") {
        (String::from_str("::core::num::NonZeroU32"), Strategy::NonZeroWrap)
    } else if *tag == String::from_str("nz_u64") {
        (String::from_str("::core::num::NonZeroU64"), Strategy::NonZeroWrap)
    } else if *tag == String::from_str("nz_u128") {
        (String::from_str("::core::num::NonZeroU128"), Strategy::NonZeroWrap)
    } else if *tag == String::from_str("nz_usize") {
        (String::from_str("::core::num::NonZeroUsize"), Strategy::NonZeroWrap)
    } else {
        (tag.clone(), Strategy::DirectCast)
    }
}

/// True when `t` is the punctuation character `c`.
pub open spec fn tv_is_punct(t: TokenV, c: char) -> bool {
    t.kind == TokenKind::Punct && t.text == seq![c]
}

/// True when `t` is the identifier with text `s`.
pub open spec fn tv_is_kw(t: TokenV, s: Seq<char>) -> bool {
    t.kind == TokenKind::Ident && t.text == s
}

/// `j` clipped to the length of `ts`.
pub open spec fn clipt(ts: Seq<TokenV>, j: int) -> int {
    if j > ts.len() {
        ts.len() as int
    } else {
        j
    }
}

/// Offset from `j` of the first occurrence of punctuation `c`, if any.
pub open spec fn find_punct(ts: Seq<TokenV>, j: int, c: char) -> Option<nat>
    decreases ts.len() - j,
{
    if j < 0 || j >= ts.len() {
        None
    } else if tv_is_punct(ts[j], c) {
        Some(0)
    } else {
        match find_punct(ts, j + 1, c) {
            Some(off) => Some(off + 1),
            None => None,
        }
    }
}

/// Number of tokens of the attribute section at `i`: zero or more
/// `# [ ... ]` groups, a group's contents running to the first `]`.
pub open spec fn spec_parse_attrs(ts: Seq<TokenV>, i: int) -> Option<nat>
    decreases ts.len() - i,
{
    if i < 0 || i >= ts.len() || !tv_is_punct(ts[i], '#') {
        Some(0)
    } else if i + 1 < ts.len() && tv_is_punct(ts[i + 1], '[') {
        match find_punct(ts, i + 2, ']') {
            None => None,
            Some(off) => match spec_parse_attrs(ts, clipt(ts, i + 3 + off)) {
                None => None,
                Some(n) => Some(off + 3 + n),
            },
        }
    } else {
        None
    }
}

/// Number of tokens of the visibility section at `i`: nothing, `pub`, or
/// `pub ( ... )` with the parenthesized path running to the first `)`.
pub open spec fn spec_parse_vis(ts: Seq<TokenV>, i: int) -> Option<nat> {
    if i < 0 || i >= ts.len() || !tv_is_kw(ts[i], "pub"@) {
        Some(0)
    } else if i + 1 < ts.len() && tv_is_punct(ts[i + 1], '(') {
        match find_punct(ts, i + 2, ')') {
            None => None,
            Some(off) => Some(off + 3),
        }
    } else {
        Some(1)
    }
}

/// The variant list at `i`: one tag, or a tag, `|`, and a variant list.
pub open spec fn spec_parse_variants(ts: Seq<TokenV>, i: int) -> Option<(Seq<VariantV>, nat)>
    decreases ts.len() - i,
{
    if 0 <= i && i < ts.len() && ts[i].kind == TokenKind::Ident {
        let v = variant_of_tag(ts[i].text);
        if i + 1 < ts.len() && tv_is_punct(ts[i + 1], '|') {
            match spec_parse_variants(ts, i + 2) {
                None => None,
                Some((vs, n)) => Some((seq![v] + vs, 2 + n)),
            }
        } else {
            Some((seq![v], 1))
        }
    } else {
        None
    }
}

/// Number of initializer tokens at `i`, at grouping depth `depth`: the
/// initializer runs to the first `;` outside every group or to the end of
/// the input; a closing delimiter at depth zero is an error. Grouping is
/// tracked by count, not by delimiter shape.
pub open spec fn spec_scan_init(ts: Seq<TokenV>, i: int, depth: int) -> Option<nat>
    decreases ts.len() - i,
{
    if i < 0 || i >= ts.len() {
        Some(0)
    } else if depth == 0 && tv_is_punct(ts[i], ';') {
        Some(0)
    } else if tv_is_punct(ts[i], '(') || tv_is_punct(ts[i], '[') || tv_is_punct(ts[i], '{') {
        match spec_scan_init(ts, i + 1, depth + 1) {
            None => None,
            Some(n) => Some(1 + n),
        }
    } else if tv_is_punct(ts[i], ')') || tv_is_punct(ts[i], ']') || tv_is_punct(ts[i], '}') {
        if depth == 0 {
            None
        } else {
            match spec_scan_init(ts, i + 1, depth - 1) {
                None => None,
                Some(n) => Some(1 + n),
            }
        }
    } else {
        match spec_scan_init(ts, i + 1, depth) {
            None => None,
            Some(n) => Some(1 + n),
        }
    }
}

/// The declaration at `i` and the number of tokens it spans.
pub open spec fn spec_parse_decl(ts: Seq<TokenV>, i: int) -> Option<(DeclV, nat)> {
    match spec_parse_attrs(ts, i) {
        None => None,
        Some(na) => {
            let a = i + na;
            match spec_parse_vis(ts, a) {
                None => None,
                Some(nv) => {
                    let p = a + nv;
                    if p < ts.len() && tv_is_kw(ts[p], "const"@) && p + 1 < ts.len() && ts[p
                        + 1].kind == TokenKind::Ident && p + 2 < ts.len() && tv_is_punct(
                        ts[p + 2],
                        ':',
                    ) {
                        match spec_parse_variants(ts, p + 3) {
                            None => None,
                            Some((vars, nva)) => {
                                let q = p + 3 + nva;
                                if q < ts.len() && tv_is_punct(ts[q], '=') {
                                    match spec_scan_init(ts, q + 1, 0) {
                                        None => None,
                                        Some(ni) => if ni == 0 {
                                            None
                                        } else {
                                            Some(
                                                (
                                                    DeclV {
                                                        attrs: ts.subrange(i, a),
                                                        vis: ts.subrange(a, p as int),
                                                        name: ts[p + 1].text,
                                                        variants: vars,
                                                        init: ts.subrange(
                                                            q + 1,
                                                            clipt(ts, q + 1 + ni),
                                                        ),
                                                    },
                                                    (q + 1 + ni - i) as nat,
                                                ),
                                            )
                                        },
                                    }
                                } else {
                                    None
                                }
                            },
                        }
                    } else {
                        None
                    }
                },
            }
        },
    }
}

/// The declaration list at `i`: declarations separated by `;`, a trailing
/// `;` tolerated, the final `;` optional, empty input an empty list.
pub open spec fn spec_parse_list(ts: Seq<TokenV>, i: int) -> Option<Seq<DeclV>>
    decreases ts.len() - i,
{
    if i < 0 || i >= ts.len() {
        Some(Seq::empty())
    } else {
        match spec_parse_decl(ts, i) {
            None => None,
            Some((d, n)) => {
                let step = if n < 1 {
                    1int
                } else {
                    n as int
                };
                let j = i + step;
                if j < ts.len() && tv_is_punct(ts[j], ';') {
                    match spec_parse_list(ts, clipt(ts, j + 1)) {
                        None => None,
                        Some(rest) => Some(seq![d] + rest),
                    }
                } else if j >= ts.len() {
                    Some(seq![d])
                } else {
                    None
                }
            },
        }
    }
}

/// Copy the tokens of positions `a..b`.
pub fn copy_range(ts: &Vec<Token>, a: usize, b: usize) -> (r: Vec<Token>)
    requires
        a <= b <= ts.len(),
    ensures
        token_views(r@) == token_views(ts@).subrange(a as int, b as int),
        r.len() == b - a,
{
    let mut out: Vec<Token> = Vec::new();
    let mut i: usize = a;
    while i < b
        invariant
            a <= i <= b <= ts.len(),
            out.len() == i - a,
            token_views(out@) == token_views(ts@).subrange(a as int, i as int),
        decreases b - i,
    {
        let ghost oldv = out@;
        out.push(ts[i].duplicate());
        proof {
            lemma_token_views_push(oldv, out@.last());
            assert(token_views(out@) =~= token_views(ts@).subrange(a as int, i + 1 as int));
        }
        i += 1;
    }
    out
}

/// Exec search for punctuation `c` from position `from` (see `find_punct`).
fn find_punct_from(ts: &Vec<Token>, from: usize, c: char) -> (r: Option<usize>)
    requires
        from <= ts.len(),
    ensures
        match r {
            // the returned offset points at the occurrence
            Some(off) => from + off < ts.len() && find_punct(token_views(ts@), from as int, c)
                == Some(off as nat),
            None => find_punct(token_views(ts@), from as int, c) is None,
        },
{
    let ghost tsv = token_views(ts@);
    let n: usize = ts.len();
    let mut j: usize = from;
    while j < n
        invariant
            from <= j <= n,
            n == ts.len(),
            tsv == token_views(ts@),
            find_punct(tsv, from as int, c) == match find_punct(tsv, j as int, c) {
                Some(off) => Some((off + j - from) as nat),
                None => None::<nat>,
            },
        decreases n - j,
    {
        if ts[j].is_punct(c) {
            return Some(j - from);
        }
        assert(!tv_is_punct(tsv[j as int], c));
        j += 1;
    }
    None
}

/// Exec scan of the attribute section (see `spec_parse_attrs`).
fn parse_attrs_len(ts: &Vec<Token>, i: usize) -> (r: Option<usize>)
    requires
        i <= ts.len(),
    ensures
        match r {
            Some(n) => i + n <= ts.len() && spec_parse_attrs(token_views(ts@), i as int) == Some(
                n as nat,
            ),
            None => spec_parse_attrs(token_views(ts@), i as int) is None,
        },
    decreases ts.len() - i,
{
    let ghost tsv = token_views(ts@);
    if i < ts.len() && ts[i].is_punct('#') {
        if i + 1 < ts.len() && ts[i + 1].is_punct('[') {
            match find_punct_from(ts, i + 2, ']') {
                None => None,
                Some(off) => {
                    let next: usize = i + 3 + off;
                    proof {
                        assert(clipt(tsv, i + 3 + off) == next as int);
                    }
                    match parse_attrs_len(ts, next) {
                        None => None,
                        Some(n) => Some(off + 3 + n),
                    }
                },
            }
        } else {
            None
        }
    } else {
        Some(0)
    }
}

/// Exec scan of the visibility section (see `spec_parse_vis`).
fn parse_vis_len(ts: &Vec<Token>, i: usize) -> (r: Option<usize>)
    requires
        i <= ts.len(),
    ensures
        match r {
            Some(n) => i + n <= ts.len() && spec_parse_vis(token_views(ts@), i as int) == Some(
                n as nat,
            ),
            None => spec_parse_vis(token_views(ts@), i as int) is None,
        },
{
    if i < ts.len() && ts[i].is_ident_named("pub") {
        if i + 1 < ts.len() && ts[i + 1].is_punct('(') {
            match find_punct_from(ts, i + 2, ')') {
                None => None,
                Some(off) => Some(off + 3),
            }
        } else {
            Some(1)
        }
    } else {
        Some(0)
    }
}

/// Exec parse of the variant list (see `spec_parse_variants`).
fn parse_variants(ts: &Vec<Token>, i: usize) -> (r: Option<(Vec<Variant>, usize)>)
    requires
        i <= ts.len(),
    ensures
        match r {
            Some(p) => i + p.1 <= ts.len() && spec_parse_variants(token_views(ts@), i as int)
                == Some((variant_views(p.0@), p.1 as nat)),
            None => spec_parse_variants(token_views(ts@), i as int) is None,
        },
    decreases ts.len() - i,
{
    broadcast use {lemma_variant_views_len, lemma_variant_views_index};

    let ghost tsv = token_views(ts@);
    if i < ts.len() && matches!(ts[i].kind, TokenKind::Ident) {
        let (ty_text, strategy) = resolve(&ts[i].text);
        let v = Variant { tag: ts[i].text.clone(), ty_text, strategy };
        proof {
            assert(v@ == variant_of_tag(tsv[i as int].text));
        }
        if i + 1 < ts.len() && ts[i + 1].is_punct('|') {
            match parse_variants(ts, i + 2) {
                None => None,
                Some((rest, n)) => {
                    let ghost vv = v@;
                    let ghost restv = variant_views(rest@);
                    let mut out: Vec<Variant> = Vec::new();
                    out.push(v);
                    proof {
                        lemma_variant_views_push(Seq::<Variant>::empty(), out@.last());
                        assert(variant_views(out@) =~= seq![vv] + restv.subrange(0, 0));
                    }
                    let mut k: usize = 0;
                    while k < rest.len()
                        invariant
                            k <= rest.len(),
                            restv == variant_views(rest@),
                            out.len() == k + 1,
                            variant_views(out@) == seq![vv] + restv.subrange(0, k as int),
                        decreases rest.len() - k,
                    {
                        let ghost oldv = out@;
                        let x = rest[k].duplicate_variant();
                        let ghost xv = x@;
                        proof {
                            lemma_variant_views_index(rest@, k as int);
                            lemma_variant_views_len(rest@);
                            assert(xv == restv[k as int]);
                        }
                        out.push(x);
                        proof {
                            assert(out@ == oldv.push(out@.last()));
                            lemma_variant_views_push(oldv, out@.last());
                            assert(variant_views(out@) == variant_views(oldv).push(xv));
                            assert(variant_views(out@) =~= seq![vv] + restv.subrange(
                                0,
                                k + 1 as int,
                            ));
                        }
                        k += 1;
                    }
                    proof {
                        assert(restv.subrange(0, rest.len() as int) =~= restv);
                        assert(variant_views(out@) == seq![vv] + restv);
                    }
                    Some((out, n + 2))
                },
            }
        } else {
            let mut out: Vec<Variant> = Vec::new();
            let ghost vv = v@;
            out.push(v);
            proof {
                lemma_variant_views_push(Seq::<Variant>::empty(), out@.last());
                assert(variant_views(out@) =~= seq![vv]);
            }
            Some((out, 1))
        }
    } else {
        None
    }
}

impl Variant {
    /// An owned copy.
    pub fn duplicate_variant(&self) -> (r: Variant)
        ensures
            r@ == self@,
    {
        Variant {
            tag: self.tag.clone(),
            ty_text: self.ty_text.clone(),
            strategy: self.strategy,
        }
    }
}

/// An owned copy of a variant vector.
pub fn duplicate_variants(vs: &Vec<Variant>) -> (r: Vec<Variant>)
    ensures
        variant_views(r@) == variant_views(vs@),
{
    let mut out: Vec<Variant> = Vec::new();
    let mut i: usize = 0;
    while i < vs.len()
        invariant
            i <= vs.len(),
            variant_views(out@) == variant_views(vs@.take(i as int)),
        decreases vs.len() - i,
    {
        let ghost oldv = out@;
        let t = vs[i].duplicate_variant();
        proof {
            lemma_variant_views_push(oldv, t);
            lemma_variant_views_push(vs@.take(i as int), vs@[i as int]);
            assert(vs@.take(i + 1 as int) =~= vs@.take(i as int).push(vs@[i as int]));
        }
        out.push(t);
        i += 1;
    }
    proof {
        assert(vs@.take(vs.len() as int) =~= vs@);
    }
    out
}

impl Decl {
    /// An owned copy.
    pub fn duplicate_decl(&self) -> (r: Decl)
        ensures
            r@ == self@,
    {
        Decl {
            attrs: crate::token::duplicate_tokens(&self.attrs),
            vis: crate::token::duplicate_tokens(&self.vis),
            name: self.name.clone(),
            variants: duplicate_variants(&self.variants),
            init: crate::token::duplicate_tokens(&self.init),
        }
    }
}

/// Exec scan of an initializer (see `spec_scan_init`).
fn scan_init(ts: &Vec<Token>, i: usize, depth: usize) -> (r: Option<usize>)
    requires
        i <= ts.len(),
        depth <= i,
    ensures
        match r {
            Some(n) => i + n <= ts.len() && spec_scan_init(token_views(ts@), i as int, depth as int)
                == Some(n as nat),
            None => spec_scan_init(token_views(ts@), i as int, depth as int) is None,
        },
    decreases ts.len() - i,
{
    if i >= ts.len() {
        Some(0)
    } else if depth == 0 && ts[i].is_punct(';') {
        Some(0)
    } else if ts[i].is_punct('(') || ts[i].is_punct('[') || ts[i].is_punct('{') {
        match scan_init(ts, i + 1, depth + 1) {
            None => None,
            Some(n) => Some(1 + n),
        }
    } else if ts[i].is_punct(')') || ts[i].is_punct(']') || ts[i].is_punct('}') {
        if depth == 0 {
            None
        } else {
            match scan_init(ts, i + 1, depth - 1) {
                None => None,
                Some(n) => Some(1 + n),
            }
        }
    } else {
        match scan_init(ts, i + 1, depth) {
            None => None,
            Some(n) => Some(1 + n),
        }
    }
}

/// Exec parse of one declaration (see `spec_parse_decl`).
fn parse_decl(ts: &Vec<Token>, i: usize) -> (r: Option<(Decl, usize)>)
    requires
        i <= ts.len(),
    ensures
        match r {
            Some(p) => {
                &&& 1 <= p.1
                &&& i + p.1 <= ts.len()
                &&& spec_parse_decl(token_views(ts@), i as int) == Some((p.0@, p.1 as nat))
            },
            None => spec_parse_decl(token_views(ts@), i as int) is None,
        },
{
    let ghost tsv = token_views(ts@);
    let na = match parse_attrs_len(ts, i) {
        None => {
            return None;
        },
        Some(n) => n,
    };
    let a: usize = i + na;
    let nv = match parse_vis_len(ts, a) {
        None => {
            return None;
        },
        Some(n) => n,
    };
    let p: usize = a + nv;
    if !(p < ts.len() && ts[p].is_ident_named("const") && p + 1 < ts.len() && matches!(
        ts[p + 1].kind,
        TokenKind::Ident,
    ) && p + 2 < ts.len() && ts[p + 2].is_punct(':')) {
        return None;
    }
    let (vars, nva) = match parse_variants(ts, p + 3) {
        None => {
            return None;
        },
        Some(x) => x,
    };
    let q: usize = p + 3 + nva;
    if !(q < ts.len() && ts[q].is_punct('=')) {
        return None;
    }
    let ni = match scan_init(ts, q + 1, 0) {
        None => {
            return None;
        },
        Some(n) => n,
    };
    if ni == 0 {
        return None;
    }
    let d = Decl {
        attrs: copy_range(ts, i, a),
        vis: copy_range(ts, a, p),
        name: ts[p + 1].text.clone(),
        variants: vars,
        init: copy_range(ts, q + 1, q + 1 + ni),
    };
    proof {
        assert(clipt(tsv, q + 1 + ni) == q + 1 + ni);
        assert(d@.attrs == tsv.subrange(i as int, a as int));
        assert(d@.init == tsv.subrange(q + 1 as int, q + 1 + ni as int));
    }
    Some((d, q + 1 + ni - i))
}

/// Exec parse of a declaration list (see `spec_parse_list`); `Error::Syntax`
/// exactly on token streams that do not match the grammar.
pub fn parse_declarations(ts: &Vec<Token>) -> (r: Result<Vec<Decl>, Error>)
    ensures
        match r {
            Ok(ds) => spec_parse_list(token_views(ts@), 0) == Some(decl_views(ds@)),
            Err(e) => spec_parse_list(token_views(ts@), 0) is None && e == Error::Syntax,
        },
{
    broadcast use {lemma_decl_views_len, lemma_decl_views_index};

    let ghost tsv = token_views(ts@);
    let n: usize = ts.len();
    let mut out: Vec<Decl> = Vec::new();
    let mut i: usize = 0;
    proof {
        if spec_parse_list(tsv, 0) is Some {
            assert(decl_views(out@) + spec_parse_list(tsv, 0)->Some_0 =~= spec_parse_list(
                tsv,
                0,
            )->Some_0);
        }
    }
    loop
        invariant
            i <= n,
            n == ts.len(),
            tsv == token_views(ts@),
            spec_parse_list(tsv, 0) == match spec_parse_list(tsv, i as int) {
                Some(rest) => Some(decl_views(out@) + rest),
                None => None::<Seq<DeclV>>,
            },
        decreases n - i,
    {
        if i >= n {
            proof {
                assert(spec_parse_list(tsv, i as int) == Some(Seq::<DeclV>::empty()));
                assert(decl_views(out@) + Seq::<DeclV>::empty() =~= decl_views(out@));
            }
            return Ok(out);
        }
        match parse_decl(ts, i) {
            None => {
                return Err(Error::Syntax);
            },
            Some((d, nd)) => {
                let j: usize = i + nd;
                let ghost dv = d@;
                if j < n && ts[j].is_punct(';') {
                    let ghost oldv = out@;
                    out.push(d);
                    proof {
                        lemma_decl_views_push(oldv, out@.last());
                        assert(clipt(tsv, j + 1 as int) == j + 1);
                        if spec_parse_list(tsv, j + 1 as int) is Some {
                            let rest = spec_parse_list(tsv, j + 1 as int)->Some_0;
                            assert(decl_views(oldv) + (seq![dv] + rest) =~= decl_views(out@)
                                + rest);
                        }
                    }
                    i = j + 1;
                } else if j >= n {
                    let ghost oldv = out@;
                    out.push(d);
                    proof {
                        lemma_decl_views_push(oldv, out@.last());
                        assert(spec_parse_list(tsv, i as int) == Some(seq![dv]));
                        assert(decl_views(oldv) + seq![dv] =~= decl_views(out@));
                    }
                    return Ok(out);
                } else {
                    return Err(Error::Syntax);
                }
            },
        }
    }
}

} // verus!
