//! Tokens and the tokenizer.
//!
//! The generator works on a stream of tokens: identifiers, decimal number
//! literals (with optional fraction and exponent), and single-character
//! punctuation. Whitespace and `//` line comments separate tokens and are
//! dropped. `spec_tokenize` defines the token stream of a character
//! sequence; `tokenize` computes it.

use vstd::prelude::*;

verus! {

use vstd::string::StrSliceExecFns;
use vstd::string::StringExecFns;
use crate::digits::is_digit;
use crate::Error;

/// The syntactic class of a token.
#[derive(Clone, Copy, PartialEq, Eq, Structural, Debug)]
pub enum TokenKind {
    /// An identifier or keyword.
    Ident,
    /// A decimal number literal.
    Number,
    /// A single punctuation character.
    Punct,
}

/// One token: its class and its source text.
#[derive(Debug)]
pub struct Token {
    pub kind: TokenKind,
    pub text: String,
}

/// The mathematical content of a token.
pub struct TokenV {
    pub kind: TokenKind,
    pub text: Seq<char>,
}

impl View for Token {
    type V = TokenV;

    open spec fn view(&self) -> TokenV {
        TokenV { kind: self.kind, text: self.text@ }
    }
}

/// The views of a sequence of tokens, in order.
pub open spec fn token_views(ts: Seq<Token>) -> Seq<TokenV>
    decreases ts.len(),
{
    if ts.len() == 0 {
        Seq::empty()
    } else {
        token_views(ts.drop_last()).push(ts.last()@)
    }
}

pub broadcast proof fn lemma_token_views_len(ts: Seq<Token>)
    ensures
        #[trigger] token_views(ts).len() == ts.len(),
    decreases ts.len(),
{
    if ts.len() > 0 {
        lemma_token_views_len(ts.drop_last());
    }
}

pub broadcast proof fn lemma_token_views_index(ts: Seq<Token>, i: int)
    requires
        0 <= i < ts.len(),
    ensures
        #[trigger] token_views(ts)[i] == ts[i]@,
    decreases ts.len(),
{
    lemma_token_views_len(ts);
    if i < ts.len() - 1 {
        lemma_token_views_index(ts.drop_last(), i);
        lemma_token_views_len(ts.drop_last());
    }
}

/// Pushing a token pushes its view.
pub proof fn lemma_token_views_push(ts: Seq<Token>, t: Token)
    ensures
        token_views(ts.push(t)) == token_views(ts).push(t@),
{
    assert(ts.push(t).drop_last() =~= ts);
    assert(ts.push(t).last() == t);
}

/// True when `c` can start an identifier.
pub open spec fn is_ident_start(c: char) -> bool {
    (97 <= c as u32 && c as u32 <= 122) || (65 <= c as u32 && c as u32 <= 90) || c as u32 == 95
}

/// True when `c` can continue an identifier.
pub open spec fn is_ident_cont(c: char) -> bool {
    is_ident_start(c) || is_digit(c)
}

/// True when `c` is whitespace.
pub open spec fn is_ws(c: char) -> bool {
    c as u32 == 32 || c as u32 == 9 || c as u32 == 10 || c as u32 == 13
}

/// True when `c` stands alone as a punctuation token.
pub open spec fn is_punct_char(c: char) -> bool {
    c == '|' || c == '=' || c == ';' || c == ':' || c == '#' || c == '[' || c == ']' || c == '('
        || c == ')' || c == '{' || c == '}' || c == ',' || c == '.' || c == '+' || c == '-'
        || c == '*' || c == '/' || c == '%' || c == '&' || c == '!' || c == '<' || c == '>'
        || c == '^' || c == '~' || c == '?' || c == '@' || c == '$'
}

/// Exec test for `is_digit`.
pub fn digit_ch(c: char) -> (r: bool)
    ensures
        r == is_digit(c),
{
    let u: u32 = c as u32;
    48 <= u && u <= 57
}

/// Exec test for `is_ident_start`.
pub fn ident_start_ch(c: char) -> (r: bool)
    ensures
        r == is_ident_start(c),
{
    let u: u32 = c as u32;
    (97 <= u && u <= 122) || (65 <= u && u <= 90) || u == 95
}

/// Exec test for `is_ident_cont`.
pub fn ident_cont_ch(c: char) -> (r: bool)
    ensures
        r == is_ident_cont(c),
{
    ident_start_ch(c) || digit_ch(c)
}

/// Exec test for `is_ws`.
pub fn ws_ch(c: char) -> (r: bool)
    ensures
        r == is_ws(c),
{
    let u: u32 = c as u32;
    u == 32 || u == 9 || u == 10 || u == 13
}

/// Exec test for `is_punct_char`.
pub fn punct_ch(c: char) -> (r: bool)
    ensures
        r == is_punct_char(c),
{
    c == '|' || c == '=' || c == ';' || c == ':' || c == '#' || c == '[' || c == ']' || c == '('
        || c == ')' || c == '{' || c == '}' || c == ',' || c == '.' || c == '+' || c == '-' || c
        == '*' || c == '/' || c == '%' || c == '&' || c == '!' || c == '<' || c == '>' || c == '^'
        || c == '~' || c == '?' || c == '@' || c == '$'
}

/// Length of the run of decimal digits starting at `i`.
pub open spec fn digit_run(s: Seq<char>, i: int) -> nat
    decreases s.len() - i,
{
    if i < 0 || i >= s.len() || !is_digit(s[i]) {
        0
    } else {
        1 + digit_run(s, i + 1)
    }
}

/// Length of the run of identifier characters starting at `i`.
pub open spec fn ident_run(s: Seq<char>, i: int) -> nat
    decreases s.len() - i,
{
    if i < 0 || i >= s.len() || !is_ident_cont(s[i]) {
        0
    } else {
        1 + ident_run(s, i + 1)
    }
}

/// Length of the run of characters before the next line break starting at `i`.
pub open spec fn line_run(s: Seq<char>, i: int) -> nat
    decreases s.len() - i,
{
    if i < 0 || i >= s.len() || s[i] == '\n' {
        0
    } else {
        1 + line_run(s, i + 1)
    }
}

/// Length of a fractional part (dot and digits) at `j`, or 0 if none starts
/// there. A dot counts only when a digit follows it.
pub open spec fn frac_part_len(s: Seq<char>, j: int) -> nat {
    if 0 <= j && j + 1 < s.len() && s[j] == '.' && is_digit(s[j + 1]) {
        1 + digit_run(s, j + 1)
    } else {
        0
    }
}

/// Length of an exponent part (`e`/`E`, optional sign, digits) at `j`, or 0
/// if none starts there. An exponent counts only when digits follow it.
pub open spec fn exp_part_len(s: Seq<char>, j: int) -> nat {
    if 0 <= j && j < s.len() && (s[j] == 'e' || s[j] == 'E') {
        if j + 1 < s.len() && is_digit(s[j + 1]) {
            1 + digit_run(s, j + 1)
        } else if j + 2 < s.len() && (s[j + 1] == '+' || s[j + 1] == '-') && is_digit(s[j + 2]) {
            2 + digit_run(s, j + 2)
        } else {
            0
        }
    } else {
        0
    }
}

/// Length of the number token starting at `i` (`s[i]` is a digit): digits,
/// an optional fraction, an optional exponent, and an optional trailing
/// identifier-character run (a base prefix remainder such as in a hex
/// literal, or a type suffix).
pub open spec fn num_len(s: Seq<char>, i: int) -> nat {
    let a = 1 + digit_run(s, i + 1);
    let b = a + frac_part_len(s, i + a);
    let c = b + exp_part_len(s, i + b);
    c + ident_run(s, i + c)
}

/// Length of the token starting at `i`, for a valid token start.
pub open spec fn token_len(s: Seq<char>, i: int) -> nat {
    if is_digit(s[i]) {
        num_len(s, i)
    } else if is_ident_start(s[i]) {
        1 + ident_run(s, i + 1)
    } else {
        1
    }
}

/// Class of the token starting at `i`, for a valid token start.
pub open spec fn token_kind_at(s: Seq<char>, i: int) -> TokenKind {
    if is_digit(s[i]) {
        TokenKind::Number
    } else if is_ident_start(s[i]) {
        TokenKind::Ident
    } else {
        TokenKind::Punct
    }
}

/// `j` clipped to the length of `s`.
pub open spec fn clip(s: Seq<char>, j: int) -> int {
    if j > s.len() {
        s.len() as int
    } else {
        j
    }
}

/// The token stream of `s` from position `i` on; None on a character that
/// cannot start a token.
pub open spec fn spec_tokenize_from(s: Seq<char>, i: int) -> Option<Seq<TokenV>>
    decreases s.len() - i,
{
    if i < 0 || i >= s.len() {
        Some(Seq::empty())
    } else if is_ws(s[i]) {
        spec_tokenize_from(s, i + 1)
    } else if s[i] == '/' && i + 1 < s.len() && s[i + 1] == '/' {
        spec_tokenize_from(s, clip(s, i + 2 + line_run(s, i + 2)))
    } else if is_digit(s[i]) || is_ident_start(s[i]) || is_punct_char(s[i]) {
        let l = token_len(s, i);
        let t = TokenV { kind: token_kind_at(s, i), text: s.subrange(i, clip(s, i + l)) };
        match spec_tokenize_from(s, clip(s, i + l)) {
            Some(rest) => Some(seq![t] + rest),
            None => None,
        }
    } else {
        None
    }
}

/// The token stream of `s`; None when some character cannot start a token.
pub open spec fn spec_tokenize(s: Seq<char>) -> Option<Seq<TokenV>> {
    spec_tokenize_from(s, 0)
}

/// Prefixing a sequence of already-produced tokens onto a tokenizer result.
pub open spec fn prepend_tokens(pre: Seq<TokenV>, r: Option<Seq<TokenV>>) -> Option<Seq<TokenV>> {
    match r {
        Some(ts) => Some(pre + ts),
        None => None,
    }
}

proof fn lemma_digit_run_is(s: Seq<char>, a: int, b: int)
    requires
        0 <= a <= b <= s.len(),
        forall|k: int| a <= k < b ==> is_digit(#[trigger] s[k]),
        b == s.len() || !is_digit(s[b]),
    ensures
        digit_run(s, a) == b - a,
    decreases b - a,
{
    if a < b {
        lemma_digit_run_is(s, a + 1, b);
    }
}

proof fn lemma_ident_run_is(s: Seq<char>, a: int, b: int)
    requires
        0 <= a <= b <= s.len(),
        forall|k: int| a <= k < b ==> is_ident_cont(#[trigger] s[k]),
        b == s.len() || !is_ident_cont(s[b]),
    ensures
        ident_run(s, a) == b - a,
    decreases b - a,
{
    if a < b {
        lemma_ident_run_is(s, a + 1, b);
    }
}

proof fn lemma_line_run_is(s: Seq<char>, a: int, b: int)
    requires
        0 <= a <= b <= s.len(),
        forall|k: int| a <= k < b ==> #[trigger] s[k] != '\n',
        b == s.len() || s[b] == '\n',
    ensures
        line_run(s, a) == b - a,
    decreases b - a,
{
    if a < b {
        lemma_line_run_is(s, a + 1, b);
    }
}

/// End of the digit run that starts at `from`.
pub fn digit_run_end(cs: &Vec<char>, from: usize) -> (r: usize)
    requires
        from <= cs.len(),
    ensures
        from <= r <= cs.len(),
        r - from == digit_run(cs@, from as int),
        forall|k: int| from <= k < r ==> is_digit(#[trigger] cs@[k]),
        r == cs.len() || !is_digit(cs@[r as int]),
{
    let n: usize = cs.len();
    let mut j: usize = from;
    while j < n && digit_ch(cs[j])
        invariant
            from <= j <= n,
            n == cs.len(),
            forall|k: int| from <= k < j ==> is_digit(#[trigger] cs@[k]),
        decreases n - j,
    {
        j += 1;
    }
    proof {
        lemma_digit_run_is(cs@, from as int, j as int);
    }
    j
}

/// End of the identifier-character run that starts at `from`.
fn ident_run_end(cs: &Vec<char>, from: usize) -> (r: usize)
    requires
        from <= cs.len(),
    ensures
        from <= r <= cs.len(),
        r - from == ident_run(cs@, from as int),
        forall|k: int| from <= k < r ==> is_ident_cont(#[trigger] cs@[k]),
        r == cs.len() || !is_ident_cont(cs@[r as int]),
{
    let n: usize = cs.len();
    let mut j: usize = from;
    while j < n && ident_cont_ch(cs[j])
        invariant
            from <= j <= n,
            n == cs.len(),
            forall|k: int| from <= k < j ==> is_ident_cont(#[trigger] cs@[k]),
        decreases n - j,
    {
        j += 1;
    }
    proof {
        lemma_ident_run_is(cs@, from as int, j as int);
    }
    j
}

/// End of the line that starts at `from` (position of the next `'\n'` or
/// the end of input).
fn line_run_end(cs: &Vec<char>, from: usize) -> (r: usize)
    requires
        from <= cs.len(),
    ensures
        from <= r <= cs.len(),
        r - from == line_run(cs@, from as int),
{
    let n: usize = cs.len();
    let mut j: usize = from;
    while j < n && cs[j] != '\n'
        invariant
            from <= j <= n,
            n == cs.len(),
            forall|k: int| from <= k < j ==> #[trigger] cs@[k] != '\n',
        decreases n - j,
    {
        j += 1;
    }
    proof {
        lemma_line_run_is(cs@, from as int, j as int);
    }
    j
}

impl Token {
    /// Well-formed relative to the tokenizer's character classes.
    pub open spec fn wf(self) -> bool {
        &&& self.text@.len() >= 1
        &&& (self.kind == TokenKind::Punct ==> self.text@.len() == 1 && is_punct_char(
            self.text@[0],
        ))
        &&& (self.kind == TokenKind::Ident ==> is_ident_start(self.text@[0]) && forall|i: int|
            0 <= i < self.text@.len() ==> is_ident_cont(#[trigger] self.text@[i]))
        &&& (self.kind == TokenKind::Number ==> is_digit(self.text@[0]))
    }

    /// An owned copy.
    pub fn duplicate(&self) -> (r: Token)
        ensures
            r@ == self@,
    {
        Token { kind: self.kind, text: self.text.clone() }
    }

    /// True when this token is the punctuation character `c`.
    pub fn is_punct(&self, c: char) -> (r: bool)
        ensures
            r == (self@.kind == TokenKind::Punct && self@.text == seq![c]),
    {
        match self.kind {
            TokenKind::Punct => {
                if self.text.as_str().unicode_len() == 1 {
                    let d = self.text.as_str().get_char(0);
                    proof {
                        assert(self.text@ =~= seq![self.text@[0]]);
                        assert(seq![c].len() == 1);
                    }
                    d == c
                } else {
                    proof {
                        assert(seq![c].len() == 1);
                    }
                    false
                }
            },
            _ => false,
        }
    }

    /// True when this token is the identifier whose text is `s`.
    pub fn is_ident_named(&self, s: &str) -> (r: bool)
        ensures
            r == (self@.kind == TokenKind::Ident && self@.text == s@),
    {
        match self.kind {
            TokenKind::Ident => String::from_str(s) == self.text,
            _ => false,
        }
    }
}

/// An owned copy of a token vector.
pub fn duplicate_tokens(ts: &Vec<Token>) -> (r: Vec<Token>)
    ensures
        token_views(r@) == token_views(ts@),
{
    let mut out: Vec<Token> = Vec::new();
    let mut i: usize = 0;
    while i < ts.len()
        invariant
            i <= ts.len(),
            token_views(out@) == token_views(ts@.take(i as int)),
        decreases ts.len() - i,
    {
        let ghost oldv = out@;
        let t = ts[i].duplicate();
        proof {
            lemma_token_views_push(oldv, t);
            lemma_token_views_push(ts@.take(i as int), ts@[i as int]);
            assert(ts@.take(i + 1 as int) =~= ts@.take(i as int).push(ts@[i as int]));
        }
        out.push(t);
        i += 1;
    }
    proof {
        assert(ts@.take(ts.len() as int) =~= ts@);
    }
    out
}

/// Collect the characters of `s` into a vector.
pub fn str_chars(s: &str) -> (r: Vec<char>)
    ensures
        r@ == s@,
{
    let n: usize = s.unicode_len();
    let mut cs: Vec<char> = Vec::new();
    let mut i: usize = 0;
    while i < n
        invariant
            i <= n,
            n == s@.len(),
            cs@ =~= s@.take(i as int),
        decreases n - i,
    {
        let c = s.get_char(i);
        cs.push(c);
        assert(cs@ =~= s@.take(i + 1 as int));
        i += 1;
    }
    proof {
        assert(s@.take(n as int) =~= s@);
    }
    cs
}

#[verifier::rlimit(50)]
/// Split `input` into its token stream; `Error::Syntax` exactly on inputs
/// with a character that cannot start a token.
pub fn tokenize(input: &str) -> (r: Result<Vec<Token>, Error>)
    ensures
        match r {
            Ok(v) => spec_tokenize(input@) == Some(token_views(v@)) && forall|k: int|
                0 <= k < v.len() ==> (#[trigger] v[k]).wf(),
            Err(e) => spec_tokenize(input@) is None && e == Error::Syntax,
        },
{
    let ghost s: Seq<char> = input@;
    let cs = str_chars(input);
    let n: usize = cs.len();
    let mut out: Vec<Token> = Vec::new();
    let mut i: usize = 0;
    while i < n
        invariant
            i <= n,
            n == s.len(),
            cs@ == s,
            s == input@,
            spec_tokenize(s) == prepend_tokens(token_views(out@), spec_tokenize_from(s, i as int)),
            forall|k: int| 0 <= k < out.len() ==> (#[trigger] out[k]).wf(),
        decreases n - i,
    {
        let c = cs[i];
        if ws_ch(c) {
            assert(spec_tokenize_from(s, i as int) == spec_tokenize_from(s, i + 1 as int));
            i += 1;
        } else if c == '/' && i + 1 < n && cs[i + 1] == '/' {
            let j = line_run_end(&cs, i + 2);
            proof {
                assert(clip(s, i + 2 + line_run(s, i + 2 as int)) == j as int);
                assert(spec_tokenize_from(s, i as int) == spec_tokenize_from(s, j as int));
            }
            i = j;
        } else {
            // a token or an error
            let kind: TokenKind;
            let mut j: usize;
            if digit_ch(c) {
                kind = TokenKind::Number;
                j = digit_run_end(&cs, i + 1);
                let ghost a = (j - i) as nat;
                assert(a == 1 + digit_run(s, i + 1 as int));
                // optional fraction
                let ghost fstart = j as int;
                if j < n && cs[j] == '.' && j + 1 < n && digit_ch(cs[j + 1]) {
                    j = digit_run_end(&cs, j + 1);
                    assert(j - fstart == frac_part_len(s, fstart));
                } else {
                    assert(frac_part_len(s, fstart) == 0);
                }
                let ghost b = (j - i) as nat;
                let ghost estart = j as int;
                // optional exponent
                if j < n && (cs[j] == 'e' || cs[j] == 'E') {
                    if j + 1 < n && digit_ch(cs[j + 1]) {
                        j = digit_run_end(&cs, j + 1);
                        assert(j - estart == exp_part_len(s, estart));
                    } else if j + 1 < n && (cs[j + 1] == '+' || cs[j + 1] == '-') && j + 2 < n
                        && digit_ch(cs[j + 2]) {
                        j = digit_run_end(&cs, j + 2);
                        assert(j - estart == exp_part_len(s, estart));
                    } else {
                        assert(exp_part_len(s, estart) == 0);
                    }
                } else {
                    assert(exp_part_len(s, estart) == 0);
                }
                let ghost cc = (j - i) as nat;
                let ghost sstart = j as int;
                j = ident_run_end(&cs, j);
                assert(j - sstart == ident_run(s, sstart));
                assert(j - i == num_len(s, i as int)) by {
                    assert(i + a == fstart);
                    assert(i + b == estart);
                    assert(i + cc == sstart);
                }
                assert(j - i == token_len(s, i as int));
            } else if ident_start_ch(c) {
                kind = TokenKind::Ident;
                j = ident_run_end(&cs, i + 1);
                assert(j - i == token_len(s, i as int));
            } else if punct_ch(c) {
                kind = TokenKind::Punct;
                j = i + 1;
                assert(j - i == token_len(s, i as int));
            } else {
                assert(spec_tokenize_from(s, i as int) is None);
                return Err(Error::Syntax);
            }
            let text = input.substring_char(i, j);
            let tok = Token { kind, text: String::from_str(text) };
            proof {
                let l = token_len(s, i as int);
                assert(clip(s, i + l) == j as int);
                assert(tok@.text =~= s.subrange(i as int, clip(s, i + l)));
                assert(tok@.kind == token_kind_at(s, i as int));
                assert(forall|k: int| 0 <= k < tok@.text.len() ==> tok@.text[k] == s[i + k]);
                assert(tok.wf());
                let rest = spec_tokenize_from(s, j as int);
                assert(spec_tokenize_from(s, i as int) == prepend_tokens(seq![tok@], rest));
            }
            let ghost old_out = out@;
            let ghost tokv = tok@;
            out.push(tok);
            proof {
                lemma_token_views_push(old_out, out@.last());
                assert(token_views(out@) == token_views(old_out).push(tokv));
                if spec_tokenize_from(s, j as int) is Some {
                    let rest = spec_tokenize_from(s, j as int)->Some_0;
                    assert(token_views(old_out) + (seq![tokv] + rest) =~= token_views(out@)
                        + rest);
                }
            }
            i = j;
        }
    }
    proof {
        assert(spec_tokenize_from(s, n as int) == Some(Seq::<TokenV>::empty()));
        assert(token_views(out@) + Seq::<TokenV>::empty() =~= token_views(out@));
    }
    Ok(out)
}

} // verus!
