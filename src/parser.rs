//! The directive grammar, over tokens:
//!
//! ```text
//! directive := NAME ',' '[' NAME (',' NAME)* ','? ']' ',' stubs
//! stubs     := (stub (',' stub)* ','?)?
//! stub      := 'fn'? NAME '(' '&' 'mut'? 'self' (',' NAME ':' TYPE)* ','? ')' ('->' TYPE)? BODY
//! ```
//!
//! A `TYPE` is any non-empty run of tokens that is balanced in `()`, `[]`,
//! `{}` and `<>` and ends before a `,` or a closing bracket at its own level
//! (before a `{` for a return type). A `BODY` is a balanced `{ ... }` whose
//! contents are ignored; braces inside string and character literals do not
//! count. The spec functions below state the grammar; the
//! executable parser is proved to compute exactly what they say, errors
//! included.
//!
//! A `NAME` is a Rust identifier: a character with the Unicode property
//! XID_Start (or `_`) followed by XID_Continue characters, and not a keyword
//! (see `is_keyword`); or a raw identifier `r#...`.
use vstd::prelude::*;
use crate::lexer::{Token, TokKind, lexed, token_ok, gap_blank, ident_start, is_ident_start};

verus! {

/// The token class that was expected where parsing stopped.
#[derive(Clone, Copy, Debug, PartialEq, Eq, Structural)]
pub enum Expected {
    /// An identifier (the wrapper's, a variant's, a method's or a parameter's name).
    Name,
    Comma,
    OpenBracket,
    CommaOrCloseBracket,
    OpenParen,
    /// The receiver `&self` or `&mut self`.
    Receiver,
    CommaOrCloseParen,
    Colon,
    /// A non-empty type.
    Type,
    /// The `{` that opens a placeholder body.
    Body,
    /// The `}` that closes a placeholder body.
    CloseBrace,
    /// A variant name that differs from the earlier ones.
    DistinctVariant,
}

/// A malformed directive: the index of the offending token (the token count
/// when the input ended early), its character offset in the text, and what
/// was expected there.
#[derive(Clone, Copy, Debug, PartialEq, Eq, Structural)]
pub struct ParseError {
    pub token: usize,
    pub offset: usize,
    pub expected: Expected,
}

pub struct ParamView {
    pub binding: Seq<char>,
    pub ty: Seq<char>,
}

pub struct StubView {
    pub name: Seq<char>,
    pub lifetime: Option<Seq<char>>,
    pub mutable: bool,
    pub params: Seq<ParamView>,
    pub ret: Option<Seq<char>>,
}

pub struct SpecView {
    pub name: Seq<char>,
    pub variants: Seq<Seq<char>>,
    pub stubs: Seq<StubView>,
}

/// One forwarded parameter: its binding name and its type, as written.
#[derive(Clone, Debug)]
pub struct Param {
    pub binding: Vec<char>,
    pub ty: Vec<char>,
}

/// A method header to forward. The receiver is `&self`, with the lifetime
/// `'lifetime` after the `&` when there is one, and `mut` before `self` when
/// `mutable` holds.
#[derive(Clone, Debug)]
pub struct MethodStub {
    pub name: Vec<char>,
    pub lifetime: Option<Vec<char>>,
    pub mutable: bool,
    pub params: Vec<Param>,
    pub ret: Option<Vec<char>>,
}

/// A parsed directive.
#[derive(Clone, Debug)]
pub struct WrapperSpec {
    pub name: Vec<char>,
    pub variants: Vec<Vec<char>>,
    pub stubs: Vec<MethodStub>,
}

pub open spec fn opt_view(o: Option<Vec<char>>) -> Option<Seq<char>> {
    match o {
        Some(v) => Some(v@),
        None => None,
    }
}

pub open spec fn names_view(vs: Seq<Vec<char>>) -> Seq<Seq<char>> {
    vs.map_values(|v: Vec<char>| v@)
}

pub open spec fn params_view(ps: Seq<Param>) -> Seq<ParamView> {
    ps.map_values(|p: Param| p@)
}

pub open spec fn stubs_view(ms: Seq<MethodStub>) -> Seq<StubView> {
    ms.map_values(|m: MethodStub| m@)
}

impl View for Param {
    type V = ParamView;

    open spec fn view(&self) -> ParamView {
        ParamView { binding: self.binding@, ty: self.ty@ }
    }
}

impl View for MethodStub {
    type V = StubView;

    open spec fn view(&self) -> StubView {
        StubView {
            name: self.name@,
            lifetime: opt_view(self.lifetime),
            mutable: self.mutable,
            params: params_view(self.params@),
            ret: opt_view(self.ret),
        }
    }
}

impl View for WrapperSpec {
    type V = SpecView;

    open spec fn view(&self) -> SpecView {
        SpecView {
            name: self.name@,
            variants: names_view(self.variants@),
            stubs: stubs_view(self.stubs@),
        }
    }
}

pub open spec fn fn_word() -> Seq<char> {
    seq!['f', 'n']
}

pub open spec fn mut_word() -> Seq<char> {
    seq!['m', 'u', 't']
}

pub open spec fn self_word() -> Seq<char> {
    seq!['s', 'e', 'l', 'f']
}

pub open spec fn text_of(s: Seq<char>, tok: Token) -> Seq<char> {
    s.subrange(tok.start as int, tok.end as int)
}

pub open spec fn punct_at(t: Seq<Token>, i: int, c: char) -> bool {
    0 <= i < t.len() && t[i].kind == TokKind::Punct(c)
}

/// Token `i` is an identifier: an identifier-start character followed by
/// word characters, not a keyword; or a raw `r#` word whose rest is not one
/// of the words that cannot be raw.
pub open spec fn name_at(s: Seq<char>, t: Seq<Token>, i: int) -> bool {
    &&& 0 <= i < t.len()
    &&& match t[i].kind {
        TokKind::Word => is_ident_start(s[t[i].start as int]) && !is_keyword(text_of(s, t[i])),
        TokKind::RawWord => {
            &&& is_ident_start(s[t[i].start + 2])
            &&& !raw_excluded(s.subrange(t[i].start + 2, t[i].end as int))
        },
        _ => false,
    }
}

/// Rust's strict and reserved keywords (edition 2021), and the lone `_`:
/// words that cannot name a type, a method or a binding.
pub open spec fn keywords() -> Seq<Seq<char>> {
    seq![
        seq!['a', 's'],
        seq!['b', 'r', 'e', 'a', 'k'],
        seq!['c', 'o', 'n', 's', 't'],
        seq!['c', 'o', 'n', 't', 'i', 'n', 'u', 'e'],
        seq!['c', 'r', 'a', 't', 'e'],
        seq!['e', 'l', 's', 'e'],
        seq!['e', 'n', 'u', 'm'],
        seq!['e', 'x', 't', 'e', 'r', 'n'],
        seq!['f', 'a', 'l', 's', 'e'],
        seq!['f', 'n'],
        seq!['f', 'o', 'r'],
        seq!['i', 'f'],
        seq!['i', 'm', 'p', 'l'],
        seq!['i', 'n'],
        seq!['l', 'e', 't'],
        seq!['l', 'o', 'o', 'p'],
        seq!['m', 'a', 't', 'c', 'h'],
        seq!['m', 'o', 'd'],
        seq!['m', 'o', 'v', 'e'],
        seq!['m', 'u', 't'],
        seq!['p', 'u', 'b'],
        seq!['r', 'e', 'f'],
        seq!['r', 'e', 't', 'u', 'r', 'n'],
        seq!['s', 'e', 'l', 'f'],
        seq!['S', 'e', 'l', 'f'],
        seq!['s', 't', 'a', 't', 'i', 'c'],
        seq!['s', 't', 'r', 'u', 'c', 't'],
        seq!['s', 'u', 'p', 'e', 'r'],
        seq!['t', 'r', 'a', 'i', 't'],
        seq!['t', 'r', 'u', 'e'],
        seq!['t', 'y', 'p', 'e'],
        seq!['u', 'n', 's', 'a', 'f', 'e'],
        seq!['u', 's', 'e'],
        seq!['w', 'h', 'e', 'r', 'e'],
        seq!['w', 'h', 'i', 'l', 'e'],
        seq!['a', 's', 'y', 'n', 'c'],
        seq!['a', 'w', 'a', 'i', 't'],
        seq!['d', 'y', 'n'],
        seq!['a', 'b', 's', 't', 'r', 'a', 'c', 't'],
        seq!['b', 'e', 'c', 'o', 'm', 'e'],
        seq!['b', 'o', 'x'],
        seq!['d', 'o'],
        seq!['f', 'i', 'n', 'a', 'l'],
        seq!['m', 'a', 'c', 'r', 'o'],
        seq!['o', 'v', 'e', 'r', 'r', 'i', 'd', 'e'],
        seq!['p', 'r', 'i', 'v'],
        seq!['t', 'y', 'p', 'e', 'o', 'f'],
        seq!['u', 'n', 's', 'i', 'z', 'e', 'd'],
        seq!['v', 'i', 'r', 't', 'u', 'a', 'l'],
        seq!['y', 'i', 'e', 'l', 'd'],
        seq!['t', 'r', 'y'],
        seq!['_'],
    ]
}

pub open spec fn is_keyword(w: Seq<char>) -> bool {
    keywords().contains(w)
}

/// The words that cannot follow `r#`.
pub open spec fn raw_excluded_words() -> Seq<Seq<char>> {
    seq![seq!['_'], seq!['c', 'r', 'a', 't', 'e'], seq!['s', 'e', 'l', 'f'], seq!['S', 'e', 'l', 'f'], seq!['s', 'u', 'p', 'e', 'r']]
}

pub open spec fn raw_excluded(w: Seq<char>) -> bool {
    raw_excluded_words().contains(w)
}

pub open spec fn keyword_at(s: Seq<char>, t: Seq<Token>, i: int, w: Seq<char>) -> bool {
    0 <= i < t.len() && t[i].kind == TokKind::Word && text_of(s, t[i]) == w
}

pub open spec fn opens(c: char) -> bool {
    c == '(' || c == '[' || c == '{' || c == '<'
}

pub open spec fn closes(c: char) -> bool {
    c == ')' || c == ']' || c == '}' || c == '>'
}

/// Token `i` is the `>` of an arrow `->`, which closes no bracket.
pub open spec fn arrow_head(t: Seq<Token>, i: int) -> bool {
    &&& 0 < i < t.len()
    &&& t[i].kind == TokKind::Punct('>')
    &&& t[i - 1].kind == TokKind::Punct('-')
    &&& t[i - 1].end == t[i].start
}

/// The index of the first token from `i` on that ends a type at nesting
/// `depth`: `stop`, or a closing bracket, at level zero; the token count if
/// there is none.
pub open spec fn type_end(t: Seq<Token>, i: int, depth: nat, stop: char) -> int
    decreases t.len() - i,
{
    if i < 0 || i >= t.len() {
        t.len() as int
    } else {
        match t[i].kind {
            TokKind::Word | TokKind::RawWord | TokKind::Literal => type_end(t, i + 1, depth, stop),
            TokKind::Punct(c) => {
                let closing = closes(c) && !arrow_head(t, i);
                if depth == 0 && (c == stop || closing) {
                    i
                } else if opens(c) {
                    type_end(t, i + 1, depth + 1, stop)
                } else if closing {
                    type_end(t, i + 1, (depth - 1) as nat, stop)
                } else {
                    type_end(t, i + 1, depth, stop)
                }
            },
        }
    }
}

/// The index just past the `}` that closes a body at nesting `depth`, from
/// token `i` on.
pub open spec fn body_end(t: Seq<Token>, i: int, depth: nat) -> Option<int>
    decreases t.len() - i,
{
    if i < 0 || i >= t.len() {
        None
    } else if punct_at(t, i, '{') {
        body_end(t, i + 1, depth + 1)
    } else if punct_at(t, i, '}') {
        if depth == 0 {
            Some(i + 1)
        } else {
            body_end(t, i + 1, (depth - 1) as nat)
        }
    } else {
        body_end(t, i + 1, depth)
    }
}

/// The text that tokens `a` up to (not including) `b` span.
pub open spec fn span_text(s: Seq<char>, t: Seq<Token>, a: int, b: int) -> Seq<char> {
    s.subrange(t[a].start as int, t[b - 1].end as int)
}

/// The variant list from token `i` on, up to and including its `]`.
pub open spec fn variant_list(s: Seq<char>, t: Seq<Token>, i: int) -> Result<(Seq<Seq<char>>, int), (int, Expected)>
    decreases t.len() - i,
{
    if !name_at(s, t, i) {
        Err((i, Expected::Name))
    } else if punct_at(t, i + 1, ']') {
        Ok((seq![text_of(s, t[i])], i + 2))
    } else if !punct_at(t, i + 1, ',') {
        Err((i + 1, Expected::CommaOrCloseBracket))
    } else if punct_at(t, i + 2, ']') {
        Ok((seq![text_of(s, t[i])], i + 3))
    } else {
        match variant_list(s, t, i + 2) {
            Ok((vs, j)) => Ok((seq![text_of(s, t[i])] + vs, j)),
            Err(x) => Err(x),
        }
    }
}

/// The parameters after the receiver, from token `i` on, up to and including
/// the `)`.
pub open spec fn param_list(s: Seq<char>, t: Seq<Token>, i: int) -> Result<(Seq<ParamView>, int), (int, Expected)>
    decreases t.len() - i,
    via param_list_decreases
{
    if punct_at(t, i, ')') {
        Ok((seq![], i + 1))
    } else if !punct_at(t, i, ',') {
        Err((i, Expected::CommaOrCloseParen))
    } else if punct_at(t, i + 1, ')') {
        Ok((seq![], i + 2))
    } else if !name_at(s, t, i + 1) {
        Err((i + 1, Expected::Name))
    } else if !punct_at(t, i + 2, ':') {
        Err((i + 2, Expected::Colon))
    } else {
        let e = type_end(t, i + 3, 0, ',');
        if e <= i + 3 {
            Err((i + 3, Expected::Type))
        } else {
            match param_list(s, t, e) {
                Ok((ps, j)) => Ok((
                    seq![ParamView { binding: text_of(s, t[i + 1]), ty: span_text(s, t, i + 3, e) }] + ps,
                    j,
                )),
                Err(x) => Err(x),
            }
        }
    }
}

#[via_fn]
proof fn param_list_decreases(s: Seq<char>, t: Seq<Token>, i: int) {
    if 0 <= i + 3 <= t.len() {
        lemma_type_end_bounds(t, i + 3, 0, ',');
    }
}

pub proof fn lemma_type_end_bounds(t: Seq<Token>, i: int, depth: nat, stop: char)
    requires
        0 <= i <= t.len(),
    ensures
        i <= type_end(t, i, depth, stop) <= t.len(),
    decreases t.len() - i,
{
    if i < t.len() {
        match t[i].kind {
            TokKind::Word | TokKind::RawWord | TokKind::Literal => lemma_type_end_bounds(t, i + 1, depth, stop),
            TokKind::Punct(c) => {
                lemma_type_end_bounds(t, i + 1, depth + 1, stop);
                lemma_type_end_bounds(t, i + 1, (depth - 1) as nat, stop);
                lemma_type_end_bounds(t, i + 1, depth, stop);
            },
        }
    }
}

/// The optional `-> TYPE` from token `i` on.
pub open spec fn ret_type(s: Seq<char>, t: Seq<Token>, i: int) -> Result<(Option<Seq<char>>, int), (int, Expected)> {
    if punct_at(t, i, '-') && arrow_head(t, i + 1) {
        let e = type_end(t, i + 2, 0, '{');
        if e <= i + 2 {
            Err((i + 2, Expected::Type))
        } else {
            Ok((Some(span_text(s, t, i + 2, e)), e))
        }
    } else {
        Ok((None, i))
    }
}

/// The placeholder body from token `i` on: the index just past it.
pub open spec fn body(t: Seq<Token>, i: int) -> Result<int, (int, Expected)> {
    if !punct_at(t, i, '{') {
        Err((i, Expected::Body))
    } else {
        match body_end(t, i + 1, 0) {
            Some(j) => Ok(j),
            None => Err((t.len() as int, Expected::CloseBrace)),
        }
    }
}

/// A lifetime `'name` at token `i`: a `'` directly followed by a word.
pub open spec fn lifetime_at(t: Seq<Token>, i: int) -> bool {
    &&& punct_at(t, i, '\'')
    &&& i + 1 < t.len()
    &&& t[i + 1].kind == TokKind::Word
    &&& t[i].end == t[i + 1].start
}

/// One method stub from token `i` on.
pub open spec fn stub(s: Seq<char>, t: Seq<Token>, i: int) -> Result<(StubView, int), (int, Expected)> {
    let k = if keyword_at(s, t, i, fn_word()) { i + 1 } else { i };
    if !name_at(s, t, k) {
        Err((k, Expected::Name))
    } else if !punct_at(t, k + 1, '(') {
        Err((k + 1, Expected::OpenParen))
    } else if !punct_at(t, k + 2, '&') {
        Err((k + 2, Expected::Receiver))
    } else {
        let lt = lifetime_at(t, k + 3);
        let q = if lt { k + 5 } else { k + 3 };
        let m = keyword_at(s, t, q, mut_word());
        let r = if m { q + 1 } else { q };
        let lifetime = if lt { Some(text_of(s, t[k + 4])) } else { None };
        if !keyword_at(s, t, r, self_word()) {
            Err((r, Expected::Receiver))
        } else {
            match param_list(s, t, r + 1) {
                Err(x) => Err(x),
                Ok((ps, j)) => match ret_type(s, t, j) {
                    Err(x) => Err(x),
                    Ok((rt, j2)) => match body(t, j2) {
                        Err(x) => Err(x),
                        Ok(j3) => Ok((StubView { name: text_of(s, t[k]), lifetime, mutable: m, params: ps, ret: rt }, j3)),
                    },
                },
            }
        }
    }
}

/// The stub list from token `i` on, to the end of the input.
pub open spec fn stub_list(s: Seq<char>, t: Seq<Token>, i: int) -> Result<Seq<StubView>, (int, Expected)>
    decreases t.len() - i,
    via stub_list_decreases
{
    if i >= t.len() {
        Ok(seq![])
    } else {
        match stub(s, t, i) {
            Err(x) => Err(x),
            Ok((m, j)) => if j >= t.len() {
                Ok(seq![m])
            } else if !punct_at(t, j, ',') {
                Err((j, Expected::Comma))
            } else {
                match stub_list(s, t, j + 1) {
                    Ok(ms) => Ok(seq![m] + ms),
                    Err(x) => Err(x),
                }
            },
        }
    }
}

#[via_fn]
proof fn stub_list_decreases(s: Seq<char>, t: Seq<Token>, i: int) {
    if 0 <= i < t.len() {
        lemma_stub_bounds(s, t, i);
    }
}

/// Some two variants in `vs` are equal.
pub open spec fn has_dup(vs: Seq<Seq<char>>) -> bool {
    exists|a: int, b: int| 0 <= a < b < vs.len() && vs[a] == vs[b]
}

/// Variant `b` repeats an earlier one, and none before it does.
pub open spec fn is_first_dup(vs: Seq<Seq<char>>, b: int) -> bool {
    &&& 0 <= b < vs.len()
    &&& exists|a: int| 0 <= a < b && vs[a] == vs[b]
    &&& forall|x: int, y: int| 0 <= x < y < b ==> vs[x] != vs[y]
}

pub open spec fn first_dup(vs: Seq<Seq<char>>) -> int {
    choose|b: int| is_first_dup(vs, b)
}

/// The whole directive. Variant `k` stands at token `3 + 2 * k`.
pub open spec fn directive(s: Seq<char>, t: Seq<Token>) -> Result<SpecView, (int, Expected)> {
    if !name_at(s, t, 0) {
        Err((0, Expected::Name))
    } else if !punct_at(t, 1, ',') {
        Err((1, Expected::Comma))
    } else if !punct_at(t, 2, '[') {
        Err((2, Expected::OpenBracket))
    } else {
        match variant_list(s, t, 3) {
            Err(x) => Err(x),
            Ok((vs, j)) => if has_dup(vs) {
                Err((3 + 2 * first_dup(vs), Expected::DistinctVariant))
            } else if !punct_at(t, j, ',') {
                Err((j, Expected::Comma))
            } else {
                match stub_list(s, t, j + 1) {
                    Err(x) => Err(x),
                    Ok(ms) => Ok(SpecView { name: text_of(s, t[0]), variants: vs, stubs: ms }),
                }
            },
        }
    }
}

pub proof fn lemma_body_end_bounds(t: Seq<Token>, i: int, depth: nat)
    requires
        0 <= i <= t.len(),
    ensures
        body_end(t, i, depth) matches Some(j) ==> i < j <= t.len(),
    decreases t.len() - i,
{
    if i < t.len() {
        lemma_body_end_bounds(t, i + 1, depth + 1);
        lemma_body_end_bounds(t, i + 1, (depth - 1) as nat);
        lemma_body_end_bounds(t, i + 1, depth);
    }
}

pub proof fn lemma_param_list_bounds(s: Seq<char>, t: Seq<Token>, i: int)
    requires
        0 <= i,
    ensures
        param_list(s, t, i) matches Ok((ps, j)) ==> i < j <= t.len(),
    decreases t.len() - i,
{
    if punct_at(t, i, ',') && !punct_at(t, i + 1, ')') && name_at(s, t, i + 1) && punct_at(t, i + 2, ':') {
        lemma_type_end_bounds(t, i + 3, 0, ',');
        let e = type_end(t, i + 3, 0, ',');
        if e > i + 3 {
            lemma_param_list_bounds(s, t, e);
        }
    }
}

pub proof fn lemma_variant_list_bounds(s: Seq<char>, t: Seq<Token>, i: int)
    requires
        0 <= i,
    ensures
        variant_list(s, t, i) matches Ok((vs, j)) ==> vs.len() >= 1 && i + 2 * vs.len() <= j <= t.len(),
    decreases t.len() - i,
{
    if name_at(s, t, i) && punct_at(t, i + 1, ',') && !punct_at(t, i + 2, ']') {
        lemma_variant_list_bounds(s, t, i + 2);
    }
}

pub open spec fn variants_at(s: Seq<char>, t: Seq<Token>, i: int, vs: Seq<Seq<char>>) -> bool {
    forall|k: int|
        #![trigger vs[k]]
        0 <= k < vs.len() ==> name_at(s, t, i + 2 * k) && vs[k] == text_of(s, t[i + 2 * k])
}

/// Variant `k` of a parsed list is the identifier at token `i + 2 * k`.
pub proof fn lemma_variant_tokens(s: Seq<char>, t: Seq<Token>, i: int)
    requires
        0 <= i,
    ensures
        variant_list(s, t, i) is Ok ==> variants_at(s, t, i, variant_list(s, t, i)->Ok_0.0),
    decreases t.len() - i,
{
    if let Ok((vs, j)) = variant_list(s, t, i) {
        if name_at(s, t, i) && punct_at(t, i + 1, ',') && !punct_at(t, i + 2, ']') {
            lemma_variant_tokens(s, t, i + 2);
            let rest = variant_list(s, t, i + 2)->Ok_0.0;
            assert(vs == seq![text_of(s, t[i])] + rest);
            assert forall|k: int| 0 <= k < vs.len() implies #[trigger] name_at(s, t, i + 2 * k) && vs[k] == text_of(s, t[i + 2 * k]) by {
                if k > 0 {
                    assert(vs[k] == rest[k - 1]);
                    assert(i + 2 + 2 * (k - 1) == i + 2 * k);
                }
            }
        } else {
            assert(vs == seq![text_of(s, t[i])]);
            assert forall|k: int| 0 <= k < vs.len() implies #[trigger] name_at(s, t, i + 2 * k) && vs[k] == text_of(s, t[i + 2 * k]) by {
                assert(k == 0);
            }
        }
        assert(variants_at(s, t, i, vs));
    }
}

proof fn lemma_first_dup_exists(vs: Seq<Seq<char>>, c: int)
    requires
        0 <= c < vs.len(),
        exists|a: int| 0 <= a < c && vs[a] == vs[c],
    ensures
        is_first_dup(vs, first_dup(vs)),
    decreases c,
{
    if forall|x: int, y: int| 0 <= x < y < c ==> vs[x] != vs[y] {
        assert(is_first_dup(vs, c));
    } else {
        let (x, y) = choose|x: int, y: int| 0 <= x < y < c && vs[x] == vs[y];
        lemma_first_dup_exists(vs, y);
    }
}

/// When the variant list repeats a name, the directive is rejected at the
/// repeated identifier: its text equals that of an earlier variant's token.
pub proof fn lemma_duplicate_error_token(s: Seq<char>, t: Seq<Token>)
    requires
        name_at(s, t, 0),
        punct_at(t, 1, ','),
        punct_at(t, 2, '['),
        variant_list(s, t, 3) matches Ok((vs, j)) && has_dup(vs),
    ensures
        directive(s, t) matches Err((p, x)) && x == Expected::DistinctVariant && name_at(s, t, p) && exists|a: int|
            3 <= a < p && name_at(s, t, a) && text_of(s, t[a]) == text_of(s, t[p]),
{
    lemma_variant_tokens(s, t, 3);
    let vs = variant_list(s, t, 3)->Ok_0.0;
    let (a0, c0) = choose|a: int, c: int| 0 <= a < c < vs.len() && vs[a] == vs[c];
    lemma_first_dup_exists(vs, c0);
    let b = first_dup(vs);
    let a = choose|a: int| 0 <= a < b && vs[a] == vs[b];
    assert(vs[a] == text_of(s, t[3 + 2 * a]));
    assert(vs[b] == text_of(s, t[3 + 2 * b]));
    assert(name_at(s, t, 3 + 2 * a));
}

/// The names at tokens `i`, `i + 2`, ..., `n` of them.
pub open spec fn names_from(s: Seq<char>, t: Seq<Token>, i: int, n: nat) -> Seq<Seq<char>> {
    Seq::new(n, |k: int| text_of(s, t[i + 2 * k]))
}

/// Tokens from `i` on read `V1 , V2 , ... , Vn ]` with every `Vk` a name.
pub open spec fn variant_shape(s: Seq<char>, t: Seq<Token>, i: int, n: nat) -> bool {
    &&& n >= 1
    &&& forall|k: int| 0 <= k < n ==> #[trigger] name_at(s, t, i + 2 * k)
    &&& forall|k: int| 0 <= k < n - 1 ==> #[trigger] punct_at(t, i + 2 * k + 1, ',')
    &&& punct_at(t, i + 2 * n - 1, ']')
}

proof fn lemma_variant_shape(s: Seq<char>, t: Seq<Token>, i: int, n: nat)
    requires
        0 <= i,
        variant_shape(s, t, i, n),
    ensures
        variant_list(s, t, i) == Ok::<(Seq<Seq<char>>, int), (int, Expected)>((names_from(s, t, i, n), i + 2 * n)),
    decreases n,
{
    assert(name_at(s, t, i + 2 * 0));
    if n == 1 {
        assert(names_from(s, t, i, n) =~= seq![text_of(s, t[i])]);
    } else {
        assert(punct_at(t, i + 2 * 0 + 1, ','));
        assert(name_at(s, t, i + 2 * 1));
        assert(!punct_at(t, i + 2, ']'));
        assert forall|k: int| 0 <= k < n - 1 implies #[trigger] name_at(s, t, (i + 2) + 2 * k) by {
            assert(name_at(s, t, i + 2 * (k + 1)));
            assert((i + 2) + 2 * k == i + 2 * (k + 1));
        }
        assert forall|k: int| 0 <= k < n - 2 implies #[trigger] punct_at(t, (i + 2) + 2 * k + 1, ',') by {
            assert(punct_at(t, i + 2 * (k + 1) + 1, ','));
            assert((i + 2) + 2 * k + 1 == i + 2 * (k + 1) + 1);
        }
        assert((i + 2) + 2 * ((n - 1) as nat) - 1 == i + 2 * n - 1);
        lemma_variant_shape(s, t, i + 2, (n - 1) as nat);
        assert(names_from(s, t, i, n) =~= seq![text_of(s, t[i])] + names_from(s, t, i + 2, (n - 1) as nat));
    }
}

/// A directive whose wrapper and variant names are identifiers, with the
/// variants distinct, parses: the result holds the wrapper's name, the
/// variants in textual order, and the stubs that follow.
pub proof fn lemma_identifiers_parse(s: Seq<char>, t: Seq<Token>, n: nat)
    requires
        name_at(s, t, 0),
        punct_at(t, 1, ','),
        punct_at(t, 2, '['),
        variant_shape(s, t, 3, n),
        punct_at(t, (2 * n + 3) as int, ','),
        forall|a: int, b: int|
            0 <= a < b < n ==> #[trigger] names_from(s, t, 3, n)[a] != #[trigger] names_from(s, t, 3, n)[b],
        stub_list(s, t, (2 * n + 4) as int) is Ok,
    ensures
        directive(s, t) == Ok::<SpecView, (int, Expected)>(
            SpecView {
                name: text_of(s, t[0]),
                variants: names_from(s, t, 3, n),
                stubs: stub_list(s, t, (2 * n + 4) as int)->Ok_0,
            },
        ),
{
    lemma_variant_shape(s, t, 3, n);
    let vs = names_from(s, t, 3, n);
    assert(!has_dup(vs)) by {
        if has_dup(vs) {
            let (a, b) = choose|a: int, b: int| 0 <= a < b < vs.len() && vs[a] == vs[b];
            assert(vs[a] != vs[b]);
        }
    }
    assert(3 + 2 * n == 2 * n + 3);
}

pub proof fn lemma_stub_bounds(s: Seq<char>, t: Seq<Token>, i: int)
    requires
        0 <= i,
    ensures
        stub(s, t, i) matches Ok((m, j)) ==> i < j <= t.len(),
{
    let k = if keyword_at(s, t, i, fn_word()) { i + 1 } else { i };
    let q = if lifetime_at(t, k + 3) { k + 5 } else { k + 3 };
    let r = if keyword_at(s, t, q, mut_word()) { q + 1 } else { q };
    lemma_param_list_bounds(s, t, r + 1);
    if let Ok((ps, j)) = param_list(s, t, r + 1) {
        if punct_at(t, j, '-') && arrow_head(t, j + 1) {
            lemma_type_end_bounds(t, j + 2, 0, '{');
        }
        if let Ok((rt, j2)) = ret_type(s, t, j) {
            if 0 <= j2 + 1 <= t.len() {
                lemma_body_end_bounds(t, j2 + 1, 0);
            }
        }
    }
}

/// Where token `p` starts in the text, or the text's end for `p` past the
/// last token.
pub open spec fn offset_of(s: Seq<char>, t: Seq<Token>, p: int) -> int {
    if 0 <= p < t.len() {
        t[p].start as int
    } else {
        s.len() as int
    }
}

/// `r` is what the grammar gives for tokens `t` of `s`.
pub open spec fn parsed_as(s: Seq<char>, t: Seq<Token>, r: Result<WrapperSpec, ParseError>) -> bool {
    match r {
        Ok(w) => directive(s, t) == Ok::<SpecView, (int, Expected)>(w@),
        Err(e) => {
            &&& directive(s, t) == Err::<SpecView, (int, Expected)>((e.token as int, e.expected))
            &&& e.offset == offset_of(s, t, e.token as int)
        },
    }
}

fn punct_is(t: &Vec<Token>, i: usize, c: char) -> (r: bool)
    ensures
        t@.len() <= usize::MAX,
        r == punct_at(t@, i as int, c),
{
    let n = t.len();
    i < n && t[i].kind == TokKind::Punct(c)
}

fn name_is(s: &Vec<char>, t: &Vec<Token>, i: usize) -> (r: bool)
    requires
        lexed(s@, t@),
    ensures
        t@.len() <= usize::MAX,
        r == name_at(s@, t@, i as int),
{
    if i >= t.len() {
        return false;
    }
    let tok = t[i];
    proof {
        assert(token_ok(s@, t@[i as int]));
    }
    match tok.kind {
        TokKind::Word => ident_start(s[tok.start]) && !in_table(&token_text(s, t, i), &keyword_table()),
        TokKind::RawWord => ident_start(s[tok.start + 2]) && !in_table(
            &copy_span(s, tok.start + 2, tok.end),
            &raw_excluded_table(),
        ),
        _ => false,
    }
}

fn keyword_table() -> (r: Vec<Vec<char>>)
    ensures
        names_view(r@) == keywords(),
{
    let r = vec![
        vec!['a', 's'],
        vec!['b', 'r', 'e', 'a', 'k'],
        vec!['c', 'o', 'n', 's', 't'],
        vec!['c', 'o', 'n', 't', 'i', 'n', 'u', 'e'],
        vec!['c', 'r', 'a', 't', 'e'],
        vec!['e', 'l', 's', 'e'],
        vec!['e', 'n', 'u', 'm'],
        vec!['e', 'x', 't', 'e', 'r', 'n'],
        vec!['f', 'a', 'l', 's', 'e'],
        vec!['f', 'n'],
        vec!['f', 'o', 'r'],
        vec!['i', 'f'],
        vec!['i', 'm', 'p', 'l'],
        vec!['i', 'n'],
        vec!['l', 'e', 't'],
        vec!['l', 'o', 'o', 'p'],
        vec!['m', 'a', 't', 'c', 'h'],
        vec!['m', 'o', 'd'],
        vec!['m', 'o', 'v', 'e'],
        vec!['m', 'u', 't'],
        vec!['p', 'u', 'b'],
        vec!['r', 'e', 'f'],
        vec!['r', 'e', 't', 'u', 'r', 'n'],
        vec!['s', 'e', 'l', 'f'],
        vec!['S', 'e', 'l', 'f'],
        vec!['s', 't', 'a', 't', 'i', 'c'],
        vec!['s', 't', 'r', 'u', 'c', 't'],
        vec!['s', 'u', 'p', 'e', 'r'],
        vec!['t', 'r', 'a', 'i', 't'],
        vec!['t', 'r', 'u', 'e'],
        vec!['t', 'y', 'p', 'e'],
        vec!['u', 'n', 's', 'a', 'f', 'e'],
        vec!['u', 's', 'e'],
        vec!['w', 'h', 'e', 'r', 'e'],
        vec!['w', 'h', 'i', 'l', 'e'],
        vec!['a', 's', 'y', 'n', 'c'],
        vec!['a', 'w', 'a', 'i', 't'],
        vec!['d', 'y', 'n'],
        vec!['a', 'b', 's', 't', 'r', 'a', 'c', 't'],
        vec!['b', 'e', 'c', 'o', 'm', 'e'],
        vec!['b', 'o', 'x'],
        vec!['d', 'o'],
        vec!['f', 'i', 'n', 'a', 'l'],
        vec!['m', 'a', 'c', 'r', 'o'],
        vec!['o', 'v', 'e', 'r', 'r', 'i', 'd', 'e'],
        vec!['p', 'r', 'i', 'v'],
        vec!['t', 'y', 'p', 'e', 'o', 'f'],
        vec!['u', 'n', 's', 'i', 'z', 'e', 'd'],
        vec!['v', 'i', 'r', 't', 'u', 'a', 'l'],
        vec!['y', 'i', 'e', 'l', 'd'],
        vec!['t', 'r', 'y'],
        vec!['_'],
    ];
    assert(names_view(r@) =~~= keywords());
    r
}

fn raw_excluded_table() -> (r: Vec<Vec<char>>)
    ensures
        names_view(r@) == raw_excluded_words(),
{
    let r = vec![vec!['_'], vec!['c', 'r', 'a', 't', 'e'], vec!['s', 'e', 'l', 'f'], vec!['S', 'e', 'l', 'f'], vec!['s', 'u', 'p', 'e', 'r']];
    assert(names_view(r@) =~~= raw_excluded_words());
    r
}

/// Whether `w` is one of the words in `table`.
fn in_table(w: &Vec<char>, table: &Vec<Vec<char>>) -> (r: bool)
    ensures
        r == names_view(table@).contains(w@),
{
    let mut k: usize = 0;
    while k < table.len()
        invariant
            k <= table@.len(),
            forall|j: int| 0 <= j < k ==> names_view(table@)[j] != w@,
        decreases table@.len() - k,
    {
        if same_chars(w, &table[k]) {
            assert(names_view(table@)[k as int] == w@);
            return true;
        }
        k = k + 1;
    }
    false
}

fn keyword_is(s: &Vec<char>, t: &Vec<Token>, i: usize, w: &Vec<char>) -> (r: bool)
    requires
        lexed(s@, t@),
    ensures
        t@.len() <= usize::MAX,
        r == keyword_at(s@, t@, i as int, w@),
{
    let n = t.len();
    if i >= t.len() || t[i].kind != TokKind::Word {
        return false;
    }
    let tok = t[i];
    proof {
        assert(token_ok(s@, t@[i as int]));
    }
    if tok.end - tok.start != w.len() {
        assert(text_of(s@, tok).len() != w@.len());
        return false;
    }
    let mut k: usize = 0;
    while k < w.len()
        invariant
            tok.start + w@.len() == tok.end <= s@.len(),
            k <= w@.len(),
            i < t@.len(),
            n == t@.len(),
            tok == t@[i as int],
            t@[i as int].kind == TokKind::Word,
            forall|p: int| 0 <= p < k ==> s@[tok.start + p] == w@[p],
        decreases w@.len() - k,
    {
        if s[tok.start + k] != w[k] {
            assert(text_of(s@, tok)[k as int] == s@[tok.start + k]);
            assert(text_of(s@, tok) != w@);
            return false;
        }
        k = k + 1;
    }
    assert(text_of(s@, tok) =~= w@);
    true
}

fn copy_span(s: &Vec<char>, a: usize, b: usize) -> (r: Vec<char>)
    requires
        a <= b <= s@.len(),
    ensures
        r@ == s@.subrange(a as int, b as int),
{
    let mut r: Vec<char> = Vec::new();
    let mut k: usize = a;
    while k < b
        invariant
            a <= k <= b <= s@.len(),
            r@ == s@.subrange(a as int, k as int),
        decreases b - k,
    {
        r.push(s[k]);
        assert(r@ =~= s@.subrange(a as int, k + 1));
        k = k + 1;
    }
    r
}

/// Tokens come in order.
pub proof fn lemma_tokens_ordered(s: Seq<char>, t: Seq<Token>, a: int, b: int)
    requires
        lexed(s, t),
        0 <= a < b < t.len(),
    ensures
        t[a].end <= t[b].start,
    decreases b - a,
{
    assert(gap_blank(s, t, b));
    if a < b - 1 {
        lemma_tokens_ordered(s, t, a, b - 1);
        assert(token_ok(s, t[b - 1]));
    }
}

fn text_span(s: &Vec<char>, t: &Vec<Token>, a: usize, b: usize) -> (r: Vec<char>)
    requires
        lexed(s@, t@),
        a < b <= t@.len(),
    ensures
        r@ == span_text(s@, t@, a as int, b as int),
{
    proof {
        assert(token_ok(s@, t@[a as int]));
        assert(token_ok(s@, t@[b - 1]));
        if a < b - 1 {
            lemma_tokens_ordered(s@, t@, a as int, b - 1);
        }
    }
    copy_span(s, t[a].start, t[b - 1].end)
}

fn token_text(s: &Vec<char>, t: &Vec<Token>, i: usize) -> (r: Vec<char>)
    requires
        lexed(s@, t@),
        i < t@.len(),
    ensures
        r@ == text_of(s@, t@[i as int]),
{
    proof {
        assert(token_ok(s@, t@[i as int]));
    }
    copy_span(s, t[i].start, t[i].end)
}

fn arrow_is(t: &Vec<Token>, i: usize) -> (r: bool)
    ensures
        t@.len() <= usize::MAX,
        r == arrow_head(t@, i as int),
{
    let n = t.len();
    0 < i && i < n && t[i].kind == TokKind::Punct('>') && t[i - 1].kind == TokKind::Punct('-')
        && t[i - 1].end == t[i].start
}

fn scan_type(t: &Vec<Token>, i: usize, depth: usize, stop: char) -> (r: usize)
    requires
        i <= t@.len(),
        depth <= i,
    ensures
        r as int == type_end(t@, i as int, depth as nat, stop),
    decreases t@.len() - i,
{
    if i >= t.len() {
        return t.len();
    }
    match t[i].kind {
        TokKind::Word | TokKind::RawWord | TokKind::Literal => scan_type(t, i + 1, depth, stop),
        TokKind::Punct(c) => {
            let closing = (c == ')' || c == ']' || c == '}' || c == '>') && !arrow_is(t, i);
            if depth == 0 && (c == stop || closing) {
                i
            } else if c == '(' || c == '[' || c == '{' || c == '<' {
                scan_type(t, i + 1, depth + 1, stop)
            } else if closing {
                scan_type(t, i + 1, depth - 1, stop)
            } else {
                scan_type(t, i + 1, depth, stop)
            }
        },
    }
}

fn scan_body(t: &Vec<Token>, i: usize, depth: usize) -> (r: Option<usize>)
    requires
        i <= t@.len(),
        depth <= i,
    ensures
        match r {
            Some(j) => body_end(t@, i as int, depth as nat) == Some(j as int),
            None => body_end(t@, i as int, depth as nat) is None,
        },
    decreases t@.len() - i,
{
    proof {
        lemma_body_end_bounds(t@, i as int, depth as nat);
    }
    if i >= t.len() {
        None
    } else if punct_is(t, i, '{') {
        scan_body(t, i + 1, depth + 1)
    } else if punct_is(t, i, '}') {
        if depth == 0 {
            Some(i + 1)
        } else {
            scan_body(t, i + 1, depth - 1)
        }
    } else {
        scan_body(t, i + 1, depth)
    }
}

fn parse_variants(s: &Vec<char>, t: &Vec<Token>, i: usize) -> (r: Result<(Vec<Vec<char>>, usize), (usize, Expected)>)
    requires
        lexed(s@, t@),
        i <= t@.len(),
    ensures
        match r {
            Ok((vs, j)) => variant_list(s@, t@, i as int) == Ok::<(Seq<Seq<char>>, int), (int, Expected)>(
                (names_view(vs@), j as int),
            ),
            Err((p, x)) => variant_list(s@, t@, i as int) == Err::<(Seq<Seq<char>>, int), (int, Expected)>(
                (p as int, x),
            ),
        },
    decreases t@.len() - i,
{
    if !name_is(s, t, i) {
        return Err((i, Expected::Name));
    }
    let w = token_text(s, t, i);
    let closed = if punct_is(t, i + 1, ']') {
        Some(i + 2)
    } else if !punct_is(t, i + 1, ',') {
        return Err((i + 1, Expected::CommaOrCloseBracket));
    } else if punct_is(t, i + 2, ']') {
        Some(i + 3)
    } else {
        None
    };
    match closed {
        Some(j) => {
            let mut vs: Vec<Vec<char>> = Vec::new();
            vs.push(w);
            assert(names_view(vs@) =~= seq![w@]);
            Ok((vs, j))
        },
        None => match parse_variants(s, t, i + 2) {
            Ok((rest, j)) => {
                let ghost tail = rest@;
                let mut vs = rest;
                vs.insert(0, w);
                assert(names_view(vs@) =~= seq![w@] + names_view(tail));
                Ok((vs, j))
            },
            Err(x) => Err(x),
        },
    }
}

fn parse_params(s: &Vec<char>, t: &Vec<Token>, i: usize) -> (r: Result<(Vec<Param>, usize), (usize, Expected)>)
    requires
        lexed(s@, t@),
        i <= t@.len(),
    ensures
        match r {
            Ok((ps, j)) => param_list(s@, t@, i as int) == Ok::<(Seq<ParamView>, int), (int, Expected)>(
                (params_view(ps@), j as int),
            ),
            Err((p, x)) => param_list(s@, t@, i as int) == Err::<(Seq<ParamView>, int), (int, Expected)>(
                (p as int, x),
            ),
        },
    decreases t@.len() - i,
{
    if punct_is(t, i, ')') {
        let ps: Vec<Param> = Vec::new();
        assert(params_view(ps@) =~= seq![]);
        return Ok((ps, i + 1));
    }
    if !punct_is(t, i, ',') {
        return Err((i, Expected::CommaOrCloseParen));
    }
    if punct_is(t, i + 1, ')') {
        let ps: Vec<Param> = Vec::new();
        assert(params_view(ps@) =~= seq![]);
        return Ok((ps, i + 2));
    }
    if !name_is(s, t, i + 1) {
        return Err((i + 1, Expected::Name));
    }
    if !punct_is(t, i + 2, ':') {
        return Err((i + 2, Expected::Colon));
    }
    let e = scan_type(t, i + 3, 0, ',');
    proof {
        lemma_type_end_bounds(t@, i + 3, 0, ',');
    }
    if e <= i + 3 {
        return Err((i + 3, Expected::Type));
    }
    let p = Param { binding: token_text(s, t, i + 1), ty: text_span(s, t, i + 3, e) };
    match parse_params(s, t, e) {
        Ok((rest, j)) => {
            let ghost tail = rest@;
            let mut ps = rest;
            ps.insert(0, p);
            assert(params_view(ps@) =~= seq![p@] + params_view(tail));
            Ok((ps, j))
        },
        Err(x) => Err(x),
    }
}

fn parse_ret(s: &Vec<char>, t: &Vec<Token>, i: usize) -> (r: Result<(Option<Vec<char>>, usize), (usize, Expected)>)
    requires
        lexed(s@, t@),
        i <= t@.len(),
    ensures
        match r {
            Ok((rt, j)) => ret_type(s@, t@, i as int) == Ok::<(Option<Seq<char>>, int), (int, Expected)>(
                (opt_view(rt), j as int),
            ) && j <= t@.len(),
            Err((p, x)) => ret_type(s@, t@, i as int) == Err::<(Option<Seq<char>>, int), (int, Expected)>(
                (p as int, x),
            ),
        },
{
    if punct_is(t, i, '-') && arrow_is(t, i + 1) {
        let e = scan_type(t, i + 2, 0, '{');
        proof {
            lemma_type_end_bounds(t@, i + 2, 0, '{');
        }
        if e <= i + 2 {
            Err((i + 2, Expected::Type))
        } else {
            Ok((Some(text_span(s, t, i + 2, e)), e))
        }
    } else {
        Ok((None, i))
    }
}

fn parse_body(t: &Vec<Token>, i: usize) -> (r: Result<usize, (usize, Expected)>)
    requires
        i <= t@.len(),
    ensures
        match r {
            Ok(j) => body(t@, i as int) == Ok::<int, (int, Expected)>(j as int),
            Err((p, x)) => body(t@, i as int) == Err::<int, (int, Expected)>((p as int, x)),
        },
{
    if !punct_is(t, i, '{') {
        return Err((i, Expected::Body));
    }
    match scan_body(t, i + 1, 0) {
        Some(j) => Ok(j),
        None => Err((t.len(), Expected::CloseBrace)),
    }
}

fn lifetime_is(t: &Vec<Token>, i: usize) -> (r: bool)
    ensures
        r == lifetime_at(t@, i as int),
{
    punct_is(t, i, '\'') && i + 1 < t.len() && t[i + 1].kind == TokKind::Word && t[i].end == t[i + 1].start
}

fn parse_stub(s: &Vec<char>, t: &Vec<Token>, i: usize) -> (r: Result<(MethodStub, usize), (usize, Expected)>)
    requires
        lexed(s@, t@),
        i <= t@.len(),
    ensures
        match r {
            Ok((m, j)) => stub(s@, t@, i as int) == Ok::<(StubView, int), (int, Expected)>((m@, j as int)),
            Err((p, x)) => stub(s@, t@, i as int) == Err::<(StubView, int), (int, Expected)>((p as int, x)),
        },
{
    let kw_fn = vec!['f', 'n'];
    let kw_mut = vec!['m', 'u', 't'];
    let kw_self = vec!['s', 'e', 'l', 'f'];
    assert(kw_fn@ =~= fn_word());
    assert(kw_mut@ =~= mut_word());
    assert(kw_self@ =~= self_word());
    let k = if keyword_is(s, t, i, &kw_fn) {
        i + 1
    } else {
        i
    };
    if !name_is(s, t, k) {
        return Err((k, Expected::Name));
    }
    if !punct_is(t, k + 1, '(') {
        return Err((k + 1, Expected::OpenParen));
    }
    if !punct_is(t, k + 2, '&') {
        return Err((k + 2, Expected::Receiver));
    }
    let lt = lifetime_is(t, k + 3);
    let q = if lt {
        k + 5
    } else {
        k + 3
    };
    let m = keyword_is(s, t, q, &kw_mut);
    let r = if m {
        q + 1
    } else {
        q
    };
    if !keyword_is(s, t, r, &kw_self) {
        return Err((r, Expected::Receiver));
    }
    let name = token_text(s, t, k);
    let lifetime = if lt {
        Some(token_text(s, t, k + 4))
    } else {
        None
    };
    proof {
        lemma_param_list_bounds(s@, t@, r + 1);
    }
    let (params, j) = match parse_params(s, t, r + 1) {
        Ok(x) => x,
        Err(x) => return Err(x),
    };
    let (ret, j2) = match parse_ret(s, t, j) {
        Ok(x) => x,
        Err(x) => return Err(x),
    };
    match parse_body(t, j2) {
        Ok(j3) => Ok((MethodStub { name, lifetime, mutable: m, params, ret }, j3)),
        Err(x) => Err(x),
    }
}

fn parse_stubs(s: &Vec<char>, t: &Vec<Token>, i: usize) -> (r: Result<Vec<MethodStub>, (usize, Expected)>)
    requires
        lexed(s@, t@),
        i <= t@.len(),
    ensures
        match r {
            Ok(ms) => stub_list(s@, t@, i as int) == Ok::<Seq<StubView>, (int, Expected)>(stubs_view(ms@)),
            Err((p, x)) => stub_list(s@, t@, i as int) == Err::<Seq<StubView>, (int, Expected)>((p as int, x)),
        },
    decreases t@.len() - i,
{
    if i >= t.len() {
        let ms: Vec<MethodStub> = Vec::new();
        assert(stubs_view(ms@) =~= seq![]);
        return Ok(ms);
    }
    proof {
        lemma_stub_bounds(s@, t@, i as int);
    }
    let (m, j) = match parse_stub(s, t, i) {
        Ok(x) => x,
        Err(x) => return Err(x),
    };
    if j >= t.len() {
        let mut ms: Vec<MethodStub> = Vec::new();
        ms.push(m);
        assert(stubs_view(ms@) =~= seq![m@]);
        return Ok(ms);
    }
    if !punct_is(t, j, ',') {
        return Err((j, Expected::Comma));
    }
    match parse_stubs(s, t, j + 1) {
        Ok(rest) => {
            let ghost tail = rest@;
            let mut ms = rest;
            ms.insert(0, m);
            assert(stubs_view(ms@) =~= seq![m@] + stubs_view(tail));
            Ok(ms)
        },
        Err(x) => Err(x),
    }
}

fn same_chars(a: &Vec<char>, b: &Vec<char>) -> (r: bool)
    ensures
        r == (a@ == b@),
{
    if a.len() != b.len() {
        return false;
    }
    let mut k: usize = 0;
    while k < a.len()
        invariant
            a@.len() == b@.len(),
            k <= a@.len(),
            forall|p: int| 0 <= p < k ==> a@[p] == b@[p],
        decreases a@.len() - k,
    {
        if a[k] != b[k] {
            return false;
        }
        k = k + 1;
    }
    assert(a@ =~= b@);
    true
}

/// The first variant that repeats an earlier one, if any.
fn find_dup(vs: &Vec<Vec<char>>) -> (r: Option<usize>)
    ensures
        match r {
            Some(b) => is_first_dup(names_view(vs@), b as int),
            None => !has_dup(names_view(vs@)),
        },
{
    let ghost v = names_view(vs@);
    let mut b: usize = 0;
    while b < vs.len()
        invariant
            v == names_view(vs@),
            b <= vs@.len(),
            forall|x: int, y: int| 0 <= x < y < b ==> v[x] != v[y],
        decreases vs@.len() - b,
    {
        let mut a: usize = 0;
        while a < b
            invariant
                v == names_view(vs@),
                a <= b < vs@.len(),
                forall|x: int| 0 <= x < a ==> v[x] != v[b as int],
                forall|x: int, y: int| 0 <= x < y < b ==> v[x] != v[y],
            decreases b - a,
        {
            if same_chars(&vs[a], &vs[b]) {
                assert(v[a as int] == v[b as int]);
                assert(is_first_dup(v, b as int));
                return Some(b);
            }
            a = a + 1;
        }
        b = b + 1;
    }
    None
}

proof fn lemma_first_dup_unique(vs: Seq<Seq<char>>, b: int)
    requires
        is_first_dup(vs, b),
    ensures
        first_dup(vs) == b,
{
    let c = first_dup(vs);
    assert(is_first_dup(vs, c));
    if c < b {
        let a = choose|a: int| 0 <= a < c && vs[a] == vs[c];
        assert(vs[a] != vs[c]);
    } else if b < c {
        let a = choose|a: int| 0 <= a < b && vs[a] == vs[b];
        assert(vs[a] != vs[b]);
    }
}

/// Parses the tokens `t` of `s` as a directive.
pub fn parse_tokens(s: &Vec<char>, t: &Vec<Token>) -> (r: Result<WrapperSpec, ParseError>)
    requires
        lexed(s@, t@),
    ensures
        parsed_as(s@, t@, r),
{
    let r = parse_tokens_at(s, t);
    match r {
        Ok(w) => Ok(w),
        Err((p, x)) => {
            proof {
                if p < t@.len() {
                    assert(token_ok(s@, t@[p as int]));
                }
            }
            let offset = if p < t.len() {
                t[p].start
            } else {
                s.len()
            };
            Err(ParseError { token: p, offset, expected: x })
        },
    }
}

fn parse_tokens_at(s: &Vec<char>, t: &Vec<Token>) -> (r: Result<WrapperSpec, (usize, Expected)>)
    requires
        lexed(s@, t@),
    ensures
        match r {
            Ok(w) => directive(s@, t@) == Ok::<SpecView, (int, Expected)>(w@),
            Err((p, x)) => directive(s@, t@) == Err::<SpecView, (int, Expected)>((p as int, x)),
        },
{
    if !name_is(s, t, 0) {
        return Err((0, Expected::Name));
    }
    if !punct_is(t, 1, ',') {
        return Err((1, Expected::Comma));
    }
    if !punct_is(t, 2, '[') {
        return Err((2, Expected::OpenBracket));
    }
    proof {
        lemma_variant_list_bounds(s@, t@, 3);
    }
    let (variants, j) = match parse_variants(s, t, 3) {
        Ok(x) => x,
        Err(x) => return Err(x),
    };
    match find_dup(&variants) {
        Some(b) => {
            proof {
                lemma_first_dup_unique(names_view(variants@), b as int);
            }
            return Err((3 + 2 * b, Expected::DistinctVariant));
        },
        None => {},
    }
    if !punct_is(t, j, ',') {
        return Err((j, Expected::Comma));
    }
    let stubs = match parse_stubs(s, t, j + 1) {
        Ok(x) => x,
        Err(x) => return Err(x),
    };
    Ok(WrapperSpec { name: token_text(s, t, 0), variants, stubs })
}

} // verus!
