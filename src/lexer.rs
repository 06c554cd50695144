//! Splits directive text into identifier-like words (raw `r#...` words
//! included), string and character literals, and single punctuation
//! characters, skipping whitespace.
use vstd::prelude::*;

verus! {

/// The class of a token.
#[derive(Clone, Copy, Debug, PartialEq, Eq, Structural)]
pub enum TokKind {
    /// A maximal run of word characters.
    Word,
    /// `r#` followed by a maximal run of word characters.
    RawWord,
    /// A string literal `"..."` or a character literal `'.'`, escapes included.
    Literal,
    /// Any other non-whitespace character, on its own.
    Punct(char),
}

/// A token: its class and the half-open range of characters it covers.
#[derive(Clone, Copy, Debug, PartialEq, Eq, Structural)]
pub struct Token {
    pub kind: TokKind,
    pub start: usize,
    pub end: usize,
}

/// Whether `c` has the Unicode property XID_Start.
pub uninterp spec fn xid_start(c: char) -> bool;

/// Whether `c` has the Unicode property XID_Continue.
pub uninterp spec fn xid_continue(c: char) -> bool;

pub open spec fn is_ascii_char(c: char) -> bool {
    c <= '\u{7f}'
}

pub open spec fn is_ascii_letter(c: char) -> bool {
    ('a' <= c && c <= 'z') || ('A' <= c && c <= 'Z')
}

/// A character that may continue an identifier: XID_Continue, which on ASCII
/// is exactly the letters, the digits and `_`.
pub open spec fn is_word_char(c: char) -> bool {
    if is_ascii_char(c) {
        is_ascii_letter(c) || ('0' <= c && c <= '9') || c == '_'
    } else {
        xid_continue(c)
    }
}

/// A character that may start an identifier: XID_Start or `_`. On ASCII,
/// XID_Start is exactly the letters.
pub open spec fn is_ident_start(c: char) -> bool {
    if is_ascii_char(c) {
        is_ascii_letter(c) || c == '_'
    } else {
        xid_start(c)
    }
}

/// Relies on `unicode_ident::is_xid_start`: whether `c` is XID_Start (its
/// ASCII table holds exactly the letters).
#[verifier::external_body]
fn unicode_start(c: char) -> (r: bool)
    ensures
        r == xid_start(c),
        is_ascii_char(c) ==> (r <==> is_ascii_letter(c)),
{
    unicode_ident::is_xid_start(c)
}

/// Relies on `unicode_ident::is_xid_continue`: whether `c` is XID_Continue
/// (its ASCII table holds exactly the letters, the digits and `_`).
#[verifier::external_body]
fn unicode_continue(c: char) -> (r: bool)
    ensures
        r == xid_continue(c),
        is_ascii_char(c) ==> (r <==> (is_ascii_letter(c) || ('0' <= c && c <= '9') || c == '_')),
{
    unicode_ident::is_xid_continue(c)
}

/// Whether `c` may start an identifier.
pub fn ident_start(c: char) -> (r: bool)
    ensures
        r == is_ident_start(c),
{
    if c <= '\u{7f}' {
        ('a' <= c && c <= 'z') || ('A' <= c && c <= 'Z') || c == '_'
    } else {
        unicode_start(c)
    }
}

/// The characters from `a` up to `b` are word characters, and the run ends
/// at `b`.
pub open spec fn word_run(s: Seq<char>, a: int, b: int) -> bool {
    &&& forall|p: int| a <= p < b ==> is_word_char(#[trigger] s[p])
    &&& (b == s.len() || !is_word_char(s[b]))
}

/// At `i` stands `r#` followed by a word character: a raw identifier.
pub open spec fn raw_prefix_at(s: Seq<char>, i: int) -> bool {
    &&& 0 <= i
    &&& i + 2 < s.len()
    &&& s[i] == 'r'
    &&& s[i + 1] == '#'
    &&& is_word_char(s[i + 2])
}

pub open spec fn is_space(c: char) -> bool {
    c == ' ' || c == '\t' || c == '\n' || c == '\r'
}

/// Where the blank stretch before token `k` begins (the end of token `k - 1`).
pub open spec fn gap_start(t: Seq<Token>, k: int) -> int {
    if k == 0 {
        0
    } else {
        t[k - 1].end as int
    }
}

/// Where the blank stretch before token `k` ends (the start of token `k`, or
/// the end of the text after the last token).
pub open spec fn gap_end(s: Seq<char>, t: Seq<Token>, k: int) -> int {
    if k == t.len() {
        s.len() as int
    } else {
        t[k].start as int
    }
}

pub open spec fn gap_blank(s: Seq<char>, t: Seq<Token>, k: int) -> bool {
    &&& gap_start(t, k) <= gap_end(s, t, k)
    &&& forall|p: int| gap_start(t, k) <= p < gap_end(s, t, k) ==> is_space(#[trigger] s[p])
}

/// Token `tok` is a correct token of `s`.
pub open spec fn token_ok(s: Seq<char>, tok: Token) -> bool {
    &&& tok.start < tok.end <= s.len()
    &&& match tok.kind {
        TokKind::Word => {
            &&& word_run(s, tok.start as int, tok.end as int)
            &&& !raw_prefix_at(s, tok.start as int)
        },
        TokKind::RawWord => {
            &&& raw_prefix_at(s, tok.start as int)
            &&& tok.start + 2 < tok.end
            &&& word_run(s, tok.start + 2, tok.end as int)
        },
        TokKind::Literal => if s[tok.start as int] == '"' {
            tok.end == string_end(s, tok.start + 1)
        } else {
            s[tok.start as int] == '\'' && char_end(s, tok.start as int) == Some(tok.end as int)
        },
        TokKind::Punct(c) => {
            &&& tok.end == tok.start + 1
            &&& s[tok.start as int] == c
            &&& !is_word_char(c)
            &&& !is_space(c)
            &&& c != '"'
            &&& !(c == '\'' && char_end(s, tok.start as int) is Some)
        },
    }
}

/// The end of a string literal whose contents start at `i`: just past the
/// closing `"`, with each `\` escaping the character after it; the end of
/// the text when the literal is not closed.
pub open spec fn string_end(s: Seq<char>, i: int) -> int
    decreases s.len() - i,
{
    if i < 0 || i >= s.len() {
        s.len() as int
    } else if s[i] == '\\' {
        if i + 1 >= s.len() {
            s.len() as int
        } else {
            string_end(s, i + 2)
        }
    } else if s[i] == '"' {
        i + 1
    } else {
        string_end(s, i + 1)
    }
}

/// Just past the first `'` at or after `i`, if there is one.
pub open spec fn quote_after(s: Seq<char>, i: int) -> Option<int>
    decreases s.len() - i,
{
    if i < 0 || i >= s.len() {
        None
    } else if s[i] == '\'' {
        Some(i + 1)
    } else {
        quote_after(s, i + 1)
    }
}

/// The end of the character literal that starts with the `'` at `i`, if one
/// does: an escape `'\...'`, or one character other than `'` between two
/// quotes. Any other `'` (as in a lifetime) is punctuation.
pub open spec fn char_end(s: Seq<char>, i: int) -> Option<int> {
    if i + 1 >= s.len() {
        None
    } else if s[i + 1] == '\\' {
        quote_after(s, i + 3)
    } else if i + 2 < s.len() && s[i + 2] == '\'' && s[i + 1] != '\'' {
        Some(i + 3)
    } else {
        None
    }
}

pub proof fn lemma_string_end_bounds(s: Seq<char>, i: int)
    requires
        0 <= i <= s.len(),
    ensures
        i <= string_end(s, i) <= s.len(),
    decreases s.len() - i,
{
    if i < s.len() {
        if s[i] == '\\' && i + 1 < s.len() {
            lemma_string_end_bounds(s, i + 2);
        } else if s[i] != '"' {
            lemma_string_end_bounds(s, i + 1);
        }
    }
}

pub proof fn lemma_quote_after_bounds(s: Seq<char>, i: int)
    requires
        0 <= i,
    ensures
        quote_after(s, i) matches Some(j) ==> i < j <= s.len(),
    decreases s.len() - i,
{
    if i < s.len() && s[i] != '\'' {
        lemma_quote_after_bounds(s, i + 1);
    }
}

fn scan_string(s: &Vec<char>, i: usize) -> (j: usize)
    requires
        i <= s@.len(),
    ensures
        j == string_end(s@, i as int),
{
    let n = s.len();
    let mut k: usize = i;
    while k < n
        invariant
            n == s@.len(),
            i <= k <= n,
            string_end(s@, i as int) == string_end(s@, k as int),
        decreases n - k,
    {
        if s[k] == '\\' {
            if k + 1 >= n {
                return n;
            }
            k = k + 2;
        } else if s[k] == '"' {
            return k + 1;
        } else {
            k = k + 1;
        }
    }
    n
}

fn scan_quote(s: &Vec<char>, i: usize) -> (r: Option<usize>)
    requires
        i <= s@.len(),
    ensures
        match r {
            Some(j) => quote_after(s@, i as int) == Some(j as int),
            None => quote_after(s@, i as int) is None,
        },
{
    let n = s.len();
    let mut k: usize = i;
    while k < n
        invariant
            n == s@.len(),
            i <= k <= n,
            quote_after(s@, i as int) == quote_after(s@, k as int),
        decreases n - k,
    {
        if s[k] == '\'' {
            return Some(k + 1);
        }
        k = k + 1;
    }
    None
}

fn char_literal_end(s: &Vec<char>, i: usize) -> (r: Option<usize>)
    requires
        i < s@.len(),
    ensures
        match r {
            Some(j) => char_end(s@, i as int) == Some(j as int),
            None => char_end(s@, i as int) is None,
        },
{
    let n = s.len();
    if i + 1 >= n {
        None
    } else if s[i + 1] == '\\' {
        if i + 2 >= n {
            None
        } else {
            scan_quote(s, i + 3)
        }
    } else if i + 2 < n && s[i + 2] == '\'' && s[i + 1] != '\'' {
        Some(i + 3)
    } else {
        None
    }
}

/// `t` is the token sequence of `s`: every token is correct, tokens come in
/// order, and everything between them is whitespace. This determines `t`.
pub open spec fn lexed(s: Seq<char>, t: Seq<Token>) -> bool {
    &&& forall|k: int| 0 <= k < t.len() ==> token_ok(s, #[trigger] t[k])
    &&& forall|k: int| 0 <= k <= t.len() ==> #[trigger] gap_blank(s, t, k)
}

/// `t` are the tokens of `s` before position `i`, and what follows the last
/// of them up to `i` is whitespace.
pub open spec fn lexed_upto(s: Seq<char>, t: Seq<Token>, i: int) -> bool {
    &&& forall|k: int| 0 <= k < t.len() ==> token_ok(s, #[trigger] t[k])
    &&& forall|k: int| 0 <= k < t.len() ==> #[trigger] gap_blank(s, t, k)
    &&& gap_start(t, t.len() as int) <= i
    &&& forall|p: int| gap_start(t, t.len() as int) <= p < i ==> is_space(#[trigger] s[p])
}

proof fn lemma_lexed_push(s: Seq<char>, t: Seq<Token>, tok: Token)
    requires
        lexed_upto(s, t, tok.start as int),
        token_ok(s, tok),
    ensures
        lexed_upto(s, t.push(tok), tok.end as int),
{
    let u = t.push(tok);
    assert forall|k: int| 0 <= k < u.len() implies #[trigger] gap_blank(s, u, k) by {
        if k < t.len() {
            assert(gap_blank(s, t, k));
            assert(u[k] == t[k]);
            if k > 0 {
                assert(u[k - 1] == t[k - 1]);
            }
        } else {
            if k > 0 {
                assert(u[k - 1] == t[k - 1]);
            }
        }
    }
    assert forall|k: int| 0 <= k < u.len() implies token_ok(s, #[trigger] u[k]) by {
        if k < t.len() {
            assert(u[k] == t[k]);
        }
    }
}

/// The token sequence of `s` (there is exactly one: see
/// `lemma_lexed_unique`).
pub open spec fn tokens_of(s: Seq<char>) -> Seq<Token> {
    choose|t: Seq<Token>| lexed(s, t)
}

pub open spec fn prefix_eq(t1: Seq<Token>, t2: Seq<Token>, k: int) -> bool {
    &&& 0 <= k <= t1.len()
    &&& k <= t2.len()
    &&& forall|j: int| 0 <= j < k ==> t1[j] == t2[j]
}

proof fn lemma_lexed_step(s: Seq<char>, t1: Seq<Token>, t2: Seq<Token>, k: int)
    requires
        lexed(s, t1),
        lexed(s, t2),
        prefix_eq(t1, t2, k),
    ensures
        k < t1.len() <==> k < t2.len(),
        k < t1.len() ==> t1[k] == t2[k],
{
    assert(gap_blank(s, t1, k));
    assert(gap_blank(s, t2, k));
    if k > 0 {
        assert(t1[k - 1] == t2[k - 1]);
    }
    if k < t1.len() {
        assert(token_ok(s, t1[k]));
        let st = t1[k].start as int;
        assert(!is_space(s[st]));
    }
    if k < t2.len() {
        assert(token_ok(s, t2[k]));
        let st = t2[k].start as int;
        assert(!is_space(s[st]));
    }
    if k < t1.len() && k < t2.len() {
        let a = t1[k];
        let b = t2[k];
        assert(!is_space(s[a.start as int]));
        assert(!is_space(s[b.start as int]));
        assert(a.start == b.start);
        let st = a.start as int;
        if is_word_char(s[st]) {
            if raw_prefix_at(s, st) {
                assert(a.kind == TokKind::RawWord && b.kind == TokKind::RawWord);
            } else {
                assert(a.kind == TokKind::Word && b.kind == TokKind::Word);
            }
            if a.end < b.end {
                assert(is_word_char(s[a.end as int]));
            }
            if b.end < a.end {
                assert(is_word_char(s[b.end as int]));
            }
        } else {
            assert(a.kind != TokKind::Word && a.kind != TokKind::RawWord);
            assert(b.kind != TokKind::Word && b.kind != TokKind::RawWord);
        }
    }
}

proof fn lemma_lexed_prefix(s: Seq<char>, t1: Seq<Token>, t2: Seq<Token>, k: int)
    requires
        lexed(s, t1),
        lexed(s, t2),
        0 <= k <= t1.len(),
    ensures
        prefix_eq(t1, t2, k),
    decreases k,
{
    if k > 0 {
        lemma_lexed_prefix(s, t1, t2, k - 1);
        lemma_lexed_step(s, t1, t2, k - 1);
    }
}

/// A text has one token sequence.
pub proof fn lemma_lexed_unique(s: Seq<char>, t1: Seq<Token>, t2: Seq<Token>)
    requires
        lexed(s, t1),
        lexed(s, t2),
    ensures
        t1 == t2,
{
    lemma_lexed_prefix(s, t1, t2, t1.len() as int);
    lemma_lexed_step(s, t1, t2, t1.len() as int);
    assert(t1 =~= t2);
}

pub fn word_char(c: char) -> (r: bool)
    ensures
        r == is_word_char(c),
{
    if c <= '\u{7f}' {
        ('a' <= c && c <= 'z') || ('A' <= c && c <= 'Z') || ('0' <= c && c <= '9') || c == '_'
    } else {
        unicode_continue(c)
    }
}

pub fn space_char(c: char) -> (r: bool)
    ensures
        r == is_space(c),
{
    c == ' ' || c == '\t' || c == '\n' || c == '\r'
}

/// The end of the run of word characters that starts at `i`.
fn scan_word(s: &Vec<char>, i: usize) -> (j: usize)
    requires
        i < s@.len(),
        is_word_char(s@[i as int]),
    ensures
        i < j <= s@.len(),
        word_run(s@, i as int, j as int),
{
    let n = s.len();
    let mut j: usize = i + 1;
    while j < n && word_char(s[j])
        invariant
            n == s@.len(),
            i < j <= n,
            forall|p: int| i <= p < j ==> is_word_char(#[trigger] s@[p]),
        decreases n - j,
    {
        j = j + 1;
    }
    j
}

/// Splits `s` into its tokens.
pub fn tokenize(s: &Vec<char>) -> (r: Vec<Token>)
    ensures
        lexed(s@, r@),
        r@ == tokens_of(s@),
{
    let n = s.len();
    let mut toks: Vec<Token> = Vec::new();
    let mut i: usize = 0;
    while i < n
        invariant
            n == s@.len(),
            i <= n,
            lexed_upto(s@, toks@, i as int),
        decreases n - i,
    {
        let c = s[i];
        if space_char(c) {
            i = i + 1;
        } else {
            let tok = if word_char(c) {
                if n - i > 2 && c == 'r' && s[i + 1] == '#' && word_char(s[i + 2]) {
                    Token { kind: TokKind::RawWord, start: i, end: scan_word(s, i + 2) }
                } else {
                    Token { kind: TokKind::Word, start: i, end: scan_word(s, i) }
                }
            } else if c == '"' {
                proof {
                    lemma_string_end_bounds(s@, i + 1);
                }
                Token { kind: TokKind::Literal, start: i, end: scan_string(s, i + 1) }
            } else if c == '\'' {
                match char_literal_end(s, i) {
                    Some(e) => {
                        proof {
                            if s@[i + 1] == '\\' {
                                lemma_quote_after_bounds(s@, i + 3);
                            }
                        }
                        Token { kind: TokKind::Literal, start: i, end: e }
                    },
                    None => Token { kind: TokKind::Punct(c), start: i, end: i + 1 },
                }
            } else {
                Token { kind: TokKind::Punct(c), start: i, end: i + 1 }
            };
            i = tok.end;
            proof {
                lemma_lexed_push(s@, toks@, tok);
            }
            toks.push(tok);
        }
    }
    assert(gap_blank(s@, toks@, toks@.len() as int));
    proof {
        assert(lexed(s@, toks@));
        lemma_lexed_unique(s@, toks@, tokens_of(s@));
    }
    toks
}

} // verus!
