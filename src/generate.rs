//! The whole pass: directive text in, generated source text out.
use vstd::prelude::*;
use vstd::string::*;
use crate::lexer::{tokenize, tokens_of};
use crate::parser::{directive, offset_of, parse_tokens, parsed_as, Expected, ParseError, WrapperSpec};
use crate::emit::{emit_source, source_text};

verus! {

/// What generation gives for directive text `s`: the source text of the
/// parsed directive, or the failing token's index and the expected class.
pub open spec fn generated(s: Seq<char>) -> Result<Seq<char>, (int, Expected)> {
    match directive(s, tokens_of(s)) {
        Ok(w) => Ok(source_text(w)),
        Err(e) => Err(e),
    }
}

/// The characters of `s`, in order.
pub fn chars_of(s: &str) -> (r: Vec<char>)
    ensures
        r@ == s@,
{
    let n = s.unicode_len();
    let mut r: Vec<char> = Vec::new();
    let mut i: usize = 0;
    while i < n
        invariant
            n == s@.len(),
            i <= n,
            r@ == s@.subrange(0, i as int),
        decreases n - i,
    {
        r.push(s.get_char(i));
        assert(r@ =~= s@.subrange(0, i + 1));
        i = i + 1;
    }
    assert(s@.subrange(0, n as int) =~= s@);
    r
}

/// Relies on `String::from_iter`: the string holds the given characters in
/// order.
#[verifier::external_body]
fn string_of(v: Vec<char>) -> (r: String)
    ensures
        r@ == v@,
{
    String::from_iter(v)
}

/// Parses directive text.
pub fn parse(input: &str) -> (r: Result<WrapperSpec, ParseError>)
    ensures
        parsed_as(input@, tokens_of(input@), r),
{
    let s = chars_of(input);
    let t = tokenize(&s);
    parse_tokens(&s, &t)
}

/// Generates the wrapper type and its forwarding methods from directive
/// text. A malformed directive gives an error and no output.
pub fn define_wrapper(input: &str) -> (r: Result<String, ParseError>)
    ensures
        match r {
            Ok(out) => generated(input@) == Ok::<Seq<char>, (int, Expected)>(out@),
            Err(e) => {
                &&& generated(input@) == Err::<Seq<char>, (int, Expected)>((e.token as int, e.expected))
                &&& e.offset == offset_of(input@, tokens_of(input@), e.token as int)
            },
        },
{
    match parse(input) {
        Ok(w) => Ok(string_of(emit_source(&w))),
        Err(e) => Err(e),
    }
}

/// Generation is deterministic: the same directive text always gives the same
/// output, character for character, or the same error.
pub proof fn lemma_generation_deterministic(a: Seq<char>, b: Seq<char>)
    requires
        a == b,
    ensures
        generated(a) == generated(b),
{
}

} // verus!
