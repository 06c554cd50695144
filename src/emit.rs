//! Renders a parsed directive as Rust source: a tagged union with one case
//! per variant, and one `async` forwarding method per stub whose body is an
//! exhaustive `match` over the cases.
use vstd::prelude::*;
use vstd::string::*;
use crate::parser::{ParamView, StubView, SpecView, MethodStub, WrapperSpec, names_view};

verus! {

/// Joins pieces of text in order.
pub open spec fn concat(xs: Seq<Seq<char>>) -> Seq<char>
    decreases xs.len(),
{
    if xs.len() == 0 {
        seq![]
    } else {
        concat(xs.drop_last()) + xs.last()
    }
}

/// The case of the union that holds a value of type `v`, named `v`.
pub open spec fn case_line(v: Seq<char>) -> Seq<char> {
    "    "@ + v + "("@ + v + "),\n"@
}

pub open spec fn case_lines(vs: Seq<Seq<char>>) -> Seq<Seq<char>> {
    vs.map_values(|v: Seq<char>| case_line(v))
}

/// The type definition: the union, one case per variant, in order.
pub open spec fn type_text(w: SpecView) -> Seq<char> {
    "pub enum "@ + w.name + " {\n"@ + concat(case_lines(w.variants)) + "}\n"@
}

pub open spec fn param_decl(p: ParamView) -> Seq<char> {
    ", "@ + p.binding + ": "@ + p.ty
}

pub open spec fn param_decls(ps: Seq<ParamView>) -> Seq<Seq<char>> {
    ps.map_values(|p: ParamView| param_decl(p))
}

/// The receiver as declared: `&`, the lifetime if any, `mut` if any, `self`.
pub open spec fn receiver_text(m: StubView) -> Seq<char> {
    "&"@ + match m.lifetime {
        Some(l) => "'"@ + l + " "@,
        None => seq![],
    } + if m.mutable {
        "mut "@
    } else {
        seq![]
    } + "self"@
}

pub open spec fn ret_text(m: StubView) -> Seq<char> {
    match m.ret {
        Some(r) => " -> "@ + r,
        None => seq![],
    }
}

/// The forwarding method's header: the stub's own name, receiver,
/// parameters and return type.
pub open spec fn header_text(m: StubView) -> Seq<char> {
    "    pub async fn "@ + m.name + "("@ + receiver_text(m) + concat(param_decls(m.params)) + ")"@
        + ret_text(m) + " {\n"@
}

/// The bindings that a forwarding call passes on, in declaration order.
pub open spec fn bindings(ps: Seq<ParamView>) -> Seq<Seq<char>> {
    ps.map_values(|p: ParamView| p.binding)
}

/// Items separated by `", "`.
pub open spec fn comma_list(xs: Seq<Seq<char>>) -> Seq<char>
    decreases xs.len(),
{
    if xs.len() == 0 {
        seq![]
    } else if xs.len() == 1 {
        xs[0]
    } else {
        comma_list(xs.drop_last()) + ", "@ + xs.last()
    }
}

/// The match arm for case `v`: call the held value's own method with the
/// forwarded bindings and await it.
pub open spec fn arm_line(v: Seq<char>, m: StubView) -> Seq<char> {
    "            Self::"@ + v + "(inner) => inner."@ + m.name + "("@ + comma_list(bindings(m.params))
        + ").await,\n"@
}

pub open spec fn arm_lines(vs: Seq<Seq<char>>, m: StubView) -> Seq<Seq<char>> {
    vs.map_values(|v: Seq<char>| arm_line(v, m))
}

/// One forwarding method: its header, then a match with one arm per variant
/// and no other arm.
pub open spec fn method_text(vs: Seq<Seq<char>>, m: StubView) -> Seq<char> {
    header_text(m) + "        match self {\n"@ + concat(arm_lines(vs, m)) + "        }\n    }\n"@
}

pub open spec fn method_texts(w: SpecView) -> Seq<Seq<char>> {
    w.stubs.map_values(|m: StubView| method_text(w.variants, m))
}

/// The whole generated source: the type, then an `impl` block holding the
/// forwarding methods in stub order.
pub open spec fn source_text(w: SpecView) -> Seq<char> {
    type_text(w) + "impl "@ + w.name + " {\n"@ + concat(method_texts(w)) + "}\n"@
}

/// The generated artifact: the type definition, and one method definition per
/// stub.
pub struct GeneratedArtifact {
    pub type_definition: Vec<char>,
    pub method_definitions: Vec<Vec<char>>,
}

pub fn push_str(out: &mut Vec<char>, lit: &str)
    ensures
        final(out)@ == old(out)@ + lit@,
{
    let n = lit.unicode_len();
    let mut i: usize = 0;
    while i < n
        invariant
            n == lit@.len(),
            i <= n,
            out@ == old(out)@ + lit@.subrange(0, i as int),
        decreases n - i,
    {
        out.push(lit.get_char(i));
        assert(out@ =~= old(out)@ + lit@.subrange(0, i + 1));
        i = i + 1;
    }
    assert(lit@.subrange(0, n as int) =~= lit@);
}

pub fn push_chars(out: &mut Vec<char>, v: &Vec<char>)
    ensures
        final(out)@ == old(out)@ + v@,
{
    let mut i: usize = 0;
    while i < v.len()
        invariant
            i <= v@.len(),
            out@ == old(out)@ + v@.subrange(0, i as int),
        decreases v@.len() - i,
    {
        out.push(v[i]);
        assert(out@ =~= old(out)@ + v@.subrange(0, i + 1));
        i = i + 1;
    }
    assert(v@.subrange(0, v@.len() as int) =~= v@);
}

proof fn lemma_concat_push(xs: Seq<Seq<char>>, i: int)
    requires
        0 <= i < xs.len(),
    ensures
        concat(xs.take(i + 1)) == concat(xs.take(i)) + xs[i],
{
    assert(xs.take(i + 1).drop_last() =~= xs.take(i));
}

proof fn lemma_comma_list_push(xs: Seq<Seq<char>>, i: int)
    requires
        0 < i < xs.len(),
    ensures
        comma_list(xs.take(i + 1)) == comma_list(xs.take(i)) + ", "@ + xs[i],
{
    assert(xs.take(i + 1).drop_last() =~= xs.take(i));
}

/// The type definition of `w`.
pub fn emit_type(w: &WrapperSpec) -> (r: Vec<char>)
    ensures
        r@ == type_text(w@),
{
    let mut out: Vec<char> = Vec::new();
    push_str(&mut out, "pub enum ");
    push_chars(&mut out, &w.name);
    push_str(&mut out, " {\n");
    let ghost head = out@;
    let ghost lines = case_lines(w@.variants);
    let mut i: usize = 0;
    while i < w.variants.len()
        invariant
            i <= w.variants@.len(),
            lines == case_lines(w@.variants),
            lines.len() == w.variants@.len(),
            out@ == head + concat(lines.take(i as int)),
        decreases w.variants@.len() - i,
    {
        let v = &w.variants[i];
        assert(lines[i as int] == case_line(v@));
        push_str(&mut out, "    ");
        push_chars(&mut out, v);
        push_str(&mut out, "(");
        push_chars(&mut out, v);
        push_str(&mut out, "),\n");
        proof {
            lemma_concat_push(lines, i as int);
        }
        i = i + 1;
    }
    assert(lines.take(lines.len() as int) =~= lines);
    push_str(&mut out, "}\n");
    out
}

/// The bindings that the forwarding call for `m` passes on, in order.
pub fn forward_plan(m: &MethodStub) -> (r: Vec<Vec<char>>)
    ensures
        names_view(r@) == bindings(m@.params),
{
    let mut r: Vec<Vec<char>> = Vec::new();
    let mut i: usize = 0;
    while i < m.params.len()
        invariant
            i <= m.params@.len(),
            names_view(r@) == bindings(m@.params).take(i as int),
        decreases m.params@.len() - i,
    {
        let mut b: Vec<char> = Vec::new();
        push_chars(&mut b, &m.params[i].binding);
        assert(bindings(m@.params)[i as int] == b@);
        let ghost old_r = r@;
        r.push(b);
        assert(names_view(r@) =~= names_view(old_r).push(b@));
        assert(bindings(m@.params).take(i + 1) =~= bindings(m@.params).take(i as int).push(b@));
        i = i + 1;
    }
    assert(bindings(m@.params).take(i as int) =~= bindings(m@.params));
    r
}

/// The argument list of a forwarding call: the bindings of `m`, in order,
/// separated by commas.
fn call_args(m: &MethodStub) -> (r: Vec<char>)
    ensures
        r@ == comma_list(bindings(m@.params)),
{
    let ghost bs = bindings(m@.params);
    let mut out: Vec<char> = Vec::new();
    let mut i: usize = 0;
    while i < m.params.len()
        invariant
            i <= m.params@.len(),
            bs == bindings(m@.params),
            bs.len() == m.params@.len(),
            out@ == comma_list(bs.take(i as int)),
        decreases m.params@.len() - i,
    {
        let b = &m.params[i].binding;
        assert(bs[i as int] == b@);
        if i == 0 {
            assert(bs.take(1).len() == 1);
            assert(bs.take(1)[0] == b@);
            assert(out@ =~= seq![]);
        } else {
            push_str(&mut out, ", ");
            proof {
                lemma_comma_list_push(bs, i as int);
            }
        }
        push_chars(&mut out, b);
        assert(i == 0 ==> out@ =~= comma_list(bs.take(1)));
        i = i + 1;
    }
    assert(bs.take(i as int) =~= bs);
    out
}

fn emit_header(m: &MethodStub) -> (r: Vec<char>)
    ensures
        r@ == header_text(m@),
{
    let mut out: Vec<char> = Vec::new();
    push_str(&mut out, "    pub async fn ");
    push_chars(&mut out, &m.name);
    push_str(&mut out, "(");
    push_str(&mut out, "&");
    match &m.lifetime {
        Some(l) => {
            push_str(&mut out, "'");
            push_chars(&mut out, l);
            push_str(&mut out, " ");
        },
        None => {},
    }
    if m.mutable {
        push_str(&mut out, "mut ");
    }
    push_str(&mut out, "self");
    let ghost head = out@;
    let ghost ds = param_decls(m@.params);
    let mut i: usize = 0;
    while i < m.params.len()
        invariant
            i <= m.params@.len(),
            ds == param_decls(m@.params),
            ds.len() == m.params@.len(),
            out@ == head + concat(ds.take(i as int)),
        decreases m.params@.len() - i,
    {
        let p = &m.params[i];
        assert(ds[i as int] == param_decl(p@));
        push_str(&mut out, ", ");
        push_chars(&mut out, &p.binding);
        push_str(&mut out, ": ");
        push_chars(&mut out, &p.ty);
        proof {
            lemma_concat_push(ds, i as int);
        }
        i = i + 1;
    }
    assert(ds.take(i as int) =~= ds);
    push_str(&mut out, ")");
    match &m.ret {
        Some(rt) => {
            push_str(&mut out, " -> ");
            push_chars(&mut out, rt);
        },
        None => {},
    }
    push_str(&mut out, " {\n");
    out
}

/// The forwarding method for `m` over the variants `vs`.
pub fn emit_method(vs: &Vec<Vec<char>>, m: &MethodStub) -> (r: Vec<char>)
    ensures
        r@ == method_text(names_view(vs@), m@),
{
    let mut out = emit_header(m);
    push_str(&mut out, "        match self {\n");
    let args = call_args(m);
    let ghost head = out@;
    let ghost arms = arm_lines(names_view(vs@), m@);
    let mut i: usize = 0;
    while i < vs.len()
        invariant
            i <= vs@.len(),
            arms == arm_lines(names_view(vs@), m@),
            arms.len() == vs@.len(),
            args@ == comma_list(bindings(m@.params)),
            out@ == head + concat(arms.take(i as int)),
        decreases vs@.len() - i,
    {
        let v = &vs[i];
        assert(arms[i as int] == arm_line(v@, m@));
        push_str(&mut out, "            Self::");
        push_chars(&mut out, v);
        push_str(&mut out, "(inner) => inner.");
        push_chars(&mut out, &m.name);
        push_str(&mut out, "(");
        push_chars(&mut out, &args);
        push_str(&mut out, ").await,\n");
        proof {
            lemma_concat_push(arms, i as int);
        }
        i = i + 1;
    }
    assert(arms.take(i as int) =~= arms);
    push_str(&mut out, "        }\n    }\n");
    out
}

/// The artifact for `w`: its type definition and its forwarding methods.
pub fn emit(w: &WrapperSpec) -> (a: GeneratedArtifact)
    ensures
        a.type_definition@ == type_text(w@),
        names_view(a.method_definitions@) == method_texts(w@),
{
    let type_definition = emit_type(w);
    let mut methods: Vec<Vec<char>> = Vec::new();
    let mut i: usize = 0;
    while i < w.stubs.len()
        invariant
            i <= w.stubs@.len(),
            names_view(methods@) == method_texts(w@).take(i as int),
        decreases w.stubs@.len() - i,
    {
        let text = emit_method(&w.variants, &w.stubs[i]);
        assert(method_texts(w@)[i as int] == text@);
        let ghost before = methods@;
        methods.push(text);
        assert(names_view(methods@) =~= names_view(before).push(text@));
        assert(method_texts(w@).take(i + 1) =~= method_texts(w@).take(i as int).push(text@));
        i = i + 1;
    }
    assert(method_texts(w@).take(i as int) =~= method_texts(w@));
    GeneratedArtifact { type_definition, method_definitions: methods }
}

/// The source text for `w`: the type, then an `impl` block with the
/// forwarding methods.
pub fn emit_source(w: &WrapperSpec) -> (r: Vec<char>)
    ensures
        r@ == source_text(w@),
{
    let a = emit(w);
    let mut out = a.type_definition;
    push_str(&mut out, "impl ");
    push_chars(&mut out, &w.name);
    push_str(&mut out, " {\n");
    let ghost head = out@;
    let ghost ms = method_texts(w@);
    let mut i: usize = 0;
    while i < a.method_definitions.len()
        invariant
            i <= a.method_definitions@.len(),
            ms == method_texts(w@),
            ms == names_view(a.method_definitions@),
            out@ == head + concat(ms.take(i as int)),
        decreases a.method_definitions@.len() - i,
    {
        assert(ms[i as int] == a.method_definitions@[i as int]@);
        push_chars(&mut out, &a.method_definitions[i]);
        proof {
            lemma_concat_push(ms, i as int);
        }
        i = i + 1;
    }
    assert(ms.take(i as int) =~= ms);
    push_str(&mut out, "}\n");
    out
}

/// The generated type has exactly one case per variant, named after it and
/// holding a value of its type, in declaration order.
pub proof fn lemma_one_case_per_variant(w: SpecView)
    requires
        w.variants.len() >= 1,
    ensures
        type_text(w) == "pub enum "@ + w.name + " {\n"@ + concat(case_lines(w.variants)) + "}\n"@,
        case_lines(w.variants).len() == w.variants.len(),
        forall|k: int| 0 <= k < w.variants.len() ==> #[trigger] case_lines(w.variants)[k] == "    "@
            + w.variants[k] + "("@ + w.variants[k] + "),\n"@,
{
}

/// A forwarding call passes exactly the non-receiver parameters' bindings,
/// in declaration order, and every arm of the method passes the same list.
pub proof fn lemma_forwarded_bindings(vs: Seq<Seq<char>>, m: StubView)
    ensures
        bindings(m.params).len() == m.params.len(),
        forall|k: int| 0 <= k < m.params.len() ==> #[trigger] bindings(m.params)[k] == m.params[k].binding,
        forall|k: int| 0 <= k < vs.len() ==> #[trigger] arm_lines(vs, m)[k] == "            Self::"@ + vs[k]
            + "(inner) => inner."@ + m.name + "("@ + comma_list(bindings(m.params)) + ").await,\n"@,
{
}

/// Every generated method matches on all variants, one arm each in
/// declaration order, and has no other arm.
pub proof fn lemma_match_exhaustive(w: SpecView, j: int)
    requires
        0 <= j < w.stubs.len(),
    ensures
        method_texts(w).len() == w.stubs.len(),
        method_texts(w)[j] == header_text(w.stubs[j]) + "        match self {\n"@ + concat(
            arm_lines(w.variants, w.stubs[j]),
        ) + "        }\n    }\n"@,
        arm_lines(w.variants, w.stubs[j]).len() == w.variants.len(),
        forall|k: int| 0 <= k < w.variants.len() ==> #[trigger] arm_lines(w.variants, w.stubs[j])[k] == arm_line(
            w.variants[k],
            w.stubs[j],
        ),
{
}

/// A directive with no stubs gives the type and an empty `impl` block.
pub proof fn lemma_no_stubs(w: SpecView)
    requires
        w.stubs.len() == 0,
    ensures
        method_texts(w).len() == 0,
        source_text(w) == type_text(w) + "impl "@ + w.name + " {\n"@ + "}\n"@,
{
    assert(concat(method_texts(w)) =~= seq![]);
}

} // verus!
