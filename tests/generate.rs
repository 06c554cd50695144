use static_wrapper::emit::{emit, emit_method, forward_plan};
use static_wrapper::{define_wrapper, parse, Expected, ParseError};

fn text(v: &Vec<char>) -> String {
    v.iter().collect()
}

fn err_of(input: &str) -> ParseError {
    match define_wrapper(input) {
        Ok(out) => panic!("unexpected output: {}", out),
        Err(e) => e,
    }
}

#[test]
fn end_to_end_two_variants_two_methods() {
    let out = define_wrapper(
        "W, [One, Two], add(&self, a: i32, b: i32) -> i32 {}, label(&self, n: String) {},",
    )
    .unwrap();
    let expected = "pub enum W {\n    One(One),\n    Two(Two),\n}\nimpl W {\n    pub async fn add(&self, a: i32, b: i32) -> i32 {\n        match self {\n            Self::One(inner) => inner.add(a, b).await,\n            Self::Two(inner) => inner.add(a, b).await,\n        }\n    }\n    pub async fn label(&self, n: String) {\n        match self {\n            Self::One(inner) => inner.label(n).await,\n            Self::Two(inner) => inner.label(n).await,\n        }\n    }\n}\n";
    assert_eq!(out, expected);
}

#[test]
fn playground_directive_with_fn_keyword() {
    let out = define_wrapper(
        "Wrapper,\n [One, Two],\n fn add(&self, one: i32, two: i32) -> i32 {},\n fn say_hello(&self, name: String) {},\n fn call_to_get_code(&self, url: String) -> i32 {},\n",
    )
    .unwrap();
    assert!(out.starts_with("pub enum Wrapper {\n    One(One),\n    Two(Two),\n}\nimpl Wrapper {\n"));
    assert!(out.contains("    pub async fn call_to_get_code(&self, url: String) -> i32 {\n"));
    assert!(out.contains("            Self::Two(inner) => inner.say_hello(name).await,\n"));
    assert!(out.contains("            Self::One(inner) => inner.add(one, two).await,\n"));
}

#[test]
fn empty_stub_list_gives_no_methods() {
    let out = define_wrapper("W, [V1, V2],").unwrap();
    assert_eq!(out, "pub enum W {\n    V1(V1),\n    V2(V2),\n}\nimpl W {\n}\n");
    let spec = parse("W, [V1, V2],").unwrap();
    let art = emit(&spec);
    assert_eq!(art.method_definitions.len(), 0);
    assert_eq!(text(&art.type_definition), "pub enum W {\n    V1(V1),\n    V2(V2),\n}\n");
}

#[test]
fn space_inside_identifier_is_rejected() {
    let e = err_of("Wrapper, [On e], add(&self)->i32 {},");
    assert_eq!(e, ParseError { token: 4, offset: 13, expected: Expected::CommaOrCloseBracket });
}

#[test]
fn generation_is_deterministic() {
    let input = "W, [A, B, C], f(&self, x: u8) -> u8 {}, g(&mut self) {},";
    let a = define_wrapper(input).unwrap();
    let b = define_wrapper(input).unwrap();
    assert_eq!(a, b);
    assert_eq!(err_of("W, [A B]"), err_of("W, [A B]"));
}

#[test]
fn one_case_per_variant_in_order() {
    let spec = parse("Big, [Zeta, Alpha, Mid], f(&self) {},").unwrap();
    let art = emit(&spec);
    let ty = text(&art.type_definition);
    let lines: Vec<&str> = ty.lines().collect();
    assert_eq!(
        lines,
        vec!["pub enum Big {", "    Zeta(Zeta),", "    Alpha(Alpha),", "    Mid(Mid),", "}"]
    );
}

#[test]
fn single_variant_with_trailing_comma() {
    let out = define_wrapper("Solo, [Only,], f(&self) -> bool {},").unwrap();
    assert!(out.starts_with("pub enum Solo {\n    Only(Only),\n}\n"));
    assert!(out.contains("            Self::Only(inner) => inner.f().await,\n"));
}

#[test]
fn forwarded_bindings_follow_declaration_order() {
    let spec = parse("W, [A], f(&self, z: u8, a: Vec<u8>, m: (i32, i32)) {},").unwrap();
    let plan = forward_plan(&spec.stubs[0]);
    let names: Vec<String> = plan.iter().map(|b| text(b)).collect();
    assert_eq!(names, vec!["z", "a", "m"]);
    let method = text(&emit_method(&spec.variants, &spec.stubs[0]));
    assert!(method.contains("inner.f(z, a, m).await"));
    assert!(method.starts_with("    pub async fn f(&self, z: u8, a: Vec<u8>, m: (i32, i32)) {\n"));
}

#[test]
fn generic_types_keep_their_commas() {
    let spec = parse("W, [A], put(&mut self, m: HashMap<String, Vec<u8>>, f: impl Fn(u8) -> u8) -> Result<(), E> {},")
        .unwrap();
    let stub = &spec.stubs[0];
    assert!(stub.mutable);
    assert_eq!(stub.params.len(), 2);
    assert_eq!(text(&stub.params[0].ty), "HashMap<String, Vec<u8>>");
    assert_eq!(text(&stub.params[1].ty), "impl Fn(u8) -> u8");
    assert_eq!(text(stub.ret.as_ref().unwrap()), "Result<(), E>");
}

#[test]
fn every_method_matches_all_variants() {
    let spec = parse("W, [A, B, C], f(&self) {}, g(&self, x: u8) -> u8 {}").unwrap();
    let art = emit(&spec);
    assert_eq!(art.method_definitions.len(), 2);
    for m in &art.method_definitions {
        let t = text(m);
        assert_eq!(t.matches(" => ").count(), 3);
        assert!(t.contains("Self::A(inner)"));
        assert!(t.contains("Self::B(inner)"));
        assert!(t.contains("Self::C(inner)"));
        assert!(!t.contains("_ =>"));
    }
}

#[test]
fn body_contents_are_ignored() {
    let out = define_wrapper("W, [A], f(&self) { let x = { 1 }; },").unwrap();
    assert!(out.contains("            Self::A(inner) => inner.f().await,\n"));
}

#[test]
fn error_missing_name() {
    assert_eq!(err_of(""), ParseError { token: 0, offset: 0, expected: Expected::Name });
    assert_eq!(err_of("1W, [A],").expected, Expected::Name);
}

#[test]
fn error_missing_comma() {
    assert_eq!(err_of("W [A],"), ParseError { token: 1, offset: 2, expected: Expected::Comma });
    assert_eq!(err_of("W, [A]"), ParseError { token: 5, offset: 6, expected: Expected::Comma });
    assert_eq!(err_of("W, [A], f(&self) {} g(&self) {}").expected, Expected::Comma);
}

#[test]
fn error_missing_bracket() {
    assert_eq!(err_of("W, A,"), ParseError { token: 2, offset: 3, expected: Expected::OpenBracket });
}

#[test]
fn error_empty_variant_list() {
    assert_eq!(err_of("W, [],"), ParseError { token: 3, offset: 4, expected: Expected::Name });
}

#[test]
fn error_missing_open_paren() {
    assert_eq!(err_of("W, [A], f &self {},").expected, Expected::OpenParen);
}

#[test]
fn error_missing_receiver() {
    assert_eq!(err_of("W, [A], f(x: i32) {},").expected, Expected::Receiver);
    assert_eq!(err_of("W, [A], f() {},").expected, Expected::Receiver);
    assert_eq!(err_of("W, [A], f(&x) {},").expected, Expected::Receiver);
}

#[test]
fn error_bad_parameter_list() {
    assert_eq!(err_of("W, [A], f(&self x) {},").expected, Expected::CommaOrCloseParen);
    assert_eq!(err_of("W, [A], f(&self, x i32) {},").expected, Expected::Colon);
    assert_eq!(err_of("W, [A], f(&self, x: ) {},").expected, Expected::Type);
}

#[test]
fn error_bad_body() {
    assert_eq!(err_of("W, [A], f(&self) -> i32 ;").expected, Expected::Body);
    let e = err_of("W, [A], f(&self) {");
    assert_eq!(e, ParseError { token: 12, offset: 18, expected: Expected::CloseBrace });
    assert_eq!(err_of("W, [A], f(&self) -> {},").expected, Expected::Type);
}

#[test]
fn error_duplicate_variant() {
    assert_eq!(
        err_of("W, [A, B, A], f(&self) {},"),
        ParseError { token: 7, offset: 10, expected: Expected::DistinctVariant }
    );
}

#[test]
fn error_keyword_as_name() {
    assert_eq!(err_of("struct, [A],"), ParseError { token: 0, offset: 0, expected: Expected::Name });
    assert_eq!(err_of("W, [A, type],"), ParseError { token: 5, offset: 7, expected: Expected::Name });
    assert_eq!(err_of("W, [_],"), ParseError { token: 3, offset: 4, expected: Expected::Name });
    assert_eq!(err_of("W, [A], match(&self) {},").expected, Expected::Name);
    assert_eq!(err_of("W, [A], fn self(&self) {},").expected, Expected::Name);
    assert_eq!(err_of("W, [A], f(&self, _: u8) {},").expected, Expected::Name);
}

#[test]
fn keyword_prefixes_are_names() {
    let out = define_wrapper("Types, [Structure, Selfish], typed(&self, input: u8) {},").unwrap();
    assert!(out.contains("            Self::Selfish(inner) => inner.typed(input).await,\n"));
}

#[test]
fn raw_identifiers_are_names() {
    let out = define_wrapper("Types, [Structure, r#Match], typed(&self, r#in: u8) -> u8 {},").unwrap();
    assert!(out.contains("    r#Match(r#Match),\n"));
    assert!(out.contains("    pub async fn typed(&self, r#in: u8) -> u8 {\n"));
    assert!(out.contains("            Self::Structure(inner) => inner.typed(r#in).await,\n"));
    let spec = parse("r#type, [A], r#fn(&self) {},").unwrap();
    assert_eq!(text(&spec.name), "r#type");
    assert_eq!(text(&spec.stubs[0].name), "r#fn");
    assert_eq!(err_of("W, [r#self],"), ParseError { token: 3, offset: 4, expected: Expected::Name });
    assert_eq!(err_of("W, [r#_],").expected, Expected::Name);
}

#[test]
fn unicode_identifiers_are_names() {
    let out = define_wrapper("é, [A],").unwrap();
    assert_eq!(out, "pub enum é {\n    A(A),\n}\nimpl é {\n}\n");
    let spec = parse("Café, [Über, 名前, _x1], grüß(&self, größe: u8) {},").unwrap();
    let names: Vec<String> = spec.variants.iter().map(|v| text(v)).collect();
    assert_eq!(names, vec!["Über", "名前", "_x1"]);
    assert_eq!(text(&spec.stubs[0].params[0].binding), "größe");
    assert_eq!(err_of("W, [A], f(&self, \u{301}x: u8) {},").expected, Expected::Name);
    assert_eq!(err_of("W, [A, €],").expected, Expected::Name);
}

#[test]
fn receiver_with_lifetime_is_kept() {
    let out = define_wrapper("W, [A], f(&'a self, x: &'a str) -> &'a str {}, g(&'b mut self) {},").unwrap();
    assert!(out.contains("    pub async fn f(&'a self, x: &'a str) -> &'a str {\n"));
    assert!(out.contains("    pub async fn g(&'b mut self) {\n"));
    assert!(out.contains("            Self::A(inner) => inner.g().await,\n"));
    assert_eq!(err_of("W, [A], f(&' self) {},").expected, Expected::Receiver);
}

#[test]
fn braces_inside_literals_in_body_are_ignored() {
    let out = define_wrapper("W, [A], f(&self) { let s = \"}\"; let c = '}'; let e = \"\\\"}\"; },").unwrap();
    assert!(out.contains("            Self::A(inner) => inner.f().await,\n"));
    let out = define_wrapper("W, [A], f(&self) { let c = '\\''; let d = '{'; },").unwrap();
    assert!(out.contains("inner.f().await"));
}

#[test]
fn lifetimes_in_types_are_kept() {
    let spec = parse("W, [A], f(&self, x: &'a str, y: Cow<'a, [u8]>) -> &'a str {},").unwrap();
    let stub = &spec.stubs[0];
    assert_eq!(text(&stub.params[0].ty), "&'a str");
    assert_eq!(text(&stub.params[1].ty), "Cow<'a, [u8]>");
    assert_eq!(text(stub.ret.as_ref().unwrap()), "&'a str");
}

#[test]
fn error_unclosed_literal_in_body() {
    assert_eq!(err_of("W, [A], f(&self) { \"} },").expected, Expected::CloseBrace);
}
