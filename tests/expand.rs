use std::str::FromStr;

use typeunion::token::{identifier, keyword, punct, word};
use typeunion::{
    generate, parse_arguments, parse_declaration, type_union, Attribute, Delimiter, Expansion,
    Expected, ParseError, Spacing, TokenTree, UnionError, Visibility,
};

fn convert(stream: proc_macro2::TokenStream) -> Vec<TokenTree> {
    let mut out = Vec::new();
    for tree in stream {
        out.push(match tree {
            proc_macro2::TokenTree::Ident(i) => TokenTree::Ident(i.to_string()),
            proc_macro2::TokenTree::Punct(p) => TokenTree::Punct(
                p.as_char(),
                match p.spacing() {
                    proc_macro2::Spacing::Alone => Spacing::Alone,
                    proc_macro2::Spacing::Joint => Spacing::Joint,
                },
            ),
            proc_macro2::TokenTree::Literal(l) => TokenTree::Literal(l.to_string()),
            proc_macro2::TokenTree::Group(g) => TokenTree::Group(
                match g.delimiter() {
                    proc_macro2::Delimiter::Parenthesis => Delimiter::Parenthesis,
                    proc_macro2::Delimiter::Bracket => Delimiter::Bracket,
                    proc_macro2::Delimiter::Brace => Delimiter::Brace,
                    proc_macro2::Delimiter::None => Delimiter::Invisible,
                },
                convert(g.stream()),
            ),
        });
    }
    out
}

fn toks(text: &str) -> Vec<TokenTree> {
    convert(proc_macro2::TokenStream::from_str(text).unwrap())
}

fn expand(attr: &str, item: &str) -> Result<Expansion, UnionError> {
    type_union(toks(attr), toks(item))
}

fn tags(e: &Expansion) -> Vec<String> {
    e.def.variants.iter().map(|v| v.tag.clone()).collect()
}

fn injection_for<'a>(e: &'a Expansion, case: &str) -> &'a typeunion::Injection {
    e.injections.iter().find(|j| j.source == case).unwrap()
}

#[test]
fn two_cases_without_superset() {
    let e = expand("", "type Union = String + Int;").unwrap();
    assert_eq!(e.def.name, "Union");
    assert_eq!(tags(&e), vec!["String", "Int"]);
    assert!(e.def.variants.iter().all(|v| v.tag == v.payload));
    assert!(e.widening.is_none());
    assert_eq!(e.injections.len(), 2);
    let s = injection_for(&e, "String");
    assert_eq!((s.target.as_str(), s.variant.as_str()), ("Union", "String"));
    let i = injection_for(&e, "Int");
    assert_eq!((i.target.as_str(), i.variant.as_str()), ("Union", "Int"));
}

#[test]
fn widening_into_superset() {
    let sub = expand("super = SomeString", "type UniqueString = String + BoxedStr;").unwrap();
    let sup = expand("", "type SomeString = String + BoxedStr + ArcStr;").unwrap();
    assert!(sup.widening.is_none());
    let w = sub.widening.as_ref().unwrap();
    assert_eq!((w.source.as_str(), w.target.as_str()), ("UniqueString", "SomeString"));
    let arms: Vec<(String, String)> =
        w.arms.iter().map(|a| (a.from.clone(), a.to.clone())).collect();
    assert_eq!(
        arms,
        vec![
            ("String".to_string(), "String".to_string()),
            ("BoxedStr".to_string(), "BoxedStr".to_string())
        ]
    );
    // Through the subset and widened, a string lands where direct injection puts it.
    let via = injection_for(&sub, "String");
    let arm = w.arms.iter().find(|a| a.from == via.variant).unwrap();
    let direct = injection_for(&sup, "String");
    assert_eq!(w.target, direct.target);
    assert_eq!(arm.to, direct.variant);
}

#[test]
fn empty_case_list_is_rejected() {
    let r = expand("", "type Empty = ;");
    assert_eq!(
        r,
        Err(UnionError::Declaration(ParseError { pos: 3, expected: Expected::Identifier }))
    );
}

#[test]
fn superset_lacking_a_case_is_accepted() {
    let e = expand("super = Number", "type Mixed = Float + Int;").unwrap();
    let w = e.widening.unwrap();
    assert_eq!(w.target, "Number");
    assert_eq!(w.arms.len(), 2);
    assert_eq!(w.arms[0].from, "Float");
    assert_eq!(w.arms[0].to, "Float");
}

#[test]
fn declarations_expand_independently() {
    let good_alone = expand("", "type A = X + Y;").unwrap();
    let bad = expand("", "type B = X + ;");
    let good = expand("", "type A = X + Y;").unwrap();
    assert_eq!(
        bad,
        Err(UnionError::Declaration(ParseError { pos: 5, expected: Expected::Identifier }))
    );
    assert_eq!(good, good_alone);
}

#[test]
fn order_changes_only_variant_order() {
    let ab = expand("super = S", "type U = A + B;").unwrap();
    let ba = expand("super = S", "type U = B + A;").unwrap();
    assert_eq!(tags(&ab), vec!["A", "B"]);
    assert_eq!(tags(&ba), vec!["B", "A"]);
    for case in ["A", "B"] {
        assert_eq!(injection_for(&ab, case), injection_for(&ba, case));
        let wa = ab.widening.as_ref().unwrap().arms.iter().find(|a| a.from == case).unwrap();
        let wb = ba.widening.as_ref().unwrap().arms.iter().find(|a| a.from == case).unwrap();
        assert_eq!(wa, wb);
    }
}

#[test]
fn injection_per_case_with_its_own_tag() {
    let e = expand("", "type U = A + B + C;").unwrap();
    let sources: Vec<&str> = e.injections.iter().map(|j| j.source.as_str()).collect();
    assert_eq!(sources, vec!["A", "B", "C"]);
    for j in &e.injections {
        assert_eq!(j.variant, j.source);
        assert_eq!(j.target, "U");
    }
}

#[test]
fn single_case() {
    let e = expand("", "type One = A;").unwrap();
    assert_eq!(tags(&e), vec!["A"]);
    assert_eq!(e.injections.len(), 1);
}

#[test]
fn attributes_and_visibility_pass_through() {
    let e = expand("", "#[derive(Debug, PartialEq)] #[doc = \"x\"] pub(crate) type U = A + B;")
        .unwrap();
    assert_eq!(e.def.attrs.len(), 2);
    assert_eq!(e.def.attrs[0].body, toks("derive(Debug, PartialEq)"));
    assert_eq!(e.def.attrs[1].body, toks("doc = \"x\""));
    assert_eq!(e.def.vis, Visibility::Restricted(toks("crate")));
    let p = expand("", "pub type U = A;").unwrap();
    assert_eq!(p.def.vis, Visibility::Public);
    let i = expand("", "type U = A;").unwrap();
    assert_eq!(i.def.vis, Visibility::Inherited);
    let r = expand("", "pub(in crate::m) type U = A;").unwrap();
    assert_eq!(r.def.vis, Visibility::Restricted(toks("in crate::m")));
}

#[test]
fn declaration_errors() {
    let err = |item: &str| parse_declaration(toks(item)).unwrap_err();
    assert_eq!(err("# x type A = B;"), ParseError { pos: 1, expected: Expected::Bracket });
    assert_eq!(err("#"), ParseError { pos: 1, expected: Expected::Bracket });
    assert_eq!(err("struct A = B;"), ParseError { pos: 0, expected: Expected::TypeKeyword });
    assert_eq!(err("pub(foo) type A = B;"), ParseError { pos: 1, expected: Expected::TypeKeyword });
    assert_eq!(err(""), ParseError { pos: 0, expected: Expected::TypeKeyword });
    assert_eq!(err("type type = B;"), ParseError { pos: 1, expected: Expected::Identifier });
    assert_eq!(err("type A B;"), ParseError { pos: 2, expected: Expected::Equals });
    assert_eq!(err("type A = B C;"), ParseError { pos: 4, expected: Expected::PlusOrSemicolon });
    assert_eq!(err("type A = B"), ParseError { pos: 4, expected: Expected::PlusOrSemicolon });
    assert_eq!(err("type A = B + self;"), ParseError { pos: 5, expected: Expected::Identifier });
    assert_eq!(err("type A = B; x"), ParseError { pos: 5, expected: Expected::End });
}

#[test]
fn argument_clause() {
    assert_eq!(parse_arguments(toks("")).unwrap().superset, None);
    assert_eq!(parse_arguments(toks("super = S")).unwrap().superset, Some("S".to_string()));
    let err = |attr: &str| parse_arguments(toks(attr)).unwrap_err();
    assert_eq!(err("S"), ParseError { pos: 0, expected: Expected::End });
    assert_eq!(err("super S"), ParseError { pos: 1, expected: Expected::Equals });
    assert_eq!(err("super"), ParseError { pos: 1, expected: Expected::Equals });
    assert_eq!(err("super ="), ParseError { pos: 2, expected: Expected::Identifier });
    assert_eq!(err("super = fn"), ParseError { pos: 2, expected: Expected::Identifier });
    assert_eq!(err("super = S T"), ParseError { pos: 3, expected: Expected::End });
}

#[test]
fn argument_error_comes_first() {
    let r = expand("super", "type = ;");
    assert_eq!(r, Err(UnionError::Arguments(ParseError { pos: 1, expected: Expected::Equals })));
}

#[test]
fn duplicate_cases_are_passed_through() {
    let e = expand("", "type U = A + A;").unwrap();
    assert_eq!(tags(&e), vec!["A", "A"]);
}

#[test]
fn generate_keeps_declaration_parts() {
    let d = parse_declaration(toks("#[a] type U = A + B;")).unwrap();
    let a = parse_arguments(toks("super = V")).unwrap();
    let e = generate(d, a);
    assert_eq!(e.def.attrs, vec![Attribute { body: toks("a") }]);
    assert_eq!(e.widening.unwrap().source, "U");
}

#[test]
fn token_predicates() {
    let t = toks("type Foo r#type + ;");
    assert!(word(&t[0], "type"));
    assert!(!identifier(&t[0]));
    assert!(identifier(&t[1]));
    assert!(identifier(&t[2]));
    assert!(punct(&t[3], '+'));
    assert!(!punct(&t[4], '+'));
    assert!(keyword(&"crate".to_string()));
    assert!(keyword(&"_".to_string()));
    assert!(!keyword(&"Crate".to_string()));
}

#[test]
fn declaration_error_positions() {
    let err = |item: &str| parse_declaration(toks(item)).unwrap_err();
    assert_eq!(err("type U = A + B"), ParseError { pos: 6, expected: Expected::PlusOrSemicolon });
    assert_eq!(err("type U A + B;"), ParseError { pos: 2, expected: Expected::Equals });
    assert_eq!(err("type Empty = ;"), ParseError { pos: 3, expected: Expected::Identifier });
    assert_eq!(err("#[a] pub type Empty = ;"), ParseError { pos: 6, expected: Expected::Identifier });
    assert_eq!(err("type U = A B;"), ParseError { pos: 4, expected: Expected::PlusOrSemicolon });
    assert_eq!(err("type U = A + ;"), ParseError { pos: 5, expected: Expected::Identifier });
    assert_eq!(
        err("type U = Vec<u8> + A;"),
        ParseError { pos: 4, expected: Expected::PlusOrSemicolon }
    );
}

#[test]
fn restricted_visibility_needs_a_path_after_in() {
    let err = |item: &str| parse_declaration(toks(item)).unwrap_err();
    assert_eq!(err("pub(in 1) type U = A;"), ParseError { pos: 1, expected: Expected::TypeKeyword });
    assert_eq!(err("pub(in a::) type U = A;"), ParseError { pos: 1, expected: Expected::TypeKeyword });
    let e = expand("", "pub(in ::a::b) type U = A;").unwrap();
    assert_eq!(e.def.vis, Visibility::Restricted(toks("in ::a::b")));
    let s = expand("", "pub(super) type U = A;").unwrap();
    assert_eq!(s.def.vis, Visibility::Restricted(toks("super")));
}

#[test]
fn empty_invisible_group_is_no_visibility() {
    let mut item = vec![TokenTree::Group(Delimiter::Invisible, Vec::new())];
    item.extend(toks("type U = A;"));
    let e = type_union(Vec::new(), item).unwrap();
    assert_eq!(e.def.vis, Visibility::Elided(Vec::new()));
    let mut full = vec![TokenTree::Group(Delimiter::Invisible, toks("x"))];
    full.extend(toks("type U = A;"));
    assert_eq!(
        parse_declaration(full).unwrap_err(),
        ParseError { pos: 0, expected: Expected::TypeKeyword }
    );
}
