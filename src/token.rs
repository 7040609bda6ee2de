//! The token trees that declarations are read from.
use vstd::prelude::*;

verus! {

/// The kinds of bracket that delimit a group of tokens.
#[derive(Clone, Copy, Debug, PartialEq, Eq)]
pub enum Delimiter {
    Parenthesis,
    Bracket,
    Brace,
    Invisible,
}

/// Whether a punctuation character is joined to the one that follows it.
#[derive(Clone, Copy, Debug, PartialEq, Eq)]
pub enum Spacing {
    Alone,
    Joint,
}

/// One token tree: an identifier or keyword, a punctuation character, a
/// literal as written, or a delimited group of token trees.
#[derive(Debug, PartialEq, Eq)]
pub enum TokenTree {
    Ident(String),
    Punct(char, Spacing),
    Literal(String),
    Group(Delimiter, Vec<TokenTree>),
}

/// The words that cannot stand as an identifier.
pub open spec fn is_keyword(s: Seq<char>) -> bool {
    ||| s == "_"@ ||| s == "abstract"@ ||| s == "as"@ ||| s == "async"@
    ||| s == "await"@ ||| s == "become"@ ||| s == "box"@ ||| s == "break"@
    ||| s == "const"@ ||| s == "continue"@ ||| s == "crate"@ ||| s == "do"@
    ||| s == "dyn"@ ||| s == "else"@ ||| s == "enum"@ ||| s == "ex"@ + "tern"@
    ||| s == "false"@ ||| s == "final"@ ||| s == "fn"@ ||| s == "for"@
    ||| s == "if"@ ||| s == "impl"@ ||| s == "in"@ ||| s == "let"@
    ||| s == "loop"@ ||| s == "macro"@ ||| s == "match"@ ||| s == "mod"@
    ||| s == "move"@ ||| s == "mut"@ ||| s == "override"@ ||| s == "priv"@
    ||| s == "pub"@ ||| s == "ref"@ ||| s == "return"@ ||| s == "Self"@
    ||| s == "self"@ ||| s == "static"@ ||| s == "struct"@ ||| s == "super"@
    ||| s == "trait"@ ||| s == "true"@ ||| s == "try"@ ||| s == "type"@
    ||| s == "typeof"@ ||| s == "unsafe"@ ||| s == "unsized"@ ||| s == "use"@
    ||| s == "virtual"@ ||| s == "where"@ ||| s == "while"@ ||| s == "yield"@
}

/// `t` is the identifier or keyword `w`.
pub open spec fn is_word(t: TokenTree, w: Seq<char>) -> bool {
    t is Ident && t->Ident_0@ == w
}

/// `t` is the punctuation character `c`, joined to the next or not.
pub open spec fn is_punct(t: TokenTree, c: char) -> bool {
    t is Punct && t->Punct_0 == c
}

/// `t` is an identifier that is no keyword.
pub open spec fn is_identifier(t: TokenTree) -> bool {
    t is Ident && !is_keyword(t->Ident_0@)
}

/// `t` is a group delimited by `d`.
pub open spec fn is_group(t: TokenTree, d: Delimiter) -> bool {
    t is Group && t->Group_0 == d
}

fn same_text(s: &String, w: &str) -> (r: bool)
    ensures
        r == (s@ == w@),
{
    let w = String::from_str(w);
    *s == w
}

/// Whether the token is the identifier or keyword `w`.
pub fn word(t: &TokenTree, w: &str) -> (r: bool)
    ensures
        r == is_word(*t, w@),
{
    match t {
        TokenTree::Ident(s) => same_text(s, w),
        _ => false,
    }
}

/// Whether the token is the punctuation character `c`.
pub fn punct(t: &TokenTree, c: char) -> (r: bool)
    ensures
        r == is_punct(*t, c),
{
    match t {
        TokenTree::Punct(p, _) => *p == c,
        _ => false,
    }
}

/// Whether the token is a group delimited by `d`.
pub fn group(t: &TokenTree, d: Delimiter) -> (r: bool)
    ensures
        r == is_group(*t, d),
{
    match t {
        TokenTree::Group(g, _) => match (g, d) {
            (Delimiter::Parenthesis, Delimiter::Parenthesis) => true,
            (Delimiter::Bracket, Delimiter::Bracket) => true,
            (Delimiter::Brace, Delimiter::Brace) => true,
            (Delimiter::Invisible, Delimiter::Invisible) => true,
            _ => false,
        },
        _ => false,
    }
}

/// Whether the text is a keyword.
pub fn keyword(s: &String) -> (r: bool)
    ensures
        r == is_keyword(s@),
{
    let tern = String::from_str("ex").concat("tern");
    same_text(s, "_") || same_text(s, "abstract") || same_text(s, "as") || same_text(s, "async")
        || same_text(s, "await") || same_text(s, "become") || same_text(s, "box")
        || same_text(s, "break") || same_text(s, "const") || same_text(s, "continue")
        || same_text(s, "crate") || same_text(s, "do") || same_text(s, "dyn")
        || same_text(s, "else") || same_text(s, "enum") || *s == tern
        || same_text(s, "false") || same_text(s, "final") || same_text(s, "fn")
        || same_text(s, "for") || same_text(s, "if") || same_text(s, "impl")
        || same_text(s, "in") || same_text(s, "let") || same_text(s, "loop")
        || same_text(s, "macro") || same_text(s, "match") || same_text(s, "mod")
        || same_text(s, "move") || same_text(s, "mut") || same_text(s, "override")
        || same_text(s, "priv") || same_text(s, "pub") || same_text(s, "ref")
        || same_text(s, "return") || same_text(s, "Self") || same_text(s, "self")
        || same_text(s, "static") || same_text(s, "struct") || same_text(s, "super")
        || same_text(s, "trait") || same_text(s, "true") || same_text(s, "try")
        || same_text(s, "type") || same_text(s, "typeof") || same_text(s, "unsafe")
        || same_text(s, "unsized") || same_text(s, "use") || same_text(s, "virtual")
        || same_text(s, "where") || same_text(s, "while") || same_text(s, "yield")
}

/// Whether the token is an identifier that is no keyword.
pub fn identifier(t: &TokenTree) -> (r: bool)
    ensures
        r == is_identifier(*t),
{
    match t {
        TokenTree::Ident(s) => !keyword(s),
        _ => false,
    }
}

} // verus!
