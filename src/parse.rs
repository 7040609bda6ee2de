//! Reading the argument clause and the declaration from token trees.
use vstd::prelude::*;
use crate::token::{
    group, identifier, is_group, is_identifier, is_keyword, is_punct, is_word, punct, word,
    Delimiter, TokenTree,
};

verus! {

/// One outer attribute `#[...]`, kept as the tokens inside its brackets.
#[derive(Debug, PartialEq, Eq)]
pub struct Attribute {
    pub body: Vec<TokenTree>,
}

/// The visibility in front of a declaration.
#[derive(Debug, PartialEq, Eq)]
pub enum Visibility {
    /// No visibility written.
    Inherited,
    /// `pub`.
    Public,
    /// `pub(...)`, with the tokens inside the parentheses.
    Restricted(Vec<TokenTree>),
    /// No visibility, written as an empty invisible group (what a macro's
    /// `$vis` leaves when it matched nothing), kept with its contents.
    Elided(Vec<TokenTree>),
}

/// A parsed declaration `type Name = A + B + ...;` with what stands before it.
#[derive(Debug, PartialEq, Eq)]
pub struct Declaration {
    pub attrs: Vec<Attribute>,
    pub vis: Visibility,
    pub name: String,
    pub cases: Vec<String>,
}

/// The parsed argument clause: the superset named by `super = S`, if any.
#[derive(Debug, PartialEq, Eq)]
pub struct Arguments {
    pub superset: Option<String>,
}

/// What the parser looked for where it failed.
#[derive(Clone, Copy, Debug, PartialEq, Eq)]
pub enum Expected {
    /// A bracketed group after `#`.
    Bracket,
    /// The keyword `type`.
    TypeKeyword,
    /// An identifier that is no keyword.
    Identifier,
    /// The punctuation `=`.
    Equals,
    /// `+` or `;` after a case.
    PlusOrSemicolon,
    /// The end of the input.
    End,
}

/// A syntax error: the index of the top-level token where the grammar was not
/// met (the input's length where it ended too early), and what was expected.
#[derive(Clone, Copy, Debug, PartialEq, Eq)]
pub struct ParseError {
    pub pos: usize,
    pub expected: Expected,
}

/// What a top-level token must be at one place of a grammar.
pub enum Shape {
    /// An identifier or keyword with this text.
    Word(Seq<char>),
    /// This punctuation character, joined to the next or not.
    Punct(char),
    /// Exactly this token tree.
    Tree(TokenTree),
}

pub open spec fn fits(t: TokenTree, s: Shape) -> bool {
    match s {
        Shape::Word(w) => is_word(t, w),
        Shape::Punct(c) => is_punct(t, c),
        Shape::Tree(x) => t == x,
    }
}

/// The tokens fit the shapes one for one.
pub open spec fn fits_all(toks: Seq<TokenTree>, shape: Seq<Shape>) -> bool {
    &&& toks.len() == shape.len()
    &&& forall|i: int| 0 <= i < toks.len() ==> fits(#[trigger] toks[i], shape[i])
}

/// Reading attributes from index `p` on: the index after the last one, or
/// the error at a `#` that no bracketed group follows.
pub open spec fn attrs_scan(toks: Seq<TokenTree>, p: int) -> Result<int, ParseError>
    decreases toks.len() - p,
{
    if 0 <= p < toks.len() && is_punct(toks[p], '#') {
        if p + 1 < toks.len() && is_group(toks[p + 1], Delimiter::Bracket) {
            attrs_scan(toks, p + 2)
        } else {
            Err(ParseError { pos: (p + 1) as usize, expected: Expected::Bracket })
        }
    } else {
        Ok(p)
    }
}

/// `t` is an empty invisible group.
pub open spec fn is_elided(t: TokenTree) -> bool {
    is_group(t, Delimiter::Invisible) && t->Group_1@.len() == 0
}

/// How many tokens the visibility at the start of `toks` takes: an empty
/// invisible group, `pub` with a restriction in parentheses, `pub` alone, or
/// nothing.
pub open spec fn vis_len(toks: Seq<TokenTree>) -> int {
    if toks.len() > 0 && is_elided(toks[0]) {
        1
    } else if toks.len() > 0 && is_word(toks[0], "pub"@) {
        if toks.len() > 1 && is_group(toks[1], Delimiter::Parenthesis) && is_restriction(
            toks[1]->Group_1@,
        ) {
            2
        } else {
            1
        }
    } else {
        0
    }
}

/// Reading cases from index `p` on: the first error met, if any, where a
/// case must be an identifier, be followed by `+` or `;`, and `;` must end
/// the input.
pub open spec fn cases_scan(toks: Seq<TokenTree>, p: int) -> Option<ParseError>
    decreases toks.len() - p,
{
    if p < 0 || p > toks.len() {
        None
    } else if !(p < toks.len() && is_identifier(toks[p])) {
        Some(ParseError { pos: p as usize, expected: Expected::Identifier })
    } else if p + 1 < toks.len() && is_punct(toks[p + 1], ';') {
        if p + 2 < toks.len() {
            Some(ParseError { pos: (p + 2) as usize, expected: Expected::End })
        } else {
            None
        }
    } else if !(p + 1 < toks.len() && is_punct(toks[p + 1], '+')) {
        Some(ParseError { pos: (p + 1) as usize, expected: Expected::PlusOrSemicolon })
    } else {
        cases_scan(toks, p + 2)
    }
}

/// The syntax error of tokens that are no declaration, once the attributes
/// and the visibility are read and `q` is the index after them.
#[verifier::opaque]
pub open spec fn head_error(toks: Seq<TokenTree>, q: int) -> ParseError {
    if !(q < toks.len() && is_word(toks[q], "type"@)) {
        ParseError { pos: q as usize, expected: Expected::TypeKeyword }
    } else if !(q + 1 < toks.len() && is_identifier(toks[q + 1])) {
        ParseError { pos: (q + 1) as usize, expected: Expected::Identifier }
    } else if !(q + 2 < toks.len() && is_punct(toks[q + 2], '=')) {
        ParseError { pos: (q + 2) as usize, expected: Expected::Equals }
    } else {
        match cases_scan(toks.skip(q + 3), 0) {
            Some(e) => ParseError { pos: (q + 3 + e.pos) as usize, expected: e.expected },
            None => ParseError { pos: 0, expected: Expected::End },
        }
    }
}

/// The syntax error of tokens that are no declaration: the first token,
/// read left to right, where the grammar is not met, and what was expected
/// there. Where the input ends too early the position is its length.
#[verifier::opaque]
pub open spec fn declaration_error(toks: Seq<TokenTree>) -> ParseError {
    match attrs_scan(toks, 0) {
        Err(e) => e,
        Ok(p) => head_error(toks, p + vis_len(toks.skip(p))),
    }
}

/// From index `i` on, `c` is a path: identifiers with `::` between each two.
pub open spec fn is_path_tail(c: Seq<TokenTree>, i: int) -> bool
    decreases c.len() - i,
{
    if 0 <= i < c.len() && c[i] is Ident {
        if i + 1 == c.len() {
            true
        } else {
            &&& i + 3 <= c.len()
            &&& is_punct(c[i + 1], ':')
            &&& is_punct(c[i + 2], ':')
            &&& is_path_tail(c, i + 3)
        }
    } else {
        false
    }
}

/// From index `i` on, `c` is a path, with or without a leading `::`.
pub open spec fn is_mod_path(c: Seq<TokenTree>, i: int) -> bool {
    if i + 1 < c.len() && is_punct(c[i], ':') && is_punct(c[i + 1], ':') {
        is_path_tail(c, i + 2)
    } else {
        is_path_tail(c, i)
    }
}

/// `c` may stand inside the parentheses of `pub(...)`: `crate`, `self`,
/// `super`, or `in` and a path.
pub open spec fn is_restriction(c: Seq<TokenTree>) -> bool {
    ||| c.len() == 1 && (is_word(c[0], "crate"@) || is_word(c[0], "self"@) || is_word(
        c[0],
        "super"@,
    ))
    ||| c.len() >= 2 && is_word(c[0], "in"@) && is_mod_path(c, 1)
}

/// `#` and a bracketed group for each attribute.
pub open spec fn attr_shape(attrs: Seq<Attribute>) -> Seq<Shape> {
    Seq::new(
        2 * attrs.len(),
        |j: int|
            if j % 2 == 0 {
                Shape::Punct('#')
            } else {
                Shape::Tree(TokenTree::Group(Delimiter::Bracket, attrs[j / 2].body))
            },
    )
}

/// The cases, with `+` between each two.
pub open spec fn case_shape(cases: Seq<String>) -> Seq<Shape> {
    if cases.len() == 0 {
        Seq::empty()
    } else {
        Seq::new(
            (2 * cases.len() - 1) as nat,
            |j: int|
                if j % 2 == 0 {
                    Shape::Word(cases[j / 2]@)
                } else {
                    Shape::Punct('+')
                },
        )
    }
}

impl Visibility {
    pub open spec fn wf(&self) -> bool {
        &&& self matches Visibility::Restricted(c) ==> is_restriction(c@)
        &&& self matches Visibility::Elided(c) ==> c@.len() == 0
    }

    pub open spec fn shape(&self) -> Seq<Shape> {
        match self {
            Visibility::Inherited => Seq::empty(),
            Visibility::Elided(c) => seq![Shape::Tree(TokenTree::Group(Delimiter::Invisible, *c))],
            Visibility::Public => seq![Shape::Word("pub"@)],
            Visibility::Restricted(c) => seq![
                Shape::Word("pub"@),
                Shape::Tree(TokenTree::Group(Delimiter::Parenthesis, *c)),
            ],
        }
    }
}

impl Declaration {
    /// At least one case, and the name and every case an identifier.
    pub open spec fn wf(&self) -> bool {
        &&& cases_wf(self.cases@)
        &&& !is_keyword(self.name@)
        &&& self.vis.wf()
    }

    /// The tokens of the declaration, top level only.
    pub open spec fn shape(&self) -> Seq<Shape> {
        attr_shape(self.attrs@) + self.vis.shape() + seq![
            Shape::Word("type"@),
            Shape::Word(self.name@),
            Shape::Punct('='),
        ] + case_list_shape(self.cases@)
    }
}

impl Arguments {
    pub open spec fn wf(&self) -> bool {
        self.superset matches Some(s) ==> !is_keyword(s@)
    }

    /// No tokens, or `super = S`.
    pub open spec fn shape(&self) -> Seq<Shape> {
        match self.superset {
            None => Seq::empty(),
            Some(s) => seq![Shape::Word("super"@), Shape::Punct('='), Shape::Word(s@)],
        }
    }
}

/// At least one case, and every case an identifier.
pub open spec fn cases_wf(cases: Seq<String>) -> bool {
    &&& cases.len() >= 1
    &&& forall|i: int| 0 <= i < cases.len() ==> !is_keyword(#[trigger] cases[i]@)
}

/// The cases with `+` between each two, and `;`.
pub open spec fn case_list_shape(cases: Seq<String>) -> Seq<Shape> {
    case_shape(cases) + seq![Shape::Punct(';')]
}

/// The tokens spell a well-formed declaration.
pub open spec fn is_declaration(toks: Seq<TokenTree>) -> bool {
    exists|d: Declaration| d.wf() && fits_all(toks, d.shape())
}

/// The tokens spell a well-formed argument clause.
pub open spec fn is_arguments(toks: Seq<TokenTree>) -> bool {
    exists|a: Arguments| a.wf() && fits_all(toks, a.shape())
}

/// The cases, each followed by `+`.
pub open spec fn pairs(cases: Seq<String>) -> Seq<Shape> {
    Seq::new(
        2 * cases.len(),
        |j: int|
            if j % 2 == 0 {
                Shape::Word(cases[j / 2]@)
            } else {
                Shape::Punct('+')
            },
    )
}

/// One more token that fits one more shape.
proof fn lemma_fits_push(toks: Seq<TokenTree>, shape: Seq<Shape>, p: int, s: Shape)
    requires
        0 <= p < toks.len(),
        fits_all(toks.take(p), shape),
        fits(toks[p], s),
    ensures
        fits_all(toks.take(p + 1), shape.push(s)),
{
    assert forall|i: int| 0 <= i < p + 1 implies fits(#[trigger] toks.take(p + 1)[i], shape.push(s)[i]) by {
        if i < p {
            assert(toks.take(p)[i] == toks[i]);
        }
    }
}

proof fn lemma_attr_shape_push(attrs: Seq<Attribute>, a: Attribute)
    ensures
        attr_shape(attrs.push(a)) == attr_shape(attrs).push(Shape::Punct('#')).push(
            Shape::Tree(TokenTree::Group(Delimiter::Bracket, a.body)),
        ),
{
    let l = attr_shape(attrs.push(a));
    let r = attr_shape(attrs).push(Shape::Punct('#')).push(
        Shape::Tree(TokenTree::Group(Delimiter::Bracket, a.body)),
    );
    assert forall|j: int| 0 <= j < l.len() implies l[j] == r[j] by {
        if j < 2 * attrs.len() {
            assert(attrs.push(a)[j / 2] == attrs[j / 2]);
        }
    }
    assert(l =~= r);
}

proof fn lemma_pairs_push(cases: Seq<String>, c: String)
    ensures
        pairs(cases.push(c)) == pairs(cases).push(Shape::Word(c@)).push(Shape::Punct('+')),
        case_shape(cases.push(c)) == pairs(cases).push(Shape::Word(c@)),
{
    let l = pairs(cases.push(c));
    let r = pairs(cases).push(Shape::Word(c@)).push(Shape::Punct('+'));
    assert forall|j: int| 0 <= j < l.len() implies l[j] == r[j] by {
        if j < 2 * cases.len() {
            assert(cases.push(c)[j / 2] == cases[j / 2]);
        }
    }
    assert(l =~= r);
    let l2 = case_shape(cases.push(c));
    let r2 = pairs(cases).push(Shape::Word(c@));
    assert forall|j: int| 0 <= j < l2.len() implies l2[j] == r2[j] by {
        if j < 2 * cases.len() {
            assert(cases.push(c)[j / 2] == cases[j / 2]);
        }
    }
    assert(l2 =~= r2);
}

/// Where each part of a declaration stands among its tokens.
pub proof fn lemma_decl_shape(d: Declaration)
    ensures
        ({
            let a = attr_shape(d.attrs@);
            let v = d.vis.shape();
            let c = case_shape(d.cases@);
            let b = (a.len() + v.len()) as int;
            let s = d.shape();
            &&& a.len() == 2 * d.attrs.len()
            &&& s.len() == b + 3 + c.len() + 1
            &&& forall|j: int| 0 <= j < a.len() ==> s[j] == #[trigger] a[j]
            &&& forall|j: int| 0 <= j < v.len() ==> s[a.len() + j] == #[trigger] v[j]
            &&& s[b] == Shape::Word("type"@)
            &&& s[b + 1] == Shape::Word(d.name@)
            &&& s[b + 2] == Shape::Punct('=')
            &&& forall|j: int| 0 <= j < c.len() ==> s[b + 3 + j] == #[trigger] c[j]
            &&& s[b + 3 + c.len()] == Shape::Punct(';')
        }),
{
    let a = attr_shape(d.attrs@);
    let v = d.vis.shape();
    let c = case_shape(d.cases@);
    let t = seq![Shape::Word("type"@), Shape::Word(d.name@), Shape::Punct('=')];
    let s = d.shape();
    assert(s == a + v + t + c + seq![Shape::Punct(';')]);
    assert forall|j: int| 0 <= j < a.len() implies s[j] == #[trigger] a[j] by {
        assert((a + v)[j] == a[j]);
        assert((a + v + t)[j] == a[j]);
        assert((a + v + t + c)[j] == a[j]);
    }
    assert forall|j: int| 0 <= j < v.len() implies s[a.len() + j] == #[trigger] v[j] by {
        assert((a + v)[a.len() + j] == v[j]);
        assert((a + v + t)[a.len() + j] == v[j]);
        assert((a + v + t + c)[a.len() + j] == v[j]);
    }
    let b = (a.len() + v.len()) as int;
    assert((a + v + t)[b] == t[0]);
    assert((a + v + t)[b + 1] == t[1]);
    assert((a + v + t)[b + 2] == t[2]);
    assert((a + v + t + c)[b] == t[0]);
    assert((a + v + t + c)[b + 1] == t[1]);
    assert((a + v + t + c)[b + 2] == t[2]);
    assert forall|j: int| 0 <= j < c.len() implies s[b + 3 + j] == #[trigger] c[j] by {
        assert((a + v + t + c)[b + 3 + j] == c[j]);
    }
}

/// The error that an argument clause which is none gives.
pub open spec fn arguments_error(toks: Seq<TokenTree>) -> ParseError {
    if !is_word(toks[0], "super"@) {
        ParseError { pos: 0, expected: Expected::End }
    } else if toks.len() < 2 || !is_punct(toks[1], '=') {
        ParseError { pos: 1, expected: Expected::Equals }
    } else if toks.len() < 3 || !is_identifier(toks[2]) {
        ParseError { pos: 2, expected: Expected::Identifier }
    } else {
        ParseError { pos: 3, expected: Expected::End }
    }
}

/// Reads the argument clause: nothing, or `super = S`.
pub fn parse_arguments(toks: Vec<TokenTree>) -> (r: Result<Arguments, ParseError>)
    ensures
        r is Ok <==> is_arguments(toks@),
        r matches Ok(a) ==> a.wf() && fits_all(toks@, a.shape()),
        r matches Err(e) ==> e == arguments_error(toks@),
{
    let ghost all = toks@;
    let mut rest = toks;
    if rest.len() == 0 {
        let a = Arguments { superset: None };
        assert(a.wf() && fits_all(all, a.shape()));
        return Ok(a);
    }
    let ok = word(&rest[0], "super") && rest.len() >= 2 && punct(&rest[1], '=') && rest.len()
        >= 3 && identifier(&rest[2]) && rest.len() == 3;
    if !ok {
        proof {
            assert forall|a: Arguments| !(a.wf() && fits_all(all, a.shape())) by {
                if a.wf() && fits_all(all, a.shape()) {
                    assert(fits(all[0], a.shape()[0]));
                    assert(fits(all[1], a.shape()[1]));
                    assert(fits(all[2], a.shape()[2]));
                }
            }
        }
        if !word(&rest[0], "super") {
            return Err(ParseError { pos: 0, expected: Expected::End });
        } else if rest.len() < 2 || !punct(&rest[1], '=') {
            return Err(ParseError { pos: 1, expected: Expected::Equals });
        } else if rest.len() < 3 || !identifier(&rest[2]) {
            return Err(ParseError { pos: 2, expected: Expected::Identifier });
        } else {
            return Err(ParseError { pos: 3, expected: Expected::End });
        }
    }
    let t = rest.remove(2);
    match t {
        TokenTree::Ident(s) => {
            let a = Arguments { superset: Some(s) };
            assert(fits_all(all, a.shape())) by {
                assert(fits(all[0], a.shape()[0]));
                assert(fits(all[1], a.shape()[1]));
                assert(fits(all[2], a.shape()[2]));
            }
            assert(a.wf());
            assert(is_arguments(all));
            Ok(a)
        },
        _ => Err(ParseError { pos: 2, expected: Expected::Identifier }),
    }
}

/// Whether the token is an empty invisible group.
fn elided(t: &TokenTree) -> (r: bool)
    ensures
        r == is_elided(*t),
{
    match t {
        TokenTree::Group(Delimiter::Invisible, c) => c.len() == 0,
        _ => false,
    }
}

/// Whether `c` is a path from index `i` on.
fn path_tail(c: &Vec<TokenTree>, i0: usize) -> (r: bool)
    ensures
        r == is_path_tail(c@, i0 as int),
{
    let mut i = i0;
    loop
        invariant
            i0 <= i,
            is_path_tail(c@, i0 as int) == is_path_tail(c@, i as int),
        decreases c.len() - i,
    {
        if i >= c.len() {
            return false;
        }
        let seg = match &c[i] {
            TokenTree::Ident(_) => true,
            _ => false,
        };
        if !seg {
            return false;
        }
        if c.len() - i == 1 {
            return true;
        }
        if c.len() - i < 3 || !punct(&c[i + 1], ':') || !punct(&c[i + 2], ':') {
            return false;
        }
        i = i + 3;
    }
}

/// Whether `c` is a path from index `i` on, with or without a leading `::`.
fn mod_path(c: &Vec<TokenTree>, i: usize) -> (r: bool)
    requires
        i < c@.len(),
    ensures
        r == is_mod_path(c@, i as int),
{
    if c.len() - i >= 2 && punct(&c[i], ':') && punct(&c[i + 1], ':') {
        path_tail(c, i + 2)
    } else {
        path_tail(c, i)
    }
}

/// Whether the token is a parenthesized group that may follow `pub`.
fn restriction(t: &TokenTree) -> (r: bool)
    ensures
        r == (is_group(*t, Delimiter::Parenthesis) && is_restriction(t->Group_1@)),
{
    match t {
        TokenTree::Group(Delimiter::Parenthesis, c) => {
            (c.len() == 1 && (word(&c[0], "crate") || word(&c[0], "self") || word(&c[0], "super")))
                || (c.len() >= 2 && word(&c[0], "in") && mod_path(c, 1))
        },
        _ => false,
    }
}

/// Tokens that fit two shapes one after the other fit the two together.
proof fn lemma_fits_concat(toks: Seq<TokenTree>, p: int, s1: Seq<Shape>, s2: Seq<Shape>)
    requires
        0 <= p <= toks.len(),
        fits_all(toks.take(p), s1),
        fits_all(toks.skip(p), s2),
    ensures
        fits_all(toks, s1 + s2),
{
    assert forall|i: int| 0 <= i < toks.len() implies fits(#[trigger] toks[i], (s1 + s2)[i]) by {
        if i < p {
            assert(toks.take(p)[i] == toks[i]);
        } else {
            assert(toks.skip(p)[i - p] == toks[i]);
        }
    }
}

/// The tokens after `=` of a declaration are its case list.
proof fn lemma_case_tail(toks: Seq<TokenTree>, d: Declaration)
    requires
        fits_all(toks, d.shape()),
    ensures
        fits_all(
            toks.skip((attr_shape(d.attrs@).len() + d.vis.shape().len() + 3) as int),
            case_list_shape(d.cases@),
        ),
{
    lemma_decl_shape(d);
    let b = (attr_shape(d.attrs@).len() + d.vis.shape().len() + 3) as int;
    let c = case_list_shape(d.cases@);
    let t = toks.skip(b);
    assert forall|j: int| 0 <= j < t.len() implies fits(#[trigger] t[j], c[j]) by {
        assert(t[j] == toks[b + j]);
        assert(fits(toks[b + j], d.shape()[b + j]));
        if j < case_shape(d.cases@).len() {
            assert(c[j] == case_shape(d.cases@)[j]);
        }
    }
}

/// A well-formed declaration starts with a run of attributes, then a
/// visibility that `type` follows.
pub proof fn lemma_leads(toks: Seq<TokenTree>, d: Declaration)
    requires
        d.wf(),
        fits_all(toks, d.shape()),
    ensures
        attrs_lead(toks, d.attrs@),
        vis_lead(toks.skip(2 * d.attrs.len()), d.vis),
{
    lemma_decl_shape(d);
    let a = attr_shape(d.attrs@);
    let v = d.vis.shape();
    let b = (a.len() + v.len()) as int;
    assert(fits(toks[b], d.shape()[b]));
    assert forall|j: int| 0 <= j < a.len() implies fits(#[trigger] toks.take(a.len() as int)[j], a[j]) by {
        assert(fits(toks[j], d.shape()[j]));
    }
    if v.len() > 0 {
        assert(fits(toks[a.len() as int], d.shape()[a.len() as int]));
    }
    let t = toks.skip(a.len() as int);
    assert forall|j: int| 0 <= j < v.len() implies fits(#[trigger] t.take(v.len() as int)[j], v[j]) by {
        assert(t[j] == toks[a.len() + j]);
        assert(fits(toks[a.len() + j], d.shape()[a.len() + j]));
    }
    assert(t[v.len() as int] == toks[b]);
}

/// Reads the cases of a declaration, with `+` between each two, up to the
/// closing `;`, which must end the input.
fn parse_cases(toks: &Vec<TokenTree>) -> (r: Result<Vec<String>, ParseError>)
    ensures
        r is Ok <==> exists|cs: Seq<String>| cases_wf(cs) && fits_all(toks@, case_list_shape(cs)),
        r matches Ok(cs) ==> cases_wf(cs@) && fits_all(toks@, case_list_shape(cs@)),
        r matches Err(e) ==> cases_scan(toks@, 0) == Some(e) && e.pos <= toks@.len(),
{
    let ghost all = toks@;
    let ghost has = exists|cs: Seq<String>| cases_wf(cs) && fits_all(all, case_list_shape(cs));
    let ghost w = choose|cs: Seq<String>| cases_wf(cs) && fits_all(all, case_list_shape(cs));
    let ghost c_w = case_shape(w);
    let mut cases: Vec<String> = Vec::new();
    let mut pos: usize = 0;
    assert(pairs(cases@) =~= Seq::<Shape>::empty());
    loop
        invariant
            pos <= all.len(),
            all == toks@,
            pos == 2 * cases.len(),
            fits_all(all.take(pos as int), pairs(cases@)),
            forall|i: int| 0 <= i < cases.len() ==> !is_keyword(#[trigger] cases@[i]@),
            has == exists|cs: Seq<String>| cases_wf(cs) && fits_all(all, case_list_shape(cs)),
            has ==> cases_wf(w) && fits_all(all, case_list_shape(w)),
            has ==> cases.len() < w.len(),
            c_w == case_shape(w),
            cases_scan(all, 0) == cases_scan(all, pos as int),
        decreases all.len() - pos,
    {
        let ghost i = cases.len() as int;
        proof {
            if has {
                assert(c_w[2 * i] == Shape::Word(w[i]@));
                assert(!is_keyword(w[i]@));
                assert(case_list_shape(w)[2 * i] == c_w[2 * i]);
                assert(fits(all[2 * i], case_list_shape(w)[2 * i]));
                if 2 * i + 1 < c_w.len() {
                    assert(c_w[2 * i + 1] == Shape::Punct('+'));
                    assert(case_list_shape(w)[2 * i + 1] == c_w[2 * i + 1]);
                } else {
                    assert(case_list_shape(w)[2 * i + 1] == Shape::Punct(';'));
                }
                assert(fits(all[2 * i + 1], case_list_shape(w)[2 * i + 1]));
            }
        }
        if pos >= toks.len() || !identifier(&toks[pos]) {
            proof {
                if has {
                    assert(pos < all.len());
                    assert(is_identifier(all[pos as int]));
                }
            }
            return Err(ParseError { pos, expected: Expected::Identifier });
        }
        let c = match &toks[pos] {
            TokenTree::Ident(s) => s.clone(),
            _ => String::new(),
        };
        proof {
            lemma_fits_push(all, pairs(cases@), pos as int, Shape::Word(c@));
            lemma_pairs_push(cases@, c);
        }
        pos = pos + 1;
        if pos < toks.len() && punct(&toks[pos], ';') {
            proof {
                lemma_fits_push(all, case_shape(cases@.push(c)), pos as int, Shape::Punct(';'));
            }
            if pos + 1 < toks.len() {
                proof {
                    if has {
                        if 2 * i + 1 < c_w.len() {
                            assert(false);
                        }
                    }
                }
                return Err(ParseError { pos: pos + 1, expected: Expected::End });
            }
            let ghost old_cases = cases@;
            cases.push(c);
            proof {
                assert(cases@ == old_cases.push(c));
                assert(all.take(pos + 1) =~= all);
                assert forall|k: int| 0 <= k < cases.len() implies !is_keyword(#[trigger] cases@[k]@) by {
                    if k < old_cases.len() {
                        assert(cases@[k] == old_cases[k]);
                    }
                }
                assert(cases_wf(cases@));
            }
            return Ok(cases);
        }
        if pos >= toks.len() || !punct(&toks[pos], '+') {
            return Err(ParseError { pos, expected: Expected::PlusOrSemicolon });
        }
        proof {
            lemma_fits_push(all, pairs(cases@).push(Shape::Word(c@)), pos as int, Shape::Punct('+'));
            if has {
                if 2 * i + 1 >= c_w.len() {
                    assert(false);
                }
            }
        }
        pos = pos + 1;
        let ghost old_cases = cases@;
        cases.push(c);
        proof {
            assert(cases@ == old_cases.push(c));
            assert forall|k: int| 0 <= k < cases.len() implies !is_keyword(#[trigger] cases@[k]@) by {
                if k < old_cases.len() {
                    assert(cases@[k] == old_cases[k]);
                }
            }
        }
    }
}

/// `a` is a run of attributes at the start of the tokens, and what follows
/// it is no `#`.
pub open spec fn attrs_lead(toks: Seq<TokenTree>, a: Seq<Attribute>) -> bool {
    &&& 2 * a.len() < toks.len()
    &&& fits_all(toks.take(2 * a.len() as int), attr_shape(a))
    &&& !is_punct(toks[2 * a.len() as int], '#')
}

/// `v` is a visibility at the start of the tokens, and `type` follows it.
pub open spec fn vis_lead(toks: Seq<TokenTree>, v: Visibility) -> bool {
    &&& v.wf()
    &&& v.shape().len() < toks.len()
    &&& fits_all(toks.take(v.shape().len() as int), v.shape())
    &&& is_word(toks[v.shape().len() as int], "type"@)
}

/// Takes the outer attributes off the front of the tokens.
fn parse_attributes(rest: &mut Vec<TokenTree>) -> (r: Result<Vec<Attribute>, ParseError>)
    ensures
        r matches Ok(attrs) ==> {
            &&& 2 * attrs.len() <= old(rest)@.len()
            &&& fits_all(old(rest)@.take(2 * attrs.len()), attr_shape(attrs@))
            &&& final(rest)@ == old(rest)@.skip(2 * attrs.len())
        },
        r matches Ok(attrs) ==> attrs_scan(old(rest)@, 0) == Ok::<int, ParseError>(2 * attrs.len()),
        r matches Err(e) ==> attrs_scan(old(rest)@, 0) == Err::<int, ParseError>(e),
        forall|a: Seq<Attribute>| #[trigger] attrs_lead(old(rest)@, a) ==> (r matches Ok(attrs)
            && attrs.len() == a.len()),
{
    let ghost all = rest@;
    assert(rest.len() == all.len());
    let mut attrs: Vec<Attribute> = Vec::new();
    let mut pos: usize = 0;
    while rest.len() > 0 && punct(&rest[0], '#')
        invariant
            rest@ == all.skip(pos as int),
            pos <= all.len(),
            all == old(rest)@,
            all.len() <= usize::MAX,
            pos == 2 * attrs.len(),
            fits_all(all.take(pos as int), attr_shape(attrs@)),
            forall|a: Seq<Attribute>| #[trigger] attrs_lead(all, a) ==> attrs.len() <= a.len(),
            attrs_scan(all, 0) == attrs_scan(all, pos as int),
        decreases rest.len(),
    {
        assert(all[pos as int] == rest@[0]);
        assert(rest@.len() == all.len() - pos);
        proof {
            assert forall|a: Seq<Attribute>| #[trigger] attrs_lead(all, a) implies attrs.len() < a.len()
                && fits(all[pos + 1], Shape::Tree(TokenTree::Group(Delimiter::Bracket, a[attrs.len() as int].body))) by {
                if attrs.len() < a.len() {
                    assert(all.take(2 * a.len() as int)[pos + 1] == all[pos + 1]);
                    assert(attr_shape(a)[pos + 1] == Shape::Tree(TokenTree::Group(Delimiter::Bracket, a[attrs.len() as int].body)));
                }
            }
        }
        if rest.len() < 2 || !group(&rest[1], Delimiter::Bracket) {
            proof {
                assert forall|a: Seq<Attribute>| !#[trigger] attrs_lead(all, a) by {
                    if attrs_lead(all, a) {
                        assert(all[pos + 1] == rest@[1]);
                    }
                }
            }
            return Err(ParseError { pos: pos + 1, expected: Expected::Bracket });
        }
        assert(all[pos + 1] == rest@[1]);
        let _pound = rest.remove(0);
        let g = rest.remove(0);
        match g {
            TokenTree::Group(_, body) => {
                let ghost old_attrs = attrs@;
                let a = Attribute { body };
                proof {
                    lemma_fits_push(all, attr_shape(old_attrs), pos as int, Shape::Punct('#'));
                    lemma_fits_push(
                        all,
                        attr_shape(old_attrs).push(Shape::Punct('#')),
                        pos + 1,
                        Shape::Tree(TokenTree::Group(Delimiter::Bracket, a.body)),
                    );
                    lemma_attr_shape_push(old_attrs, a);
                }
                attrs.push(a);
                assert(attrs@ == old_attrs.push(a));
            },
            _ => {},
        }
        pos = pos + 2;
        assert(rest@ =~= all.skip(pos as int));
    }
    proof {
        assert forall|a: Seq<Attribute>| #[trigger] attrs_lead(all, a) implies attrs.len() == a.len() by {
            if attrs.len() < a.len() {
                assert(all.take(2 * a.len() as int)[pos as int] == all[pos as int]);
                assert(attr_shape(a)[pos as int] == Shape::Punct('#'));
                assert(all[pos as int] == rest@[0]);
            }
        }
    }
    Ok(attrs)
}

/// Takes the visibility, if any, off the front of the tokens.
fn parse_visibility(rest: &mut Vec<TokenTree>) -> (v: Visibility)
    ensures
        v.wf(),
        v.shape().len() <= old(rest)@.len(),
        v.shape().len() == vis_len(old(rest)@),
        fits_all(old(rest)@.take(v.shape().len() as int), v.shape()),
        final(rest)@ == old(rest)@.skip(v.shape().len() as int),
        forall|u: Visibility| #[trigger] vis_lead(old(rest)@, u) ==> v.shape().len() == u.shape().len(),
{
    let ghost all = rest@;
    proof {
        reveal_strlit("pub");
        reveal_strlit("type");
        assert("type"@.len() == 4);
        assert("pub"@.len() == 3);
    }
    if rest.len() > 0 && elided(&rest[0]) {
        let g = rest.remove(0);
        let v = match g {
            TokenTree::Group(_, c) => Visibility::Elided(c),
            _ => Visibility::Inherited,
        };
        proof {
            assert(rest@ =~= all.skip(1));
            assert(fits_all(all.take(1), v.shape())) by {
                assert(all.take(1)[0] == all[0]);
            }
            assert forall|u: Visibility| #[trigger] vis_lead(all, u) implies v.shape().len() == u.shape().len() by {
                if u.shape().len() > 0 {
                    assert(all.take(u.shape().len() as int)[0] == all[0]);
                }
            }
        }
        return v;
    }
    if rest.len() > 0 && word(&rest[0], "pub") {
        if rest.len() > 1 && restriction(&rest[1]) {
            let _ = rest.remove(0);
            let g = rest.remove(0);
            let v = match g {
                TokenTree::Group(_, c) => Visibility::Restricted(c),
                _ => Visibility::Public,
            };
            proof {
                assert(rest@ =~= all.skip(2));
                assert(fits_all(all.take(2), v.shape())) by {
                    assert(all.take(2)[0] == all[0]);
                    assert(all.take(2)[1] == all[1]);
                }
                assert forall|u: Visibility| #[trigger] vis_lead(all, u) implies v.shape().len() == u.shape().len() by {
                    if u.shape().len() == 1 {
                        assert(all.take(1)[0] == all[0]);
                    } else if u.shape().len() == 0 {
                    }
                }
            }
            v
        } else {
            let _ = rest.remove(0);
            let v = Visibility::Public;
            proof {
                assert(rest@ =~= all.skip(1));
                assert(fits_all(all.take(1), v.shape())) by {
                    assert(all.take(1)[0] == all[0]);
                }
                assert forall|u: Visibility| #[trigger] vis_lead(all, u) implies v.shape().len() == u.shape().len() by {
                    if u.shape().len() == 2 {
                        assert(all.take(2)[1] == all[1]);
                    }
                }
            }
            v
        }
    } else {
        let v = Visibility::Inherited;
        proof {
            assert(all.skip(0) =~= all);
            assert(fits_all(all.take(0), v.shape()));
            assert forall|u: Visibility| #[trigger] vis_lead(all, u) implies v.shape().len() == u.shape().len() by {
                if u.shape().len() > 0 {
                    assert(all.take(u.shape().len() as int)[0] == all[0]);
                }
            }
        }
        v
    }
}

/// Reads a declaration `[attribute]* [visibility] type Name = Case (+ Case)* ;`.
pub fn parse_declaration(toks: Vec<TokenTree>) -> (r: Result<Declaration, ParseError>)
    ensures
        r is Ok <==> is_declaration(toks@),
        r matches Ok(d) ==> d.wf() && fits_all(toks@, d.shape()),
        r matches Err(e) ==> e == declaration_error(toks@),
{
    let ghost all = toks@;
    let ghost has = is_declaration(all);
    let ghost w = choose|d: Declaration| d.wf() && fits_all(all, d.shape());
    let ghost b_w = (attr_shape(w.attrs@).len() + w.vis.shape().len()) as int;
    proof {
        if has {
            lemma_decl_shape(w);
            lemma_leads(all, w);
        }
    }
    let n = toks.len();
    let mut rest = toks;
    let attrs = match parse_attributes(&mut rest) {
        Ok(attrs) => attrs,
        Err(e) => {
            assert(e == declaration_error(all)) by {
                reveal(declaration_error);
            }
            return Err(e);
        },
    };
    let ghost p0 = attr_shape(attrs@);
    let ghost pa = p0.len() as int;
    let ghost after_attrs = rest@;
    let vis = parse_visibility(&mut rest);
    let ghost p1 = p0 + vis.shape();
    let ghost pv = pa + vis.shape().len();
    proof {
        assert(rest@ =~= all.skip(pv));
        assert(all.take(pv).skip(pa) =~= after_attrs.take(vis.shape().len() as int));
        assert(all.take(pv).take(pa) =~= all.take(pa));
        lemma_fits_concat(all.take(pv), pa, p0, vis.shape());
    }
    proof {
        if has {
            assert(attrs.len() == w.attrs.len());
            assert(after_attrs == all.skip(2 * w.attrs.len()));
            assert(pv == b_w);
        }
        assert(declaration_error(all) == head_error(all, pv)) by {
            reveal(declaration_error);
        }
    }
    // The keyword, the name and `=`.
    let pos: usize = n - rest.len();
    assert(rest@.len() == all.len() - pos);
    assert(pos == pv);
    if rest.len() > 0 {
        assert(all[pos as int] == rest@[0]);
    }
    if rest.len() > 1 {
        assert(all[pos + 1] == rest@[1]);
    }
    if rest.len() > 2 {
        assert(all[pos + 2] == rest@[2]);
    }
    if rest.len() < 3 || !word(&rest[0], "type") || !identifier(&rest[1]) || !punct(&rest[2], '=') {
        proof {
            if has {
                assert(fits(all[b_w], w.shape()[b_w]));
                assert(fits(all[b_w + 1], w.shape()[b_w + 1]));
                assert(fits(all[b_w + 2], w.shape()[b_w + 2]));
                assert(all[b_w] == rest@[0]);
                assert(all[b_w + 1] == rest@[1]);
                assert(all[b_w + 2] == rest@[2]);
            }
        }
        if rest.len() > 0 {
            assert(all[pos as int] == rest@[0]);
        }
        if rest.len() > 1 {
            assert(all[pos + 1] == rest@[1]);
        }
        if rest.len() > 2 {
            assert(all[pos + 2] == rest@[2]);
        }
        proof {
            reveal(head_error);
        }
        if rest.len() == 0 || !word(&rest[0], "type") {
            return Err(ParseError { pos, expected: Expected::TypeKeyword });
        } else if rest.len() == 1 || !identifier(&rest[1]) {
            return Err(ParseError { pos: pos + 1, expected: Expected::Identifier });
        } else {
            return Err(ParseError { pos: pos + 2, expected: Expected::Equals });
        }
    }
    let _ = rest.remove(0);
    let t = rest.remove(0);
    let name = match t {
        TokenTree::Ident(s) => s,
        _ => String::new(),
    };
    let _ = rest.remove(0);
    let ghost p2 = p1 + seq![Shape::Word("type"@), Shape::Word(name@), Shape::Punct('=')];
    proof {
        assert(rest@ =~= all.skip(pv + 3));
        let h = all.take(pv + 3);
        assert(h.take(pv) =~= all.take(pv));
        assert(h.skip(pv) =~= all.skip(pv).take(3));
        assert(fits_all(h.skip(pv), seq![Shape::Word("type"@), Shape::Word(name@), Shape::Punct('=')]));
        lemma_fits_concat(h, pv, p1, seq![Shape::Word("type"@), Shape::Word(name@), Shape::Punct('=')]);
        if has {
            lemma_case_tail(all, w);
        }
    }
    match parse_cases(&rest) {
        Ok(cases) => {
            let d = Declaration { attrs, vis, name, cases };
            proof {
                lemma_fits_concat(all, pv + 3, p2, case_list_shape(d.cases@));
                assert(d.shape() =~= p2 + case_list_shape(d.cases@));
                assert(d.wf());
                assert(is_declaration(all));
            }
            Ok(d)
        },
        Err(e) => {
            assert(rest@.len() == all.len() - (pos + 3));
            let e2 = ParseError { pos: pos + 3 + e.pos, expected: e.expected };
            assert(e2 == declaration_error(all)) by {
                reveal(head_error);
            }
            Err(e2)
        },
    }
}

} // verus!
