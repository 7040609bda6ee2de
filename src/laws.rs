//! What the generated conversions do, and the laws that hold of them.
use vstd::prelude::*;
use crate::expand::{expands, Expansion, Injection, UnionDef, Widening};
use crate::parse::{
    attr_shape, case_shape, fits, fits_all, is_declaration, lemma_decl_shape, lemma_leads, Arguments,
    Declaration, Shape,
};
use crate::token::{is_punct, TokenTree};

verus! {

/// A value of a generated union: the union's name, the tag of its variant,
/// and the value that the variant holds.
pub struct Value<V> {
    pub union: Seq<char>,
    pub tag: Seq<char>,
    pub payload: V,
}

/// What the injection `j` makes of the value `v`.
pub open spec fn inject<V>(j: Injection, v: V) -> Value<V> {
    Value { union: j.target@, tag: j.variant@, payload: v }
}

/// The union has a variant tagged `t`.
pub open spec fn has_variant(def: UnionDef, t: Seq<char>) -> bool {
    exists|k: int| 0 <= k < def.variants.len() && (#[trigger] def.variants@[k]).tag@ == t
}

/// Matching the value `x` of the union `def` against the variant tagged `tag`.
pub open spec fn project<V>(def: UnionDef, x: Value<V>, tag: Seq<char>) -> Option<V> {
    if x.union == def.name@ && x.tag == tag && has_variant(def, tag) {
        Some(x.payload)
    } else {
        None
    }
}

/// What the widening `w` makes of the value `x`: the arm for its tag re-tags
/// it as a value of the superset; a value of another union, or a tag with no
/// arm, has no image.
pub open spec fn widen<V>(w: Widening, x: Value<V>) -> Option<Value<V>> {
    if x.union == w.source@ && exists|k: int|
        0 <= k < w.arms.len() && (#[trigger] w.arms@[k]).from@ == x.tag {
        let k = choose|k: int| 0 <= k < w.arms.len() && (#[trigger] w.arms@[k]).from@ == x.tag;
        Some(Value { union: w.target@, tag: w.arms@[k].to@, payload: x.payload })
    } else {
        None
    }
}

/// The names of the cases of a declaration, in order.
pub open spec fn case_names(d: Declaration) -> Seq<Seq<char>> {
    d.cases@.map_values(|s: String| s@)
}

/// Injecting a value of a declared case and matching the result against the
/// variant of that case gives the value back.
pub proof fn injection_round_trip<V>(d: Declaration, a: Arguments, e: Expansion, i: int, v: V)
    requires
        expands(d, a, e),
        0 <= i < d.cases.len(),
    ensures
        e.injections@[i].source@ == d.cases@[i]@,
        project(e.def, inject(e.injections@[i], v), d.cases@[i]@) == Some(v),
{
    assert(e.def.variants@[i].tag@ == d.cases@[i]@);
}

/// There is one injection per declared case, in order, no more and no fewer;
/// each targets the union and the variant whose tag is its case, so that
/// distinct cases have distinct variants.
pub proof fn injections_exhaustive(d: Declaration, a: Arguments, e: Expansion)
    requires
        expands(d, a, e),
    ensures
        e.injections@.map_values(|j: Injection| j.source@) == case_names(d),
        forall|i: int|
            0 <= i < e.injections.len() ==> (#[trigger] e.injections@[i]).variant@
                == e.injections@[i].source@ && e.injections@[i].target@ == e.def.name@,
        forall|i: int, j: int|
            0 <= i < e.injections.len() && 0 <= j < e.injections.len() && d.cases@[i]@
                != d.cases@[j]@ ==> (#[trigger] e.injections@[i]).variant@
                != (#[trigger] e.injections@[j]).variant@,
{
    assert(e.injections@.map_values(|j: Injection| j.source@) =~= case_names(d));
}

/// Widening the injection of a case into a union equals injecting it into
/// the union's superset directly, wherever both declare that case.
pub proof fn widening_commutes<V>(
    du: Declaration,
    au: Arguments,
    eu: Expansion,
    ds: Declaration,
    a_s: Arguments,
    es: Expansion,
    i: int,
    j: int,
    v: V,
)
    requires
        expands(du, au, eu),
        expands(ds, a_s, es),
        au.superset matches Some(s) && s@ == ds.name@,
        0 <= i < du.cases.len(),
        0 <= j < ds.cases.len(),
        du.cases@[i]@ == ds.cases@[j]@,
    ensures
        widen(eu.widening->Some_0, inject(eu.injections@[i], v)) == Some(
            inject(es.injections@[j], v),
        ),
{
    let w = eu.widening->Some_0;
    assert(w.arms@[i].from@ == du.cases@[i]@);
}

/// Reordering the cases leaves the set of variants, the value that each case
/// injects to, and the widening unchanged.
pub proof fn order_independent<V>(
    d1: Declaration,
    d2: Declaration,
    a: Arguments,
    e1: Expansion,
    e2: Expansion,
    v: V,
)
    requires
        expands(d1, a, e1),
        expands(d2, a, e2),
        d1.name@ == d2.name@,
        case_names(d1).to_multiset() == case_names(d2).to_multiset(),
    ensures
        forall|t: Seq<char>| #[trigger] has_variant(e1.def, t) <==> has_variant(e2.def, t),
        forall|i: int, j: int|
            0 <= i < d1.cases.len() && 0 <= j < d2.cases.len() && d1.cases@[i]@ == d2.cases@[j]@
                ==> inject(#[trigger] e1.injections@[i], v) == inject(#[trigger] e2.injections@[j], v),
        a.superset is Some ==> forall|x: Value<V>|
            widen(e1.widening->Some_0, x) == #[trigger] widen(e2.widening->Some_0, x),
{
    let n1 = case_names(d1);
    let n2 = case_names(d2);
    n1.to_multiset_ensures();
    n2.to_multiset_ensures();
    assert forall|t: Seq<char>| n1.contains(t) <==> n2.contains(t) by {
        assert(n1.to_multiset().count(t) == n2.to_multiset().count(t));
    }
    assert forall|t: Seq<char>| #[trigger] has_variant(e1.def, t) <==> has_variant(e2.def, t) by {
        if has_variant(e1.def, t) {
            let k = choose|k: int| 0 <= k < e1.def.variants.len() && (#[trigger] e1.def.variants@[k]).tag@ == t;
            assert(n1[k] == t);
            assert(n2.contains(t));
            let m = choose|m: int| 0 <= m < n2.len() && n2[m] == t;
            assert(e2.def.variants@[m].tag@ == t);
        }
        if has_variant(e2.def, t) {
            let k = choose|k: int| 0 <= k < e2.def.variants.len() && (#[trigger] e2.def.variants@[k]).tag@ == t;
            assert(n2[k] == t);
            assert(n1.contains(t));
            let m = choose|m: int| 0 <= m < n1.len() && n1[m] == t;
            assert(e1.def.variants@[m].tag@ == t);
        }
    }
    if a.superset is Some {
        let w1 = e1.widening->Some_0;
        let w2 = e2.widening->Some_0;
        assert forall|x: Value<V>| widen(w1, x) == #[trigger] widen(w2, x) by {
            let t = x.tag;
            if exists|k: int| 0 <= k < w1.arms.len() && (#[trigger] w1.arms@[k]).from@ == t {
                let k = choose|k: int| 0 <= k < w1.arms.len() && (#[trigger] w1.arms@[k]).from@ == t;
                assert(n1[k] == t);
                assert(n2.contains(t));
                let m = choose|m: int| 0 <= m < n2.len() && n2[m] == t;
                assert(w2.arms@[m].from@ == t);
            }
            if exists|k: int| 0 <= k < w2.arms.len() && (#[trigger] w2.arms@[k]).from@ == t {
                let k = choose|k: int| 0 <= k < w2.arms.len() && (#[trigger] w2.arms@[k]).from@ == t;
                assert(n2[k] == t);
                assert(n1.contains(t));
                let m = choose|m: int| 0 <= m < n1.len() && n1[m] == t;
                assert(w1.arms@[m].from@ == t);
            }
        }
    }
}

/// Where a well-formed declaration has `=` and `;` among its top-level tokens.
proof fn lemma_punct_places(toks: Seq<TokenTree>, d: Declaration)
    requires
        d.wf(),
        fits_all(toks, d.shape()),
    ensures
        ({
            let b = (attr_shape(d.attrs@).len() + d.vis.shape().len()) as int;
            &&& b + 4 <= toks.len()
            &&& is_punct(toks[b + 2], '=')
            &&& !is_punct(toks[b + 3], ';')
            &&& is_punct(toks.last(), ';')
            &&& forall|i: int| 0 <= i < b + 2 ==> !is_punct(#[trigger] toks[i], '=')
        }),
{
    lemma_decl_shape(d);
    let a = attr_shape(d.attrs@);
    let v = d.vis.shape();
    let c = case_shape(d.cases@);
    let b = (a.len() + v.len()) as int;
    assert(fits(toks[b + 2], d.shape()[b + 2]));
    assert(c[0] == Shape::Word(d.cases@[0]@));
    assert(d.shape()[b + 3 + 0] == c[0]);
    assert(fits(toks[b + 3], d.shape()[b + 3]));
    assert(fits(toks[toks.len() - 1], d.shape()[toks.len() - 1]));
    assert forall|i: int| 0 <= i < b + 2 implies !is_punct(#[trigger] toks[i], '=') by {
        assert(fits(toks[i], d.shape()[i]));
        if i < a.len() {
            assert(d.shape()[i] == a[i]);
        } else if i < b {
            assert(d.shape()[a.len() + (i - a.len())] == v[i - a.len()]);
        }
    }
}

/// Tokens that do not end with `;` are no declaration.
pub proof fn unterminated_rejected(toks: Seq<TokenTree>)
    requires
        toks.len() == 0 || !is_punct(toks.last(), ';'),
    ensures
        !is_declaration(toks),
{
    assert forall|d: Declaration| !(d.wf() && fits_all(toks, d.shape())) by {
        if d.wf() && fits_all(toks, d.shape()) {
            lemma_punct_places(toks, d);
        }
    }
}

/// Tokens with no `=` at their top level are no declaration.
pub proof fn missing_equals_rejected(toks: Seq<TokenTree>)
    requires
        forall|i: int| 0 <= i < toks.len() ==> !is_punct(#[trigger] toks[i], '='),
    ensures
        !is_declaration(toks),
{
    assert forall|d: Declaration| !(d.wf() && fits_all(toks, d.shape())) by {
        if d.wf() && fits_all(toks, d.shape()) {
            lemma_punct_places(toks, d);
        }
    }
}

/// Tokens in which `;` directly follows the first top-level `=`, an empty
/// case list, are no declaration.
pub proof fn empty_cases_rejected(toks: Seq<TokenTree>, p: int)
    requires
        0 <= p,
        p + 1 < toks.len(),
        is_punct(toks[p], '='),
        is_punct(toks[p + 1], ';'),
        forall|i: int| 0 <= i < p ==> !is_punct(#[trigger] toks[i], '='),
    ensures
        !is_declaration(toks),
{
    assert forall|d: Declaration| !(d.wf() && fits_all(toks, d.shape())) by {
        if d.wf() && fits_all(toks, d.shape()) {
            lemma_punct_places(toks, d);
        }
    }
}

/// Tokens spell at most one declaration: two well-formed declarations that
/// fit the same tokens agree in attributes, visibility, name and cases.
pub proof fn declaration_unique(toks: Seq<TokenTree>, d1: Declaration, d2: Declaration)
    requires
        d1.wf(),
        d2.wf(),
        fits_all(toks, d1.shape()),
        fits_all(toks, d2.shape()),
    ensures
        d1.attrs@ == d2.attrs@,
        d1.vis == d2.vis,
        d1.name@ == d2.name@,
        case_names(d1) == case_names(d2),
{
    lemma_decl_shape(d1);
    lemma_decl_shape(d2);
    lemma_leads(toks, d1);
    lemma_leads(toks, d2);
    let a1 = attr_shape(d1.attrs@);
    let a2 = attr_shape(d2.attrs@);
    let k1 = d1.attrs.len() as int;
    let k2 = d2.attrs.len() as int;
    if k1 < k2 {
        assert(toks.take(2 * k2)[2 * k1] == toks[2 * k1]);
        assert(a2[2 * k1] == Shape::Punct('#'));
    }
    if k2 < k1 {
        assert(toks.take(2 * k1)[2 * k2] == toks[2 * k2]);
        assert(a1[2 * k2] == Shape::Punct('#'));
    }
    assert(k1 == k2);
    assert forall|i: int| 0 <= i < k1 implies d1.attrs@[i] == d2.attrs@[i] by {
        assert(fits(toks[2 * i + 1], d1.shape()[2 * i + 1]));
        assert(fits(toks[2 * i + 1], d2.shape()[2 * i + 1]));
        assert(d1.shape()[2 * i + 1] == a1[2 * i + 1]);
        assert(d2.shape()[2 * i + 1] == a2[2 * i + 1]);
    }
    assert(d1.attrs@ =~= d2.attrs@);
    let t = toks.skip(2 * k1);
    reveal_strlit("pub");
    reveal_strlit("type");
    assert("type"@.len() == 4);
    assert("pub"@.len() == 3);
    let v1 = d1.vis.shape();
    let v2 = d2.vis.shape();
    if v1.len() > 0 {
        assert(t.take(v1.len() as int)[0] == t[0]);
    }
    if v2.len() > 0 {
        assert(t.take(v2.len() as int)[0] == t[0]);
    }
    if v1.len() > 1 {
        assert(t.take(v1.len() as int)[1] == t[1]);
    }
    if v2.len() > 1 {
        assert(t.take(v2.len() as int)[1] == t[1]);
    }
    assert(d1.vis == d2.vis);
    let b = (a1.len() + v1.len()) as int;
    assert(fits(toks[b + 1], d1.shape()[b + 1]));
    assert(fits(toks[b + 1], d2.shape()[b + 1]));
    let c1 = case_shape(d1.cases@);
    let c2 = case_shape(d2.cases@);
    assert(c1.len() == c2.len());
    assert forall|i: int| 0 <= i < d1.cases.len() implies d1.cases@[i]@ == d2.cases@[i]@ by {
        assert(c1[2 * i] == Shape::Word(d1.cases@[i]@));
        assert(c2[2 * i] == Shape::Word(d2.cases@[i]@));
        assert(fits(toks[b + 3 + 2 * i], d1.shape()[b + 3 + 2 * i]));
        assert(fits(toks[b + 3 + 2 * i], d2.shape()[b + 3 + 2 * i]));
    }
    assert(case_names(d1) =~= case_names(d2));
}

/// Argument clauses that fit the same tokens name the same superset.
pub proof fn arguments_unique(toks: Seq<TokenTree>, a1: Arguments, a2: Arguments)
    requires
        a1.wf(),
        a2.wf(),
        fits_all(toks, a1.shape()),
        fits_all(toks, a2.shape()),
    ensures
        a1.superset is Some <==> a2.superset is Some,
        a1.superset is Some ==> a1.superset->Some_0@ == a2.superset->Some_0@,
{
    if a1.superset is Some && a2.superset is Some {
        assert(fits(toks[2], a1.shape()[2]));
        assert(fits(toks[2], a2.shape()[2]));
    }
}

} // verus!
