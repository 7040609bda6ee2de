//! Expanding a parsed declaration into a tagged union and its conversions.
use vstd::prelude::*;
use crate::parse::{Arguments, Attribute, Declaration, Visibility};

verus! {

/// One variant of the union: its tag and the type of the value it holds.
#[derive(Debug, PartialEq, Eq)]
pub struct Variant {
    pub tag: String,
    pub payload: String,
}

/// The union type: attributes and visibility as declared, its name, and one
/// variant per case, in declaration order.
#[derive(Debug, PartialEq, Eq)]
pub struct UnionDef {
    pub attrs: Vec<Attribute>,
    pub vis: Visibility,
    pub name: String,
    pub variants: Vec<Variant>,
}

/// A conversion from the type `source` into the union `target`, which wraps
/// the value in the variant tagged `variant`.
#[derive(Debug, PartialEq, Eq)]
pub struct Injection {
    pub source: String,
    pub target: String,
    pub variant: String,
}

/// One arm of a widening: the value of variant `from` goes into variant `to`.
#[derive(Debug, PartialEq, Eq)]
pub struct Arm {
    pub from: String,
    pub to: String,
}

/// A conversion from the union `source` into its superset `target`, by a
/// match with one arm per variant of `source`.
#[derive(Debug, PartialEq, Eq)]
pub struct Widening {
    pub source: String,
    pub target: String,
    pub arms: Vec<Arm>,
}

/// Everything one declaration expands into.
#[derive(Debug, PartialEq, Eq)]
pub struct Expansion {
    pub def: UnionDef,
    pub widening: Option<Widening>,
    pub injections: Vec<Injection>,
}

/// `e` is what declaration `d` with arguments `a` expands into.
pub open spec fn expands(d: Declaration, a: Arguments, e: Expansion) -> bool {
    let n = d.cases.len();
    &&& e.def.attrs@ == d.attrs@
    &&& e.def.vis == d.vis
    &&& e.def.name@ == d.name@
    &&& e.def.variants.len() == n
    &&& forall|i: int|
        0 <= i < n ==> (#[trigger] e.def.variants@[i]).tag@ == d.cases@[i]@
            && e.def.variants@[i].payload@ == d.cases@[i]@
    &&& e.injections.len() == n
    &&& forall|i: int|
        0 <= i < n ==> (#[trigger] e.injections@[i]).source@ == d.cases@[i]@
            && e.injections@[i].target@ == d.name@ && e.injections@[i].variant@ == d.cases@[i]@
    &&& (e.widening is Some <==> a.superset is Some)
    &&& e.widening matches Some(w) ==> {
        &&& w.source@ == d.name@
        &&& w.target@ == a.superset->Some_0@
        &&& w.arms.len() == n
        &&& forall|i: int|
            0 <= i < n ==> (#[trigger] w.arms@[i]).from@ == d.cases@[i]@ && w.arms@[i].to@
                == d.cases@[i]@
    }
}

/// Builds the union, the injections and, when a superset is named, the
/// widening.
pub fn generate(d: Declaration, a: Arguments) -> (e: Expansion)
    ensures
        expands(d, a, e),
{
    let ghost d0 = d;
    let Declaration { attrs, vis, name, cases } = d;
    let n = cases.len();
    let mut variants: Vec<Variant> = Vec::new();
    let mut injections: Vec<Injection> = Vec::new();
    let mut arms: Vec<Arm> = Vec::new();
    let mut i: usize = 0;
    while i < n
        invariant
            n == cases.len(),
            i <= n,
            variants.len() == i,
            injections.len() == i,
            arms.len() == i,
            forall|k: int|
                0 <= k < i ==> (#[trigger] variants@[k]).tag@ == cases@[k]@
                    && variants@[k].payload@ == cases@[k]@,
            forall|k: int|
                0 <= k < i ==> (#[trigger] injections@[k]).source@ == cases@[k]@
                    && injections@[k].target@ == name@ && injections@[k].variant@ == cases@[k]@,
            forall|k: int|
                0 <= k < i ==> (#[trigger] arms@[k]).from@ == cases@[k]@ && arms@[k].to@
                    == cases@[k]@,
        decreases n - i,
    {
        let c = &cases[i];
        variants.push(Variant { tag: c.clone(), payload: c.clone() });
        injections.push(Injection { source: c.clone(), target: name.clone(), variant: c.clone() });
        arms.push(Arm { from: c.clone(), to: c.clone() });
        i = i + 1;
    }
    let widening = match a.superset {
        Some(s) => Some(Widening { source: name.clone(), target: s, arms }),
        None => None,
    };
    let e = Expansion {
        def: UnionDef { attrs, vis, name, variants },
        widening,
        injections,
    };
    assert(d0.cases == cases);
    e
}

} // verus!
