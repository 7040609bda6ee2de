//! Tagged unions from sum-of-types declarations.
//!
//! A declaration `type Name = A + B + C;`, optionally with the argument
//! clause `super = S`, is parsed from tokens into a [`Declaration`] and
//! expanded into an [`Expansion`]: one enum variant per case, one injection
//! per case, and a widening into the superset when one is named.
use vstd::prelude::*;

pub mod token;
pub mod parse;
pub mod expand;
pub mod laws;

pub use expand::{expands, generate, Arm, Expansion, Injection, UnionDef, Variant, Widening};
pub use parse::{
    arguments_error, fits_all, declaration_error, is_arguments, is_declaration, parse_arguments, parse_declaration,
    Arguments, Attribute, Declaration, Expected, ParseError, Visibility,
};
pub use token::{Delimiter, Spacing, TokenTree};

use laws::{arguments_unique, case_names, declaration_unique};

verus! {

/// A syntax error, in the argument clause or in the declaration.
#[derive(Clone, Copy, Debug, PartialEq, Eq)]
pub enum UnionError {
    Arguments(ParseError),
    Declaration(ParseError),
}

/// Expands one annotated declaration: `attr` holds the tokens of the
/// argument clause, `item` those of the declaration.
///
/// The argument clause is read first; an error in it is reported before the
/// declaration is looked at. Nothing is expanded unless both are well formed.
pub fn type_union(attr: Vec<TokenTree>, item: Vec<TokenTree>) -> (r: Result<Expansion, UnionError>)
    ensures
        r is Ok <==> is_arguments(attr@) && is_declaration(item@),
        r matches Err(UnionError::Arguments(e)) <==> !is_arguments(attr@),
        r matches Err(UnionError::Arguments(e)) ==> e == arguments_error(attr@),
        r matches Err(UnionError::Declaration(e)) ==> e == declaration_error(item@),
        r matches Ok(e) ==> forall|d: Declaration, a: Arguments|
            {
                &&& d.wf() && fits_all(item@, d.shape())
                &&& a.wf() && fits_all(attr@, a.shape())
            } ==> #[trigger] expands(d, a, e),
{
    let a = match parse_arguments(attr) {
        Ok(a) => a,
        Err(e) => {
            return Err(UnionError::Arguments(e));
        },
    };
    let d = match parse_declaration(item) {
        Ok(d) => d,
        Err(e) => {
            return Err(UnionError::Declaration(e));
        },
    };
    let ghost d0 = d;
    let ghost a0 = a;
    let e = generate(d, a);
    proof {
        assert forall|d: Declaration, a: Arguments|
            {
                &&& d.wf() && fits_all(item@, d.shape())
                &&& a.wf() && fits_all(attr@, a.shape())
            } implies #[trigger] expands(d, a, e) by {
            declaration_unique(item@, d0, d);
            arguments_unique(attr@, a0, a);
            assert forall|i: int| 0 <= i < d.cases.len() implies d.cases@[i]@ == d0.cases@[i]@ by {
                assert(case_names(d)[i] == case_names(d0)[i]);
            }
        }
    }
    Ok(e)
}

} // verus!
