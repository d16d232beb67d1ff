//! An embeddable interpreter for a small record-oriented configuration
//! language: a lexer, a recursive-descent parser, and a tree-walking
//! evaluator with a host-supplied, mutable dispatch contract.

pub mod ast;
pub mod eval;
pub mod goodies;
pub mod lexer;
pub mod parser;

use vstd::prelude::*;

verus! {

/// The language version this interpreter implements: `1.0`.
pub open spec fn spec_version() -> ast::FloatV {
    ast::FloatV { whole: 1, frac: 0, decimals: 1 }
}

/// The language version this interpreter implements, as a [`ast::Float`]
/// (a `#meta-lang` directive checks a document's required version against it).
pub fn version() -> (v: ast::Float)
    ensures
        v@ == spec_version(),
{
    ast::Float { whole: 1, frac: 0, decimals: 1 }
}

} // verus!
