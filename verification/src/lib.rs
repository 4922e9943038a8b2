pub mod ast;
pub mod generator;
pub mod lexer;
pub mod parser;
pub mod strfmt;

use vstd::prelude::*;

verus! {

/// Sums two machine words; kept as the crate's smallest worked example.
pub fn add(left: usize, right: usize) -> (r: usize)
    requires
        left + right <= usize::MAX,
    ensures
        r == left + right,
{
    left + right
}

} // verus!
