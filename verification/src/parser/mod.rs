pub mod input;
pub mod lexer;
pub mod ast;

use vstd::prelude::*;

verus! {

pub fn test_fn() -> (r: i32)
    ensures
        r == 32,
{
    32
}

} // verus!
