//! The interpreter: it takes the items of the intermediate representation.
//! So far it makes no object of them.

use vstd::prelude::*;
use crate::tree::IrElements;

verus! {

/// The shape that a type declaration gives to its instances.
pub struct AbstractDType {}

/// An object made from a type expression.
pub struct DiazoObject {}

/// Takes the items in the order in which the parser emitted them.
pub fn interpreter(input: Vec<IrElements>) -> (r: Vec<DiazoObject>)
    ensures
        r@.len() == 0,
{
    let output: Vec<DiazoObject> = Vec::new();
    let mut k: usize = 0;
    while k < input.len()
        invariant
            k <= input.len(),
            output@.len() == 0,
        decreases input.len() - k,
    {
        let _tree = input[k].tree();
        k += 1;
    }
    output
}

} // verus!
