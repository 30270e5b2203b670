//! Composes record types from other record types: aliases, and the
//! `Required` / `Optional` field rewrites, resolved against a registry that
//! is filled in declaration order.
use vstd::prelude::*;

pub mod emit;
pub mod errors;
pub mod item;
pub mod laws;
pub mod name_order;
pub mod parser;
pub mod pipeline;
pub mod processor;
pub mod record;
pub mod state;
pub mod token;
pub mod type_expr;

verus! {

/// The sum of two sizes.
pub fn add(left: usize, right: usize) -> (r: usize)
    requires
        left + right <= usize::MAX,
    ensures
        r == left + right,
{
    left + right
}

} // verus!
