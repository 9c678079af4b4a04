use vstd::prelude::*;
use crate::value::Value;

verus! {

/// The mutable runtime state one evaluation runs against. Each evaluation
/// owns its context exclusively; nothing here is shared across concurrent
/// executions.
pub struct Context {
    /// The external value the program is being evaluated against.
    pub target: Value,
}

impl Context {
    pub fn new(target: Value) -> (c: Context)
        ensures
            c.target == target,
    {
        Context { target }
    }
}

} // verus!
