//! Actions represent steps that can be taken to transition a model from one
//! state to another.

use vstd::prelude::*;

verus! {

/// Represents an action that can be applied to the model's current state.
pub trait Actioner<'a> {
    /// The identifier that `id` returns. It must be unique among the actions
    /// that one agent sees, and stable for the agent's lifetime: actions that
    /// share an identifier share statistics.
    spec fn spec_id(&self) -> &'a str;

    /// Returns a string representation of the given action.
    fn id(&self) -> (r: &'a str)
        ensures
            r@ == self.spec_id()@,
    ;
}

} // verus!
