//! States represent the disposition of a model at some point.

use vstd::prelude::*;
use crate::actions::Actioner;
use crate::errors::LearnerError;

verus! {

/// Represents the current disposition of the model.
pub trait Stater<'a, A: Actioner<'a> + 'a> {
    /// The identifier that `id` returns, stable for the agent's lifetime.
    spec fn spec_id(&self) -> &str;

    /// The actions that `possible_actions` returns.
    spec fn spec_actions(&self) -> Vec<&'a A>;

    /// Whether `action_is_compatible` accepts `action`.
    spec fn spec_compatible(&self, action: &'a A) -> bool;

    /// Provides the actions that are applicable to this state.
    fn possible_actions(&self) -> (r: Vec<&'a A>)
        ensures
            r@ == self.spec_actions()@,
    ;

    /// Checks whether or not the supplied action is compatible with this state.
    fn action_is_compatible(&self, action: &'a A) -> (r: bool)
        ensures
            r == self.spec_compatible(action),
    ;

    /// Returns the action of this state that has the identifier
    /// `action_name`, or an error if it has none.
    fn get_action(&self, action_name: &str) -> Result<&'a A, LearnerError>;

    /// Returns a string representation of this state.
    fn id(&self) -> (r: &str)
        ensures
            r@ == self.spec_id()@,
    ;

    /// Executes the supplied action.
    fn apply(&self, action: &'a A) -> Result<(), LearnerError>;
}

/// The identifiers of a state's possible actions, in order.
pub open spec fn possible_ids<'a, A: Actioner<'a> + 'a, S: Stater<'a, A>>(state: &S) -> Seq<Seq<char>> {
    state.spec_actions()@.map_values(|a: &'a A| a.spec_id()@)
}

} // verus!
