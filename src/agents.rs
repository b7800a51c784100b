//! Agents recommend actions, apply them and learn from the rewards that
//! follow.

use vstd::prelude::*;
use crate::actions::Actioner;
use crate::errors::LearnerError;
use crate::states::Stater;

verus! {

/// Represents something that is capable of recommending actions, applying
/// actions to a given state, and learning based on the transition from one
/// state to another.
pub trait Agenter<'a, V, S: Stater<'a, A>, A: Actioner<'a> + 'a> {
    /// Recommends an action given a state and the model that the agent has
    /// learned thus far.
    fn recommend_action(&mut self, stater: &'a S) -> Result<&'a A, LearnerError>;

    /// Applies an action to a given state, or returns an error if the action
    /// is not applicable to the state.
    fn transition(&self, stater: &'a S, actioner: &'a A) -> Result<(), LearnerError>;

    /// Updates the model for a given state and action using the provided reward.
    fn learn(
        &mut self,
        previous_state: Option<&'a S>,
        action_taken: &'a A,
        current_state: &'a S,
        reward: V,
    );
}

} // verus!
