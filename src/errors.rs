//! Error types associated with the reinforcement learning process.

use vstd::prelude::*;
use vstd::string::StringExecFns;

verus! {

/// A general error that has occurred during a learning operation.
#[derive(Debug, Clone, PartialEq, Eq)]
pub struct LearnerError {
    msg: String,
}

impl View for LearnerError {
    type V = Seq<char>;

    /// An error is seen as its message.
    closed spec fn view(&self) -> Seq<char> {
        self.msg@
    }
}

/// The message of the error raised when `action_id` is not compatible with
/// the state `state_id`.
pub open spec fn incompatible_action_message(state_id: Seq<char>, action_id: Seq<char>) -> Seq<char> {
    "action "@ + action_id + " is not compatible with state "@ + state_id
}

/// The message of the error raised when the state `state_id` offers no action.
pub open spec fn no_possible_actions_message(state_id: Seq<char>) -> Seq<char> {
    "state '"@ + state_id + "' reports no possible actions"@
}

impl LearnerError {
    /// Instantiates a new `LearnerError` with a message.
    pub fn new(msg: String) -> (r: Self)
        ensures
            r@ == msg@,
    {
        Self { msg }
    }

    /// A message associated with this error.
    pub fn message(&self) -> (r: String)
        ensures
            r@ == self@,
    {
        self.msg.clone()
    }

    /// The error for an action that the state rejects.
    pub fn incompatible_action(state_id: &str, action_id: &str) -> (r: Self)
        ensures
            r@ == incompatible_action_message(state_id@, action_id@),
    {
        let mut msg = String::from_str("action ");
        msg.append(action_id);
        msg.append(" is not compatible with state ");
        msg.append(state_id);
        Self { msg }
    }

    /// The error for a state that offers no action to choose from.
    pub fn no_possible_actions(state_id: &str) -> (r: Self)
        ensures
            r@ == no_possible_actions_message(state_id@),
    {
        let mut msg = String::from_str("state '");
        msg.append(state_id);
        msg.append("' reports no possible actions");
        Self { msg }
    }
}

} // verus!
