//! Statistics about the relationship between an action and a state.

use vstd::prelude::*;
use crate::value::QValue;

verus! {

/// Represents the stats that can be associated with an action.
pub trait ActionStatter<V>: Sized {
    /// A record with no call and zero values.
    fn new() -> Self;

    /// The number of times this action has been executed.
    fn calls(&self) -> i64;

    /// Set the number of times this action has been executed.
    fn set_calls(&mut self, n: i64);

    /// The raw Q value for this action.
    fn q_value_raw(&self) -> V;

    /// Set the raw Q value for this action.
    fn set_q_value_raw(&mut self, q: V);

    /// The weighted Q value for this action.
    fn q_value_weighted(&self) -> V;

    /// Set the weighted Q value for this action.
    fn set_q_value_weighted(&mut self, q: V);
}

/// Contains statistics about an action that has been applied to some state.
#[derive(Debug, Clone, Copy, PartialEq)]
pub struct ActionStats<V> {
    /// The number of learning updates applied to this action.
    pub call_count: i64,
    /// The raw q-value associated with this action.
    pub q_raw: V,
    /// The q-value for this action, weighted according to the agent's
    /// weighting rules.
    pub q_weighted: V,
}

/// The statistics record under its shorter name.
pub type Stats<V> = ActionStats<V>;

impl<V: QValue> ActionStatter<V> for ActionStats<V> {
    /// Instantiates a new ActionStats object.
    fn new() -> (r: Self)
        ensures
            r.call_count == 0,
            r.q_raw == V::spec_zero(),
            r.q_weighted == V::spec_zero(),
    {
        let z = V::zero();
        ActionStats { call_count: 0, q_raw: z, q_weighted: z }
    }

    /// Returns the number of times this action has been called.
    fn calls(&self) -> (r: i64)
        ensures
            r == self.call_count,
    {
        self.call_count
    }

    /// Sets the number of times this action has been called.
    fn set_calls(&mut self, n: i64)
        ensures
            *final(self) == (ActionStats { call_count: n, ..*old(self) }),
    {
        self.call_count = n;
    }

    /// Returns the raw q-value for this action.
    fn q_value_raw(&self) -> (r: V)
        ensures
            r == self.q_raw,
    {
        self.q_raw
    }

    /// Sets the raw q-value for this action.
    fn set_q_value_raw(&mut self, q: V)
        ensures
            *final(self) == (ActionStats { q_raw: q, ..*old(self) }),
    {
        self.q_raw = q;
    }

    /// Returns the weighted q-value for this action.
    fn q_value_weighted(&self) -> (r: V)
        ensures
            r == self.q_weighted,
    {
        self.q_weighted
    }

    /// Sets the weighted q-value for this action.
    fn set_q_value_weighted(&mut self, q: V)
        ensures
            *final(self) == (ActionStats { q_weighted: q, ..*old(self) }),
    {
        self.q_weighted = q;
    }
}

} // verus!
