//! A tabular Q-learning core: an action-value table, a Bayesian-weighted
//! agent that recommends actions and learns from rewards, and the numeric
//! kernel they share.

pub mod actions;
pub mod agents;
pub mod alist;
pub mod bayesianagent;
pub mod errors;
pub mod iface;
pub mod math;
pub mod order;
pub mod qmap;
pub mod states;
pub mod stats;
pub mod tiebreak;
pub mod value;
