//! The integer core of a stochastic branching-process outbreak simulator.
//!
//! Every count that the simulator produces is decided here and proved: how a
//! generation's infections are spread over days, how generations follow one
//! another, how onsets are thinned into reports and how a simulated report
//! curve is scored against an observed one. Real numbers (probabilities,
//! rates, sampled parameters) are carried through but never computed with.
//! The random draws that depend on them are supplied by the caller as
//! closures, which receive the randomness source that each call threads
//! through.

pub mod branching;
pub mod error;
pub mod multinomial;
pub mod prior;
pub mod score;
pub mod simulation;
