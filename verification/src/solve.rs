//! The solver's settings vocabulary, how a search reports why it stopped,
//! and why a solve could not run.

use vstd::prelude::*;
use crate::assignment::Slot;
use crate::ids::OperatorId;
use crate::sim::SimError;

verus! {

/// Which search to run.
#[derive(Debug, Clone, Copy, PartialEq, Eq, Structural)]
pub enum Strategy {
    /// Exhaustive when the space is small enough, else annealing.
    Auto,
    /// Enumerate every assignment of the pool to the variable slots.
    Exhaustive,
    /// Simulated annealing with restarts.
    Annealing,
}

impl Default for Strategy {
    fn default() -> (r: Self)
        ensures
            r == Strategy::Auto,
    {
        Strategy::Auto
    }
}

/// What scores candidates inside the search loop.
#[derive(Debug, Clone, Copy, PartialEq, Eq, Structural)]
pub enum InnerEvaluator {
    /// The instantaneous evaluator extrapolated over the horizon: fast, and
    /// good enough to rank. The finalists are re-scored with the simulator.
    SteadyState,
    /// The full simulator on every candidate: slow, exact with respect to
    /// the model.
    Simulation,
}

impl Default for InnerEvaluator {
    fn default() -> (r: Self)
        ensures
            r == InnerEvaluator::SteadyState,
    {
        InnerEvaluator::SteadyState
    }
}

/// Why a search ended before it had covered its whole plan.
#[derive(Debug, Clone, Copy, PartialEq, Eq, Structural)]
pub enum StopReason {
    /// The time budget ran out.
    TimeBudget,
    /// The observer asked to stop.
    Requested,
}

/// Which part of a solve is running.
#[derive(Debug, Clone, Copy, PartialEq, Eq, Structural)]
pub enum Phase {
    /// Exploring assignments with the inner evaluator.
    Searching,
    /// Re-scoring the finalists with the full simulator.
    Rescoring,
}

/// An observer that ignores everything and never stops.
#[derive(Debug, Clone, Copy, Default)]
pub struct Unobserved;

impl Unobserved {
    /// Whether the search should end now: never.
    pub fn should_stop(&self) -> (r: bool)
        ensures
            !r,
    {
        false
    }
}

/// Why a solve could not run.
#[derive(Debug, Clone, PartialEq, Eq)]
pub enum SolveError {
    /// The simulator rejected the request.
    Sim(SimError),
    /// A solver setting is out of range.
    Config(String),
    /// A pool or locked operator is not in the game data.
    UnknownOperator(OperatorId),
    /// A locked slot names a room or index the base lacks.
    BadLockedSlot(Slot),
    /// Nothing to decide: no variable slots.
    EmptySpace,
}


impl SolveError {
    /// Why the solve could not run, in words.
    pub open spec fn spec_message(&self) -> Seq<char> {
        match self {
            SolveError::Sim(e) => e.spec_message(),
            SolveError::Config(msg) => "invalid solver config: "@ + msg@,
            SolveError::UnknownOperator(op) => "unknown operator "@ + op@,
            SolveError::BadLockedSlot(s) => "locked slot "@ + s.spec_text() + " does not exist"@,
            SolveError::EmptySpace => "no slots for the solver to fill"@,
        }
    }

    /// Why the solve could not run, in words.
    pub fn message(&self) -> (r: String)
        ensures
            r@ == self.spec_message(),
    {
        match self {
            SolveError::Sim(e) => e.message(),
            SolveError::Config(msg) => {
                let mut out = "invalid solver config: ".to_owned();
                out.append(msg.as_str());
                out
            },
            SolveError::UnknownOperator(op) => {
                let mut out = "unknown operator ".to_owned();
                out.append(op.as_str());
                out
            },
            SolveError::BadLockedSlot(s) => {
                let mut out = "locked slot ".to_owned();
                let t = s.to_text();
                out.append(t.as_str());
                out.append(" does not exist");
                out
            },
            SolveError::EmptySpace => "no slots for the solver to fill".to_owned(),
        }
    }
}

} // verus!
