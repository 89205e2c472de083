//! Options of the service and the first-outcome-wins supervision of its tasks.

use vstd::prelude::*;
use crate::error::CliError;

verus! {

/// Command-line options: the remote endpoint's key and the port to serve on.
#[derive(Debug)]
pub struct Opts {
    pub api_key: String,
    pub port: u64,
}

/// Records the outcome of whichever supervised task finishes first. Later
/// outcomes are ignored: the first one decides that the other tasks are
/// cancelled, and it becomes the result of the whole run.
pub struct Supervisor {
    outcome: Option<Result<(), CliError>>,
}

impl View for Supervisor {
    type V = Option<Result<(), CliError>>;

    closed spec fn view(&self) -> Option<Result<(), CliError>> {
        self.outcome
    }
}

/// The supervisor's record after the outcomes arrive in turn.
pub open spec fn reported_all(
    first: Option<Result<(), CliError>>,
    outcomes: Seq<Result<(), CliError>>,
) -> Option<Result<(), CliError>>
    decreases outcomes.len(),
{
    if outcomes.len() == 0 {
        first
    } else {
        let prev = reported_all(first, outcomes.drop_last());
        if prev is None {
            Some(outcomes.last())
        } else {
            prev
        }
    }
}

impl Supervisor {
    /// A supervisor that has seen no outcome yet.
    pub fn new() -> (r: Supervisor)
        ensures
            r@ is None,
    {
        Supervisor { outcome: None }
    }

    /// Hands over the outcome of a task that finished. Returns `true` when it
    /// is the first one: the caller then cancels the other tasks.
    pub fn on_finished(&mut self, outcome: Result<(), CliError>) -> (first: bool)
        ensures
            first == (old(self)@ is None),
            final(self)@ == (if old(self)@ is None { Some(outcome) } else { old(self)@ }),
    {
        if self.outcome.is_none() {
            self.outcome = Some(outcome);
            true
        } else {
            false
        }
    }

    /// Whether an outcome has been recorded.
    pub fn is_decided(&self) -> (r: bool)
        ensures
            r == (self@ is Some),
    {
        self.outcome.is_some()
    }

    /// The recorded outcome, if any.
    pub fn into_outcome(self) -> (r: Option<Result<(), CliError>>)
        ensures
            r == self@,
    {
        self.outcome
    }
}

/// Whatever arrives after the first outcome, the first one stays the result.
pub proof fn lemma_first_outcome_wins(outcomes: Seq<Result<(), CliError>>)
    requires
        outcomes.len() > 0,
    ensures
        reported_all(None, outcomes) == Some(outcomes[0]),
    decreases outcomes.len(),
{
    if outcomes.len() > 1 {
        lemma_first_outcome_wins(outcomes.drop_last());
        assert(outcomes.drop_last()[0] == outcomes[0]);
        assert(reported_all(None, outcomes.drop_last()) is Some);
    } else {
        assert(outcomes.drop_last().len() == 0);
        assert(reported_all(None, outcomes.drop_last()) is None);
        assert(outcomes.last() == outcomes[0]);
    }
}

} // verus!
