use vstd::prelude::*;

verus! {

/// The operations the program offers.
#[derive(Clone, Copy, Debug, PartialEq, Eq, Structural)]
pub enum Command {
    /// Record a prediction by answering some prompts.
    Predict,
    /// Resolve any due predictions.
    Resolve,
    /// Show the accuracy for each probability bin.
    Tally,
    /// List all predictions.
    Show,
    /// Calculate the Brier score of the resolved predictions.
    Score,
}

/// The parsed command line: which operation to run.
#[derive(Clone, Copy, Debug, PartialEq, Eq, Structural)]
pub struct Args {
    pub command: Command,
}

} // verus!
