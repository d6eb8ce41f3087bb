use vstd::prelude::*;

verus! {

/// The three views of the application window.
#[derive(Clone, Copy, Debug, PartialEq, Eq, Structural)]
pub enum Tabs {
    Statement,
    BudgetSummary,
    Budget,
}

} // verus!
