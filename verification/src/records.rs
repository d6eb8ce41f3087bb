//! The rows of the three tables the application works with: the bank
//! statement, the budget, and the per-category summary.
//!
//! Amounts of money are whole hundredths of the currency unit (cents); a
//! missing cell of a table is `None`.
use vstd::prelude::*;

verus! {

/// The text a cell holds, if any.
pub open spec fn opt_text(o: Option<String>) -> Option<Seq<char>> {
    match o {
        Some(s) => Some(s@),
        None => None,
    }
}

/// One line of a bank statement as it was read, before it is checked for
/// its categories.
#[derive(Clone, Debug, PartialEq, Eq)]
pub struct StatementRecord {
    pub category: Option<String>,
    pub parent_category: Option<String>,
    pub money_in: Option<i64>,
    pub money_out: Option<i64>,
    pub fee: Option<i64>,
}

/// One line of a bank statement that carries both its categories.
#[derive(Clone, Debug, PartialEq, Eq)]
pub struct StatementRow {
    pub category: String,
    pub parent_category: String,
    pub money_in: Option<i64>,
    pub money_out: Option<i64>,
    pub fee: Option<i64>,
}

/// What a statement line holds, in mathematical form.
pub struct StatementLine {
    pub category: Seq<char>,
    pub parent_category: Seq<char>,
    pub money_in: Option<i64>,
    pub money_out: Option<i64>,
    pub fee: Option<i64>,
}

impl View for StatementRow {
    type V = StatementLine;

    open spec fn view(&self) -> StatementLine {
        StatementLine {
            category: self.category@,
            parent_category: self.parent_category@,
            money_in: self.money_in,
            money_out: self.money_out,
            fee: self.fee,
        }
    }
}

/// One line of the budget: how much a category may spend in a period.
#[derive(Clone, Debug, PartialEq, Eq)]
pub struct BudgetRow {
    pub category: Option<String>,
    pub budget_amount: Option<i64>,
}

/// One line of a period's summary: the flows of a parent category, its
/// budget, the balance it carried in and the balance it carries out.
#[derive(Clone, Debug, PartialEq, Eq)]
pub struct SummaryRow {
    pub parent_category: Option<String>,
    pub money_in: Option<i64>,
    pub money_out: Option<i64>,
    pub fee: Option<i64>,
    pub budget_amount: Option<i64>,
    pub previous_balance: Option<i64>,
    pub balance: Option<i64>,
}

/// What a summary line holds, in mathematical form.
pub struct SummaryLine {
    pub parent_category: Option<Seq<char>>,
    pub money_in: Option<i64>,
    pub money_out: Option<i64>,
    pub fee: Option<i64>,
    pub budget_amount: Option<i64>,
    pub previous_balance: Option<i64>,
    pub balance: Option<i64>,
}

impl View for SummaryRow {
    type V = SummaryLine;

    open spec fn view(&self) -> SummaryLine {
        SummaryLine {
            parent_category: opt_text(self.parent_category),
            money_in: self.money_in,
            money_out: self.money_out,
            fee: self.fee,
            budget_amount: self.budget_amount,
            previous_balance: self.previous_balance,
            balance: self.balance,
        }
    }
}

/// The lines a vector of rows holds.
pub open spec fn statement_lines(v: Seq<StatementRow>) -> Seq<StatementLine> {
    v.map_values(|r: StatementRow| r@)
}

/// The lines a vector of rows holds.
pub open spec fn summary_lines(v: Seq<SummaryRow>) -> Seq<SummaryLine> {
    v.map_values(|r: SummaryRow| r@)
}

/// Copies a cell of text.
pub fn clone_opt_text(o: &Option<String>) -> (r: Option<String>)
    ensures
        opt_text(r) == opt_text(*o),
{
    match o {
        Some(s) => Some(s.clone()),
        None => None,
    }
}

} // verus!
