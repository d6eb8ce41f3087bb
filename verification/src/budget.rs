//! The budget as the user edits it: a list of (category, amount) lines.
use vstd::prelude::*;
use crate::records::{opt_text, clone_opt_text, BudgetRow, SummaryRow, SummaryLine, summary_lines};

verus! {

/// The text and amount an edited budget line holds.
pub open spec fn delta_line(d: (String, i64)) -> (Seq<char>, i64) {
    (d.0@, d.1)
}

/// The lines of an edited budget.
pub open spec fn delta_lines(v: Seq<(String, i64)>) -> Seq<(Seq<char>, i64)> {
    v.map_values(|d: (String, i64)| delta_line(d))
}

/// A budget line as the editor shows it: an empty category reads as the
/// empty text and an empty amount as zero.
pub open spec fn editable_line(r: BudgetRow) -> (Seq<char>, i64) {
    (
        match opt_text(r.category) {
            Some(t) => t,
            None => Seq::empty(),
        },
        match r.budget_amount {
            Some(a) => a,
            None => 0,
        },
    )
}

/// Turns the stored budget into lines the user can edit.
pub fn editable_budget(rows: &Vec<BudgetRow>) -> (deltas: Vec<(String, i64)>)
    ensures
        delta_lines(deltas@) == rows@.map_values(|r: BudgetRow| editable_line(r)),
{
    let mut deltas: Vec<(String, i64)> = Vec::new();
    let n = rows.len();
    for i in 0..n
        invariant
            n == rows.len(),
            deltas@.len() == i,
            delta_lines(deltas@) == rows@.take(i as int).map_values(|r: BudgetRow| editable_line(r)),
    {
        let category = match &rows[i].category {
            Some(c) => c.clone(),
            None => String::new(),
        };
        let amount = match rows[i].budget_amount {
            Some(a) => a,
            None => 0,
        };
        let ghost before = deltas@;
        deltas.push((category, amount));
        assert(delta_line(deltas@[i as int]) == editable_line(rows@[i as int]));
        assert(delta_lines(deltas@) =~= delta_lines(before).push(editable_line(rows@[i as int])));
        assert(rows@.take(i + 1) =~= rows@.take(i as int).push(rows@[i as int]));
        assert(delta_lines(deltas@) =~= rows@.take(i + 1).map_values(
            |r: BudgetRow| editable_line(r),
        ));
    }
    assert(rows@.take(n as int) =~= rows@);
    deltas
}

/// Empties the edited budget into its two columns, category and amount,
/// ready to be stored.
pub fn drain_budget(deltas: &mut Vec<(String, i64)>) -> (columns: (Vec<String>, Vec<i64>))
    ensures
        final(deltas)@.len() == 0,
        columns.0@.len() == old(deltas)@.len(),
        columns.1@.len() == old(deltas)@.len(),
        forall|i: int|
            0 <= i < old(deltas)@.len() ==> columns.0@[i]@ == (#[trigger] old(deltas)@[i]).0@
                && columns.1@[i] == old(deltas)@[i].1,
{
    let n = deltas.len();
    let mut categories: Vec<String> = Vec::new();
    let mut amounts: Vec<i64> = Vec::new();
    for i in 0..n
        invariant
            n == deltas.len(),
            deltas@ == old(deltas)@,
            categories@.len() == i,
            amounts@.len() == i,
            forall|j: int|
                0 <= j < i ==> categories@[j]@ == (#[trigger] deltas@[j]).0@ && amounts@[j]
                    == deltas@[j].1,
    {
        categories.push(deltas[i].0.clone());
        amounts.push(deltas[i].1);
    }
    deltas.clear();
    (categories, amounts)
}

/// The summary line that stands for a budget line before any period was
/// summarised: the category with every amount zero.
pub open spec fn blank_line(r: BudgetRow) -> SummaryLine {
    SummaryLine {
        parent_category: opt_text(r.category),
        money_in: Some(0),
        money_out: Some(0),
        fee: Some(0),
        budget_amount: Some(0),
        previous_balance: None,
        balance: Some(0),
    }
}

/// The summary to start from when there is no previous one: a zero line for
/// each budget line.
pub fn blank_summary(budget: &Vec<BudgetRow>) -> (rows: Vec<SummaryRow>)
    ensures
        summary_lines(rows@) == budget@.map_values(|r: BudgetRow| blank_line(r)),
{
    let mut rows: Vec<SummaryRow> = Vec::new();
    let n = budget.len();
    for i in 0..n
        invariant
            n == budget.len(),
            rows@.len() == i,
            summary_lines(rows@) == budget@.take(i as int).map_values(|r: BudgetRow| blank_line(r)),
    {
        let ghost before = rows@;
        rows.push(
            SummaryRow {
                parent_category: clone_opt_text(&budget[i].category),
                money_in: Some(0),
                money_out: Some(0),
                fee: Some(0),
                budget_amount: Some(0),
                previous_balance: None,
                balance: Some(0),
            },
        );
        assert(rows@[i as int]@ == blank_line(budget@[i as int]));
        assert(summary_lines(rows@) =~= summary_lines(before).push(blank_line(budget@[i as int])));
        assert(budget@.take(i + 1) =~= budget@.take(i as int).push(budget@[i as int]));
        assert(summary_lines(rows@) =~= budget@.take(i + 1).map_values(
            |r: BudgetRow| blank_line(r),
        ));
    }
    assert(budget@.take(n as int) =~= budget@);
    rows
}

/// The budget as it reads back after its two columns were stored.
pub fn budget_from_columns(categories: &Vec<String>, amounts: &Vec<i64>) -> (rows: Vec<BudgetRow>)
    requires
        categories@.len() == amounts@.len(),
    ensures
        rows@.len() == categories@.len(),
        forall|i: int|
            0 <= i < rows@.len() ==> opt_text(#[trigger] rows@[i].category) == Some(categories@[i]@)
                && rows@[i].budget_amount == Some(amounts@[i]),
{
    let mut rows: Vec<BudgetRow> = Vec::new();
    let n = categories.len();
    for i in 0..n
        invariant
            n == categories@.len(),
            n == amounts@.len(),
            rows@.len() == i,
            forall|j: int|
                0 <= j < i ==> opt_text(#[trigger] rows@[j].category) == Some(categories@[j]@)
                    && rows@[j].budget_amount == Some(amounts@[j]),
    {
        rows.push(BudgetRow { category: Some(categories[i].clone()), budget_amount: Some(amounts[i]) });
    }
    rows
}

} // verus!
