use budgy::budget::{blank_summary, drain_budget, editable_budget};
use budgy::records::{BudgetRow, SummaryRow};

#[test]
fn editable_budget_fills_empty_cells() {
    let rows = vec![
        BudgetRow { category: Some("Food".to_string()), budget_amount: Some(3000) },
        BudgetRow { category: None, budget_amount: Some(5) },
        BudgetRow { category: Some("Fuel".to_string()), budget_amount: None },
    ];
    assert_eq!(
        editable_budget(&rows),
        vec![("Food".to_string(), 3000), ("".to_string(), 5), ("Fuel".to_string(), 0)]
    );
}

#[test]
fn drain_budget_empties_into_columns() {
    let mut deltas = vec![("Food".to_string(), 3000), ("Fuel".to_string(), -2)];
    let (categories, amounts) = drain_budget(&mut deltas);
    assert!(deltas.is_empty());
    assert_eq!(categories, vec!["Food".to_string(), "Fuel".to_string()]);
    assert_eq!(amounts, vec![3000, -2]);
}

#[test]
fn blank_summary_has_a_zero_line_per_budget_line() {
    let rows = vec![
        BudgetRow { category: Some("Food".to_string()), budget_amount: Some(3000) },
        BudgetRow { category: None, budget_amount: None },
    ];
    let zero = |p: Option<&str>| SummaryRow {
        parent_category: p.map(|s| s.to_string()),
        money_in: Some(0),
        money_out: Some(0),
        fee: Some(0),
        budget_amount: Some(0),
        previous_balance: None,
        balance: Some(0),
    };
    assert_eq!(blank_summary(&rows), vec![zero(Some("Food")), zero(None)]);
}
