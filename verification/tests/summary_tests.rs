use budgy::records::{BudgetRow, StatementRecord, StatementRow, SummaryRow};
use budgy::statement::keep_categorised;
use budgy::summary::{distinct_parent_categories, summarize, SummaryError};

fn line(category: &str, parent: &str, money_in: Option<i64>, money_out: Option<i64>, fee: Option<i64>) -> StatementRow {
    StatementRow {
        category: category.to_string(),
        parent_category: parent.to_string(),
        money_in,
        money_out,
        fee,
    }
}

fn budget(category: Option<&str>, amount: Option<i64>) -> BudgetRow {
    BudgetRow { category: category.map(|c| c.to_string()), budget_amount: amount }
}

fn previous(parent: Option<&str>, balance: Option<i64>) -> SummaryRow {
    SummaryRow {
        parent_category: parent.map(|c| c.to_string()),
        money_in: None,
        money_out: None,
        fee: None,
        budget_amount: None,
        previous_balance: None,
        balance,
    }
}

fn summary(
    parent: &str,
    money_in: i64,
    money_out: i64,
    fee: i64,
    budget_amount: Option<i64>,
    previous_balance: Option<i64>,
    balance: Option<i64>,
) -> SummaryRow {
    SummaryRow {
        parent_category: Some(parent.to_string()),
        money_in: Some(money_in),
        money_out: Some(money_out),
        fee: Some(fee),
        budget_amount,
        previous_balance,
        balance,
    }
}

#[test]
fn keeps_only_categorised_lines() {
    let records = vec![
        StatementRecord {
            category: Some("Groceries".to_string()),
            parent_category: Some("Food".to_string()),
            money_in: None,
            money_out: Some(-1250),
            fee: None,
        },
        StatementRecord {
            category: None,
            parent_category: Some("Food".to_string()),
            money_in: None,
            money_out: Some(-99),
            fee: None,
        },
        StatementRecord {
            category: Some("Airtime".to_string()),
            parent_category: None,
            money_in: None,
            money_out: Some(-500),
            fee: None,
        },
        StatementRecord {
            category: Some("Wages".to_string()),
            parent_category: Some("Salary".to_string()),
            money_in: Some(100000),
            money_out: None,
            fee: Some(-10),
        },
    ];
    let rows = keep_categorised(&records);
    assert_eq!(
        rows,
        vec![
            line("Groceries", "Food", None, Some(-1250), None),
            line("Wages", "Salary", Some(100000), None, Some(-10)),
        ]
    );
}

#[test]
fn parent_categories_are_sorted_and_distinct() {
    let st = vec![
        line("a", "Mobile", None, None, None),
        line("b", "Food", None, None, None),
        line("c", "Mobile", None, None, None),
        line("d", "Bank", None, None, None),
        line("e", "Food", None, None, None),
    ];
    assert_eq!(distinct_parent_categories(&st), vec!["Bank".to_string(), "Food".to_string(), "Mobile".to_string()]);
}

#[test]
fn summary_sums_joins_and_sorts() {
    let st = vec![
        line("Groceries", "Food", None, Some(-1500), Some(-5)),
        line("Wages", "Salary", Some(200000), None, None),
        line("Takeaway", "Food", Some(300), Some(-700), None),
        line("Fees", "Bank", None, None, Some(-250)),
    ];
    let bu = vec![
        budget(Some("Food"), Some(3000)),
        budget(Some("Salary"), Some(0)),
        budget(Some("Fuel"), Some(1000)),
    ];
    let pr = vec![previous(Some("Food"), Some(400)), previous(Some("Salary"), Some(-50))];
    let rows = summarize(&st, &bu, &pr).unwrap();
    assert_eq!(
        rows,
        vec![
            summary("Bank", 0, 0, -250, None, None, None),
            summary("Food", 300, -2200, -5, Some(3000), Some(400), Some(300 - 2200 - 5 - 3000 + 400)),
            summary("Salary", 200000, 0, 0, Some(0), Some(-50), Some(199950)),
        ]
    );
}

#[test]
fn summary_left_join_repeats_lines_for_each_partner() {
    let st = vec![line("x", "Food", Some(10), None, None)];
    let bu = vec![budget(Some("Food"), Some(1)), budget(None, Some(7)), budget(Some("Food"), None)];
    let pr = vec![previous(Some("Food"), Some(100)), previous(Some("Food"), Some(200)), previous(None, Some(5))];
    let rows = summarize(&st, &bu, &pr).unwrap();
    assert_eq!(
        rows,
        vec![
            summary("Food", 10, 0, 0, Some(1), Some(100), Some(109)),
            summary("Food", 10, 0, 0, Some(1), Some(200), Some(209)),
            summary("Food", 10, 0, 0, None, Some(100), None),
            summary("Food", 10, 0, 0, None, Some(200), None),
        ]
    );
}

#[test]
fn summary_of_empty_statement_is_empty() {
    let bu = vec![budget(Some("Food"), Some(1))];
    assert_eq!(summarize(&vec![], &bu, &vec![]).unwrap(), vec![]);
}

#[test]
fn summary_balance_needs_previous_balance() {
    let st = vec![line("x", "Fuel", None, Some(-400), None)];
    let bu = vec![budget(Some("Fuel"), Some(1000))];
    let rows = summarize(&st, &bu, &vec![]).unwrap();
    assert_eq!(rows, vec![summary("Fuel", 0, -400, 0, Some(1000), None, None)]);
}

#[test]
fn summary_total_overflow_is_an_error() {
    let st = vec![
        line("x", "Food", Some(i64::MAX), None, None),
        line("y", "Food", Some(1), None, None),
    ];
    assert_eq!(summarize(&st, &vec![], &vec![]), Err(SummaryError::AmountOverflow));
}

#[test]
fn summary_total_may_pass_through_large_values() {
    let st = vec![
        line("x", "Food", Some(i64::MAX), None, None),
        line("y", "Food", Some(i64::MAX), None, None),
        line("z", "Food", Some(i64::MIN), None, None),
    ];
    let rows = summarize(&st, &vec![], &vec![]).unwrap();
    assert_eq!(rows, vec![summary("Food", i64::MAX - 1, 0, 0, None, None, None)]);
}

#[test]
fn summary_balance_overflow_is_an_error() {
    let st = vec![line("x", "Food", Some(i64::MAX), None, None)];
    let bu = vec![budget(Some("Food"), Some(-1))];
    let pr = vec![previous(Some("Food"), Some(0))];
    assert_eq!(summarize(&st, &bu, &pr), Err(SummaryError::AmountOverflow));
}

#[test]
fn summary_orders_by_code_point() {
    let st = vec![
        line("x", "food", None, None, None),
        line("x", "Food", None, None, None),
        line("x", "Fo", None, None, None),
        line("x", "Éclair", None, None, None),
    ];
    let rows = summarize(&st, &vec![], &vec![]).unwrap();
    let names: Vec<String> = rows.iter().map(|r| r.parent_category.clone().unwrap()).collect();
    assert_eq!(names, vec!["Fo", "Food", "food", "Éclair"]);
}

#[test]
fn mask_marks_categorised_lines() {
    let r = |c: Option<&str>, p: Option<&str>| StatementRecord {
        category: c.map(|s| s.to_string()),
        parent_category: p.map(|s| s.to_string()),
        money_in: None,
        money_out: None,
        fee: None,
    };
    let records = vec![r(Some("a"), Some("b")), r(None, Some("b")), r(Some("a"), None), r(None, None)];
    assert_eq!(budgy::statement::categorised_mask(&records), vec![true, false, false, false]);
}
