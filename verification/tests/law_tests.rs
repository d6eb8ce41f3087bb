use budgy::budget::blank_summary;
use budgy::records::{BudgetRow, StatementRow};
use budgy::summary::summarize;

fn line(parent: &str, money_in: i64, money_out: i64, fee: i64) -> StatementRow {
    StatementRow {
        category: "c".to_string(),
        parent_category: parent.to_string(),
        money_in: Some(money_in),
        money_out: Some(money_out),
        fee: Some(fee),
    }
}

#[test]
fn summary_lines_come_sorted_and_cover_the_statement() {
    let st = vec![line("Mobile", 0, -10, 0), line("Bank", 0, 0, -3), line("Food", 5, -20, 0), line("Bank", 0, 0, -4)];
    let rows = summarize(&st, &vec![], &vec![]).unwrap();
    let names: Vec<String> = rows.iter().map(|r| r.parent_category.clone().unwrap()).collect();
    assert_eq!(names, vec!["Bank", "Food", "Mobile"]);
    assert_eq!(rows[0].fee, Some(-7));
}

#[test]
fn balance_is_flows_less_budget_plus_previous() {
    let st = vec![line("Food", 100, -2500, -30)];
    let bu = vec![BudgetRow { category: Some("Food".to_string()), budget_amount: Some(2000) }];
    let prev = blank_summary(&bu);
    let rows = summarize(&st, &bu, &prev).unwrap();
    assert_eq!(rows[0].previous_balance, Some(0));
    assert_eq!(rows[0].balance, Some(100 - 2500 - 30 - 2000 + 0));
}

#[test]
fn blank_previous_summary_gives_nothing_to_unbudgeted_categories() {
    let st = vec![line("Fuel", 0, -300, 0)];
    let bu = vec![BudgetRow { category: Some("Food".to_string()), budget_amount: Some(2000) }];
    let prev = blank_summary(&bu);
    let rows = summarize(&st, &bu, &prev).unwrap();
    assert_eq!(rows[0].previous_balance, None);
    assert_eq!(rows[0].balance, None);
}

#[test]
fn balance_is_carried_into_the_next_period() {
    let bu = vec![
        BudgetRow { category: Some("Food".to_string()), budget_amount: Some(1000) },
        BudgetRow { category: Some("Fuel".to_string()), budget_amount: Some(500) },
    ];
    let first = summarize(&vec![line("Food", 0, -800, 0), line("Fuel", 0, -700, -10)], &bu, &blank_summary(&bu)).unwrap();
    assert_eq!(first[0].balance, Some(-800 - 1000));
    assert_eq!(first[1].balance, Some(-700 - 10 - 500));
    let second = summarize(&vec![line("Fuel", 100, 0, 0), line("Food", 0, -50, 0)], &bu, &first).unwrap();
    assert_eq!(second[0].previous_balance, first[0].balance);
    assert_eq!(second[1].previous_balance, first[1].balance);
    assert_eq!(second[0].balance, Some(-50 - 1000 + (-1800)));
    assert_eq!(second[1].balance, Some(100 - 500 + (-1210)));
}
