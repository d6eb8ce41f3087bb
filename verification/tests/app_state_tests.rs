use budgy::budgy::{BudgetTabAction, Budgy, ExportTarget, StatementTabAction, SummaryTabAction};
use budgy::config::{Color, Config};
use budgy::records::{BudgetRow, StatementRecord, SummaryRow};
use budgy::Tabs;

fn empty_config() -> Config {
    Config { recents: vec![], statement_path: None, categories: vec![] }
}

fn config_with(recents: &[&str], path: Option<&str>) -> Config {
    Config {
        recents: recents.iter().map(|s| s.to_string()).collect(),
        statement_path: path.map(|s| s.to_string()),
        categories: vec![("Food".to_string(), Color { r: 1, g: 2, b: 3, a: 255 })],
    }
}

#[test]
fn new_prefers_the_statement_named_on_the_command_line() {
    let b = Budgy::new(config_with(&[], Some("/old.csv")), Some("/new.csv".to_string()), None);
    assert_eq!(b.config.statement_path, Some("/new.csv".to_string()));
    assert_eq!(b.current_tab, Tabs::Statement);
    assert!(b.budget_deltas.is_empty());
    let b = Budgy::new(config_with(&[], Some("/old.csv")), None, None);
    assert_eq!(b.config.statement_path, Some("/old.csv".to_string()));
}

#[test]
fn import_puts_new_paths_first_once() {
    let mut b = Budgy::new(config_with(&["/a.csv", "/b.csv"], None), None, None);
    b.import_csv(Some("/c.csv".to_string()));
    assert_eq!(b.config.recents, vec!["/c.csv", "/a.csv", "/b.csv"]);
    assert_eq!(b.config.statement_path, Some("/c.csv".to_string()));
    b.import_csv(Some("/b.csv".to_string()));
    assert_eq!(b.config.recents, vec!["/c.csv", "/a.csv", "/b.csv"]);
    assert_eq!(b.config.statement_path, Some("/b.csv".to_string()));
    b.import_csv(None);
    assert_eq!(b.config.recents, vec!["/c.csv", "/a.csv", "/b.csv"]);
    assert_eq!(b.config.statement_path, None);
}

#[test]
fn export_goes_next_to_the_statement() {
    let b = Budgy::new(config_with(&[], Some("/home/me/may.csv")), None, None);
    assert_eq!(b.export_target(), ExportTarget::NextTo("/home/me/may.csv".to_string()));
    let b = Budgy::new(empty_config(), None, None);
    assert_eq!(b.export_target(), ExportTarget::Ask);
}

#[test]
fn recents_can_be_opened_and_cleared() {
    let mut b = Budgy::new(config_with(&["/a.csv", "/b.csv"], None), None, None);
    b.open_recent(1);
    assert_eq!(b.config.statement_path, Some("/b.csv".to_string()));
    b.clear_recents();
    assert!(b.config.recents.is_empty());
    assert_eq!(b.config.statement_path, Some("/b.csv".to_string()));
}

#[test]
fn tabs_can_be_selected() {
    let mut b = Budgy::new(empty_config(), None, None);
    b.select_tab(Tabs::Budget);
    assert_eq!(b.current_tab, Tabs::Budget);
}

#[test]
fn budget_editing_round_trip() {
    let budget = vec![
        BudgetRow { category: Some("Food".to_string()), budget_amount: Some(3000) },
        BudgetRow { category: None, budget_amount: None },
    ];
    let mut b = Budgy::new(empty_config(), None, None);
    assert_eq!(b.budget_tab_step(), BudgetTabAction::LoadBudget);
    b.budget_loaded(Some(budget));
    assert_eq!(b.budget_tab_step(), BudgetTabAction::Collected);
    assert_eq!(b.budget_deltas, vec![("Food".to_string(), 3000), ("".to_string(), 0)]);
    assert_eq!(b.budget_tab_step(), BudgetTabAction::ShowTable);
    assert_eq!(b.budget_deltas.len(), 2);
    b.add_budget_row();
    assert!(b.take_scroll_request());
    assert!(!b.take_scroll_request());
    b.set_budget_category(2, "Fuel".to_string());
    b.set_budget_amount(2, 1250);
    b.set_budget_amount(1, 7);
    let (categories, amounts) = b.save_updated_budget();
    assert_eq!(categories, vec!["Food", "", "Fuel"]);
    assert_eq!(amounts, vec![3000, 7, 1250]);
    assert!(b.budget_deltas.is_empty());
    assert_eq!(
        b.budget,
        Some(vec![
            BudgetRow { category: Some("Food".to_string()), budget_amount: Some(3000) },
            BudgetRow { category: Some("".to_string()), budget_amount: Some(7) },
            BudgetRow { category: Some("Fuel".to_string()), budget_amount: Some(1250) },
        ])
    );
    assert_eq!(b.budget_tab_step(), BudgetTabAction::ShowTable);
}

#[test]
fn import_recognises_the_same_path_written_otherwise() {
    let mut b = Budgy::new(config_with(&["/a/c.csv"], None), None, None);
    b.import_csv(Some("/a/./c.csv".to_string()));
    assert_eq!(b.config.recents, vec!["/a/c.csv"]);
    assert_eq!(b.config.statement_path, Some("/a/./c.csv".to_string()));
    b.import_csv(Some("/a//d.csv".to_string()));
    assert_eq!(b.config.recents, vec!["/a//d.csv", "/a/c.csv"]);
}

#[test]
fn record_import_follows_the_listing() {
    let mut b = Budgy::new(config_with(&["/a.csv"], None), None, None);
    b.record_import(Some("/b.csv".to_string()), true);
    assert_eq!(b.config.recents, vec!["/a.csv"]);
    b.record_import(Some("/b.csv".to_string()), false);
    assert_eq!(b.config.recents, vec!["/b.csv", "/a.csv"]);
    assert_eq!(b.config.statement_path, Some("/b.csv".to_string()));
}

#[test]
fn budget_frames_collect_once() {
    let budget = vec![BudgetRow { category: Some("Food".to_string()), budget_amount: Some(3000) }];
    let mut b = Budgy::new(empty_config(), None, Some(budget));
    assert_eq!(b.budget_tab_step(), BudgetTabAction::Collected);
    for _ in 0..5 {
        assert_eq!(b.budget_tab_step(), BudgetTabAction::ShowTable);
    }
    assert_eq!(b.budget_deltas, vec![("Food".to_string(), 3000)]);
}

#[test]
fn statement_tab_loads_then_shows() {
    let mut b = Budgy::new(empty_config(), None, None);
    assert_eq!(b.statement_tab_step(), StatementTabAction::ShowHint);
    b.import_csv(Some("/s.csv".to_string()));
    assert_eq!(b.statement_tab_step(), StatementTabAction::Load("/s.csv".to_string()));
    b.statement_loaded(&vec![StatementRecord {
        category: Some("Wages".to_string()),
        parent_category: Some("Salary".to_string()),
        money_in: Some(5),
        money_out: None,
        fee: None,
    }]);
    assert_eq!(b.statement.as_ref().map(|s| s.len()), Some(1));
    assert_eq!(b.statement_tab_step(), StatementTabAction::Collected);
    assert_eq!(b.statement_tab_step(), StatementTabAction::ShowTable);
    assert_eq!(b.statement_tab_step(), StatementTabAction::ShowTable);
}

#[test]
fn summary_tab_waits_for_its_inputs() {
    let mut b = Budgy::new(empty_config(), None, None);
    assert_eq!(b.summary_tab_step(), SummaryTabAction::MissingStatement);
    b.statement_loaded(&vec![StatementRecord {
        category: Some("Wages".to_string()),
        parent_category: Some("Salary".to_string()),
        money_in: Some(500),
        money_out: None,
        fee: None,
    }]);
    assert_eq!(b.summary_tab_step(), SummaryTabAction::NoBudget);
    b.budget_loaded(Some(vec![BudgetRow { category: Some("Salary".to_string()), budget_amount: Some(100) }]));
    assert_eq!(b.summary_tab_step(), SummaryTabAction::LoadPreviousSummary);
    b.previous_summary_loaded(vec![SummaryRow {
        parent_category: Some("Salary".to_string()),
        money_in: None,
        money_out: None,
        fee: None,
        budget_amount: None,
        previous_balance: None,
        balance: Some(20),
    }]);
    assert_eq!(b.summary_tab_step(), SummaryTabAction::Computed);
    let rows = b.budget_summary.clone().unwrap();
    assert_eq!(rows.len(), 1);
    assert_eq!(rows[0].balance, Some(500 - 100 + 20));
    assert_eq!(b.summary_tab_step(), SummaryTabAction::ShowTable);
    assert_eq!(b.budget_summary, Some(rows));
}

#[test]
fn summary_tab_retries_when_amounts_overflow() {
    let mut b = Budgy::new(empty_config(), None, Some(vec![]));
    let big = StatementRecord {
        category: Some("x".to_string()),
        parent_category: Some("P".to_string()),
        money_in: Some(i64::MAX),
        money_out: None,
        fee: None,
    };
    b.statement_loaded(&vec![big.clone(), big]);
    b.previous_summary_loaded(vec![]);
    assert_eq!(b.summary_tab_step(), SummaryTabAction::Computed);
    assert_eq!(b.budget_summary, None);
    assert_eq!(b.summary_tab_step(), SummaryTabAction::Computed);
}

#[test]
fn import_into_an_empty_list_and_again() {
    let mut b = Budgy::new(empty_config(), None, None);
    b.import_csv(Some("/s.csv".to_string()));
    assert_eq!(b.config.recents, vec!["/s.csv"]);
    b.import_csv(Some("/s.csv".to_string()));
    assert_eq!(b.config.recents, vec!["/s.csv"]);
    assert_eq!(b.config.statement_path, Some("/s.csv".to_string()));
}
