use anthropic_api_key_manager::error::ManagerError;
use anthropic_api_key_manager::ledger::DateWindow;
use anthropic_api_key_manager::manager::{auth_token_from, AnthropicApiKeyManagerState};
use anthropic_api_key_manager::pool::KeyStatus;
use anthropic_api_key_manager::report::{AnthropicCostReport, CostReportData, CostReportResult};
use base64::Engine;

fn result(amount: &str, description: &str) -> CostReportResult {
    CostReportResult {
        currency: "USD".to_string(),
        amount: amount.to_string(),
        workspace_id: None,
        description: Some(description.to_string()),
        cost_type: None,
        context_window: None,
        model: None,
        service_tier: None,
        token_type: None,
    }
}

fn page(starting_at: &str, ending_at: &str, amounts: &[&str]) -> AnthropicCostReport {
    AnthropicCostReport {
        data: vec![CostReportData {
            starting_at: starting_at.to_string(),
            ending_at: ending_at.to_string(),
            results: amounts.iter().map(|a| result(a, "x")).collect(),
        }],
        has_more: false,
        next_page: None,
    }
}

#[test]
fn a_new_state_holds_nothing() {
    let state = AnthropicApiKeyManagerState::new();
    assert!(state.list_keys().is_empty());
    assert!(state.get_node_history().is_empty());
    assert!(state.get_all_costs().is_empty());
    assert_eq!(state.last_cost_check(), None);
    assert_eq!(state.last_cost_query_date(), None);
    assert_eq!(state.ui_auth_token(), None);
    let admin = state.check_admin_key();
    assert!(!admin.has_admin_key);
    assert_eq!(admin.key_prefix, None);
}

#[test]
fn add_and_remove_answer_in_words() {
    let mut state = AnthropicApiKeyManagerState::new();
    let added = state.add_api_key("K1").unwrap();
    assert!(added.success);
    assert_eq!(added.message, "API key added successfully");
    assert_eq!(state.add_api_key("K1").unwrap_err(), ManagerError::AlreadyExists);
    let removed = state.remove_api_key("K1").unwrap();
    assert!(removed.success);
    assert_eq!(removed.message, "API key removed successfully");
    assert_eq!(state.remove_api_key("K1").unwrap_err(), ManagerError::NotFound);
    assert_eq!(state.add_api_key("K1").unwrap_err(), ManagerError::AlreadyExists);
    assert_eq!(state.remove_api_key("K2").unwrap_err(), ManagerError::NotFound);
}

#[test]
fn the_admin_key_is_shown_by_its_prefix_only() {
    let mut state = AnthropicApiKeyManagerState::new();
    let set = state.set_admin_key("sk-ant-admin-secret");
    assert!(set.success);
    assert_eq!(set.message, "Admin key set successfully");
    let shown = state.check_admin_key();
    assert!(shown.has_admin_key);
    assert_eq!(shown.key_prefix, Some("sk-***".to_string()));
    let _ = state.set_admin_key("oops");
    let other = state.check_admin_key();
    assert!(other.has_admin_key);
    assert_eq!(other.key_prefix, Some("invalid".to_string()));
}

#[test]
fn the_token_is_made_once() {
    let mut state = AnthropicApiKeyManagerState::new();
    state.initialize();
    let token = state.ui_auth_token().unwrap();
    assert!(!token.is_empty());
    state.initialize();
    assert_eq!(state.ui_auth_token(), Some(token.clone()));
    let auth = state.initialize_auth();
    assert_eq!(auth.token, token);
    assert!(!auth.has_admin_key);
    let _ = state.set_admin_key("sk-1");
    let again = state.initialize_auth();
    assert_eq!(again.token, token);
    assert!(again.has_admin_key);
}

#[test]
fn the_token_is_the_base64_of_a_hexadecimal_number() {
    let mut state = AnthropicApiKeyManagerState::new();
    let auth = state.initialize_auth();
    let bytes = base64::engine::general_purpose::STANDARD.decode(auth.token.as_bytes()).unwrap();
    let digits = String::from_utf8(bytes).unwrap();
    assert!(!digits.is_empty());
    assert!(digits.len() <= 32);
    assert!(u128::from_str_radix(&digits, 16).is_ok());
    assert_eq!(digits, digits.to_lowercase());
    assert_eq!(state.ui_auth_token(), Some(auth.token));
}

#[test]
fn a_token_is_made_from_a_number_in_one_way() {
    assert_eq!(auth_token_from(255), "ZmY=");
    assert_eq!(auth_token_from(0), "MA==");
    assert_eq!(auth_token_from(0xdead_beef), "ZGVhZGJlZWY=");
    assert_eq!(
        auth_token_from(u128::MAX),
        "ZmZmZmZmZmZmZmZmZmZmZmZmZmZmZmZmZmZmZmZmZmY="
    );
}

#[test]
fn an_adopted_token_is_kept() {
    let mut state = AnthropicApiKeyManagerState::new();
    state.adopt_auth_token("first".to_string());
    state.adopt_auth_token("second".to_string());
    assert_eq!(state.ui_auth_token(), Some("first".to_string()));
    state.initialize();
    assert_eq!(state.initialize_auth().token, "first");
}

#[test]
fn a_request_gives_the_only_credential() {
    let mut state = AnthropicApiKeyManagerState::new();
    assert_eq!(state.request_api_key("node-a"), Err(ManagerError::NoKeysAvailable));
    let _ = state.add_api_key("K1");
    assert_eq!(state.request_api_key("node-a"), Ok("K1".to_string()));
    assert_eq!(state.request_api_key("node-a"), Ok("K1".to_string()));
    assert_eq!(state.find_key_for_node("node-a"), Some("K1".to_string()));
    assert_eq!(state.find_key_for_node("node-b"), None);
    let history = state.get_node_history();
    assert_eq!(history.len(), 1);
    assert_eq!(history[0].node_id, "node-a");
    assert_eq!(history[0].api_key, "K1");
    let now = chrono::Utc::now().timestamp();
    assert!((now - history[0].issued_at).abs() < 60);
}

#[test]
fn a_request_with_a_pick_records_it() {
    let mut state = AnthropicApiKeyManagerState::new();
    let _ = state.add_api_key("K1");
    let _ = state.add_api_key("K2");
    assert_eq!(
        state.request_api_key_with("b", Some("K2".to_string()), 20),
        Ok("K2".to_string())
    );
    assert_eq!(
        state.request_api_key_with("a", Some("K1".to_string()), 10),
        Ok("K1".to_string())
    );
    assert_eq!(
        state.request_api_key_with("a", Some("K2".to_string()), 30),
        Ok("K1".to_string())
    );
    assert_eq!(
        state.request_api_key_with("c", Some("K3".to_string()), 30),
        Err(ManagerError::SelectionFailed)
    );
    let history = state.get_node_history();
    let order: Vec<(&str, &str, i64)> = history
        .iter()
        .map(|a| (a.node_id.as_str(), a.api_key.as_str(), a.issued_at))
        .collect();
    assert_eq!(order, vec![("a", "K1", 10), ("b", "K2", 20)]);
}

#[test]
fn the_list_shows_each_active_credential_with_its_callers_and_cost() {
    let mut state = AnthropicApiKeyManagerState::new();
    let _ = state.add_api_key("K1");
    let _ = state.add_api_key("K2");
    let _ = state.add_api_key("K3");
    let _ = state.request_api_key_with("a", Some("K1".to_string()), 1);
    let _ = state.request_api_key_with("b", Some("K1".to_string()), 2);
    let _ = state.request_api_key_with("c", Some("K3".to_string()), 3);
    let _ = state.process_all_cost_reports(
        &vec![page("2025-08-01T00:00:00Z", "2025-08-02T00:00:00Z", &["250"])],
        0,
    );
    let _ = state.remove_api_key("K2");
    let _ = state.process_all_cost_reports(
        &vec![page("2025-08-02T00:00:00Z", "2025-08-03T00:00:00Z", &["50"])],
        0,
    );
    let keys = state.list_keys();
    let shape: Vec<(&str, KeyStatus, i128, Vec<String>, i64)> = keys
        .iter()
        .map(|k| (k.key.as_str(), k.status, k.total_cost, k.assigned_nodes.clone(), k.created_at))
        .collect();
    assert_eq!(
        shape,
        vec![
            ("K1", KeyStatus::Active, 3_000_000, vec!["a".to_string(), "b".to_string()], 0),
            ("K3", KeyStatus::Active, 3_000_000, vec!["c".to_string()], 0),
        ]
    );
    let retired = state.get_key_status("K2");
    assert_eq!(retired.status, KeyStatus::Inactive);
    assert_eq!(retired.total_cost, 2_500_000);
    assert!(retired.assigned_nodes.is_empty());
    let unknown = state.get_key_status("K9");
    assert_eq!(unknown.status, KeyStatus::Unknown);
    assert_eq!(unknown.total_cost, 0);
    assert!(unknown.assigned_nodes.is_empty());
}

#[test]
fn the_total_is_the_sum_of_the_ledger_within_the_span() {
    let mut state = AnthropicApiKeyManagerState::new();
    let _ = state.add_api_key("K1");
    let _ = state.add_api_key("K2");
    let _ = state.process_all_cost_reports(
        &vec![
            page("2025-08-01T00:00:00Z", "2025-08-02T00:00:00Z", &["100", "0", "23.45"]),
            page("2025-08-02T00:00:00Z", "2025-08-03T00:00:00Z", &["400"]),
            page("2025-08-03T00:00:00Z", "2025-08-04T00:00:00Z", &["1000"]),
        ],
        0,
    );
    let all = state.get_total_costs(&None, &None);
    assert_eq!(all.total_cost, 15_234_500);
    assert_eq!(all.currency, "USD");
    assert_eq!(
        all.cost_by_key,
        vec![("K1".to_string(), 15_234_500), ("K2".to_string(), 15_234_500)]
    );
    let middle = state.get_total_costs(
        &Some("2025-08-02T00:00:00Z".to_string()),
        &Some("2025-08-02T23:59:59Z".to_string()),
    );
    assert_eq!(middle.total_cost, 4_000_000);
    assert_eq!(middle.cost_by_key, vec![("K1".to_string(), 4_000_000), ("K2".to_string(), 4_000_000)]);
    let from = state.get_total_costs(&Some("2025-08-02T00:00:00Z".to_string()), &None);
    assert_eq!(from.total_cost, 14_000_000);
    let until = state.get_total_costs(&None, &Some("2025-08-02T00:00:00+00:00".to_string()));
    assert_eq!(until.total_cost, 5_234_500);
    let none = state.get_total_costs(&Some("2026-01-01T00:00:00Z".to_string()), &None);
    assert_eq!(none.total_cost, 0);
    assert!(none.cost_by_key.is_empty());
    let same = state.get_total_costs_in(&DateWindow { start: Some(1_754_092_800), end: None });
    assert_eq!(same.total_cost, 14_000_000);
}

#[test]
fn a_bound_that_is_no_date_is_no_bound() {
    let mut state = AnthropicApiKeyManagerState::new();
    let _ = state.process_all_cost_reports(
        &vec![
            page("2025-08-01T00:00:00Z", "2025-08-02T00:00:00Z", &["100"]),
            page("2025-08-02T00:00:00Z", "2025-08-03T00:00:00Z", &["400"]),
        ],
        0,
    );
    let open_above = state.get_total_costs(
        &Some("2025-08-02T00:00:00Z".to_string()),
        &Some("the end of time".to_string()),
    );
    assert_eq!(open_above.total_cost, 4_000_000);
    let open_below = state.get_total_costs(
        &Some("2025-08-02".to_string()),
        &Some("2025-08-01T12:00:00Z".to_string()),
    );
    assert_eq!(open_below.total_cost, 1_000_000);
}

#[test]
fn the_costs_of_a_credential_are_filtered_by_the_span() {
    let mut state = AnthropicApiKeyManagerState::new();
    let _ = state.add_api_key("K1");
    let _ = state.process_all_cost_reports(
        &vec![
            page("2025-08-01T00:00:00Z", "2025-08-02T00:00:00Z", &["100"]),
            page("2025-08-02T00:00:00Z", "2025-08-03T00:00:00Z", &["400"]),
        ],
        0,
    );
    let all = state.get_key_costs("K1", &None, &None);
    assert_eq!(all.api_key, "K1");
    assert_eq!(all.total, 5_000_000);
    assert_eq!(all.costs.len(), 2);
    let late = state.get_key_costs("K1", &Some("2025-08-02T00:00:00Z".to_string()), &None);
    assert_eq!(late.total, 4_000_000);
    assert_eq!(late.costs.len(), 1);
    assert_eq!(late.costs[0].timestamp, 1_754_092_800);
    assert_eq!(late.costs[0].amount, 4_000_000);
    let nobody = state.get_key_costs("K2", &None, &None);
    assert_eq!(nobody.api_key, "K2");
    assert_eq!(nobody.total, 0);
    assert!(nobody.costs.is_empty());
    let exact = state.get_key_costs_in("K1", &DateWindow { start: None, end: Some(1_754_006_400) });
    assert_eq!(exact.total, 1_000_000);
}

#[test]
fn a_time_is_tested_against_written_bounds() {
    let state = AnthropicApiKeyManagerState::new();
    let start = Some("2025-01-01T00:00:00Z".to_string());
    let end = Some("2025-01-02T00:00:00Z".to_string());
    assert!(state.filter_by_date(1_735_689_600, &start, &end));
    assert!(state.filter_by_date(1_735_776_000, &start, &end));
    assert!(!state.filter_by_date(1_735_689_599, &start, &end));
    assert!(!state.filter_by_date(1_735_776_001, &start, &end));
    assert!(state.filter_by_date(i64::MIN, &None, &None));
    assert!(state.filter_by_date(i64::MAX, &start, &None));
    assert!(state.filter_by_date(i64::MIN, &None, &end));
    assert!(state.filter_by_date(5, &Some("garbage".to_string()), &Some("garbage".to_string())));
    assert!(!state.filter_by_date(5, &start, &Some("garbage".to_string())));
}

#[test]
fn reset_needs_the_admin_key() {
    let mut state = AnthropicApiKeyManagerState::new();
    let _ = state.add_api_key("K1");
    let _ = state.process_all_cost_reports(
        &vec![page("2025-08-01T00:00:00Z", "2025-08-02T00:00:00Z", &["100"])],
        0,
    );
    assert_eq!(state.reset_costs().unwrap_err(), ManagerError::AdminKeyMissing);
    assert_eq!(state.get_total_costs(&None, &None).total_cost, 1_000_000);
    assert_eq!(state.last_cost_query_date(), Some("2025-08-02T00:00:00Z".to_string()));
    let _ = state.set_admin_key("sk-1");
    let done = state.reset_costs().unwrap();
    assert!(done.success);
    assert_eq!(done.message, "Cost data reset successfully. All historical data cleared.");
    assert_eq!(state.get_total_costs(&None, &None).total_cost, 0);
    assert!(state.get_all_costs().is_empty());
    assert_eq!(state.get_key_status("K1").total_cost, 0);
    assert_eq!(state.last_cost_query_date(), None);
    assert_eq!(state.last_cost_check(), None);
    assert_eq!(state.get_key_status("K1").status, KeyStatus::Active);
}
