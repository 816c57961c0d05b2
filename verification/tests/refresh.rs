use anthropic_api_key_manager::error::ManagerError;
use anthropic_api_key_manager::fetch::{
    CostFetch, FailureCause, FetchError, FetchEvent, FetchStep, UpstreamRequest,
};
use anthropic_api_key_manager::manager::{
    AnthropicApiKeyManagerState, CostsRefreshResponse, RefreshError, RefreshStart,
    COOLDOWN_SECONDS,
};
use anthropic_api_key_manager::pool::KeyStatus;
use anthropic_api_key_manager::report::{AnthropicCostReport, CostReportData, CostReportResult};

const T0: i64 = 1_756_598_400;

fn result(amount: &str, currency: &str, description: Option<&str>) -> CostReportResult {
    CostReportResult {
        currency: currency.to_string(),
        amount: amount.to_string(),
        workspace_id: None,
        description: description.map(|d| d.to_string()),
        cost_type: None,
        context_window: None,
        model: None,
        service_tier: None,
        token_type: None,
    }
}

fn bucket(starting_at: &str, ending_at: &str, amounts: &[&str]) -> CostReportData {
    CostReportData {
        starting_at: starting_at.to_string(),
        ending_at: ending_at.to_string(),
        results: amounts.iter().map(|a| result(a, "USD", Some("x"))).collect(),
    }
}

fn page(data: Vec<CostReportData>, next: Option<&str>) -> AnthropicCostReport {
    AnthropicCostReport {
        data,
        has_more: next.is_some(),
        next_page: next.map(|t| t.to_string()),
    }
}

fn ok(page: AnthropicCostReport) -> FetchEvent {
    FetchEvent::Response { status: 200, decoded: Some(page) }
}

fn status(code: u16) -> FetchEvent {
    FetchEvent::Response { status: code, decoded: None }
}

fn begun(start: Result<RefreshStart, ManagerError>) -> (CostFetch, UpstreamRequest) {
    match start {
        Ok(RefreshStart::Begin { run, step: FetchStep::Send { wait_ms, request } }) => {
            assert_eq!(wait_ms, 0);
            (run, request)
        }
        other => panic!("no run was begun: {:?}", other),
    }
}

fn held(start: Result<RefreshStart, ManagerError>) -> CostsRefreshResponse {
    match start {
        Ok(RefreshStart::TooSoon(response)) => response,
        other => panic!("the refresh was not held back: {:?}", other),
    }
}

fn ready() -> AnthropicApiKeyManagerState {
    let mut state = AnthropicApiKeyManagerState::new();
    let _ = state.set_admin_key("sk-admin");
    state
}

fn refresh_once(state: &mut AnthropicApiKeyManagerState, now: i64, pages: Vec<AnthropicCostReport>) -> CostsRefreshResponse {
    let (mut run, _) = begun(state.refresh_costs_at(now));
    for p in pages {
        let _ = run.on_event(ok(p));
    }
    assert_eq!(run.outcome(), Some(Ok(())));
    state.complete_refresh(run).unwrap()
}

#[test]
fn the_cooldown_is_a_minute() {
    assert_eq!(COOLDOWN_SECONDS, 60);
}

#[test]
fn a_refresh_needs_the_admin_key() {
    let mut state = AnthropicApiKeyManagerState::new();
    assert_eq!(state.refresh_costs_at(T0).unwrap_err(), ManagerError::AdminKeyMissing);
    assert_eq!(state.refresh_costs().unwrap_err(), ManagerError::AdminKeyMissing);
    assert_eq!(state.fetch_costs_from_anthropic_at(T0).unwrap_err(), ManagerError::AdminKeyMissing);
    assert_eq!(state.fetch_costs_from_anthropic().unwrap_err(), ManagerError::AdminKeyMissing);
    assert_eq!(state.last_cost_check(), None);
}

#[test]
fn a_first_refresh_looks_back_thirty_days() {
    let mut state = ready();
    let (run, request) = begun(state.refresh_costs_at(T0));
    assert_eq!(
        request.url,
        "https://api.anthropic.com/v1/organizations/cost_report?starting_at=2025-08-01T00:00:00Z&group_by[]=workspace_id&group_by[]=description&limit=30"
    );
    assert_eq!(
        request.headers,
        vec![
            ("anthropic-version".to_string(), "2023-06-01".to_string()),
            ("content-type".to_string(), "application/json".to_string()),
            ("x-api-key".to_string(), "sk-admin".to_string()),
        ]
    );
    assert_eq!(request.timeout_ms, 30_000);
    assert_eq!(run.started_at(), T0);
    assert_eq!(state.last_cost_check(), None);
}

#[test]
fn a_refresh_at_the_time_of_the_clock_begins_a_run() {
    let mut state = ready();
    let before = chrono::Utc::now().timestamp();
    let (run, request) = begun(state.refresh_costs());
    let after = chrono::Utc::now().timestamp();
    assert!(before <= run.started_at() && run.started_at() <= after);
    assert!(request.url.starts_with(
        "https://api.anthropic.com/v1/organizations/cost_report?starting_at=20"
    ));
    let (other, _) = state.fetch_costs_from_anthropic().unwrap();
    assert!(before <= other.started_at());
}

#[test]
fn a_clock_without_a_date_is_refused() {
    let mut state = ready();
    assert_eq!(state.refresh_costs_at(i64::MIN).unwrap_err(), ManagerError::ClockOutOfRange);
    assert_eq!(state.refresh_costs_at(i64::MAX).unwrap_err(), ManagerError::ClockOutOfRange);
    assert_eq!(
        state.fetch_costs_from_anthropic_at(i64::MAX).unwrap_err(),
        ManagerError::ClockOutOfRange
    );
}

#[test]
fn a_refresh_that_reached_its_end_sets_the_time_and_the_place() {
    let mut state = ready();
    let _ = state.add_api_key("K1");
    let response = refresh_once(
        &mut state,
        T0,
        vec![page(vec![bucket("2025-08-01T00:00:00Z", "2025-08-02T00:00:00Z", &["250", "0"])], None)],
    );
    assert_eq!(
        response,
        CostsRefreshResponse {
            success: true,
            records_added: 1,
            seconds_since_last: None,
            timestamp: T0
        }
    );
    assert_eq!(state.last_cost_check(), Some(T0));
    assert_eq!(state.last_cost_query_date(), Some("2025-08-02T00:00:00Z".to_string()));
    assert_eq!(state.get_total_costs(&None, &None).total_cost, 2_500_000);
    let all = state.get_all_costs();
    assert_eq!(all.len(), 1);
    assert_eq!(all[0].timestamp, 1_754_006_400);
    assert_eq!(all[0].description, "x");
    assert_eq!(all[0].currency, "USD");
}

#[test]
fn a_second_refresh_within_the_cooldown_is_too_soon() {
    let mut state = ready();
    let _ = refresh_once(&mut state, T0, vec![page(vec![], None)]);
    for later in [0, 1, 30, 59] {
        let answer = held(state.refresh_costs_at(T0 + later));
        assert_eq!(
            answer,
            CostsRefreshResponse {
                success: false,
                records_added: 0,
                seconds_since_last: Some(later),
                timestamp: T0
            }
        );
        assert_eq!(state.last_cost_check(), Some(T0));
    }
}

#[test]
fn a_refresh_after_the_cooldown_goes_on() {
    let mut state = ready();
    let _ = refresh_once(&mut state, T0, vec![page(vec![], None)]);
    let (run, _) = begun(state.refresh_costs_at(T0 + 60));
    assert_eq!(run.started_at(), T0 + 60);
    assert_eq!(state.last_cost_check(), Some(T0));
    let response = {
        let mut run = run;
        let _ = run.on_event(ok(page(vec![], None)));
        state.complete_refresh(run).unwrap()
    };
    assert_eq!(response.timestamp, T0 + 60);
    assert_eq!(state.last_cost_check(), Some(T0 + 60));
    assert_eq!(held(state.refresh_costs_at(T0 + 61)).timestamp, T0 + 60);
    let _ = begun(state.refresh_costs_at(T0 + 120));
}

#[test]
fn a_time_of_the_last_refresh_in_the_future_is_cleared() {
    let mut state = ready();
    let _ = refresh_once(&mut state, T0 + 1_000, vec![page(vec![], None)]);
    assert_eq!(state.last_cost_check(), Some(T0 + 1_000));
    let (run, _) = begun(state.refresh_costs_at(T0));
    assert_eq!(state.last_cost_check(), None);
    assert_eq!(run.started_at(), T0);
}

#[test]
fn a_failed_refresh_does_not_set_the_time() {
    let mut state = ready();
    let (mut run, _) = begun(state.refresh_costs_at(T0));
    let _ = run.on_event(status(401));
    assert_eq!(
        state.complete_refresh(run),
        Err(RefreshError::Failed { error: FetchError::UpstreamUnauthorized, records_added: 0 })
    );
    assert_eq!(state.last_cost_check(), None);
    assert_eq!(state.last_cost_query_date(), None);
    let _ = begun(state.refresh_costs_at(T0 + 1));
}

#[test]
fn a_refresh_that_failed_later_keeps_the_pages_that_came() {
    let mut state = ready();
    let _ = state.add_api_key("K1");
    let (mut run, _) = begun(state.refresh_costs_at(T0));
    let _ = run.on_event(ok(page(
        vec![bucket("2025-08-01T00:00:00Z", "2025-08-02T00:00:00Z", &["100"])],
        Some("t2"),
    )));
    let _ = run.on_event(ok(page(
        vec![bucket("2025-08-02T00:00:00Z", "2025-08-03T00:00:00Z", &["200", "300"])],
        Some("t3"),
    )));
    let _ = run.on_event(FetchEvent::TransportFailed);
    let _ = run.on_event(status(500));
    let _ = run.on_event(status(429));
    assert_eq!(
        state.complete_refresh(run),
        Err(RefreshError::Failed {
            error: FetchError::UpstreamTransient {
                page: 3,
                attempts: 3,
                cause: FailureCause::RateLimited
            },
            records_added: 3
        })
    );
    assert_eq!(state.get_total_costs(&None, &None).total_cost, 6_000_000);
    assert_eq!(state.get_key_status("K1").total_cost, 6_000_000);
    assert_eq!(state.last_cost_query_date(), Some("2025-08-03T00:00:00Z".to_string()));
    assert_eq!(state.last_cost_check(), None);
    let (_, request) = begun(state.refresh_costs_at(T0 + 1));
    assert!(request.url.contains("?starting_at=2025-08-03T00:00:00Z&"));
}

#[test]
fn a_run_that_is_not_over_completes_nothing() {
    let mut state = ready();
    let (mut run, _) = begun(state.refresh_costs_at(T0));
    let _ = run.on_event(ok(page(
        vec![bucket("2025-08-01T00:00:00Z", "2025-08-02T00:00:00Z", &["100"])],
        Some("t2"),
    )));
    assert!(!run.is_over());
    assert_eq!(state.complete_refresh(run), Err(RefreshError::Unfinished));
    assert_eq!(state.get_total_costs(&None, &None).total_cost, 0);
    assert_eq!(state.last_cost_query_date(), None);
    assert_eq!(state.last_cost_check(), None);
}

#[test]
fn the_next_run_resumes_from_the_latest_end() {
    let mut state = ready();
    let _ = refresh_once(
        &mut state,
        T0,
        vec![
            page(
                vec![
                    bucket("2025-08-01T00:00:00Z", "2025-08-02T00:00:00Z", &["1"]),
                    bucket("2025-08-04T00:00:00Z", "2025-08-05T00:00:00Z", &["1"]),
                ],
                Some("t2"),
            ),
            page(vec![bucket("2025-08-02T00:00:00Z", "2025-08-03T00:00:00Z", &["1"])], None),
        ],
    );
    assert_eq!(state.last_cost_query_date(), Some("2025-08-05T00:00:00Z".to_string()));
    let (_, request) = begun(state.refresh_costs_at(T0 + 60));
    assert_eq!(
        request.url,
        "https://api.anthropic.com/v1/organizations/cost_report?starting_at=2025-08-05T00:00:00Z&group_by[]=workspace_id&group_by[]=description&limit=30"
    );
}

#[test]
fn the_place_to_resume_from_does_not_go_back() {
    let mut state = ready();
    let mut seen: Vec<String> = Vec::new();
    let days = ["02", "03", "03", "07", "05", "09", "01"];
    let expect = ["02", "03", "03", "07", "07", "09", "09"];
    for (i, day) in days.iter().enumerate() {
        let end = format!("2025-08-{}T00:00:00Z", day);
        let _ = refresh_once(
            &mut state,
            T0 + 60 * (i as i64),
            vec![page(vec![bucket("2025-08-01T00:00:00Z", &end, &["1"])], None)],
        );
        let now = state.last_cost_query_date().unwrap();
        assert_eq!(now, format!("2025-08-{}T00:00:00Z", expect[i]));
        if let Some(last) = seen.last() {
            assert!(chrono::DateTime::parse_from_rfc3339(last).unwrap()
                <= chrono::DateTime::parse_from_rfc3339(&now).unwrap());
        }
        seen.push(now);
    }
    let _ = refresh_once(&mut state, T0 + 600, vec![page(vec![], None)]);
    assert_eq!(state.last_cost_query_date(), Some("2025-08-09T00:00:00Z".to_string()));
    assert_eq!(state.get_all_costs().len(), 7);
}

#[test]
fn a_run_that_saw_only_earlier_spans_leaves_the_place_where_it_was() {
    let mut state = ready();
    let _ = refresh_once(
        &mut state,
        T0,
        vec![page(vec![bucket("2025-08-04T00:00:00Z", "2025-08-05T00:00:00Z", &["1"])], None)],
    );
    let _ = refresh_once(
        &mut state,
        T0 + 60,
        vec![page(vec![bucket("2025-08-01T00:00:00Z", "2025-08-02T00:00:00Z", &["1"])], None)],
    );
    assert_eq!(state.last_cost_query_date(), Some("2025-08-05T00:00:00Z".to_string()));
    assert_eq!(state.get_total_costs(&None, &None).total_cost, 20_000);
    let _ = refresh_once(
        &mut state,
        T0 + 120,
        vec![page(vec![bucket("2025-08-04T00:00:00Z", "2025-08-05T02:00:00+02:00", &[])], None)],
    );
    assert_eq!(state.last_cost_query_date(), Some("2025-08-05T00:00:00Z".to_string()));
    let _ = refresh_once(
        &mut state,
        T0 + 180,
        vec![page(vec![bucket("2025-08-04T00:00:00Z", "2025-08-05T02:00:01+02:00", &[])], None)],
    );
    assert_eq!(state.last_cost_query_date(), Some("2025-08-05T00:00:01Z".to_string()));
}

#[test]
fn the_place_to_resume_from_is_the_latest_moment_and_not_the_last_text() {
    let mut state = ready();
    let added = state.process_all_cost_reports(
        &vec![page(
            vec![
                bucket("2024-12-31T00:00:00Z", "2025-01-01T01:00:00+02:00", &[]),
                bucket("2024-12-31T00:00:00Z", "2025-01-01T00:00:00Z", &[]),
            ],
            None,
        )],
        0,
    );
    assert_eq!(added, 0);
    assert_eq!(state.last_cost_query_date(), Some("2025-01-01T00:00:00Z".to_string()));
    let _ = state.process_all_cost_reports(
        &vec![
            page(vec![bucket("s", "2025-01-01T03:00:00+02:00", &[])], Some("t2")),
            page(vec![bucket("s", "2025-01-01T00:30:00Z", &[])], None),
        ],
        0,
    );
    assert_eq!(state.last_cost_query_date(), Some("2025-01-01T01:00:00Z".to_string()));
}

#[test]
fn a_place_that_writes_no_moment_gives_way_to_one_that_does() {
    let mut state = ready();
    let _ = state.process_all_cost_reports(&vec![page(vec![bucket("s", "soon", &[])], None)], 0);
    assert_eq!(state.last_cost_query_date(), Some("soon".to_string()));
    let _ = state.process_all_cost_reports(&vec![page(vec![bucket("s", "later", &[])], None)], 0);
    assert_eq!(state.last_cost_query_date(), Some("soon".to_string()));
    let _ = state.process_all_cost_reports(
        &vec![page(vec![bucket("s", "1970-01-01T00:00:00+00:00", &[])], None)],
        0,
    );
    assert_eq!(state.last_cost_query_date(), Some("1970-01-01T00:00:00Z".to_string()));
    let _ = state.process_all_cost_reports(&vec![page(vec![bucket("s", "zzz", &[])], None)], 0);
    assert_eq!(state.last_cost_query_date(), Some("1970-01-01T00:00:00Z".to_string()));
}

#[test]
fn the_place_to_resume_from_is_kept_in_utc() {
    let mut state = ready();
    let _ = refresh_once(
        &mut state,
        T0,
        vec![page(vec![bucket("2025-08-01T00:00:00+02:00", "2025-08-02T00:00:00+02:00", &["1"])], None)],
    );
    assert_eq!(state.last_cost_query_date(), Some("2025-08-01T22:00:00Z".to_string()));
    assert_eq!(state.get_all_costs()[0].timestamp, 1_754_006_400 - 7_200);
}

#[test]
fn a_bucket_whose_start_writes_no_moment_is_taken_as_incurred_now() {
    let mut state = ready();
    let before = chrono::Utc::now().timestamp();
    let added = state.process_cost_report(&page(vec![bucket("whenever", "later", &["5"])], None), 0);
    let after = chrono::Utc::now().timestamp();
    assert_eq!(added, 1);
    let all = state.get_all_costs();
    assert!(before <= all[0].timestamp && all[0].timestamp <= after);
    assert_eq!(all[0].amount, 50_000);
}

#[test]
fn a_page_adds_its_records_in_order() {
    let mut state = ready();
    let _ = state.add_api_key("K1");
    let report = AnthropicCostReport {
        data: vec![
            CostReportData {
                starting_at: "1970-01-01T00:00:10Z".to_string(),
                ending_at: "1970-01-01T00:00:20Z".to_string(),
                results: vec![
                    result("1", "USD", Some("a")),
                    result("junk", "USD", Some("b")),
                    result("2", "EUR", None),
                ],
            },
            CostReportData {
                starting_at: "1970-01-01T00:00:20Z".to_string(),
                ending_at: "1970-01-01T00:00:30Z".to_string(),
                results: vec![result("0", "USD", Some("c")), result("3", "USD", Some("d"))],
            },
        ],
        has_more: false,
        next_page: None,
    };
    assert_eq!(state.process_cost_report(&report, 99), 3);
    let shape: Vec<(i64, i64, String, String)> = state
        .get_all_costs()
        .iter()
        .map(|r| (r.timestamp, r.amount, r.currency.clone(), r.description.clone()))
        .collect();
    assert_eq!(
        shape,
        vec![
            (10, 10_000, "USD".to_string(), "a".to_string()),
            (10, 20_000, "EUR".to_string(), "Unknown".to_string()),
            (20, 30_000, "USD".to_string(), "d".to_string()),
        ]
    );
    assert_eq!(state.last_cost_query_date(), None);
    assert_eq!(state.get_key_costs("K1", &None, &None).total, 60_000);
}

#[test]
fn a_bucket_is_recorded_at_the_time_that_is_handed_in() {
    let mut state = ready();
    let _ = state.add_api_key("K1");
    let b = bucket("ignored", "ignored", &["250", "0", "1.5"]);
    assert_eq!(state.record_bucket(&b, 77), 2);
    let all = state.get_all_costs();
    assert_eq!(all.len(), 2);
    assert_eq!((all[0].timestamp, all[0].amount), (77, 2_500_000));
    assert_eq!((all[1].timestamp, all[1].amount), (77, 15_000));
    assert_eq!(state.get_key_status("K1").total_cost, 2_515_000);
}

#[test]
fn processing_no_pages_changes_nothing() {
    let mut state = ready();
    assert_eq!(state.process_all_cost_reports(&vec![], 0), 0);
    assert_eq!(state.process_all_cost_reports(&vec![page(vec![], None)], 0), 0);
    assert_eq!(state.last_cost_query_date(), None);
    assert!(state.get_all_costs().is_empty());
}

#[test]
fn end_to_end() {
    let mut state = AnthropicApiKeyManagerState::new();
    let _ = state.set_admin_key("sk-admin");
    assert!(state.add_api_key("K1").is_ok());
    assert_eq!(state.request_api_key("node-a"), Ok("K1".to_string()));

    let (mut run, _) = begun(state.refresh_costs_at(T0));
    let step = run.on_event(ok(AnthropicCostReport {
        data: vec![CostReportData {
            starting_at: "2025-08-01T00:00:00Z".to_string(),
            ending_at: "2025-08-02T00:00:00Z".to_string(),
            results: vec![result("250", "USD", Some("x"))],
        }],
        has_more: false,
        next_page: None,
    }));
    assert!(matches!(step, FetchStep::Done));
    let refreshed = state.complete_refresh(run).unwrap();
    assert!(refreshed.success);
    assert_eq!(refreshed.records_added, 1);

    assert_eq!(state.get_total_costs(&None, &None).total_cost, 2_500_000);
    assert_eq!(state.get_key_costs("K1", &None, &None).total, 2_500_000);
    assert_eq!(state.get_key_status("K1").total_cost, 2_500_000);

    assert!(state.remove_api_key("K1").is_ok());
    let status = state.get_key_status("K1");
    assert_eq!(status.status, KeyStatus::Inactive);
    assert_eq!(status.status.label(), "inactive");
    assert_eq!(status.assigned_nodes, vec!["node-a".to_string()]);
    assert_eq!(status.total_cost, 2_500_000);
    assert_eq!(state.find_key_for_node("node-a"), Some("K1".to_string()));
    assert_eq!(state.request_api_key("node-a"), Ok("K1".to_string()));
    let history = state.get_node_history();
    assert_eq!(history.len(), 1);
    assert_eq!((history[0].node_id.as_str(), history[0].api_key.as_str()), ("node-a", "K1"));
    let costs = state.get_key_costs("K1", &None, &None);
    assert_eq!(costs.costs.len(), 1);
    assert_eq!(costs.costs[0].amount, 2_500_000);
    assert_eq!(costs.costs[0].currency, "USD");
    assert_eq!(costs.costs[0].description, "x");
    assert_eq!(state.get_total_costs(&None, &None).total_cost, 2_500_000);
    assert!(state.list_keys().is_empty());

    assert!(state.reset_costs().is_ok());
    assert_eq!(state.get_total_costs(&None, &None).total_cost, 0);
    assert_eq!(state.get_key_costs("K1", &None, &None).total, 0);
    assert_eq!(state.last_cost_query_date(), None);
    assert_eq!(state.last_cost_check(), None);
    assert_eq!(state.find_key_for_node("node-a"), Some("K1".to_string()));
    assert_eq!(state.get_key_status("K1").status, KeyStatus::Inactive);
}
