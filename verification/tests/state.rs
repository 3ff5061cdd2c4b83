use rusneb_parser::coverage::{
    build_coverage_groups, coverage_group_for_params, coverage_group_label,
    coverage_shard_matches_filters, effective_coverage_overflow_facets, ValidateCoverageArgs,
};
use rusneb_parser::ranking::rank;
use rusneb_parser::report::{
    check_sums, coverage_validation_lines, coverage_verdict, report_crawl_completion,
    unfinished_work,
};
use rusneb_parser::shards::CoverageShard;
use rusneb_parser::state::{CompletedSearchPage, CrawlState};
use rusneb_parser::validation::{
    coverage_flags, coverage_group_line, coverage_shard_line, coverage_validation_summary,
};

fn list(values: &[&str]) -> Vec<String> {
    values.iter().map(|value| value.to_string()).collect()
}

fn enqueue(state: &mut CrawlState, ids: &[&str], now: i64) -> usize {
    state.enqueue_items(&None, None, &list(ids), now)
}

fn complete(
    state: &mut CrawlState,
    key: &str,
    params: &str,
    page: u64,
    ids: &[&str],
    total: Option<u64>,
    next_page: Option<u64>,
) {
    let ids = list(ids);
    state.complete_search_page(
        &CompletedSearchPage {
            search_key: key,
            page,
            ids: &ids,
            total_results: total,
            params_json: params,
            next_page,
        },
        50,
    );
}

const YEAR: &str = r#"{"catalogs":["25"],"publishyear_prev":"1911"}"#;
const SORTED: &str = r#"{"catalogs":["25"],"publishyear_prev":"1911","sort_by":"s","order":"asc"}"#;
const OTHER: &str = r#"{"catalogs":["26"],"publishyear_prev":null}"#;

#[test]
fn items_are_queued_once() {
    let mut state = CrawlState::new();
    assert_eq!(enqueue(&mut state, &["b", "a", "b"], 10), 2);
    assert_eq!(enqueue(&mut state, &["a", "c"], 11), 1);
    assert_eq!(enqueue(&mut state, &["a", "b", "c"], 12), 0);
    assert_eq!(state.items.len(), 3);
    assert_eq!(state.next_item(5).unwrap().id, "a");
    assert_eq!(state.count_item_backlog(5), 3);
    assert_eq!(state.count_item_backlog(0), 0);
    assert!(state.next_item(0).is_none());
}

#[test]
fn claimed_items_are_not_given_out_again() {
    let mut state = CrawlState::new();
    enqueue(&mut state, &["a", "b"], 10);
    assert_eq!(state.claim_next_item(5, 11).unwrap().id, "a");
    assert_eq!(state.claim_next_item(5, 12).unwrap().id, "b");
    assert!(state.claim_next_item(5, 13).is_none());
    state.reset_interrupted_work(14);
    assert_eq!(state.count_item_backlog(5), 2);
    assert_eq!(state.items[0].attempts, 1);
    assert_eq!(state.items[0].status, "pending");
}

#[test]
fn saved_records_end_their_items() {
    let mut state = CrawlState::new();
    enqueue(&mut state, &["a"], 10);
    state.claim_next_item(5, 11);
    state.save_record("a", "{\"v\":1}", 12, 13);
    assert_eq!(state.items[0].status, "done");
    assert_eq!(state.items[0].updated_at, 13);
    assert_eq!(state.count_records(), 1);
    state.save_record("a", "{\"v\":2}", 14, 15);
    state.save_record("0", "{}", 14, 15);
    assert_eq!(
        state.records_in_order(),
        vec![("0".to_string(), "{}".to_string()), ("a".to_string(), "{\"v\":2}".to_string())]
    );
    assert!(state.next_item(5).is_none());
}

#[test]
fn failures_spend_attempts_and_deferrals_do_not() {
    let mut state = CrawlState::new();
    enqueue(&mut state, &["a"], 10);
    state.claim_next_item(2, 11);
    state.defer_item_after_transient_error("a", "HTTP 500", Some(500), 12);
    assert_eq!(state.items[0].attempts, 0);
    assert_eq!(state.items[0].last_error.as_deref(), Some("HTTP 500"));
    for now in [13, 15] {
        state.claim_next_item(2, now);
        state.fail_item("a", "HTTP 403", Some(403), now + 1);
    }
    assert_eq!(state.items[0].attempts, 2);
    assert!(state.next_item(2).is_none());
    assert!(state.next_item(3).is_some());
    let summary = state.crawl_completion_summary(2);
    assert_eq!(summary.exhausted_failed_items, 1);
    assert_eq!(summary.retryable_failed_items, 0);
    assert_eq!(summary.failed_403_items, 1);
    let counts = state.retry_failed(Some(500), 17);
    assert_eq!(counts.items, 0);
    assert_eq!(state.items[0].status, "failed");
    let counts = state.retry_failed(None, 18);
    assert_eq!(counts.items, 1);
    assert_eq!(state.items[0].attempts, 0);
    state.claim_next_item(2, 19);
    state.mark_item_missing("a", "card HTTP 404", Some(404), 20);
    assert_eq!(state.items[0].status, "missing");
    assert!(state.next_item(99).is_none());
    state.retry_failed(None, 21);
    assert_eq!(state.items[0].status, "missing");
}

#[test]
fn pages_are_seeded_once_and_read_in_order() {
    let mut state = CrawlState::new();
    assert!(state.seed_search_page("k", YEAR, 2, 10));
    assert!(!state.seed_search_page("k", YEAR, 2, 11));
    assert!(state.seed_search_page("k", YEAR, 1, 12));
    assert_eq!(state.next_search_page("k", 5).unwrap().page, 1);
    assert!(state.next_search_page("other", 5).is_none());
    state.mark_search_page_started("k", 1, 13);
    assert_eq!(state.next_search_page("k", 5).unwrap().page, 2);
    state.defer_search_page_after_transient_error("k", 1, "HTTP 502", 14);
    assert_eq!(state.next_search_page("k", 5).unwrap().page, 1);
    state.mark_search_page_started("k", 1, 15);
    state.fail_search_page("k", 1, "search page HTTP 403", 16);
    let summary = state.crawl_completion_summary(1);
    assert_eq!(summary.failed_403_search_pages, 1);
    assert_eq!(summary.exhausted_failed_search_pages, 1);
    assert_eq!(state.next_search_page("k", 1).unwrap().page, 2);
    assert_eq!(state.retry_failed(Some(403), 17).search_pages, 1);
    assert_eq!(state.next_search_page("k", 1).unwrap().page, 1);
}

#[test]
fn completed_pages_lead_to_the_next() {
    let mut state = CrawlState::new();
    state.seed_search_page("k", YEAR, 1, 10);
    state.mark_search_page_started("k", 1, 11);
    complete(&mut state, "k", YEAR, 1, &["a", "b", "a"], Some(9), Some(2));
    assert_eq!(state.pages[0].status, "done");
    assert_eq!(state.pages[0].result_count, Some(3));
    assert_eq!(state.pages[0].total_results, Some(9));
    assert_eq!(state.members.len(), 2);
    assert_eq!(state.next_search_page("k", 5).unwrap().page, 2);
    complete(&mut state, "k", YEAR, 2, &[], Some(9), None);
    assert!(state.next_search_page("k", 5).is_none());
    let shard = state.coverage_shard("k").unwrap();
    assert_eq!(shard.pages, 2);
    assert_eq!(shard.unique_item_ids, 2);
    assert_eq!(shard.reported_total_results, Some(9));
    assert!(shard.ended_on_empty_done_page());
    assert!(shard.has_coverage_gap() && !shard.has_unfinished_pages());
    assert_eq!(shard.missing_results(), Some(9 - shard.discovered_results));
    assert!(state.coverage_shard("none").is_none());
    assert_eq!(state.count_unique_search_items_for_keys(&list(&["k", "none"])), 2);
}

#[test]
fn state_is_summed_up() {
    let mut state = CrawlState::new();
    assert_eq!(state.state_time_bounds().started_at_unix, None);
    enqueue(&mut state, &["c", "a", "b"], 10);
    for (id, status) in [("c", Some(403)), ("a", None), ("b", Some(403))] {
        state.mark_item_started(id, 20);
        state.fail_item(id, "x", status, 30);
    }
    let counts = state.failed_item_http_status_counts();
    assert_eq!(counts.len(), 2);
    assert_eq!((counts[0].http_status, counts[0].count), (None, 1));
    assert_eq!((counts[1].http_status, counts[1].count), (Some(403), 2));
    let sample = state.failed_item_sample(2);
    assert_eq!(sample.len(), 2);
    assert_eq!((sample[0].id.as_str(), sample[1].id.as_str()), ("a", "b"));
    assert_eq!(sample[0].updated_at_unix, 30);
    state.seed_search_page("k", YEAR, 1, 5);
    let bounds = state.state_time_bounds();
    assert_eq!((bounds.started_at_unix, bounds.finished_at_unix), (Some(5), Some(30)));
    assert_eq!(state.status_counts("items").unwrap(), vec![("failed".to_string(), 3)]);
    assert_eq!(
        state.status_counts("records").unwrap_err(),
        "unsupported table for status counts: records"
    );
}

fn covered_state() -> CrawlState {
    let mut state = CrawlState::new();
    for (key, params) in [("k1", YEAR), ("k2", SORTED), ("k3", OTHER)] {
        state.seed_search_page(key, params, 1, 10);
    }
    complete(&mut state, "k1", YEAR, 1, &["a", "b"], Some(3), None);
    complete(&mut state, "k2", SORTED, 1, &["b", "c"], Some(3), None);
    state
}

fn arguments() -> ValidateCoverageArgs {
    ValidateCoverageArgs {
        catalogs: Vec::new(),
        access: Vec::new(),
        require_year: false,
        window_limit_results: 2,
        top: 1,
        show_all: false,
        overflow_facets: Vec::new(),
    }
}

#[test]
fn streams_of_a_group_cover_together() {
    let state = covered_state();
    let facets = list(&["lang"]);
    let shards = state.coverage_report();
    assert_eq!(shards.len(), 3);
    let groups = build_coverage_groups(&state, &shards, &facets).unwrap();
    assert_eq!(groups.len(), 2);
    assert_eq!(groups[0].search_keys, list(&["k1", "k2"]));
    assert_eq!(groups[0].unique_item_ids, 3);
    assert!(!groups[0].has_coverage_gap());
    assert_eq!(groups[0].label, "catalog=25 year>=1911");
    assert_eq!(groups[1].unfinished_shards, 1);
    assert_eq!(groups[1].missing_results(), None);
    assert_eq!(
        coverage_group_line(&groups[0]),
        "  {\"catalogs\":[\"25\"],\"publishyear_prev\":\"1911\"} | catalog=25 year>=1911 | shards=2 unfinished=0 unique=3 total=Some(3) missing=0 keys=k1,k2"
    );
    let group = coverage_group_for_params(&state, SORTED, &facets).unwrap().unwrap();
    assert_eq!(group.search_keys, list(&["k1", "k2"]));
    assert!(coverage_group_for_params(&state, "{}", &facets).unwrap().is_none());
    assert!(coverage_group_for_params(&state, "{", &facets).is_err());
    assert!(coverage_group_label("{", &facets)
        .unwrap_err()
        .starts_with("parsing search params for coverage group label: "));
}

#[test]
fn coverage_is_validated() {
    let state = covered_state();
    let mut args = arguments();
    args.catalogs = list(&["25"]);
    let summary = coverage_validation_summary(&state, &args).unwrap();
    assert_eq!((summary.shards, summary.groups), (2, 1));
    assert_eq!((summary.gap_shards, summary.gap_groups), (2, 0));
    assert_eq!(summary.window_limited_shards, 2);
    assert_eq!(summary.per_query_missing_results, 2);
    assert!(summary.is_ok());
    assert_eq!(
        coverage_verdict(&summary).unwrap(),
        "coverage ok: completed search groups cover all reported totals"
    );
    let lines = coverage_validation_lines(&summary, args.top);
    assert_eq!(lines[0], "search coverage:");
    assert_eq!(lines[9], "  grouped_missing_results: 0");
    assert_eq!(lines[10], "shards:");
    assert_eq!(lines[12], "  ... 1 more shard(s), raise --top to print them");
    args.catalogs = list(&["27"]);
    assert_eq!(
        coverage_validation_summary(&state, &args).unwrap_err(),
        "coverage validation failed: no search pages found"
    );
    args.catalogs = Vec::new();
    let summary = coverage_validation_summary(&state, &args).unwrap();
    assert_eq!(
        coverage_verdict(&summary).unwrap_err(),
        "coverage validation failed: 1 unfinished group(s), 0 group(s) with coverage gaps"
    );
}

fn shard() -> CoverageShard {
    CoverageShard {
        search_key: "k".to_string(),
        params_json: YEAR.to_string(),
        pages: 3,
        done_pages: 2,
        pending_pages: 1,
        in_progress_pages: 0,
        failed_pages: 0,
        discovered_results: 30,
        unique_item_ids: 28,
        reported_total_results: Some(40),
        max_done_page: Some(2),
        last_done_results: Some(15),
    }
}

#[test]
fn streams_are_shown_with_their_flags() {
    let mut shown = shard();
    assert_eq!(coverage_flags(&shown, 30), " flags=unfinished,gap,window-limit");
    assert_eq!(coverage_flags(&shown, 31), " flags=unfinished,gap");
    assert_eq!(
        coverage_shard_line(&shown, 31),
        "  k | catalog=25 year>=1911 | pages=3 done=2 pending=1 in_progress=0 failed=0 discovered=30 unique=28 total=Some(40) missing=10 max_done_page=Some(2) flags=unfinished,gap"
    );
    shown.pending_pages = 0;
    shown.reported_total_results = None;
    assert_eq!(coverage_flags(&shown, 0), "");
}

#[test]
fn streams_are_filtered() {
    let shown = shard();
    let mut args = arguments();
    assert!(coverage_shard_matches_filters(&shown, &args));
    args.require_year = true;
    assert!(coverage_shard_matches_filters(&shown, &args));
    args.catalogs = list(&["25", "26"]);
    assert!(!coverage_shard_matches_filters(&shown, &args));
    args.catalogs = Vec::new();
    args.access = list(&["open"]);
    assert!(!coverage_shard_matches_filters(&shown, &args));
    let mut broken = shard();
    broken.params_json = "{".to_string();
    assert!(!coverage_shard_matches_filters(&broken, &arguments()));
    assert_eq!(effective_coverage_overflow_facets(&args), list(&["lang", "idlibrary"]));
    args.overflow_facets = list(&["x", "x"]);
    assert_eq!(effective_coverage_overflow_facets(&args), list(&["x"]));
}

#[test]
fn heaviest_come_first_and_equals_keep_their_order() {
    assert_eq!(rank(&vec![(1, 5), (2, 0), (1, 6), (2, 0)]), vec![1, 3, 2, 0]);
    assert!(rank(&Vec::new()).is_empty());
}

#[test]
fn crawls_end_with_a_verdict() {
    let mut state = CrawlState::new();
    let verdict = |state: &CrawlState, limit: bool, shutdown: bool| {
        let summary = state.crawl_completion_summary(1);
        assert!(check_sums(&summary));
        report_crawl_completion(&summary, 1, limit, shutdown)
    };
    let (lines, error) = verdict(&state, false, false);
    assert_eq!(error, None);
    assert_eq!(lines[1], "crawl complete: no pending or failed work remains");
    enqueue(&mut state, &["a"], 10);
    assert_eq!(unfinished_work(&state.crawl_completion_summary(1)), 1);
    let (lines, error) = verdict(&state, false, false);
    assert_eq!(error.as_deref(), Some("crawl incomplete: 1 pending or retryable row(s) remain"));
    assert!(lines[0].starts_with("crawl state: records=0, items(done=0, missing=0, pending=1,"));
    let (lines, error) = verdict(&state, true, false);
    assert_eq!(error, None);
    assert_eq!(lines[1], "crawl stopped by configured --max-pages or --max-items limit");
    let (lines, error) = verdict(&state, true, true);
    assert_eq!(error, None);
    assert_eq!(
        lines[1],
        "crawl interrupted: rerun the same crawl command to resume pending work"
    );
    state.mark_item_started("a", 11);
    state.fail_item("a", "x", Some(403), 12);
    let (lines, error) = verdict(&state, true, true);
    assert_eq!(
        error.as_deref(),
        Some("crawl incomplete: 1 failed item(s) and 0 failed search page(s) reached --max-attempts=1")
    );
    assert_eq!(lines[1], "failed HTTP 403 rows: items=1, search_pages=0");
}
