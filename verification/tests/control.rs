use rusneb_parser::commands::{
    explicit_line, load_ids, queued_line, retried_line, stats_lines, stopped_line, workers_failed,
};
use rusneb_parser::discovery::{
    begin_crawl, discovering_line, healed_line, seeded_line, CrawlStep, DiscoveryQueue,
};
use rusneb_parser::item_worker::WorkerStats;
use rusneb_parser::jobs::{
    build_search_jobs, dedup_nonempty_strings, default_overflow_facets, default_overflow_sorts,
    effective_overflow_facets, effective_overflow_sorts, parse_extra_params, parse_overflow_sorts,
    parse_year_bound, CrawlArgs,
};
use rusneb_parser::pauses::{
    see_to_failure, throttle, FailureAction, PauseControl, PauseStep,
};
use rusneb_parser::settings::{
    backlog_target, last_search_page, pause_control, plural_ending, start_line, worker_control,
};
use rusneb_parser::state::{CrawlState, RetryCounts};
use rusneb_parser::tunnel::{bind_address, proxy_address, ssh_arguments, tunnel_step, TunnelStep};
use rusneb_parser::workers::{
    is_http_403_failure, is_missing_item_failure, is_transient_failure, min_optional_u64,
    reserve_item_slot, WorkerControl,
};

fn list(values: &[&str]) -> Vec<String> {
    values.iter().map(|value| value.to_string()).collect()
}

#[test]
fn identifiers_are_trimmed_sorted_and_kept_once() {
    let lines = list(&[" b ", "", "# comment", "  #x", "a#1", "c"]);
    assert_eq!(
        load_ids(&list(&["c", " ", "#kept", " a "]), &lines),
        list(&["#kept", "a", "a#1", "b", "c"])
    );
    assert!(load_ids(&Vec::new(), &Vec::new()).is_empty());
}

#[test]
fn commands_say_what_they_did() {
    assert_eq!(queued_line(3, 1), "queued 3 IDs (1 new)");
    assert_eq!(explicit_line(2, 0), "queued 2 explicit IDs (0 new)");
    let counts = RetryCounts { items: 4, search_pages: 1 };
    assert_eq!(
        retried_line(Some(403), &counts),
        "reset failed HTTP 403 rows to pending: 4 item(s), 1 search page(s)"
    );
    assert_eq!(
        retried_line(None, &counts),
        "reset all failed rows to pending: 4 item(s), 1 search page(s)"
    );
    assert_eq!(
        stats_lines(7, &vec![("done".to_string(), 7)], &vec![("pending".to_string(), 2)]),
        list(&["records: 7", "items:", "  done: 7", "search_pages:", "  pending: 2"])
    );
    assert_eq!(seeded_line(1), "seeded 1 search shard");
    assert_eq!(seeded_line(2), "seeded 2 search shards");
    assert_eq!(healed_line(1), "self-healing coverage scan queued 1 automatic overflow shard");
}

#[test]
fn workers_are_summed_up() {
    let a = WorkerStats { saved: 1, missing: 2, failed: 3, deferred: 4 };
    let b = WorkerStats { saved: 10, missing: 20, failed: 30, deferred: 40 };
    let both = a.combine(&b);
    assert_eq!(
        stopped_line(&both),
        "item workers stopped: saved=11, missing=22, failed=33, deferred=44"
    );
    assert_eq!(workers_failed(&Vec::new()), None);
    assert_eq!(
        workers_failed(&list(&["x", "y: z"])).as_deref(),
        Some("2 item worker(s) failed\n- x\n- y: z")
    );
}

#[test]
fn tunnels_are_waited_for() {
    let bind = bind_address(1080);
    assert_eq!(bind, "127.0.0.1:1080");
    assert_eq!(proxy_address(&bind), "socks5h://127.0.0.1:1080");
    let arguments = ssh_arguments(&bind, "user@host");
    assert_eq!(arguments.len(), 12);
    assert_eq!(arguments[2], bind);
    assert_eq!(arguments[11], "user@host");
    assert!(matches!(tunnel_step("h", &bind, true, &None, 15000), TunnelStep::Ready));
    assert!(matches!(
        tunnel_step("h", &bind, false, &None, 14999),
        TunnelStep::Wait { millis: 100 }
    ));
    match tunnel_step("h", &bind, true, &Some("exit status: 1".to_string()), 0) {
        TunnelStep::Exited { message } => assert_eq!(
            message,
            "SSH tunnel via h exited before it was ready: exit status: 1"
        ),
        other => panic!("{other:?}"),
    }
    match tunnel_step("h", &bind, false, &None, 15000) {
        TunnelStep::TimedOut { message } => {
            assert_eq!(message, "timed out waiting for SSH tunnel via h on 127.0.0.1:1080")
        }
        other => panic!("{other:?}"),
    }
}

#[test]
fn long_pauses_last_as_long_as_the_clock_goes() {
    let mut pauses = PauseControl::new(Some(1), u64::MAX, Some(1), u64::MAX);
    assert!(pauses.maybe_pause_after_transient_errors("s", 1, 100).is_some());
    assert_eq!(pauses.pause_until, i64::MAX);
    let mut pauses = PauseControl::new(Some(1), 60, Some(1), i64::MAX as u64 + 1);
    assert!(pauses.should_defer_after_http_403_burst("s", -5).0);
    assert_eq!(pauses.pause_until, i64::MAX - 4);
}

#[test]
fn requests_are_kept_apart() {
    assert_eq!(throttle(None, 10), 0);
    assert_eq!(throttle(Some(3), 10), 7);
    assert_eq!(throttle(Some(10), 10), 0);
}

#[test]
fn failures_are_told_apart_by_status() {
    assert!(is_transient_failure(None));
    assert!(is_transient_failure(Some(500)) && is_transient_failure(Some(599)));
    assert!(!is_transient_failure(Some(600)) && !is_transient_failure(Some(499)));
    assert!(is_http_403_failure(Some(403)) && !is_http_403_failure(None));
    assert!(is_missing_item_failure(Some(404)) && !is_missing_item_failure(Some(403)));
    assert_eq!(min_optional_u64(Some(3), Some(2)), Some(2));
    assert_eq!(min_optional_u64(None, Some(2)), Some(2));
    assert_eq!(min_optional_u64(Some(3), None), Some(3));
    assert_eq!(min_optional_u64(None, None), None);
    let mut started: u64 = 1;
    assert!(reserve_item_slot(None, &mut started));
    assert_eq!(started, 1);
    assert!(reserve_item_slot(Some(2), &mut started));
    assert_eq!(started, 2);
    assert!(!reserve_item_slot(Some(2), &mut started));
    assert_eq!(started, 2);
}

#[test]
fn workers_go_down_on_errors_and_up_on_successes() {
    let mut workers = WorkerControl::new(true, 3, 5, 2, 3);
    assert!(workers.should_worker_run(5));
    assert_eq!(workers.on_transient_error("worker 1", 1), None);
    assert_eq!(
        workers.on_transient_error("worker 1", 2).as_deref(),
        Some("worker 1: adaptive workers decreased to 4/5 after 2 consecutive transient errors")
    );
    assert!(!workers.should_worker_run(5) && workers.should_worker_run(4));
    assert!(workers.on_transient_error("x", 4).is_some());
    assert_eq!(workers.on_transient_error("x", 6), None);
    assert_eq!(workers.active_workers, 3);
    assert_eq!(workers.on_success(2), None);
    assert_eq!(workers.on_success(2), None);
    assert_eq!(
        workers.on_success(2).as_deref(),
        Some("worker 2: adaptive workers increased to 4/5 after 3 successful item fetches")
    );
    assert_eq!(workers.on_success(2), None);
    workers.on_item_failure();
    assert_eq!(workers.stable_successes, 0);

    let mut fixed = WorkerControl::new(false, 1, 2, 1, 1);
    assert_eq!(fixed.on_transient_error("x", 1), None);
    assert_eq!(fixed.on_success(1), None);
    assert_eq!(fixed.active_workers, 2);
    assert!(fixed.should_worker_run(9));
}

#[test]
fn errors_in_a_row_lead_to_a_pause() {
    let mut pauses = PauseControl::new(Some(2), 60, Some(3), 600);
    assert_eq!(pauses.maybe_pause_after_transient_errors("s", 1, 100), None);
    assert_eq!(
        pauses.maybe_pause_after_transient_errors("s", 2, 100).as_deref(),
        Some("s: pausing for 60s after 2 consecutive transient errors")
    );
    assert_eq!(pauses.pause_until, 160);
    assert!(matches!(
        pauses.wait_for_transient_pause(false, 100),
        PauseStep::Sleep { secs: 5 }
    ));
    assert!(matches!(
        pauses.wait_for_transient_pause(false, 158),
        PauseStep::Sleep { secs: 2 }
    ));
    assert!(matches!(pauses.wait_for_transient_pause(false, 160), PauseStep::Go));
    assert!(matches!(pauses.wait_for_transient_pause(true, 100), PauseStep::Stop));
    assert_eq!(pauses.maybe_pause_after_transient_errors("s", 2, 50), None);
    assert_eq!(pauses.pause_until, 160);

    assert_eq!(pauses.should_defer_after_http_403_burst("s", 200), (false, None));
    assert_eq!(pauses.should_defer_after_http_403_burst("s", 200), (false, None));
    let (defer, message) = pauses.should_defer_after_http_403_burst("s", 200);
    assert!(defer);
    assert_eq!(
        message.as_deref(),
        Some(
            "s: pausing for 600s after 3 consecutive HTTP 403 errors; retrying affected rows without spending attempts"
        )
    );
    assert_eq!(pauses.pause_until, 800);
    pauses.on_fetch();
    assert_eq!(pauses.http_403_errors, 0);
    let mut never = PauseControl::new(None, 60, None, 600);
    assert_eq!(never.maybe_pause_after_transient_errors("s", 99, 1), None);
    assert_eq!(never.should_defer_after_http_403_burst("s", 1), (false, None));
}

#[test]
fn failures_are_seen_to() {
    let mut workers = WorkerControl::new(true, 1, 2, 1, 1);
    let mut pauses = PauseControl::new(Some(9), 60, Some(2), 0);
    let mut act = |status: Option<u16>, item: bool| {
        see_to_failure(&mut workers, &mut pauses, "s", status, item, 7).0
    };
    assert!(matches!(act(None, true), FailureAction::DeferTransient));
    assert!(matches!(act(Some(503), false), FailureAction::DeferTransient));
    assert!(matches!(act(Some(404), true), FailureAction::Missing));
    assert!(matches!(act(Some(404), false), FailureAction::Fail));
    assert!(matches!(act(Some(403), true), FailureAction::Fail));
    assert!(matches!(act(Some(403), true), FailureAction::DeferBlocked));
    assert!(matches!(act(Some(403), true), FailureAction::Fail));
    assert!(matches!(act(Some(410), true), FailureAction::Fail));
    assert!(matches!(act(Some(403), true), FailureAction::Fail));
}

#[test]
fn settings_follow_from_the_arguments() {
    let mut args = CrawlArgs::default();
    assert_eq!(args.base_url, "https://rusneb.ru");
    assert_eq!(start_line(&args), "starting 1 item worker (fixed active count)");
    assert_eq!(backlog_target(&args), 15);
    let pauses = pause_control(&args);
    assert_eq!(pauses.transient_threshold, Some(20));
    assert_eq!(pauses.http_403_threshold, Some(4));
    args.workers = 8;
    args.min_workers = 3;
    assert_eq!(start_line(&args), "starting 8 item workers (adaptive active range 3..=8)");
    assert_eq!(backlog_target(&args), 24);
    assert_eq!(pause_control(&args).transient_threshold, Some(32));
    assert_eq!(pause_control(&args).http_403_threshold, Some(8));
    args.max_consecutive_transport_errors = Some(0);
    assert_eq!(pause_control(&args).transient_threshold, None);
    assert!(worker_control(&args).enabled);
    args.fixed_workers = true;
    assert!(!worker_control(&args).enabled);
    args.min_workers = 99;
    assert_eq!(worker_control(&args).min_workers, 8);
    assert_eq!(last_search_page(&args, None), None);
    args.max_pages = Some(2);
    args.start_page = 5;
    assert_eq!(last_search_page(&args, Some(7)), Some(6));
    assert_eq!(last_search_page(&args, Some(1)), Some(5));
    args.max_pages = Some(0);
    assert_eq!(last_search_page(&args, None), Some(4));
    assert_eq!(plural_ending(1), "");
    assert_eq!(plural_ending(0), "s");
}

#[test]
fn arguments_that_do_not_fit_are_refused() {
    let mut args = CrawlArgs::default();
    args.overflow_years = vec![1911];
    let refused = |args: &CrawlArgs| build_search_jobs(args).unwrap_err();
    assert_eq!(refused(&args), "--overflow-year and --overflow-sort require --shard-years");
    args.shard_years = true;
    assert_eq!(refused(&args), "--publishyear-prev is required when --shard-years is used");
    args.publishyear_prev = Some("x".to_string());
    assert!(refused(&args).starts_with("--publishyear-prev must be an unsigned year: x"));
    args.publishyear_prev = Some("1912".to_string());
    args.publishyear_next = Some("1911".to_string());
    assert_eq!(
        refused(&args),
        "--publishyear-prev must be less than or equal to --publishyear-next when --shard-years is used"
    );
    args.publishyear_prev = Some("1900".to_string());
    args.publishyear_next = Some("1905".to_string());
    assert_eq!(
        refused(&args),
        "--overflow-year 1911 is outside --publishyear-prev..--publishyear-next"
    );
    args.no_year_max_pages = 0;
    assert_eq!(refused(&args), "--no-year-max-pages must be greater than zero");
    args.overflow_years = Vec::new();
    args.overflow_sorts = list(&["f:asc"]);
    args.auto_overflow = false;
    assert_eq!(
        refused(&args),
        "--overflow-sort without --overflow-year requires automatic overflow"
    );
    args.extra_params = list(&["a"]);
    assert_eq!(refused(&args), "extra parameter must be key=value: a");
}

#[test]
fn parts_of_the_arguments_are_read() {
    assert_eq!(
        parse_extra_params(&list(&["a=b=c", "=d"])).unwrap(),
        vec![("a".to_string(), "b=c".to_string()), (String::new(), "d".to_string())]
    );
    assert_eq!(
        parse_overflow_sorts(&list(&["f"])).unwrap_err(),
        "overflow sort must be field:asc or field:desc: f"
    );
    assert_eq!(
        parse_overflow_sorts(&list(&[" :asc"])).unwrap_err(),
        "overflow sort field must not be empty:  :asc"
    );
    assert_eq!(
        parse_overflow_sorts(&list(&["f:up"])).unwrap_err(),
        "overflow sort order must be asc or desc: f:up"
    );
    assert_eq!(parse_year_bound("--y", &Some("1911".to_string())).unwrap(), 1911);
    assert_eq!(default_overflow_sorts().len(), 6);
    assert_eq!(default_overflow_facets(), list(&["lang", "idlibrary"]));
    assert_eq!(dedup_nonempty_strings(list(&[" a ", "", "a", "b"])), list(&["a", "b"]));
    let mut args = CrawlArgs::default();
    assert!(effective_overflow_sorts(&args).unwrap().is_empty());
    assert!(effective_overflow_facets(&args).is_empty());
    args.shard_years = true;
    assert_eq!(effective_overflow_sorts(&args).unwrap().len(), 6);
    assert_eq!(effective_overflow_facets(&args), list(&["lang", "idlibrary"]));
    args.overflow_facets = list(&["lang", " lang "]);
    assert_eq!(effective_overflow_facets(&args), list(&["lang"]));
    args.max_overflow_facet_depth = 0;
    assert!(effective_overflow_facets(&args).is_empty());
}

#[test]
fn a_crawl_starts_once() {
    let mut args = CrawlArgs::default();
    let mut state = CrawlState::new();
    let ids = list(&["b", "a"]);
    let (lines, begun) = begin_crawl(&mut state, &args, &ids, 10);
    let queue = begun.unwrap();
    assert_eq!(lines, list(&["queued 2 explicit IDs (2 new)", "seeded 1 search shard"]));
    assert_eq!(queue.search_jobs.len(), 1);
    assert_eq!(queue.pending.len(), 1);
    let key = queue.search_jobs[0].search_key.clone();
    assert_eq!(queue.queued_keys, vec![key.clone()]);
    assert_eq!(state.next_search_page(&key, 3).unwrap().page, args.start_page);
    assert_eq!(state.status_counts("items").unwrap(), vec![("pending".to_string(), 2)]);

    let (lines, begun) = begin_crawl(&mut state, &args, &ids, 20);
    assert!(begun.is_ok());
    assert_eq!(lines, list(&["queued 2 explicit IDs (0 new)", "seeded 1 search shard"]));
    assert_eq!(state.status_counts("items").unwrap(), vec![("pending".to_string(), 2)]);
    assert_eq!(state.status_counts("search_pages").unwrap(), vec![("pending".to_string(), 1)]);

    let mut other = CrawlState::new();
    args.no_discover = true;
    let (lines, begun) = begin_crawl(&mut other, &args, &Vec::new(), 10);
    assert!(begun.is_ok());
    assert!(lines.is_empty());
    assert!(other.status_counts("search_pages").unwrap().is_empty());

    args.overflow_sorts = list(&["f:asc"]);
    let (lines, begun) = begin_crawl(&mut other, &args, &list(&["c"]), 10);
    assert_eq!(
        begun.unwrap_err(),
        "--overflow-year and --overflow-sort require --shard-years"
    );
    assert_eq!(lines, list(&["queued 1 explicit IDs (1 new)"]));
    assert_eq!(other.status_counts("items").unwrap(), vec![("pending".to_string(), 1)]);
}

#[test]
fn streams_are_discovered_in_turn() {
    let mut args = CrawlArgs::default();
    args.shard_years = true;
    args.publishyear_prev = Some("1911".to_string());
    args.publishyear_next = Some("1912".to_string());
    args.no_year_shard = false;
    let jobs = build_search_jobs(&args).unwrap();
    let first = jobs[0].params_json.clone();
    let second = jobs[1].params_json.clone();
    assert_ne!(jobs[0].search_key, jobs[1].search_key);
    let mut queue = DiscoveryQueue::new(jobs);
    let meta: Vec<String> = serde_json::from_str(&queue.search_jobs_meta()).unwrap();
    assert_eq!(meta, vec![first.clone(), second]);
    assert!(matches!(queue.next_step(true), CrawlStep::Stop));
    match queue.next_step(false) {
        CrawlStep::Discover { job } => assert_eq!(job.params_json, first),
        other => panic!("{other:?}"),
    }
    assert!(matches!(queue.next_step(false), CrawlStep::Discover { .. }));
    assert!(matches!(queue.next_step(false), CrawlStep::Scan));
    args.publishyear_next = Some("1911".to_string());
    let one = DiscoveryQueue::new(build_search_jobs(&args).unwrap());
    assert_eq!(one.search_jobs_meta(), first);
    assert_eq!(queue.end_scan(Vec::new()), None);
    assert_eq!(
        discovering_line(&one.search_jobs[0]),
        format!("discovering search shard year 1911 ({})", one.search_jobs[0].search_key)
    );
    let line = queue.end_scan(one.search_jobs);
    assert_eq!(
        line.as_deref(),
        Some("self-healing coverage scan queued 1 automatic overflow shard")
    );
    assert_eq!(queue.search_jobs.len(), 3);
    assert!(matches!(queue.next_step(false), CrawlStep::Discover { .. }));
}
