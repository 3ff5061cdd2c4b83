use rusneb_parser::coverage::ValidateCoverageArgs;
use rusneb_parser::discovery::{
    begin_crawl, discovery_setup, discovery_step, page_failed, page_read, CrawlStep, DiscoveryStep,
};
use rusneb_parser::export::jsonl_line;
use rusneb_parser::item_worker::{
    item_failed, record_fetched, worker_step, WorkerSetup, WorkerStats, WorkerStep,
};
use rusneb_parser::items::ItemRow;
use rusneb_parser::jobs::{
    effective_overflow_facets, effective_overflow_sorts, CrawlArgs, SearchJob,
};
use rusneb_parser::links::{advanced_search_url, search_url};
use rusneb_parser::manifest::{
    dataset_manifest, failed_items_manifest, output_file_manifest, sqlite_manifest,
    tool_manifest,
    CommandsManifest, ManifestHead,
};
use rusneb_parser::maps::TextMap;
use rusneb_parser::model::{FetchFailure, RusnebRecord};
use rusneb_parser::overflow::{
    facet_values_line, seed_auto_overflow_jobs, seed_auto_overflow_jobs_for_known_gaps,
    OverflowContext, OverflowPlan, ScanEnd,
};
use rusneb_parser::pages::PageRow;
use rusneb_parser::pauses::PauseControl;
use rusneb_parser::record::{
    assemble_record, card_page, log_record_title, record_urls, Answer, FetchTime,
};
use rusneb_parser::record_json::record_json;
use rusneb_parser::report::{
    coverage_validation_lines, coverage_verdict, report, report_crawl_completion,
};
use rusneb_parser::search_page::{advanced_filter_result, search_page_result, to_fetch_failure};
use rusneb_parser::settings::{is_limited, pause_control, worker_control};
use rusneb_parser::state::CrawlState;
use rusneb_parser::validation::coverage_validation_summary;
use rusneb_parser::workers::WorkerControl;
use serde_json::Value;

const BASE: &str = "http://127.0.0.1:8080";
const MOCK_ID: &str = "mock-record-1";
const MISSING_ID: &str = "missing-record";
const TRANSIENT_ID: &str = "transient-record";
const FORBIDDEN_ID: &str = "forbidden-record";
const NO_YEAR_ID: &str = "no-year-record";
const OVERFLOW_NORMAL_ID: &str = "overflow-normal";
const OVERFLOW_SORTED_ID: &str = "overflow-sorted";
const OVERFLOW_LANG_A_ID: &str = "overflow-lang-a";
const OVERFLOW_LANG_B_ID: &str = "overflow-lang-b";
const OVERFLOW_LANG_C_ID: &str = "overflow-lang-c";
const RESUME_ID_A: &str = "resume-record-a";
const RESUME_ID_B: &str = "resume-record-b";
const RESUME_ID_C: &str = "resume-record-c";
const TOTAL_DRIFT_ID_A: &str = "total-drift-a";
const TOTAL_DRIFT_ID_B: &str = "total-drift-b";
const FINAL_SCAN_ID_A: &str = "final-scan-a";
const FINAL_SCAN_ID_B: &str = "final-scan-b";
const FINAL_SCAN_ID_C: &str = "final-scan-c";
const FINAL_SCAN_ID_D: &str = "final-scan-d";

/// A site: what it answers to a request, of which it is told the number.
type Site = fn(&str, usize) -> (u16, String);

/// A crawl whose site and clock are part of the test.
struct World {
    state: CrawlState,
    site: Site,
    requests: Vec<String>,
    lines: Vec<String>,
    now: i64,
}

/// What a run of the crawl shares between discovery and the worker.
struct Run {
    workers: WorkerControl,
    pauses: PauseControl,
    facet_values: Option<TextMap<Vec<String>>>,
    started_items: u64,
    stats: WorkerStats,
}

impl World {
    fn new(site: Site) -> Self {
        World {
            state: CrawlState::new(),
            site,
            requests: Vec::new(),
            lines: Vec::new(),
            now: 1_700_000_000,
        }
    }

    fn get(&mut self, url: &str) -> Answer {
        let target = url.strip_prefix(BASE).expect("an address of the site").to_string();
        self.requests.push(target.clone());
        let (status, body) = (self.site)(&target, self.requests.len());
        Answer::Answered { status, body }
    }

    fn fetch_record(&mut self, id: &str) -> Result<RusnebRecord, FetchFailure> {
        let source = record_urls(BASE, id)?;
        let answer = self.get(&source.card_html);
        let card = card_page(answer)?;
        let marc = self.get(&source.marc21_xml);
        let viewer = self.get(&source.viewer_access_json);
        let time = FetchTime { text: "2023-11-14T22:13:20+00:00".to_string(), unix: self.now };
        Ok(assemble_record(id, BASE, source, time, &card, marc, viewer))
    }

    fn fetch_facet_values(&mut self, facets: &Vec<String>) -> TextMap<Vec<String>> {
        let url = advanced_search_url(BASE).expect("an address");
        match self.get(&url) {
            Answer::Answered { status, body } => {
                let values = advanced_filter_result(status, &body, facets).expect("facet values");
                self.lines.push(facet_values_line(&values, facets));
                values
            }
            Answer::Failed { message } => panic!("{message}"),
        }
    }

    /// Lets the worker take one step; says whether it goes on.
    fn work(&mut self, run: &mut Run, args: &CrawlArgs, discovery_done: bool) -> bool {
        let setup = WorkerSetup {
            worker_id: 1,
            max_attempts: args.max_attempts,
            max_items: args.max_items,
        };
        self.now += 1;
        let step = worker_step(
            &mut self.state,
            &run.workers,
            &run.pauses,
            &mut run.started_items,
            &setup,
            false,
            discovery_done,
            self.now,
        );
        match step {
            WorkerStep::Stop => return false,
            WorkerStep::SleepSecs { secs } => self.now += secs as i64,
            WorkerStep::SleepMillis { .. } => {}
            WorkerStep::Fetch { id } => {
                let lines = match self.fetch_record(&id) {
                    Ok(record) => record_fetched(
                        &mut self.state,
                        &mut run.workers,
                        &mut run.pauses,
                        &mut run.stats,
                        1,
                        &id,
                        &log_record_title(&record),
                        &record_json(&record),
                        record.fetched_at_unix,
                        self.now,
                    ),
                    Err(failure) => item_failed(
                        &mut self.state,
                        &mut run.workers,
                        &mut run.pauses,
                        &mut run.stats,
                        1,
                        &id,
                        &failure,
                        self.now,
                    ),
                };
                self.lines.extend(lines);
            }
        }
        true
    }

    fn discover(&mut self, run: &mut Run, args: &CrawlArgs, job: &SearchJob) {
        let setup = discovery_setup(args, job);
        let mut known_page_streak = 0;
        loop {
            self.now += 1;
            let step = discovery_step(
                &mut self.state,
                &run.pauses,
                &job.search_key,
                &setup,
                false,
                self.now,
            );
            let page = match step {
                DiscoveryStep::Stop => return,
                DiscoveryStep::SleepSecs { secs } => {
                    self.now += secs as i64;
                    continue;
                }
                DiscoveryStep::SleepMillis { .. } => {
                    self.work(run, args, false);
                    continue;
                }
                DiscoveryStep::Fetch { page } => page,
            };
            let url = search_url(BASE, &job.params, page).expect("an address");
            let result = match self.get(&url) {
                Answer::Answered { status, body } => search_page_result(status, &body),
                Answer::Failed { message } => Err(to_fetch_failure(&message)),
            };
            let lines = match result {
                Ok(result) => page_read(
                    &mut self.state,
                    &mut run.pauses,
                    &mut known_page_streak,
                    &job.search_key,
                    &job.params_json,
                    page,
                    &result,
                    &setup,
                    self.now,
                ),
                Err(failure) => page_failed(
                    &mut self.state,
                    &mut run.workers,
                    &mut run.pauses,
                    &job.search_key,
                    page,
                    &failure,
                    self.now,
                ),
            };
            self.lines.extend(lines);
        }
    }

    /// Crawls; gives the message on why the crawl is not complete, if it is not.
    fn crawl(&mut self, args: &CrawlArgs) -> Option<String> {
        self.state.reset_interrupted_work(self.now);
        let facets = effective_overflow_facets(args);
        let (lines, begun) = begin_crawl(&mut self.state, args, &Vec::new(), self.now);
        self.lines.extend(lines);
        let mut queue = begun.expect("search streams");
        let sorts = effective_overflow_sorts(args).expect("sorts");
        let mut run = Run {
            workers: worker_control(args),
            pauses: pause_control(args),
            facet_values: None,
            started_items: 0,
            stats: WorkerStats::default(),
        };
        loop {
            match queue.next_step(false) {
                CrawlStep::Stop => break,
                CrawlStep::Discover { job } => {
                    self.discover(&mut run, args, &job);
                    loop {
                        let ctx = OverflowContext {
                            args,
                            overflow_sorts: &sorts,
                            overflow_facets: &facets,
                            overflow_facet_values: &run.facet_values,
                        };
                        let plan = seed_auto_overflow_jobs(
                            &ctx,
                            &mut self.state,
                            &mut queue.queued_keys,
                            &job,
                            self.now,
                        )
                        .expect("an overflow plan");
                        match plan {
                            OverflowPlan::Nothing => break,
                            OverflowPlan::NeedFacetValues => {
                                let values = self.fetch_facet_values(&facets);
                                run.facet_values = Some(values);
                            }
                            OverflowPlan::Jobs { jobs, lines } => {
                                self.lines.extend(lines);
                                queue.queue_search_jobs(jobs);
                                break;
                            }
                        }
                    }
                }
                CrawlStep::Scan => {
                    let mut new_jobs = Vec::new();
                    let mut from = 0;
                    loop {
                        let ctx = OverflowContext {
                            args,
                            overflow_sorts: &sorts,
                            overflow_facets: &facets,
                            overflow_facet_values: &run.facet_values,
                        };
                        let scan = seed_auto_overflow_jobs_for_known_gaps(
                            &ctx,
                            &mut self.state,
                            &mut queue.queued_keys,
                            &queue.search_jobs,
                            from,
                            self.now,
                        );
                        self.lines.extend(scan.lines);
                        new_jobs.extend(scan.jobs);
                        match scan.end {
                            ScanEnd::Done => break,
                            ScanEnd::NeedFacetValues { at } => {
                                let values = self.fetch_facet_values(&facets);
                                run.facet_values = Some(values);
                                from = at;
                            }
                            ScanEnd::Failed { message } => panic!("{message}"),
                        }
                    }
                    match queue.end_scan(new_jobs) {
                        Some(line) => self.lines.push(line),
                        None => break,
                    }
                }
            }
        }
        while self.work(&mut run, args, true) {}
        let summary = self.state.crawl_completion_summary(args.max_attempts);
        let (lines, error) = report_crawl_completion(
            &summary,
            args.max_attempts,
            is_limited(args),
            false,
        );
        self.lines.extend(lines);
        error
    }

    fn validate(&self, args: &ValidateCoverageArgs) -> (Vec<String>, Result<String, String>) {
        let summary = coverage_validation_summary(&self.state, args).expect("a summary");
        (coverage_validation_lines(&summary, args.top), coverage_verdict(&summary))
    }

    fn report(&self, args: &ValidateCoverageArgs, max_attempts: u32) -> (Vec<String>, bool) {
        let summary = coverage_validation_summary(&self.state, args).expect("a summary");
        report(
            "state.sqlite",
            &self.state.crawl_completion_summary(max_attempts),
            &summary,
            args.top,
            &self.state.failed_item_http_status_counts(),
            &self.state.failed_item_sample(20),
        )
    }

    fn item(&self, id: &str) -> &ItemRow {
        self.state.items.iter().find(|row| row.id == id).expect("an item")
    }

    fn page(&self, page: u64) -> &PageRow {
        self.state.pages.iter().find(|row| row.page == page).expect("a page")
    }

    fn count(&self, table: &str, status: &str) -> u64 {
        let counts = self.state.status_counts(table).expect("a table");
        counts.iter().find(|count| count.0 == status).map(|count| count.1).unwrap_or(0)
    }

    fn searches(&self) -> Vec<&String> {
        self.requests.iter().filter(|request| request.starts_with("/search/")).collect()
    }

    fn card_requests(&self, id: &str) -> usize {
        let card = format!("/catalog/{id}/");
        self.requests.iter().filter(|request| **request == card).count()
    }

    fn says(&self, text: &str) -> bool {
        self.lines.iter().any(|line| line.contains(text))
    }

    fn item_ids(&self) -> Vec<String> {
        let mut ids: Vec<String> = self.state.items.iter().map(|row| row.id.clone()).collect();
        ids.sort();
        ids
    }

    /// Adds a page to the stream of another, as a crawl leaves it that is cut off.
    fn interrupt_page(&mut self, source: u64, page: u64) {
        let row = self.page(source);
        let row = PageRow {
            search_key: row.search_key.clone(),
            page,
            params_json: row.params_json.clone(),
            status: "in_progress".to_string(),
            attempts: 0,
            result_count: None,
            total_results: None,
            last_error: None,
            updated_at: row.updated_at,
        };
        self.state.pages.push(row);
    }
}

fn has(lines: &[String], text: &str) -> bool {
    lines.iter().any(|line| line.contains(text))
}

fn crawl_args() -> CrawlArgs {
    let mut args = CrawlArgs::default();
    args.base_url = BASE.to_string();
    args.catalogs = vec!["25".to_string()];
    args.access = vec!["open".to_string()];
    args
}

fn year_args(year: &str) -> CrawlArgs {
    let mut args = crawl_args();
    args.publishyear_prev = Some(year.to_string());
    args.publishyear_next = Some(year.to_string());
    args.shard_years = true;
    args.no_year_shard = false;
    args.max_items = Some(0);
    args
}

fn coverage_args() -> ValidateCoverageArgs {
    ValidateCoverageArgs {
        catalogs: vec!["25".to_string()],
        access: vec!["open".to_string()],
        require_year: false,
        window_limit_results: 9990,
        top: 50,
        show_all: false,
        overflow_facets: Vec::new(),
    }
}

fn year_coverage_args() -> ValidateCoverageArgs {
    let mut args = coverage_args();
    args.require_year = true;
    args
}

fn not_found() -> (u16, String) {
    (404, "not found".to_string())
}

fn search_html(ids: &[&str], total: u64) -> (u16, String) {
    let links = ids
        .iter()
        .map(|id| {
            format!(
                r#"<a class="search-list__item_link max_height_unset" href="/catalog/{id}/">Mock {id}</a>
                   <a class="search-result__content-main-read-button" href="/catalog/{id}/">Подробнее</a>"#
            )
        })
        .collect::<Vec<_>>()
        .join("\n");
    (200, format!("<html><body>Найдено {total} результатов {links}</body></html>"))
}

fn advanced_filter_html(values: &[(&str, &str)]) -> (u16, String) {
    let values = values
        .iter()
        .map(|(field, value)| format!(r#"<div data-id="{field}" data-value="{value}"></div>"#))
        .collect::<Vec<_>>()
        .join("\n");
    (200, format!("<html><body>{values}</body></html>"))
}

fn card_html() -> String {
    r#"
    <html>
      <head>
        <meta property="og:title" content="Mock Book &amp; Test">
        <meta name="description" content="Mock description">
        <meta property="book:release_date" content="1911">
      </head>
      <body>
        <h1>Mock Book fallback</h1>
        <span itemprop="author">Mock Author</span>
        <div id="toClipBoard">Mock bibliographic description</div>
        <a href="/files/card.pdf">PDF</a>
        <div class="cards-section">
          <h2>Детальная информация</h2>
          <div class="cards-table">
            <div class="cards-table__row">
              <div class="cards-table__left">Каталог</div>
              <div class="cards-table__right"><a href="/search/?c[]=25">Книги</a></div>
            </div>
            <div class="cards-table__row">
              <div class="cards-table__left">Место издания</div>
              <div class="cards-table__right">Тестоград</div>
            </div>
            <div class="cards-table__row">
              <div class="cards-table__left">Издательство</div>
              <div class="cards-table__right">Mock Publisher</div>
            </div>
            <div class="cards-table__row">
              <div class="cards-table__left">Тематика</div>
              <div class="cards-table__right">Тестовая тематика</div>
            </div>
          </div>
        </div>
      </body>
    </html>
    "#
    .to_string()
}

fn marc_xml() -> String {
    r#"<?xml version="1.0" encoding="UTF-8"?>
    <marc:collection xmlns:marc="http://www.loc.gov/MARC21/slim">
      <marc:record>
        <marc:leader>01234nam a2200000 i 4500</marc:leader>
        <marc:controlfield tag="001">mock-control</marc:controlfield>
        <marc:datafield tag="650" ind1=" " ind2="0">
          <marc:subfield code="a">Mock subject</marc:subfield>
        </marc:datafield>
        <marc:datafield tag="856" ind1="4" ind2="0">
          <marc:subfield code="u">http://example.test/marc.pdf</marc:subfield>
        </marc:datafield>
      </marc:record>
    </marc:collection>
    "#
    .to_string()
}

fn complete_record(target: &str, _number: usize) -> (u16, String) {
    if target.starts_with("/search/") {
        return search_html(&[MOCK_ID], 1);
    }
    if target == format!("/catalog/{MOCK_ID}/") {
        return (200, card_html());
    }
    if target.starts_with("/local/components/exalead/search.page.detail/ajax/marcExport.php") {
        return (200, marc_xml());
    }
    if target.starts_with("/rest_api/viewer/access/") {
        let body = r#"{"access":true,"token":"secret","viewer":{"token":"secret"}}"#;
        return (200, body.to_string());
    }
    not_found()
}

fn missing_record(target: &str, _number: usize) -> (u16, String) {
    if target.starts_with("/search/") {
        return search_html(&[MISSING_ID], 1);
    }
    (404, "missing".to_string())
}

fn transient_card_500(target: &str, _number: usize) -> (u16, String) {
    if target.starts_with("/search/") {
        return search_html(&[TRANSIENT_ID], 1);
    }
    if target == format!("/catalog/{TRANSIENT_ID}/") {
        return (500, "server error".to_string());
    }
    not_found()
}

fn forbidden_card_403(target: &str, _number: usize) -> (u16, String) {
    if target.starts_with("/search/") {
        return search_html(&[FORBIDDEN_ID], 1);
    }
    if target == format!("/catalog/{FORBIDDEN_ID}/") {
        return (403, "forbidden".to_string());
    }
    not_found()
}

fn search_403_then_ok(target: &str, number: usize) -> (u16, String) {
    if target.starts_with("/search/") && number == 1 {
        return (403, "forbidden".to_string());
    }
    if target.starts_with("/search/") {
        return search_html(&[MOCK_ID], 1);
    }
    not_found()
}

fn sorted_id(target: &str) -> &'static str {
    if target.contains("by=document_titlesort") && target.contains("order=desc") {
        OVERFLOW_SORTED_ID
    } else {
        OVERFLOW_NORMAL_ID
    }
}

fn overflow_search(target: &str, _number: usize) -> (u16, String) {
    if !target.starts_with("/search/") {
        return not_found();
    }
    if target.contains("PAGEN_1=2") {
        return search_html(&[], 12_853);
    }
    search_html(&[sorted_id(target)], 12_853)
}

fn overflow_complete_union_search(target: &str, _number: usize) -> (u16, String) {
    if !target.starts_with("/search/") {
        return not_found();
    }
    if target.contains("PAGEN_1=2") {
        return search_html(&[], 2);
    }
    search_html(&[sorted_id(target)], 2)
}

fn overflow_facet_search(target: &str, _number: usize) -> (u16, String) {
    if target.starts_with("/search/extended/") {
        return advanced_filter_html(&[
            ("lang", "facet-a"),
            ("lang", "facet-b"),
            ("lang", "facet-c"),
        ]);
    }
    if !target.starts_with("/search/") {
        return not_found();
    }
    let second = target.contains("PAGEN_1=2");
    for (value, id) in [
        ("lang=facet-a", OVERFLOW_LANG_A_ID),
        ("lang=facet-b", OVERFLOW_LANG_B_ID),
        ("lang=facet-c", OVERFLOW_LANG_C_ID),
    ] {
        if target.contains(value) {
            return if second { search_html(&[], 1) } else { search_html(&[id], 1) };
        }
    }
    if second {
        return search_html(&[], 4);
    }
    search_html(&[OVERFLOW_NORMAL_ID], 4)
}

fn is_no_year_search(target: &str) -> bool {
    target.contains("by=document_publishyearsort")
        && target.contains("order=asc")
        && !target.contains("publishyear_prev")
        && !target.contains("publishyear_next")
}

fn no_year_search(target: &str, _number: usize) -> (u16, String) {
    if !target.starts_with("/search/") {
        return not_found();
    }
    if is_no_year_search(target) {
        return search_html(&[NO_YEAR_ID], 42);
    }
    search_html(&[], 1)
}

fn no_year_known_stop_search(target: &str, _number: usize) -> (u16, String) {
    if !target.starts_with("/search/") {
        return not_found();
    }
    if is_no_year_search(target) {
        if target.contains("PAGEN_1=2") {
            return search_html(&[NO_YEAR_ID], 42);
        }
        return search_html(&[MOCK_ID], 42);
    }
    if target.contains("publishyear_prev=1911") && target.contains("publishyear_next=1911") {
        if target.contains("PAGEN_1=2") {
            return search_html(&[], 1);
        }
        return search_html(&[MOCK_ID], 1);
    }
    search_html(&[], 1)
}

fn resume_power_loss(target: &str, _number: usize) -> (u16, String) {
    if target.starts_with("/search/") {
        if target.contains("PAGEN_1=2") {
            return search_html(&[RESUME_ID_B, RESUME_ID_C], 3);
        }
        if target.contains("PAGEN_1=3") {
            return search_html(&[], 3);
        }
        return search_html(&[RESUME_ID_A, RESUME_ID_B], 3);
    }
    if [RESUME_ID_A, RESUME_ID_B, RESUME_ID_C]
        .iter()
        .any(|id| target == format!("/catalog/{id}/"))
    {
        return (200, card_html());
    }
    if target.starts_with("/local/components/exalead/search.page.detail/ajax/marcExport.php") {
        return (200, marc_xml());
    }
    if target.starts_with("/rest_api/viewer/access/") {
        return (200, r#"{"access":true}"#.to_string());
    }
    not_found()
}

fn search_total_drift(target: &str, _number: usize) -> (u16, String) {
    if target.starts_with("/search/") {
        if target.contains("PAGEN_1=2") {
            return search_html(&[TOTAL_DRIFT_ID_B], 2);
        }
        if target.contains("PAGEN_1=3") {
            return search_html(&[], 2);
        }
        return search_html(&[TOTAL_DRIFT_ID_A], 3);
    }
    not_found()
}

fn final_scan_overflow(target: &str, _number: usize) -> (u16, String) {
    if target.starts_with("/search/extended/") {
        return advanced_filter_html(&[("lang", "facet-final")]);
    }
    if !target.starts_with("/search/") {
        return not_found();
    }
    if target.contains("PAGEN_1=2") {
        return search_html(&[], 4);
    }
    if target.contains("lang=facet-final") {
        return search_html(&[FINAL_SCAN_ID_D], 1);
    }
    if target.contains("by=document_titlesort") && target.contains("order=desc") {
        return search_html(&[FINAL_SCAN_ID_B, FINAL_SCAN_ID_C], 2);
    }
    search_html(&[FINAL_SCAN_ID_A], 4)
}

fn holds(value: &Value, expected: &str) -> bool {
    value
        .as_array()
        .expect("a JSON array")
        .iter()
        .any(|value| value.as_str() == Some(expected))
}

#[test]
fn crawl_persists_record_resumes_and_exports_jsonl() {
    let mut world = World::new(complete_record);
    let mut args = crawl_args();
    args.max_pages = Some(1);
    assert_eq!(world.crawl(&args), None);
    assert_eq!(world.requests.len(), 4);
    assert_eq!(world.crawl(&args), None);
    assert_eq!(world.requests.len(), 4);

    let (lines, verdict) = world.validate(&coverage_args());
    assert!(has(&lines, "gap_groups: 0"));
    assert!(verdict.unwrap().contains("coverage ok"));
    assert_eq!(world.state.members.len(), 1);

    let (lines, complete) = world.report(&coverage_args(), 5);
    assert!(complete);
    assert!(has(&lines, "completion ok"));
    assert!(has(&lines, "records: 1"));

    let records = world.state.records_in_order();
    assert_eq!(records.len(), 1);
    let jsonl = jsonl_line(&records[0].1);
    assert!(jsonl.ends_with("}\n"));
    let record: Value = serde_json::from_str(jsonl.trim_end()).expect("a JSON record");
    assert_eq!(record["id"], MOCK_ID);
    assert_eq!(record["metadata"]["title"], "Mock Book & Test");
    assert_eq!(record["metadata"]["authors"][0], "Mock Author");
    assert_eq!(record["metadata"]["year"], "1911");
    assert_eq!(record["metadata"]["detail_map"]["Каталог"][0], "Книги");
    assert_eq!(record["metadata"]["detail_map"]["Место издания"][0], "Тестоград");
    assert!(holds(&record["metadata"]["topics"], "Тестовая тематика"));
    assert!(holds(&record["metadata"]["topics"], "Mock subject"));
    assert!(holds(&record["metadata"]["pdf_links"], &format!("{BASE}/files/card.pdf")));
    assert!(holds(&record["metadata"]["pdf_links"], "http://example.test/marc.pdf"));
    assert_eq!(record["marc21"]["leader"], "01234nam a2200000 i 4500");
    assert_eq!(record["viewer_access"]["access"], true);
    assert!(record["viewer_access"].get("token").is_none());
    assert!(record["viewer_access"].get("viewer").is_none());

    let output = output_file_manifest("out.jsonl", true, jsonl.len() as u64, jsonl.as_bytes())
        .expect("a file");
    let manifest = dataset_manifest(
        ManifestHead {
            dataset_name: "rusneb metadata".to_string(),
            started_at: String::new(),
            finished_at: String::new(),
        },
        tool_manifest(None, None, None),
        CommandsManifest {
            export_manifest: Vec::new(),
            crawl: Some("rusneb-parser crawl --catalog 25 --access open".to_string()),
        },
        sqlite_manifest(&world.state, "state.sqlite", 5),
        failed_items_manifest(&world.state, 5, 50),
        vec![output],
    );
    assert_eq!(manifest.schema_version, 1);
    assert_eq!(manifest.tool.version, "0.4.0");
    assert_eq!(
        manifest.commands.crawl.as_deref(),
        Some("rusneb-parser crawl --catalog 25 --access open")
    );
    assert_eq!(manifest.sqlite.records, 1);
    assert_eq!(manifest.sqlite.items.done, 1);
    assert_eq!(manifest.failed_items.total, 0);
    assert_eq!(manifest.outputs[0].bytes, jsonl.len() as u64);
    assert_eq!(manifest.outputs[0].sha256.len(), 64);
    assert!(manifest.outputs[0]
        .sha256
        .bytes()
        .all(|byte| byte.is_ascii_digit() || (b'a'..=b'f').contains(&byte)));
}

#[test]
fn crawl_marks_card_404_as_terminal_missing() {
    let mut world = World::new(missing_record);
    let mut args = crawl_args();
    args.max_pages = Some(1);
    assert_eq!(world.crawl(&args), None);
    assert_eq!(world.requests.len(), 2);
    assert_eq!(world.state.count_records(), 0);
    assert_eq!(world.count("items", "missing"), 1);
    assert_eq!(world.count("items", "failed"), 0);
    assert_eq!(world.crawl(&args), None);
    assert_eq!(world.requests.len(), 2);
}

#[test]
fn crawl_defers_repeated_card_500_without_spending_attempts() {
    let mut world = World::new(transient_card_500);
    let mut args = crawl_args();
    args.max_pages = Some(1);
    args.max_items = Some(2);
    args.max_attempts = 1;
    assert_eq!(world.crawl(&args), None);
    assert_eq!(world.card_requests(TRANSIENT_ID), 2);
    let item = world.item(TRANSIENT_ID);
    assert_eq!(item.status, "pending");
    assert_eq!(item.attempts, 0);
    assert_eq!(item.last_http_status, Some(500));
    assert_eq!(world.state.count_records(), 0);
    assert_eq!(world.count("items", "pending"), 1);
    assert_eq!(world.count("items", "failed"), 0);
}

#[test]
fn crawl_exhausts_card_403_and_retry_failed_resets_it() {
    let mut world = World::new(forbidden_card_403);
    let mut args = crawl_args();
    args.max_pages = Some(1);
    args.max_attempts = 2;
    args.max_consecutive_403_errors = Some(0);
    let error = world.crawl(&args).expect("an incomplete crawl");
    assert!(error.contains("crawl incomplete: 1 failed item(s)"));
    assert!(world.says("failed HTTP 403 rows: items=1"));
    assert_eq!(world.card_requests(FORBIDDEN_ID), 2);
    let item = world.item(FORBIDDEN_ID);
    assert_eq!(item.status, "failed");
    assert_eq!(item.attempts, 2);
    assert_eq!(item.last_http_status, Some(403));

    let (lines, complete) = world.report(&coverage_args(), 2);
    assert!(!complete);
    assert!(has(&lines, "failed item HTTP statuses"));
    assert!(has(&lines, "HTTP 403: 1"));
    assert!(has(&lines, FORBIDDEN_ID));
    assert!(has(&lines, "retry-failed"));

    let counts = world.state.retry_failed(Some(403), 1_800_000_000);
    assert_eq!(counts.items, 1);
    assert_eq!(counts.search_pages, 0);
    let item = world.item(FORBIDDEN_ID);
    assert_eq!(item.status, "pending");
    assert_eq!(item.attempts, 0);
    assert_eq!(item.last_http_status, None);
}

#[test]
fn crawl_defers_card_403_after_global_block_threshold() {
    let mut world = World::new(forbidden_card_403);
    let mut args = crawl_args();
    args.max_pages = Some(1);
    args.max_items = Some(2);
    args.max_attempts = 5;
    args.max_consecutive_403_errors = Some(2);
    args.http_403_pause_secs = 0;
    assert_eq!(world.crawl(&args), None);
    assert!(world.says("HTTP 403 block threshold reached"));
    assert_eq!(world.card_requests(FORBIDDEN_ID), 2);
    let item = world.item(FORBIDDEN_ID);
    assert_eq!(item.status, "pending");
    assert_eq!(item.attempts, 1);
    assert_eq!(item.last_http_status, Some(403));
}

#[test]
fn crawl_defers_search_403_after_global_block_threshold() {
    let mut world = World::new(search_403_then_ok);
    let mut args = crawl_args();
    args.max_pages = Some(1);
    args.max_items = Some(0);
    args.max_attempts = 5;
    args.max_consecutive_403_errors = Some(1);
    args.http_403_pause_secs = 0;
    assert_eq!(world.crawl(&args), None);
    assert!(world.says("HTTP 403 block threshold reached"));
    assert_eq!(world.page(1).status, "done");
    assert_eq!(world.count("search_pages", "failed"), 0);
    assert_eq!(world.searches().len(), 2);
}

#[test]
fn crawl_resumes_interrupted_search_page() {
    let mut world = World::new(complete_record);
    let mut args = crawl_args();
    args.max_pages = Some(1);
    args.max_items = Some(0);
    assert_eq!(world.crawl(&args), None);
    assert_eq!(world.page(1).status, "done");
    world.interrupt_page(1, 2);
    assert_eq!(world.page(2).status, "in_progress");
    args.max_pages = Some(2);
    assert_eq!(world.crawl(&args), None);
    assert_eq!(world.page(2).status, "done");
    assert_eq!(world.count("search_pages", "in_progress"), 0);
    assert_eq!(world.searches().len(), 2);
}

#[test]
fn crawl_resumes_power_loss_mid_discovery_and_item_fetch() {
    let mut world = World::new(resume_power_loss);
    let mut args = crawl_args();
    args.max_pages = Some(1);
    args.max_items = Some(0);
    assert_eq!(world.crawl(&args), None);
    assert_eq!(world.page(1).status, "done");
    assert_eq!(world.item_ids(), vec![RESUME_ID_A.to_string(), RESUME_ID_B.to_string()]);
    assert_eq!(world.state.members.len(), 2);

    world.interrupt_page(1, 2);
    let now = world.now;
    world.state.mark_item_started(RESUME_ID_A, now);
    assert_eq!(world.page(2).status, "in_progress");
    assert_eq!(world.item(RESUME_ID_A).status, "in_progress");

    args.max_pages = Some(3);
    args.max_items = None;
    assert_eq!(world.crawl(&args), None);
    let all =
        vec![RESUME_ID_A.to_string(), RESUME_ID_B.to_string(), RESUME_ID_C.to_string()];
    assert_eq!(world.item_ids(), all);
    let records: Vec<String> =
        world.state.records_in_order().into_iter().map(|record| record.0).collect();
    assert_eq!(records, all);
    assert_eq!(world.count("items", "done"), 3);
    assert_eq!(world.count("items", "pending"), 0);
    assert_eq!(world.count("items", "in_progress"), 0);
    assert_eq!(world.count("search_pages", "done"), 3);
    assert_eq!(world.count("search_pages", "in_progress"), 0);
    assert_eq!(world.state.members.len(), 4);
    assert_eq!(world.item(RESUME_ID_A).attempts, 2);
    assert_eq!(world.item(RESUME_ID_B).attempts, 1);
    assert_eq!(world.item(RESUME_ID_C).attempts, 1);
    assert_eq!(world.card_requests(RESUME_ID_A), 1);
    assert_eq!(world.card_requests(RESUME_ID_B), 1);
    assert_eq!(world.card_requests(RESUME_ID_C), 1);
    assert_eq!(world.searches().len(), 3);

    let (lines, complete) = world.report(&coverage_args(), 5);
    assert!(complete);
    assert!(has(&lines, "completion ok"));
    assert!(has(&lines, "records: 3"));
}

#[test]
fn crawl_discovers_sorted_overflow_search_shards() {
    let mut world = World::new(overflow_search);
    let mut args = year_args("1911");
    args.overflow_years = vec![1911];
    args.overflow_sorts = vec!["document_titlesort:desc".to_string()];
    args.max_pages = Some(1);
    assert_eq!(world.crawl(&args), None);
    assert_eq!(world.searches().len(), 2);
    assert!(world
        .searches()
        .iter()
        .any(|request| request.contains("by=document_titlesort") && request.contains("order=desc")));
    assert_eq!(world.state.count_records(), 0);
    assert_eq!(world.count("items", "pending"), 2);

    let (lines, verdict) = world.validate(&year_coverage_args());
    assert!(verdict.is_err());
    assert!(has(&lines, "gap_shards: 2"));
    assert!(has(&lines, "document_titlesort:desc"));
}

#[test]
fn crawl_auto_detects_sorted_overflow_search_shards() {
    let mut world = World::new(overflow_search);
    let mut args = year_args("1911");
    args.search_window_limit_results = 1;
    args.auto_overflow_facets = false;
    assert_eq!(world.crawl(&args), None);
    assert_eq!(world.searches().len(), 14);
    for sort in [
        ("by=document_titlesort", "order=desc"),
        ("by=document_authorsort", "order=asc"),
        ("by=document_authorsort", "order=desc"),
    ] {
        assert!(world
            .searches()
            .iter()
            .any(|request| request.contains(sort.0) && request.contains(sort.1)));
    }
    assert_eq!(world.state.count_records(), 0);
    assert_eq!(world.count("items", "pending"), 2);

    let mut coverage = year_coverage_args();
    coverage.window_limit_results = 1;
    let (lines, verdict) = world.validate(&coverage);
    assert!(verdict.is_err());
    assert!(has(&lines, "gap_shards: 7"));
    assert!(has(&lines, "window_limited_shards: 7"));
    assert!(has(&lines, "gap_groups: 1"));
    assert!(has(&lines, "document_titlesort:desc"));
}

#[test]
fn crawl_auto_detects_small_coverage_gap_overflow_search_shards() {
    let mut world = World::new(overflow_complete_union_search);
    assert_eq!(world.crawl(&year_args("1911")), None);
    assert_eq!(world.searches().len(), 14);
    assert!(world
        .searches()
        .iter()
        .any(|request| request.contains("by=document_titlesort") && request.contains("order=desc")));
    assert!(world.requests.iter().all(|request| !request.starts_with("/search/extended/")));
    let (lines, verdict) = world.validate(&year_coverage_args());
    assert!(has(&lines, "gap_groups: 0"));
    assert!(verdict.unwrap().contains("coverage ok"));
}

#[test]
fn crawl_auto_detects_facet_overflow_after_sorted_gap() {
    let mut world = World::new(overflow_facet_search);
    let mut args = year_args("1911");
    args.overflow_facets = vec!["lang".to_string()];
    assert_eq!(world.crawl(&args), None);
    for part in ["/search/extended/", "lang=facet-a", "lang=facet-b", "lang=facet-c"] {
        assert!(world.requests.iter().any(|request| request.contains(part)), "{part}");
    }
    assert!(world.says("loaded 3 advanced-search overflow facet value(s) for lang"));
    let mut coverage = year_coverage_args();
    coverage.overflow_facets = vec!["lang".to_string()];
    let (lines, verdict) = world.validate(&coverage);
    assert!(has(&lines, "gap_groups: 0"));
    assert!(verdict.unwrap().contains("coverage ok"));
    assert_eq!(world.state.members.len(), 10);
}

#[test]
fn crawl_self_heals_coverage_gap_after_known_queue_drains() {
    let mut world = World::new(final_scan_overflow);
    let mut args = year_args("1911");
    args.overflow_years = vec![1911];
    args.overflow_sorts = vec!["document_titlesort:desc".to_string()];
    assert_eq!(world.crawl(&args), None);
    assert!(world.requests.iter().any(|request| request.starts_with("/search/extended/")));
    assert!(world.requests.iter().any(|request| request.contains("lang=facet-final")));
    assert_eq!(world.state.members.len(), 4);
    let (lines, verdict) = world.validate(&year_coverage_args());
    assert!(has(&lines, "gap_groups: 0"));
    assert!(verdict.unwrap().contains("coverage ok"));
}

#[test]
fn validate_coverage_accepts_latest_non_empty_total_after_search_total_drift() {
    let mut world = World::new(search_total_drift);
    assert_eq!(world.crawl(&year_args("1907")), None);
    assert_eq!(world.state.members.len(), 2);
    let (lines, verdict) = world.validate(&year_coverage_args());
    assert!(has(&lines, "gap_groups: 0"));
    assert!(verdict.unwrap().contains("coverage ok"));
}

#[test]
fn validate_coverage_accepts_complete_overflow_group_union() {
    let mut world = World::new(overflow_complete_union_search);
    let mut args = year_args("1911");
    args.overflow_years = vec![1911];
    args.overflow_sorts = vec!["document_titlesort:desc".to_string()];
    args.max_pages = Some(1);
    assert_eq!(world.crawl(&args), None);
    let (lines, verdict) = world.validate(&year_coverage_args());
    assert!(has(&lines, "gap_shards: 2"));
    assert!(has(&lines, "gap_groups: 0"));
    assert!(verdict.unwrap().contains("coverage ok"));
    assert_eq!(world.state.members.len(), 2);
}

#[test]
fn validate_coverage_falls_back_to_page_counts_without_memberships() {
    let mut world = World::new(complete_record);
    let mut args = crawl_args();
    args.max_pages = Some(1);
    args.max_items = Some(0);
    assert_eq!(world.crawl(&args), None);
    world.state.members.clear();
    let (lines, verdict) = world.validate(&coverage_args());
    assert!(has(&lines, "gap_groups: 0"));
    assert!(verdict.unwrap().contains("coverage ok"));
}

#[test]
fn crawl_discovers_no_year_prefix_shard() {
    let mut world = World::new(no_year_search);
    let mut args = year_args("1911");
    args.no_year_shard = true;
    args.no_year_max_pages = 1;
    args.auto_overflow_facets = false;
    assert_eq!(world.crawl(&args), None);
    assert_eq!(world.searches().len(), 8);
    assert!(world.searches().iter().any(|request| is_no_year_search(request)));
    assert!(world.searches().iter().all(|request| {
        !(request.contains("by=document_publishyearsort")
            && request.contains("order=asc")
            && request.contains("PAGEN_1=2"))
    }));
    assert_eq!(world.state.count_records(), 0);
    assert_eq!(world.count("items", "pending"), 1);
}

#[test]
fn crawl_stops_no_year_prefix_after_known_pages() {
    let mut world = World::new(no_year_known_stop_search);
    let mut args = year_args("1911");
    args.no_year_shard = true;
    args.no_year_max_pages = 5;
    args.no_year_stop_after_known_pages = 1;
    args.auto_overflow_facets = false;
    assert_eq!(world.crawl(&args), None);
    assert_eq!(world.searches().len(), 3);
    assert!(world.searches().iter().any(|request| is_no_year_search(request)));
    assert!(world.searches().iter().all(|request| {
        !(request.contains("by=document_publishyearsort")
            && request.contains("order=asc")
            && request.contains("PAGEN_1=2"))
    }));
    assert_eq!(world.state.members.len(), 2);
}

#[test]
fn covered_crawl_is_not_repeated() {
    let mut world = World::new(overflow_complete_union_search);
    let mut args = year_args("1911");
    args.auto_overflow = true;
    world.crawl(&args);
    assert_eq!(world.count("search_pages", "pending"), 0);
    let requests = world.requests.len();
    let pages = world.count("search_pages", "done");
    let error = world.crawl(&args);
    assert_eq!(error, None);
    assert_eq!(world.requests.len(), requests);
    assert_eq!(world.count("search_pages", "done"), pages);
}
