use clap::{Arg, ArgAction, ArgMatches, Command};
use rusneb_parser::jobs::{build_search_jobs, parse_overflow_sorts, CrawlArgs, SearchSort};

fn option(name: &'static str) -> Arg {
    Arg::new(name).long(name)
}

fn flag(name: &'static str) -> Arg {
    Arg::new(name).long(name).action(ArgAction::SetTrue)
}

fn texts(matches: &ArgMatches, name: &str) -> Vec<String> {
    matches
        .get_many::<String>(name)
        .map(|values| values.cloned().collect())
        .unwrap_or_default()
}

fn crawl_args(line: &[&str]) -> CrawlArgs {
    let crawl = Command::new("crawl")
        .arg(option("publishyear-prev"))
        .arg(option("publishyear-next"))
        .arg(flag("shard-years"))
        .arg(flag("skip-no-year-shard"))
        .arg(option("no-year-max-pages"))
        .arg(option("overflow-year").action(ArgAction::Append))
        .arg(option("overflow-sort").action(ArgAction::Append));
    let matches = Command::new("rusneb-parser")
        .subcommand(crawl)
        .get_matches_from(line);
    let (name, crawl) = matches.subcommand().expect("a command");
    if name != "crawl" {
        panic!("expected crawl command");
    }
    let mut args = CrawlArgs::default();
    args.publishyear_prev = crawl.get_one::<String>("publishyear-prev").cloned();
    args.publishyear_next = crawl.get_one::<String>("publishyear-next").cloned();
    args.shard_years = crawl.get_flag("shard-years");
    args.no_year_shard = !crawl.get_flag("skip-no-year-shard");
    if let Some(pages) = crawl.get_one::<String>("no-year-max-pages") {
        args.no_year_max_pages = pages.parse().expect("a number of pages");
    }
    args.overflow_years = texts(crawl, "overflow-year")
        .iter()
        .map(|year| year.parse().expect("a year"))
        .collect();
    args.overflow_sorts = texts(crawl, "overflow-sort");
    args
}

#[test]
fn builds_overflow_sort_jobs_only_for_selected_years() {
    let args = crawl_args(&[
        "rusneb-parser",
        "crawl",
        "--publishyear-prev",
        "1911",
        "--publishyear-next",
        "1912",
        "--shard-years",
        "--skip-no-year-shard",
        "--overflow-year",
        "1911",
        "--overflow-sort",
        "document_titlesort:desc",
    ]);

    let jobs = build_search_jobs(&args).unwrap();

    assert_eq!(
        jobs.iter()
            .map(|job| job.label.as_str())
            .collect::<Vec<_>>(),
        vec![
            "year 1911",
            "year 1911 sort document_titlesort:desc",
            "year 1912"
        ]
    );
    assert_eq!(jobs[0].params.sort_by, None);
    assert_eq!(
        jobs[1].params.sort_by.as_deref(),
        Some("document_titlesort")
    );
    assert_eq!(jobs[1].params.order.as_deref(), Some("desc"));
    assert_eq!(jobs[2].params.sort_by, None);
}

#[test]
fn builds_limited_no_year_prefix_job_after_year_jobs() {
    let args = crawl_args(&[
        "rusneb-parser",
        "crawl",
        "--publishyear-prev",
        "1911",
        "--publishyear-next",
        "1911",
        "--shard-years",
        "--no-year-max-pages",
        "12",
    ]);

    let jobs = build_search_jobs(&args).unwrap();

    assert_eq!(jobs.len(), 2);
    assert_eq!(jobs[0].label, "year 1911");
    assert_eq!(
        jobs[1].label,
        "no-year prefix sort document_publishyearsort:asc"
    );
    assert_eq!(jobs[1].params.publishyear_prev, None);
    assert_eq!(jobs[1].params.publishyear_next, None);
    assert_eq!(
        jobs[1].params.sort_by.as_deref(),
        Some("document_publishyearsort")
    );
    assert_eq!(jobs[1].params.order.as_deref(), Some("asc"));
    assert_eq!(jobs[1].max_pages, Some(12));
    assert_eq!(jobs[1].stop_after_known_pages, Some(5));
}

#[test]
fn parses_and_deduplicates_overflow_sorts() {
    let sorts = parse_overflow_sorts(&vec![
        "document_titlesort:DESC".to_string(),
        "document_titlesort:desc".to_string(),
        "document_authorsort:asc".to_string(),
    ])
    .unwrap();

    assert_eq!(
        sorts,
        vec![
            SearchSort {
                field: "document_titlesort".to_string(),
                order: "desc".to_string()
            },
            SearchSort {
                field: "document_authorsort".to_string(),
                order: "asc".to_string()
            }
        ]
    );
}
