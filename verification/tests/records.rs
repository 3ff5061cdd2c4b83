use rusneb_parser::export::{
    first_detail, json_pointer_compact, json_pointer_string, jsonl_compression, jsonl_line,
    tmp_path, FlatRows, JsonlCompression,
};
use rusneb_parser::json::JsonNode;
use rusneb_parser::manifest::{
    command_output, failed_item_manifest, git_dirty, output_file_manifest, time_range_manifest,
    work_status_manifest,
};
use rusneb_parser::maps::TextMap;
use rusneb_parser::model::{CardMetadata, DetailField, Link, MarcXmlRecord, RusnebRecord, SourceUrls};
use rusneb_parser::groups::json_compact;
use rusneb_parser::record::{
    assemble_record, card_page, keep_marc, keep_viewer_access, log_record_title, marc_page,
    record_urls, sanitize_viewer_access, viewer_page, Answer, FetchTime,
};
use rusneb_parser::record_json::record_json;
use rusneb_parser::summary::{FailedItemSample, StateTimeBounds, WorkStatusSummary};

fn answered(status: u16, body: &str) -> Answer {
    Answer::Answered { status, body: body.to_string() }
}

fn failed(message: &str) -> Answer {
    Answer::Failed { message: message.to_string() }
}

fn empty_card() -> CardMetadata {
    CardMetadata {
        title: None,
        authors: Vec::new(),
        year: None,
        bibliographic_description: None,
        description: None,
        detail: Vec::new(),
        detail_map: TextMap::new(),
        topics: Vec::new(),
        pdf_links: Vec::new(),
        og: TextMap::new(),
    }
}

fn record() -> RusnebRecord {
    let mut metadata = empty_card();
    metadata.title = Some("A \"b\"".to_string());
    metadata.authors = vec!["X".to_string()];
    metadata.detail = vec![DetailField {
        label: "Язык".to_string(),
        value: "Русский".to_string(),
        links: vec![Link { text: "t".to_string(), href: "h".to_string() }],
    }];
    metadata.detail_map.insert("Язык".to_string(), vec!["Русский".to_string()]);
    metadata.detail_map.insert("Место публикации".to_string(), vec!["Москва".to_string()]);
    metadata.og.insert("title".to_string(), "A \"b\"".to_string());
    RusnebRecord {
        id: "i".to_string(),
        url: "u".to_string(),
        fetched_at: "now".to_string(),
        fetched_at_unix: -5,
        source: SourceUrls {
            card_html: "c".to_string(),
            marc21_xml: "m".to_string(),
            viewer_access_json: "v".to_string(),
        },
        metadata,
        marc21: None,
        viewer_access: Some(r#"{"a":[1.5,null]}"#.to_string()),
        fetch_errors: vec!["e".to_string()],
    }
}

#[test]
fn record_is_written_in_the_order_of_its_fields() {
    assert_eq!(
        record_json(&record()),
        r#"{"id":"i","url":"u","fetched_at":"now","fetched_at_unix":-5,"source":{"card_html":"c","marc21_xml":"m","viewer_access_json":"v"},"metadata":{"title":"A \"b\"","authors":["X"],"year":null,"bibliographic_description":null,"description":null,"detail":[{"label":"Язык","value":"Русский","links":[{"text":"t","href":"h"}]}],"detail_map":{"Место публикации":["Москва"],"Язык":["Русский"]},"topics":[],"pdf_links":[],"og":{"title":"A \"b\""}},"marc21":null,"viewer_access":{"a":[1.5,null]},"fetch_errors":["e"]}"#
    );
}

#[test]
fn addresses_of_an_item_are_resolved() {
    let urls = record_urls("https://rusneb.ru/x", "000199_1").unwrap();
    assert_eq!(urls.card_html, "https://rusneb.ru/catalog/000199_1/");
    assert_eq!(
        urls.marc21_xml,
        "https://rusneb.ru/local/components/exalead/search.page.detail/ajax/marcExport.php?book_id=000199_1"
    );
    assert_eq!(
        urls.viewer_access_json,
        "https://rusneb.ru/rest_api/viewer/access/?book_id=000199_1&viewer=Y"
    );
    let failure = record_urls("rusneb.ru", "x").unwrap_err();
    assert_eq!(failure.status, None);
    assert_eq!(failure.message, "relative URL without a base");
}

#[test]
fn card_needs_a_status_of_success() {
    assert_eq!(card_page(answered(204, "x")).unwrap(), "x");
    let failure = card_page(answered(404, "x")).unwrap_err();
    assert_eq!(failure.status, Some(404));
    assert_eq!(failure.message, "card HTTP 404");
    let failure = card_page(failed("timed out")).unwrap_err();
    assert_eq!(failure.status, None);
    assert_eq!(failure.message, "timed out");
}

#[test]
fn marc_needs_to_look_like_xml() {
    for body in ["\n <?xml ?>", "x<marc:record>", "x <record>"] {
        assert_eq!(marc_page(answered(200, body)).unwrap(), body);
    }
    assert_eq!(
        marc_page(answered(200, "<html>")).unwrap_err(),
        "MARC response was not XML, HTTP 200"
    );
    assert_eq!(marc_page(answered(500, "<record>")).unwrap_err(), "MARC HTTP 500");
    assert_eq!(marc_page(failed("reset")).unwrap_err(), "MARC request failed: reset");
}

#[test]
fn viewer_access_loses_its_tokens() {
    let mut errors: Vec<String> = Vec::new();
    let body = r#"{"viewer": {"token": 1}, "z": [1, "a"], "token": "t", "a": {"token": "kept"}}"#;
    assert_eq!(
        viewer_page(answered(200, body), &mut errors).as_deref(),
        Some(r#"{"a":{"token":"kept"},"z":[1,"a"]}"#)
    );
    assert!(errors.is_empty());
    assert_eq!(viewer_page(answered(200, "[1, 2]"), &mut errors).as_deref(), Some("[1,2]"));
    assert_eq!(viewer_page(answered(200, "{"), &mut errors), None);
    assert_eq!(viewer_page(answered(403, "{}"), &mut errors), None);
    assert_eq!(viewer_page(failed("reset"), &mut errors), None);
    assert_eq!(errors.len(), 3);
    assert!(errors[0].starts_with("viewer JSON parse failed: EOF while parsing"));
    assert_eq!(errors[1], "viewer access HTTP 403");
    assert_eq!(errors[2], "viewer access request failed: reset");
}

#[test]
fn what_was_read_is_kept() {
    let members = vec![
        ("access".to_string(), "true".to_string()),
        ("token".to_string(), "\"x\"".to_string()),
    ];
    let kept = sanitize_viewer_access(JsonNode::Object(members));
    assert_eq!(json_compact(&kept), r#"{"access":true}"#);
    let mut errors: Vec<String> = Vec::new();
    assert_eq!(
        keep_viewer_access(Ok(JsonNode::Text("token".to_string())), &mut errors).as_deref(),
        Some("\"token\"")
    );
    assert_eq!(keep_viewer_access(Err("bad".to_string()), &mut errors), None);
    let marc = keep_marc("<x".to_string(), Err("worse".to_string()), &mut errors);
    assert_eq!(marc.raw_xml, "<x");
    assert!(marc.leader.is_none() && marc.data_fields.is_empty());
    assert_eq!(errors, vec!["viewer JSON parse failed: bad", "MARC XML parse failed: worse"]);
    let read = MarcXmlRecord {
        raw_xml: "<y/>".to_string(),
        leader: Some("l".to_string()),
        control_fields: Vec::new(),
        data_fields: Vec::new(),
        pdf_links: Vec::new(),
    };
    let marc = keep_marc("<y/>".to_string(), Ok(read), &mut errors);
    assert_eq!(marc.leader.as_deref(), Some("l"));
    assert_eq!(errors.len(), 2);
}

fn assemble(card: &str, marc: Answer, viewer: Answer) -> RusnebRecord {
    let source = record_urls("https://rusneb.ru", "i").unwrap();
    let time = FetchTime { text: "now".to_string(), unix: 9 };
    assemble_record("i", "https://rusneb.ru", source, time, card, marc, viewer)
}

#[test]
fn record_merges_links_and_topics_of_card_and_marc() {
    let card = r#"<a href="/a.pdf">1</a><a href="/b.pdf">2</a>"#;
    let marc = r#"<record>
        <datafield tag="856"><subfield code="u">https://rusneb.ru/b.pdf</subfield></datafield>
        <datafield tag="856"><subfield code="u">http://e.test/c.pdf</subfield></datafield>
        <datafield tag="653"><subfield code="a">Право</subfield></datafield>
      </record>"#;
    let record = assemble(card, answered(200, marc), answered(200, "{}"));
    assert_eq!(
        record.metadata.pdf_links,
        vec![
            "https://rusneb.ru/a.pdf".to_string(),
            "https://rusneb.ru/b.pdf".to_string(),
            "http://e.test/c.pdf".to_string()
        ]
    );
    assert_eq!(record.metadata.topics, vec!["Право".to_string()]);
    assert_eq!(record.url, "https://rusneb.ru/catalog/i/");
    assert_eq!(record.fetched_at_unix, 9);
    assert_eq!(record.viewer_access.as_deref(), Some("{}"));
    assert!(record.fetch_errors.is_empty());
}

#[test]
fn record_tells_what_could_not_be_fetched() {
    let record = assemble("", answered(500, ""), failed("reset"));
    assert!(record.marc21.is_none() && record.viewer_access.is_none());
    assert_eq!(
        record.fetch_errors,
        vec!["MARC HTTP 500".to_string(), "viewer access request failed: reset".to_string()]
    );
    let record = assemble("", answered(200, "<record>"), answered(404, ""));
    assert_eq!(record.fetch_errors[0], "viewer access HTTP 404");
    assert!(record.fetch_errors[1].starts_with("MARC XML parse failed: "));
    assert_eq!(record.marc21.unwrap().raw_xml, "<record>");
}

#[test]
fn titles_are_shown_on_one_line() {
    let mut shown = record();
    shown.metadata.title = Some(" A\n b ".to_string());
    assert_eq!(log_record_title(&shown), "A b");
    shown.metadata.title = Some(" ".to_string());
    assert_eq!(log_record_title(&shown), "<no title>");
    shown.metadata.title = None;
    assert_eq!(log_record_title(&shown), "<no title>");
}

#[test]
fn files_are_named_and_compressed_by_their_names() {
    let ext = |name: &str| Some(name.to_string());
    assert_eq!(jsonl_compression(&ext("gz")), JsonlCompression::Gzip);
    assert_eq!(jsonl_compression(&ext("xz")), JsonlCompression::Xz);
    assert_eq!(jsonl_compression(&ext("jsonl")), JsonlCompression::Plain);
    assert_eq!(jsonl_compression(&None), JsonlCompression::Plain);
    assert_eq!(tmp_path(&ext("out.jsonl"), "export"), ".out.jsonl.tmp");
    assert_eq!(tmp_path(&None, "manifest"), ".manifest.tmp");
    assert_eq!(jsonl_line("{}"), "{}\n");
}

#[test]
fn pointers_lead_into_records() {
    let json = record_json(&record());
    assert_eq!(json_pointer_string(&json, "/metadata/title").as_deref(), Some("A \"b\""));
    assert_eq!(json_pointer_string(&json, "/metadata/year"), None);
    assert_eq!(json_pointer_string(&json, "/metadata/authors"), None);
    assert_eq!(json_pointer_compact(&json, "/metadata/authors").as_deref(), Some(r#"["X"]"#));
    assert_eq!(json_pointer_compact(&json, "/metadata/year").as_deref(), Some("null"));
    assert_eq!(json_pointer_compact(&json, "/none"), None);
    assert_eq!(json_pointer_compact("{", "/none"), None);
    assert_eq!(first_detail(&json, "Язык").as_deref(), Some("Русский"));
    assert_eq!(first_detail(&json, "Каталог"), None);
    assert_eq!(first_detail(r#"{"metadata":{"detail_map":{"k":[""]}}}"#, "k"), None);
    assert_eq!(first_detail(r#"{"metadata":{"detail_map":{"k":[]}}}"#, "k"), None);
    assert_eq!(first_detail(r#"{"metadata":{"detail_map":{"k":"v"}}}"#, "k"), None);
}

#[test]
fn rows_are_flattened_from_records() {
    let json = record_json(&record());
    let mut rows = FlatRows::new();
    assert!(!rows.fill_batch(0));
    rows.push("i", &json).unwrap();
    assert!(rows.push("j", "{").unwrap_err().starts_with("EOF while parsing"));
    assert_eq!(rows.len(), 1);
    assert!(rows.fill_batch(0) && rows.fill_batch(1) && !rows.fill_batch(2));
    let text = |value: &Option<String>| value.clone().unwrap_or_default();
    assert_eq!(text(&rows.id[0]), "i");
    assert_eq!(text(&rows.title[0]), "A \"b\"");
    assert_eq!(text(&rows.authors_json[0]), r#"["X"]"#);
    assert_eq!(rows.year[0], None);
    assert_eq!(rows.catalog[0], None);
    assert_eq!(text(&rows.language[0]), "Русский");
    assert_eq!(text(&rows.publication_place[0]), "Москва");
    assert_eq!(rows.publisher[0], None);
    assert_eq!(text(&rows.pdf_links_json[0]), "[]");
    assert_eq!(
        text(&rows.detail_json[0]),
        r#"{"Место публикации":["Москва"],"Язык":["Русский"]}"#
    );
    assert_eq!(rows.marc_xml[0], None);
    assert_eq!(text(&rows.record_json[0]), json);
    rows.clear();
    assert_eq!(rows.len(), 0);
}

#[test]
fn files_of_a_dataset_are_digested() {
    let file = output_file_manifest("f", true, 3, b"abc").unwrap();
    assert_eq!(file.bytes, 3);
    assert_eq!(
        file.sha256,
        "ba7816bf8f01cfea414140de5dae2223b00361a396177a9cb410ff61f20015ad"
    );
    assert_eq!(
        output_file_manifest("d", false, 0, b"").unwrap_err(),
        "manifest output file is not a regular file: d"
    );
}

#[test]
fn work_trees_are_dirty_or_not() {
    assert_eq!(git_dirty(Some(0), Some(0)), Some(false));
    assert_eq!(git_dirty(Some(1), Some(0)), Some(true));
    assert_eq!(git_dirty(Some(0), Some(1)), Some(true));
    assert_eq!(git_dirty(Some(128), Some(0)), None);
    assert_eq!(git_dirty(None, Some(0)), None);
    assert_eq!(command_output(true, " v1\n").as_deref(), Some("v1"));
    assert_eq!(command_output(true, " \n"), None);
    assert_eq!(command_output(false, "v1"), None);
}

#[test]
fn manifests_give_times_as_text() {
    let range = time_range_manifest(StateTimeBounds {
        started_at_unix: Some(0),
        finished_at_unix: Some(i64::MAX),
    });
    assert_eq!(range.started_at.as_deref(), Some("1970-01-01T00:00:00Z"));
    assert_eq!(range.finished_at_unix, Some(i64::MAX));
    assert_eq!(range.finished_at, None);
    let item = failed_item_manifest(&FailedItemSample {
        id: "i".to_string(),
        attempts: 2,
        last_http_status: Some(403),
        last_error: None,
        updated_at_unix: 1_700_000_000,
    });
    assert_eq!(item.updated_at.as_deref(), Some("2023-11-14T22:13:20Z"));
    assert_eq!(item.attempts, 2);
    let status = work_status_manifest(&WorkStatusSummary {
        pending: 1,
        in_progress: 2,
        done: 3,
        missing: 4,
        failed: 5,
        other: 6,
    });
    assert_eq!(
        (status.pending, status.in_progress, status.done, status.missing, status.failed, status.other),
        (1, 2, 3, 4, 5, 6)
    );
}
