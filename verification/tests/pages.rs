use rusneb_parser::card::{
    detail_map, detail_topics, extract_pdf_links, first_detail_value, is_pdf_link, meta_content,
    parse_card_metadata, raw_detail_value, select_texts,
};
use rusneb_parser::html::{can_read_page, normalize_ws, MAX_PAGE_BYTES};
use rusneb_parser::links::{
    absolutize, advanced_search_url, can_append_query, fitting_search_url, search_query, search_url,
};
use rusneb_parser::marc::{marc_topics, parse_marc_xml};
use rusneb_parser::model::DetailField;
use rusneb_parser::params::SearchParams;
use rusneb_parser::search_page::{
    advanced_filter_result, can_use_page, catalog_id_from_href, extract_advanced_filter_values,
    extract_catalog_ids, extract_total_results, search_page_result, to_fetch_failure,
    total_from_group,
};

#[test]
fn extracts_catalog_ids_once() {
    let html = r#"
          <a class="search-list__item_link" href="/catalog/000199_000009_015267348/">x</a>
          <a class="search-result__content-main-read-button" href="/catalog/000199_000009_015267348/">dup</a>
          <a class="search-list__item_link" href="/catalog/000200_000018_v19_rc_1637278">y</a>
          <a href="/catalog/000199_000009_parent">parent relation</a>
        "#;
    assert_eq!(
        extract_catalog_ids(html),
        vec![
            "000199_000009_015267348".to_string(),
            "000200_000018_v19_rc_1637278".to_string()
        ]
    );
}

#[test]
fn extracts_total_results() {
    let html = "Найдено 22 514 496   результатов";
    assert_eq!(extract_total_results(html), Some(22_514_496));
}

#[test]
fn extracts_advanced_filter_values_for_requested_fields() {
    let html = r#"
          <div data-id="lang" data-value="Русский"></div>
          <div data-id="lang" data-value="Русский"></div>
          <div data-id="lang" data-value="Английский"></div>
          <div data-id="idlibrary" data-value="Российская государственная библиотека (РГБ)"></div>
          <div data-id="publisher" data-value="Ignored"></div>
          <div data-id="lang" data-value=""></div>
        "#;
    let fields = vec!["lang".to_string(), "idlibrary".to_string()];

    let values = extract_advanced_filter_values(html, &fields);

    assert_eq!(
        values.get("lang"),
        Some(&vec!["Русский".to_string(), "Английский".to_string()])
    );
    assert_eq!(
        values.get("idlibrary"),
        Some(&vec![
            "Российская государственная библиотека (РГБ)".to_string()
        ])
    );
    assert!(!values.contains_key("publisher"));
}

#[test]
fn parses_detail_fields() {
    let html = r#"
        <div class="cards-section">
          <h2> Детальная информация </h2>
          <div class="cards-table">
            <div class="cards-table__row">
              <div class="cards-table__left">Год издания</div>
              <div class="cards-table__right">2005</div>
            </div>
            <div class="cards-table__row">
              <div class="cards-table__left">Каталог</div>
              <div class="cards-table__right"><a href="/search/?c[]=25">Книги</a></div>
            </div>
          </div>
        </div>
        "#;
    let metadata = parse_card_metadata(html, "https://rusneb.ru/");
    assert_eq!(metadata.year.as_deref(), Some("2005"));
    assert_eq!(metadata.detail.len(), 2);
    assert_eq!(
        metadata.detail[1].links[0].href,
        "https://rusneb.ru/search/?c[]=25"
    );
}

#[test]
fn parses_marc_xml() {
    let xml = r#"<?xml version="1.0" encoding="UTF-8"?>
        <marc:collection xmlns:marc="http://www.loc.gov/MARC21/slim">
          <marc:record>
            <marc:leader>01234nam a2200000 i 4500</marc:leader>
            <marc:controlfield tag="001">015267348</marc:controlfield>
            <marc:datafield tag="856" ind1="1" ind2="1">
              <subfield code="q">application/pdf</subfield>
              <subfield code="u">http://example.test/file.pdf</subfield>
            </marc:datafield>
          </marc:record>
        </marc:collection>"#;
    let marc = parse_marc_xml(xml).unwrap();
    assert_eq!(marc.leader.as_deref(), Some("01234nam a2200000 i 4500"));
    assert_eq!(marc.control_fields[0].tag, "001");
    assert_eq!(marc.pdf_links, vec!["http://example.test/file.pdf"]);
}

#[test]
fn falls_back_to_any_catalog_link() {
    let html = r#"<a href="/catalog/a&amp;b/">x</a> "/catalog/undefined/" /catalog/c?y /catalog/c"#;
    assert_eq!(extract_catalog_ids(html), vec!["a&b".to_string(), "c".to_string()]);
    assert!(extract_catalog_ids("nothing here").is_empty());
}

#[test]
fn catalog_id_is_taken_from_the_start_of_a_link() {
    assert_eq!(catalog_id_from_href("/catalog/x_1/?y").as_deref(), Some("x_1"));
    assert_eq!(catalog_id_from_href("/catalog/a&amp;b").as_deref(), Some("a&b"));
    assert_eq!(catalog_id_from_href("https://rusneb.ru/catalog/x_1/"), None);
    assert_eq!(catalog_id_from_href("/catalog/undefined/"), None);
}

#[test]
fn totals_need_digits_that_fit() {
    assert_eq!(total_from_group(" 1 2\u{a0}3 "), Some(123));
    assert_eq!(total_from_group(" "), None);
    assert_eq!(total_from_group("18446744073709551615"), Some(u64::MAX));
    assert_eq!(total_from_group("18446744073709551616"), None);
    assert_eq!(extract_total_results("Найдено много результатов"), None);
}

#[test]
fn search_page_needs_a_status_of_success() {
    let page = search_page_result(200, "Найдено 2 результата \"/catalog/a\" \"/catalog/b\"").unwrap();
    assert_eq!(page.ids, vec!["a".to_string(), "b".to_string()]);
    assert_eq!(page.total_results, Some(2));
    let failure = search_page_result(403, "/catalog/a").unwrap_err();
    assert_eq!(failure.status, Some(403));
    assert_eq!(failure.message, "search page HTTP 403");
}

#[test]
fn advanced_search_needs_a_status_of_success() {
    let fields = vec!["lang".to_string()];
    let page = r#"<p data-id="lang" data-value=" A &amp; B "></p>"#;
    let values = advanced_filter_result(299, page, &fields).unwrap();
    assert_eq!(values.get("lang"), Some(&vec!["A & B".to_string()]));
    let failure = advanced_filter_result(500, page, &fields).unwrap_err();
    assert_eq!(failure.status, Some(500));
    assert_eq!(failure.message, "advanced search HTTP 500");
    let failure = to_fetch_failure("connection refused");
    assert_eq!(failure.status, None);
    assert_eq!(failure.message, "connection refused");
}

#[test]
fn card_prefers_what_the_meta_elements_say() {
    let html = r##"
        <html><head>
          <title>Page</title>
          <meta property="og:title" content=" A &amp;amp;  title ">
          <meta property="book:release_date" content="1911">
          <meta name="og:description" content="other">
          <meta name="description" content="about it">
          <meta property="og:title" content="Last title">
          <meta property="og:empty">
        </head><body>
          <h1>Heading</h1>
          <span itemprop="author">Б. Второй</span>
          <span itemprop="author">А. Первый</span>
          <span itemprop="author">Б. Второй</span>
          <div id="toClipBoard">Описание   книги</div>
          <a href="/files/Book.PDF">x</a>
          <a href="/getFiles.php?id=1">Скачать PDF</a>
          <a href="/getFiles.php?id=2">Скачать</a>
          <a href="/files/Book.PDF">again</a>
          <a href="http://e.test/?DOC_TYPE=pdf">y</a>
        </body></html>"##;
    let card = parse_card_metadata(html, "https://rusneb.ru");
    assert_eq!(card.title.as_deref(), Some("Last title"));
    assert_eq!(card.year.as_deref(), Some("1911"));
    assert_eq!(card.description.as_deref(), Some("about it"));
    assert_eq!(card.authors, vec!["А. Первый".to_string(), "Б. Второй".to_string()]);
    assert_eq!(card.bibliographic_description.as_deref(), Some("Описание книги"));
    assert_eq!(
        card.pdf_links,
        vec![
            "https://rusneb.ru/files/Book.PDF".to_string(),
            "https://rusneb.ru/getFiles.php?id=1".to_string(),
            "http://e.test/?DOC_TYPE=pdf".to_string(),
        ]
    );
    assert_eq!(card.og.get("description").map(String::as_str), Some("other"));
    assert!(!card.og.contains_key("empty"));
    assert!(card.detail.is_empty());
}

#[test]
fn card_falls_back_to_headings() {
    let card = parse_card_metadata("<title>Page</title><h1> </h1>", "https://rusneb.ru");
    assert_eq!(card.title.as_deref(), Some("Page"));
    let card = parse_card_metadata("<title>Page</title><h1>Heading</h1>", "https://rusneb.ru");
    assert_eq!(card.title.as_deref(), Some("Heading"));
    assert_eq!(card.year, None);
    assert_eq!(card.description, None);
    let named = r#"<meta name="title" content="Named"><h1>Heading</h1>"#;
    let card = parse_card_metadata(named, "https://rusneb.ru");
    assert_eq!(card.title.as_deref(), Some("Named"));
    let gray = r#"<div class="cards-content"><p class="color_gray">gray</p></div>"#;
    let card = parse_card_metadata(gray, "https://rusneb.ru");
    assert_eq!(card.description.as_deref(), Some("gray"));
}

#[test]
fn details_come_from_the_section_of_that_heading() {
    let html = r##"
        <div class="cards-section"><h2>Другое</h2>
          <div class="cards-table__row">
            <div class="cards-table__left">Год издания</div>
            <div class="cards-table__right">1</div>
          </div>
        </div>
        <div class="cards-section"><h2>Детальная информация</h2>
          <div class="cards-table__row"></div>
          <div class="cards-table__row"><div class="cards-table__left">Пусто</div></div>
          <div class="cards-table__row">
            <div class="cards-table__left">Темы</div>
            <div class="cards-table__right">
              <span class="cards-table__right_box">Право</span>
              <span class="cards-table__right_box"> </span>
              <span class="cards-table__right_box">Суд</span>
              <a href="?t=1">ссылка</a>
            </div>
          </div>
          <div class="cards-table__row">
            <div class="cards-table__left">ББК</div>
            <div class="cards-table__right">67 <a class="cards-table__right_link" href="#">Все</a></div>
          </div>
        </div>"##;
    let card = parse_card_metadata(html, "https://rusneb.ru/catalog/x/");
    let rows: Vec<(&str, &str)> =
        card.detail.iter().map(|f| (f.label.as_str(), f.value.as_str())).collect();
    assert_eq!(rows, vec![("Пусто", ""), ("Темы", "Право Суд"), ("ББК", "67")]);
    assert!(card.detail[0].links.is_empty());
    assert_eq!(card.detail[1].links[0].text, "ссылка");
    assert_eq!(card.detail[1].links[0].href, "https://rusneb.ru/catalog/x/?t=1");
    assert_eq!(card.topics, vec!["Право Суд".to_string(), "67".to_string()]);
    assert_eq!(card.year, None);
    assert!(!card.detail_map.contains_key("Пусто"));
}

fn detail(label: &str, value: &str) -> DetailField {
    DetailField { label: label.to_string(), value: value.to_string(), links: Vec::new() }
}

#[test]
fn details_are_mapped_in_the_order_of_the_table() {
    let fields = vec![
        detail("Язык", "Русский"),
        detail("Автор", "А"),
        detail("Язык", ""),
        detail("", "x"),
        detail("Язык", "Французский"),
        detail("Предмет", "Право"),
        detail("Ключевые слова", "Право"),
    ];
    let map = detail_map(&fields);
    assert_eq!(
        map.get("Язык"),
        Some(&vec!["Русский".to_string(), "Французский".to_string()])
    );
    assert_eq!(map.entries.len(), 4);
    assert_eq!(map.entries[0].0, "Автор");
    assert!(!map.contains_key(""));
    let labels = vec!["Нет".to_string(), "Язык".to_string()];
    assert_eq!(first_detail_value(&map, &labels).as_deref(), Some("Русский"));
    assert_eq!(first_detail_value(&map, &vec!["Нет".to_string()]), None);
    assert_eq!(detail_topics(&fields), vec!["Право".to_string()]);
}

#[test]
fn detail_value_is_its_boxes_or_its_text_without_marked_links() {
    let none: Vec<String> = Vec::new();
    let boxes = vec!["a".to_string(), "b".to_string()];
    let marked = vec!["Все".to_string()];
    assert_eq!(raw_detail_value(&boxes, "text", &marked), "a b");
    assert_eq!(raw_detail_value(&none, "x Все y Все", &marked), "x  y ");
    assert_eq!(raw_detail_value(&none, "x", &none), "x");
}

#[test]
fn pdf_links_are_told_by_address_or_text() {
    assert!(is_pdf_link("/x?doc_type=pdf&y", ""));
    assert!(is_pdf_link("/x.pdf", ""));
    assert!(is_pdf_link("/getfiles.php", "скачать pdf"));
    assert!(!is_pdf_link("/x.pdf?y", "pdf"));
    assert!(!is_pdf_link("/getfiles.php", "скачать"));
    let html = r#"<a href="a.pdf">1</a><a href="a.pdf">2</a>"#;
    assert_eq!(extract_pdf_links(html, "not an address"), vec!["a.pdf".to_string()]);
}

#[test]
fn selections_are_sorted_and_normal() {
    let html = "<p>b</p><p> </p><p>a&amp;amp;   c</p><p>b</p>";
    assert_eq!(select_texts(html, "p"), vec!["a& c".to_string(), "b".to_string()]);
    assert!(select_texts(html, "p[").is_empty());
    assert_eq!(meta_content("<meta name=x content=' '>", "meta"), None);
    assert_eq!(meta_content("<meta name=x><meta content=y>", "meta").as_deref(), Some("y"));
    assert_eq!(normalize_ws("  a&nbsp;&lt;b&gt;\n c "), "a <b> c");
}

#[test]
fn marc_fields_need_a_tag_and_subfields_stand_directly_inside() {
    let xml = r#"<r>
        <leader/><leader>second</leader>
        <controlfield>no tag</controlfield><controlfield tag="003"/>
        <datafield ind1="1"><subfield code="a">x</subfield></datafield>
        <datafield tag="650" ind1="7">
          <subfield code="a"> Право  римское </subfield>
          <x><subfield code="a">deep</subfield></x>
          <subfield>no code</subfield>
          <subfield code="z">Рим</subfield>
        </datafield>
        <datafield tag="856"><subfield code="u">http://e.test/A.PDF</subfield></datafield>
        <datafield tag="856"><subfield code="u">http://e.test/A.PDF</subfield></datafield>
        <datafield tag="857"><subfield code="u">http://e.test/b.pdf</subfield></datafield>
        <datafield tag="651"><subfield code="a">Рим</subfield><subfield code="q">q</subfield></datafield>
      </r>"#;
    let marc = parse_marc_xml(xml).unwrap();
    assert_eq!(marc.raw_xml, xml);
    assert_eq!(marc.leader, None);
    assert_eq!(marc.control_fields.len(), 1);
    assert_eq!(marc.control_fields[0].value, "");
    assert_eq!(marc.data_fields.len(), 5);
    assert_eq!(marc.data_fields[0].ind1.as_deref(), Some("7"));
    assert_eq!(marc.data_fields[0].ind2, None);
    let subfields: Vec<(&str, &str)> = marc.data_fields[0]
        .subfields
        .iter()
        .map(|s| (s.code.as_str(), s.value.as_str()))
        .collect();
    assert_eq!(subfields, vec![("a", "Право римское"), ("", "no code"), ("z", "Рим")]);
    assert_eq!(marc.pdf_links, vec!["http://e.test/A.PDF"]);
    assert_eq!(marc_topics(&marc), vec!["Право римское".to_string(), "Рим".to_string()]);
}

#[test]
fn broken_xml_is_refused_with_a_message() {
    let message = parse_marc_xml("<a><b></a>").unwrap_err();
    assert!(message.contains("expected 'b' tag"), "{message}");
}

fn params() -> SearchParams {
    SearchParams {
        base_url: "https://rusneb.ru".to_string(),
        query: "a b".to_string(),
        catalogs: vec!["25".to_string()],
        access: vec!["open".to_string()],
        publishyear_prev: Some("1911".to_string()),
        publishyear_next: Some("1911".to_string()),
        sort_by: Some("document_titlesort".to_string()),
        order: Some("desc".to_string()),
        extra: vec![("lang".to_string(), "Русский".to_string())],
    }
}

#[test]
fn search_address_holds_all_parameters() {
    assert_eq!(
        search_url("https://rusneb.ru", &params(), 1).unwrap(),
        "https://rusneb.ru/search/?q=a+b&c%5B%5D=25&access%5B%5D=open&publishyear_prev=1911\
         &publishyear_next=1911&by=document_titlesort&order=desc\
         &lang=%D0%A0%D1%83%D1%81%D1%81%D0%BA%D0%B8%D0%B9"
    );
    let second = search_url("https://rusneb.ru/x/", &params(), 2).unwrap();
    assert!(second.ends_with("&PAGEN_1=2"));
    assert!(second.starts_with("https://rusneb.ru/search/?q=a+b&"));
    assert!(search_url("rusneb", &params(), 1).is_err());
    let pairs = search_query(&params(), 7);
    assert_eq!(pairs[0], ("q".to_string(), "a b".to_string()));
    assert_eq!(pairs[pairs.len() - 1], ("PAGEN_1".to_string(), "7".to_string()));
    assert_eq!(
        advanced_search_url("https://rusneb.ru").unwrap(),
        "https://rusneb.ru/search/extended/"
    );
}

#[test]
fn addresses_have_a_greatest_length() {
    assert_eq!(
        fitting_search_url("https://rusneb.ru", &params(), 1).unwrap(),
        search_url("https://rusneb.ru", &params(), 1)
    );
    assert!(fitting_search_url("rusneb", &params(), 1).unwrap().is_err());
    let long = format!("https://{}@rusneb.ru", "x".repeat(0x400_0000));
    assert!(fitting_search_url(&long, &params(), 1).is_none());
    assert!(can_append_query("https://rusneb.ru/", &Vec::new()));
    assert!(!can_append_query(&"x".repeat(0x400_0000), &Vec::new()));
}

#[test]
fn pages_have_a_greatest_length() {
    assert_eq!(3 * MAX_PAGE_BYTES, 0x7FFF_FFFE);
    let page = "<p>";
    assert!(can_read_page(page) && can_use_page(200, page) && can_use_page(404, page));
}

#[test]
fn references_that_lead_nowhere_stay_as_they_are() {
    assert_eq!(absolutize("https://rusneb.ru/a/b", "../c"), "https://rusneb.ru/c");
    assert_eq!(absolutize("https://rusneb.ru/", "http://"), "http://");
}
