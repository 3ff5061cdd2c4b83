use rusneb_parser::groups::{coverage_group_key, json_compact, normalize_coverage_group_params};
use rusneb_parser::json::{array, object, optional, pair_array, text_array, JsonNode};
use rusneb_parser::labels::{
    coverage_shard_label, json_array_contains_all, json_extra_params, json_string,
    json_string_array,
};
use rusneb_parser::maps::TextMap;
use rusneb_parser::numerals::{
    decimal_text, fnv1a64, hex16, hex_lower, option_decimal_text, parse_number,
    signed_decimal_text,
};
use rusneb_parser::order::{comes_before, dedup, merge_unique, push_new, sort_unique};
use rusneb_parser::overflow::{abbreviate_label_value, facet_overflow_label};
use rusneb_parser::params::{
    exact_year, extra_param_value, overflow_facet_depth, set_extra_param, stable_search_key,
    SearchParams,
};
use rusneb_parser::text::{
    ascii_lower, contains, ends_with, join, remove_part, split_once, split_words, starts_with,
    strip_prefix, trim, trim_start,
};

fn list(values: &[&str]) -> Vec<String> {
    values.iter().map(|value| value.to_string()).collect()
}

fn params() -> SearchParams {
    SearchParams {
        base_url: "https://rusneb.ru".to_string(),
        query: "a \"b\"\n".to_string(),
        catalogs: list(&["25"]),
        access: Vec::new(),
        publishyear_prev: Some("1911".to_string()),
        publishyear_next: Some("1911".to_string()),
        sort_by: None,
        order: Some("desc".to_string()),
        extra: vec![("lang".to_string(), "Русский".to_string())],
    }
}

#[test]
fn white_space_is_that_of_unicode() {
    for code in 0..=0x10FFFFu32 {
        if let Some(c) = char::from_u32(code) {
            let space = matches!(
                code,
                0x9..=0xD
                    | 0x20
                    | 0x85
                    | 0xA0
                    | 0x1680
                    | 0x2000..=0x200A
                    | 0x2028
                    | 0x2029
                    | 0x202F
                    | 0x205F
                    | 0x3000
            );
            assert_eq!(trim(&c.to_string()).is_empty(), space, "{code:x}");
        }
    }
}

#[test]
fn texts_are_trimmed_and_split_at_white_space() {
    assert_eq!(trim("\u{a0} a b\t\n"), "a b");
    assert_eq!(trim_start(" \n<?xml "), "<?xml ");
    assert_eq!(trim(" \t"), "");
    assert_eq!(split_words(" a\u{2003}b  c\n"), list(&["a", "b", "c"]));
    assert!(split_words("").is_empty());
    assert_eq!(join(&list(&["a", "", "b"]), ", "), "a, , b");
    assert_eq!(join(&Vec::new(), ", "), "");
}

#[test]
fn texts_are_searched_by_characters() {
    assert!(contains("Детальная информация", "информация"));
    assert!(!contains("информ", "информация"));
    assert!(contains("x", ""));
    assert!(starts_with("жук", "ж") && !starts_with("ж", "жук"));
    assert!(ends_with("a.pdf", ".pdf") && !ends_with("pdf", ".pdf"));
    assert_eq!(strip_prefix("og:title", "og:").as_deref(), Some("title"));
    assert_eq!(strip_prefix("title", "og:"), None);
    assert_eq!(remove_part("aXaaXa", "Xa"), "aa");
    assert_eq!(remove_part("aaaa", "aaa"), "a");
    assert_eq!(split_once("a=b=c", '='), Some(("a".to_string(), "b=c".to_string())));
    assert_eq!(split_once("abc", '='), None);
    assert_eq!(ascii_lower("DESC Ж"), "desc Ж");
}

#[test]
fn numerals_are_read_back() {
    assert_eq!(decimal_text(0), "0");
    assert_eq!(decimal_text(u64::MAX), "18446744073709551615");
    assert_eq!(signed_decimal_text(i64::MIN), "-9223372036854775808");
    assert_eq!(option_decimal_text(Some(3)), "Some(3)");
    assert_eq!(option_decimal_text(None), "None");
    assert_eq!(parse_number("0042", u64::MAX), Some(42));
    assert_eq!(parse_number("+7", u64::MAX), Some(7));
    assert_eq!(parse_number("", u64::MAX), None);
    assert_eq!(parse_number("-1", u64::MAX), None);
    assert_eq!(parse_number("4294967295", u32::MAX as u64), Some(4_294_967_295));
    assert_eq!(parse_number("4294967296", u32::MAX as u64), None);
    for n in [0u64, 9, 10, 12_853, u64::MAX] {
        assert_eq!(parse_number(&decimal_text(n), u64::MAX), Some(n));
    }
}

#[test]
fn digests_are_written_in_hexadecimal() {
    assert_eq!(hex16(0x1f), "000000000000001f");
    assert_eq!(hex_lower(&[0x00, 0x9f, 0xff]), "009fff");
    assert_eq!(fnv1a64(b""), 0xcbf2_9ce4_8422_2325);
    assert_eq!(fnv1a64(b"a"), 0xaf63_dc4c_8601_ec8c);
    assert_eq!(stable_search_key("a"), "af63dc4c8601ec8c");
}

#[test]
fn texts_are_ordered_and_kept_once() {
    assert!(comes_before("Z", "a"));
    assert!(comes_before("a", "ab"));
    assert!(!comes_before("a", "a"));
    assert!(comes_before("\u{ffff}", "\u{10000}"));
    assert_eq!(sort_unique(&list(&["b", "", "a", "b"])), list(&["", "a", "b"]));
    let once = dedup(list(&["b", "", "a", "b"]));
    assert_eq!(once, list(&["b", "a"]));
    assert_eq!(dedup(once.clone()), once);
    let mut target = list(&["x"]);
    merge_unique(&mut target, list(&["y", "x", "", "y"]));
    assert_eq!(target, list(&["x", "y"]));
    merge_unique(&mut target, list(&["y", "x"]));
    assert_eq!(target, list(&["x", "y"]));
    assert!(!push_new(&mut target, String::new()));
    assert!(push_new(&mut target, "z".to_string()));
}

#[test]
fn maps_keep_their_keys_in_order() {
    let mut map: TextMap<u32> = TextMap::new();
    map.insert("b".to_string(), 1);
    map.insert("a".to_string(), 2);
    map.insert("b".to_string(), 3);
    assert_eq!(map.get("b"), Some(&3));
    assert_eq!(map.get("c"), None);
    assert!(map.contains_key("a"));
    assert_eq!(map.find("a"), Some(0));
    assert_eq!(map.entries, vec![("a".to_string(), 2), ("b".to_string(), 3)]);
}

#[test]
fn strings_are_escaped_as_serde_json_escapes_them() {
    let all: String = (0..=0x10FFFFu32).filter_map(char::from_u32).collect();
    let list = vec![String::new(), all, "a\"b\\c\u{1f}\u{7f}".to_string()];
    assert_eq!(text_array(&list), serde_json::to_string(&list).unwrap());
}

#[test]
fn json_is_written_compactly() {
    assert_eq!(optional(&None), "null");
    assert_eq!(
        optional(&Some("\"\\\u{8}\t\n\u{c}\r\u{1f}\u{7f}ж/".to_string())),
        "\"\\\"\\\\\\b\\t\\n\\f\\r\\u001f\u{7f}ж/\""
    );
    assert_eq!(array(&list(&["1", "null"])), "[1,null]");
    assert_eq!(
        object(&vec![("a".to_string(), "1".to_string()), ("\"".to_string(), "[]".to_string())]),
        r#"{"a":1,"\"":[]}"#
    );
    assert_eq!(text_array(&list(&["a", "b"])), r#"["a","b"]"#);
    assert_eq!(text_array(&Vec::new()), "[]");
    assert_eq!(
        pair_array(&vec![("a".to_string(), "b".to_string())]),
        r#"[["a","b"]]"#
    );
}

#[test]
fn search_parameters_are_written_in_the_order_of_their_fields() {
    assert_eq!(
        params().key_json(),
        r#"{"base_url":"https://rusneb.ru","query":"a \"b\"\n","catalogs":["25"],"access":[],"publishyear_prev":"1911","publishyear_next":"1911","sort_by":null,"order":"desc","extra":[["lang","Русский"]]}"#
    );
}

#[test]
fn different_parameters_are_written_differently() {
    let mut other = params();
    other.catalogs = list(&["25,26"]);
    let mut split = params();
    split.catalogs = list(&["25", "26"]);
    assert_ne!(other.key_json(), split.key_json());
    assert_ne!(params().key_json(), split.key_json());
}

#[test]
fn extra_parameters_are_set_and_read_back() {
    let mut p = params();
    set_extra_param(&mut p, "idlibrary", "РГБ");
    assert_eq!(extra_param_value(&p, "idlibrary"), Some("РГБ"));
    assert_eq!(extra_param_value(&p, "lang"), Some("Русский"));
    set_extra_param(&mut p, "lang", "Английский");
    assert_eq!(extra_param_value(&p, "lang"), Some("Английский"));
    assert_eq!(p.extra.len(), 2);
    assert_eq!(extra_param_value(&p, "none"), None);
    assert_eq!(overflow_facet_depth(&p, &list(&["lang", "idlibrary"])), 2);
    assert_eq!(overflow_facet_depth(&p, &list(&["lang"])), 1);
    assert_eq!(exact_year(&p), Some("1911"));
    p.publishyear_next = None;
    assert_eq!(exact_year(&p), None);
}

#[test]
fn streams_are_labelled_by_their_parameters() {
    assert_eq!(
        coverage_shard_label(&params().key_json()),
        "q=\"a \\\"b\\\"\\n\" catalog=25 year=1911 extra=lang=Русский"
    );
    assert_eq!(coverage_shard_label("{"), "<invalid params>");
    assert_eq!(coverage_shard_label("{}"), "default");
    assert_eq!(
        coverage_shard_label(
            r#"{"access":["open",1,"x"],"publishyear_prev":"1","publishyear_next":"2","sort_by":"s"}"#
        ),
        "access=open,x year=1..2 sort=s:?"
    );
    assert_eq!(coverage_shard_label(r#"{"publishyear_prev":"1"}"#), "year>=1");
    assert_eq!(coverage_shard_label(r#"{"publishyear_next":"2"}"#), "year<=2");
}

#[test]
fn members_of_objects_are_read() {
    let value = JsonNode::Object(vec![
        ("a".to_string(), "\"x\"".to_string()),
        ("extra".to_string(), r#"[["k","v"],["k"],3,[1,"v"],["m","n","o"]]"#.to_string()),
        ("list".to_string(), r#"["p",null,"q"]"#.to_string()),
    ]);
    assert_eq!(json_string(&value, "a").as_deref(), Some("x"));
    assert_eq!(json_string(&value, "list"), None);
    assert_eq!(json_string(&JsonNode::Null, "a"), None);
    assert_eq!(json_string_array(&value, "list"), Some(list(&["p", "q"])));
    assert_eq!(json_string_array(&value, "a"), None);
    assert!(json_array_contains_all(&value, "list", &list(&["q"])));
    assert!(json_array_contains_all(&value, "list", &Vec::new()));
    assert!(!json_array_contains_all(&value, "list", &list(&["q", "r"])));
    assert!(!json_array_contains_all(&value, "none", &Vec::new()));
    assert_eq!(json_extra_params(&value), Some(list(&["k=v", "m=n"])));
}

#[test]
fn groups_leave_out_sorts_and_facets() {
    let facets = list(&["lang"]);
    let mut sorted = params();
    sorted.sort_by = Some("document_titlesort".to_string());
    let mut faceted = params();
    faceted.extra = vec![("other".to_string(), "1".to_string())];
    let key = coverage_group_key(&params().key_json(), &facets).unwrap();
    assert_eq!(
        key,
        r#"{"access":[],"base_url":"https://rusneb.ru","catalogs":["25"],"extra":[],"publishyear_next":"1911","publishyear_prev":"1911","query":"a \"b\"\n"}"#
    );
    assert_eq!(coverage_group_key(&sorted.key_json(), &facets).unwrap(), key);
    assert_ne!(coverage_group_key(&faceted.key_json(), &facets).unwrap(), key);
    assert!(coverage_group_key("{", &facets)
        .unwrap_err()
        .starts_with("parsing search params for coverage group: "));
    assert_eq!(coverage_group_key("[1.50,true]", &facets).unwrap(), "[1.5,true]");
}

#[test]
fn group_parameters_keep_what_is_no_facet() {
    let value = JsonNode::Object(vec![
        ("extra".to_string(), r#"[["lang","x"],["k","v"],7,[],[8]]"#.to_string()),
        ("order".to_string(), "\"asc\"".to_string()),
        ("sort_by".to_string(), "null".to_string()),
        ("z".to_string(), "1".to_string()),
    ]);
    let common = normalize_coverage_group_params(value, &list(&["lang"]));
    assert_eq!(json_compact(&common), r#"{"extra":[["k","v"],7,[],[8]],"z":1}"#);
    let other = normalize_coverage_group_params(JsonNode::Text("x".to_string()), &list(&["lang"]));
    assert_eq!(json_compact(&other), "\"x\"");
    assert_eq!(json_compact(&JsonNode::Bool(false)), "false");
    assert_eq!(json_compact(&JsonNode::Number("1.5".to_string())), "1.5");
}

#[test]
fn long_values_are_abbreviated_in_labels() {
    let long = "ж".repeat(81);
    assert_eq!(abbreviate_label_value(&long), format!("{}...", "ж".repeat(80)));
    let fits = "ж".repeat(80);
    assert_eq!(abbreviate_label_value(&fits), fits);
    let p = params();
    assert_eq!(
        facet_overflow_label("1911", &p, "lang", "x"),
        "year 1911 auto overflow facet lang=x"
    );
    assert_eq!(
        facet_overflow_label("1911", &p, "idlibrary", "x"),
        "year 1911 auto overflow facet lang=Русский idlibrary=x"
    );
}
