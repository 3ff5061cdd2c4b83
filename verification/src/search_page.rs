use crate::html::{
    can_read_page, decode_entities, decoded, element_views, opt_texts, page_fits, select, selected, ElementView,
    HtmlElement,
};
use crate::maps::{list_contents, push_to, with_appended, TextMap};
use crate::model::{list_map_view, FetchFailure, SearchPageResult};
use crate::numerals::{
    decimal, decimal_text, is_numeral, law_decimal_reads_back, parse_number, spelled_number,
};
use crate::order::{first_occurrences, law_first_occurrences, push_new};
use crate::pages::{page_error, search_page_error};
use crate::text::{list_has, same, to_chars, trim, trimmed};
use crate::views::{group_texts, lemma_take_next, opt_text, texts};
use regex::Regex;
use vstd::prelude::*;

verus! {

broadcast use group_texts;

/// What the first group of a pattern stands for in the first place of a text where the pattern
/// matches, if there is one.
pub uninterp spec fn first_group(pattern: Seq<char>, text: Seq<char>) -> Option<Seq<char>>;

/// `regex::Regex::new` and `regex::Regex::captures`, with what the first group matched, named by
/// `first_group`.
#[verifier::external_body]
fn capture_first(pattern: &str, text: &str) -> (result: Option<String>)
    ensures
        opt_text(result) == first_group(pattern@, text@),
{
    Some(Regex::new(pattern).ok()?.captures(text)?.get(1)?.as_str().to_string())
}

/// What the first group of a pattern stands for in every place of a text where the pattern
/// matches; none where the pattern cannot be read.
pub uninterp spec fn all_groups(pattern: Seq<char>, text: Seq<char>) -> Option<
    Seq<Option<Seq<char>>>,
>;

/// The texts of an optional list of optional texts.
pub open spec fn opt_opt_texts(list: Option<Vec<Option<String>>>) -> Option<
    Seq<Option<Seq<char>>>,
> {
    match list {
        Some(found) => Some(opt_texts(found@)),
        None => None,
    }
}

/// `regex::Regex::new` and `regex::Regex::captures_iter`, with what the first group matched each
/// time, named by `all_groups`.
#[verifier::external_body]
fn capture_all(pattern: &str, text: &str) -> (result: Option<Vec<Option<String>>>)
    ensures
        opt_opt_texts(result) == all_groups(pattern@, text@),
{
    let regex = Regex::new(pattern).ok()?;
    let found = regex.captures_iter(text).map(|c| c.get(1).map(|m| m.as_str().to_string()));
    Some(found.collect())
}

/// An identifier with its entities replaced, where it is one: it is not empty, and not the word
/// that a broken link has in its place.
pub open spec fn plain_id(raw: Seq<char>) -> Option<Seq<char>> {
    if decoded(raw).len() == 0 || decoded(raw) == "undefined"@ {
        None
    } else {
        Some(decoded(raw))
    }
}

/// An identifier, where a text is one: it is not empty, and not the word that a broken link has in
/// its place.
pub fn checked_id(id: String) -> (result: Option<String>)
    ensures
        opt_text(result) == if id@.len() == 0 || id@ == "undefined"@ {
            None
        } else {
            Some(id@)
        },
{
    if id.as_str().is_empty() || same(&id, "undefined") {
        None
    } else {
        Some(id)
    }
}

fn id_from(raw: &str) -> (result: Option<String>)
    ensures
        opt_text(result) == plain_id(raw@),
{
    checked_id(decode_entities(raw))
}

/// The identifier of the catalogue item that a link leads to.
pub open spec fn linked_id(href: Seq<char>) -> Option<Seq<char>> {
    match first_group("^/catalog/([^/\"?#]+)/?"@, href) {
        Some(raw) => plain_id(raw),
        None => None,
    }
}

/// The identifier of the catalogue item that a link leads to.
pub fn catalog_id_from_href(href: &str) -> (result: Option<String>)
    ensures
        opt_text(result) == linked_id(href@),
{
    match capture_first("^/catalog/([^/\"?#]+)/?", href) {
        Some(raw) => id_from(&raw),
        None => None,
    }
}

/// The identifiers that some links lead to.
pub open spec fn linked_ids(links: Seq<ElementView>) -> Seq<Seq<char>>
    decreases links.len(),
{
    if links.len() == 0 {
        Seq::empty()
    } else {
        let before = linked_ids(links.drop_last());
        match links.last().attributes[0] {
            Some(href) => match linked_id(href) {
                Some(id) => before.push(id),
                None => before,
            },
            None => before,
        }
    }
}

/// The identifiers among some texts.
pub open spec fn plain_ids(raw: Seq<Option<Seq<char>>>) -> Seq<Seq<char>>
    decreases raw.len(),
{
    if raw.len() == 0 {
        Seq::empty()
    } else {
        let before = plain_ids(raw.drop_last());
        match raw.last() {
            Some(text) => match plain_id(text) {
                Some(id) => before.push(id),
                None => before,
            },
            None => before,
        }
    }
}

/// The links of a search page to its results.
pub open spec fn result_links(html: Seq<char>) -> Seq<ElementView> {
    match selected(
        html,
        ".search-list__item_link[href], .search-result__content-main-read-button[href]"@,
        seq!["href"@],
    ) {
        Some(links) => links,
        None => Seq::empty(),
    }
}

/// The items that a search page lists, each once: those that its result links lead to, or, where
/// there are none, all whose addresses occur in the page.
pub open spec fn listed_items(html: Seq<char>) -> Seq<Seq<char>> {
    let linked = first_occurrences(linked_ids(result_links(html)));
    if linked.len() > 0 {
        linked
    } else {
        match all_groups("/catalog/([^/\"?#]+)/?"@, html) {
            Some(found) => first_occurrences(plain_ids(found)),
            None => Seq::empty(),
        }
    }
}

/// A list with one name.
pub fn one_name(name: &str) -> (result: Vec<String>)
    ensures
        texts(result@) == seq![name@],
        result@.len() == 1,
{
    let mut out: Vec<String> = Vec::new();
    out.push(name.to_owned());
    assert(texts(out@) =~= seq![name@]);
    out
}

/// The items that a list of links leads to, each once.
pub fn collect_linked(links: &Vec<HtmlElement>) -> (result: Vec<String>)
    requires
        forall|i: int| 0 <= i < links@.len() ==> (#[trigger] links@[i])@.attributes.len() == 1,
    ensures
        texts(result@) == first_occurrences(linked_ids(element_views(links@))),
{
    let ghost all = element_views(links@);
    let mut out: Vec<String> = Vec::new();
    for i in 0..links.len()
        invariant
            forall|k: int| 0 <= k < links@.len() ==> (#[trigger] links@[k])@.attributes.len() == 1,
            all == element_views(links@),
            texts(out@) == first_occurrences(linked_ids(all.take(i as int))),
    {
        proof {
            lemma_take_next(all, i as int);
            assert(all.take(i + 1).drop_last() == all.take(i as int));
            assert(links@[i as int]@.attributes.len() == 1);
        }
        let ghost before = linked_ids(all.take(i as int));
        match &links[i].attributes[0] {
            Some(href) => {
                match catalog_id_from_href(href) {
                    Some(id) => {
                        assert(before.push(id@).drop_last() == before);
                        push_new(&mut out, id);
                    },
                    None => {},
                }
            },
            None => {},
        }
    }
    assert(all.take(all.len() as int) == all);
    out
}

/// The items among some texts, each once.
pub fn collect_found(found: &Vec<Option<String>>) -> (result: Vec<String>)
    ensures
        texts(result@) == first_occurrences(plain_ids(opt_texts(found@))),
{
    let ghost all = opt_texts(found@);
    let mut out: Vec<String> = Vec::new();
    for i in 0..found.len()
        invariant
            all == opt_texts(found@),
            texts(out@) == first_occurrences(plain_ids(all.take(i as int))),
    {
        proof {
            lemma_take_next(all, i as int);
            assert(all.take(i + 1).drop_last() == all.take(i as int));
        }
        let ghost before = plain_ids(all.take(i as int));
        match &found[i] {
            Some(raw) => {
                match id_from(raw) {
                    Some(id) => {
                        assert(before.push(id@).drop_last() == before);
                        push_new(&mut out, id);
                    },
                    None => {},
                }
            },
            None => {},
        }
    }
    assert(all.take(all.len() as int) == all);
    out
}

/// The items that a search page lists, each once.
pub fn extract_catalog_ids(html: &str) -> (result: Vec<String>)
    requires
        page_fits(html@),
    ensures
        texts(result@) == listed_items(html@),
{
    let names = one_name("href");
    let links: Vec<HtmlElement> = match select(
        html,
        ".search-list__item_link[href], .search-result__content-main-read-button[href]",
        &names,
    ) {
        Some(links) => links,
        None => Vec::new(),
    };
    assert(element_views(links@) =~= result_links(html@));
    assert forall|i: int| 0 <= i < links@.len() implies (
    #[trigger] links@[i])@.attributes.len() == 1 by {
        assert(element_views(links@)[i].attributes.len() == 1);
    }
    let linked = collect_linked(&links);
    if linked.len() > 0 {
        return linked;
    }
    match capture_all("/catalog/([^/\"?#]+)/?", html) {
        Some(found) => collect_found(&found),
        None => Vec::new(),
    }
}

/// The decimal numerals of a text.
pub open spec fn numerals_in(text: Seq<char>) -> Seq<char>
    decreases text.len(),
{
    if text.len() == 0 {
        Seq::empty()
    } else if is_numeral(text.last()) {
        numerals_in(text.drop_last()).push(text.last())
    } else {
        numerals_in(text.drop_last())
    }
}

fn keep_numerals(text: &str) -> (result: String)
    ensures
        result@ == numerals_in(text@),
{
    let chars = to_chars(text);
    let mut out: String = String::new();
    for i in 0..chars.len()
        invariant
            chars@ == text@,
            out@ == numerals_in(chars@.take(i as int)),
    {
        proof {
            lemma_take_next(chars@, i as int);
            assert(chars@.take(i + 1).drop_last() == chars@.take(i as int));
        }
        let c = chars[i];
        if '0' <= c && c <= '9' {
            out.push(c);
        }
    }
    assert(chars@.take(chars@.len() as int) == chars@);
    out
}

/// The total that a search page reports.
pub open spec fn reported_total(html: Seq<char>) -> Option<nat> {
    match first_group("Найдено\\s+([0-9\\s]+)\\s+результ"@, html) {
        Some(group) => spelled_number(numerals_in(group), u64::MAX as nat),
        None => None,
    }
}

/// A number as a mathematical one.
pub open spec fn opt_nat(n: Option<u64>) -> Option<nat> {
    match n {
        Some(n) => Some(n as nat),
        None => None,
    }
}

/// The number that the numerals of a matched group spell.
pub fn total_from_group(group: &str) -> (result: Option<u64>)
    ensures
        opt_nat(result) == spelled_number(numerals_in(group@), u64::MAX as nat),
{
    let digits = keep_numerals(group);
    parse_number(&digits, u64::MAX)
}

/// The total that a search page reports.
pub fn extract_total_results(html: &str) -> (result: Option<u64>)
    ensures
        opt_nat(result) == reported_total(html@),
{
    match capture_first("Найдено\\s+([0-9\\s]+)\\s+результ", html) {
        Some(group) => total_from_group(&group),
        None => None,
    }
}

/// Appends a text to the list that a key leads to.
pub fn push_text(map: &mut TextMap<Vec<String>>, key: String, value: String)
    requires
        old(map).well_formed(),
    ensures
        final(map).well_formed(),
        list_map_view(*final(map)) == with_appended(list_map_view(*old(map)), key@, value@),
{
    let ghost before = *map;
    push_to(map, key, value);
    proof {
        let a = list_contents(before);
        let b = list_contents(*map);
        assert(list_map_view(before) =~= a.map_values(|l: Seq<String>| texts(l)));
        assert(list_map_view(*map) =~= b.map_values(|l: Seq<String>| texts(l)));
        assert(list_map_view(*map) =~= with_appended(list_map_view(before), key@, value@));
    }
}

/// A map with a value appended to the list of its field, unless the list has it.
pub open spec fn with_facet_value(
    map: Map<Seq<char>, Seq<Seq<char>>>,
    field: Seq<char>,
    value: Seq<char>,
) -> Map<Seq<char>, Seq<Seq<char>>> {
    if map.contains_key(field) && map[field].contains(value) {
        map
    } else {
        with_appended(map, field, value)
    }
}

/// The values that some elements give for the fields that are asked for, in order and each once.
pub open spec fn facet_values(
    elements: Seq<ElementView>,
    fields: Seq<Seq<char>>,
) -> Map<Seq<char>, Seq<Seq<char>>>
    decreases elements.len(),
{
    if elements.len() == 0 {
        Map::empty()
    } else {
        let before = facet_values(elements.drop_last(), fields);
        match (elements.last().attributes[0], elements.last().attributes[1]) {
            (Some(field), Some(value)) => if fields.contains(field) && trimmed(
                decoded(value),
            ).len() > 0 {
                with_facet_value(before, field, trimmed(decoded(value)))
            } else {
                before
            },
            _ => before,
        }
    }
}

/// The elements of the page of the advanced search that offer values of fields.
pub open spec fn value_elements(html: Seq<char>) -> Seq<ElementView> {
    match selected(html, "[data-id][data-value]"@, seq!["data-id"@, "data-value"@]) {
        Some(elements) => elements,
        None => Seq::empty(),
    }
}

/// Adds a value of a field, where the field is asked for and the value is not blank, unless the map
/// has it.
pub fn add_facet_value(
    map: &mut TextMap<Vec<String>>,
    fields: &Vec<String>,
    field: &str,
    value: &str,
)
    requires
        old(map).well_formed(),
    ensures
        final(map).well_formed(),
        list_map_view(*final(map)) == if texts(fields@).contains(field@) && trimmed(value@).len()
            > 0 {
            with_facet_value(list_map_view(*old(map)), field@, trimmed(value@))
        } else {
            list_map_view(*old(map))
        },
{
    if !list_has(fields, field) {
        return;
    }
    let value = trim(value);
    if value.as_str().is_empty() {
        return;
    }
    let known = match map.get(field) {
        Some(list) => {
            assert(list_map_view(*map)[field@] == texts(list@));
            list_has(list, &value)
        },
        None => false,
    };
    if !known {
        push_text(map, field.to_owned(), value);
    }
}

/// The values that some elements give for the fields that are asked for, in order and each once.
pub fn collect_facet_values(elements: &Vec<HtmlElement>, fields: &Vec<String>) -> (result: TextMap<
    Vec<String>,
>)
    requires
        forall|i: int| 0 <= i < elements@.len() ==> (#[trigger] elements@[i])@.attributes.len() == 2,
    ensures
        result.well_formed(),
        list_map_view(result) == facet_values(element_views(elements@), texts(fields@)),
{
    let ghost all = element_views(elements@);
    let mut out: TextMap<Vec<String>> = TextMap::new();
    assert(list_map_view(out) =~= Map::empty());
    for i in 0..elements.len()
        invariant
            forall|k: int|
                0 <= k < elements@.len() ==> (#[trigger] elements@[k])@.attributes.len() == 2,
            all == element_views(elements@),
            out.well_formed(),
            list_map_view(out) == facet_values(all.take(i as int), texts(fields@)),
    {
        proof {
            lemma_take_next(all, i as int);
            assert(all.take(i + 1).drop_last() == all.take(i as int));
            assert(elements@[i as int]@.attributes.len() == 2);
        }
        match (&elements[i].attributes[0], &elements[i].attributes[1]) {
            (Some(field), Some(raw)) => {
                let value = decode_entities(raw);
                add_facet_value(&mut out, fields, field, &value);
            },
            _ => {},
        }
    }
    assert(all.take(all.len() as int) == all);
    out
}

/// The values that the page of the advanced search offers for the fields that are asked for.
pub fn extract_advanced_filter_values(html: &str, fields: &Vec<String>) -> (result: TextMap<
    Vec<String>,
>)
    requires
        page_fits(html@),
    ensures
        result.well_formed(),
        list_map_view(result) == facet_values(value_elements(html@), texts(fields@)),
{
    let mut names: Vec<String> = Vec::new();
    names.push("data-id".to_owned());
    names.push("data-value".to_owned());
    assert(texts(names@) =~= seq!["data-id"@, "data-value"@]);
    let elements: Vec<HtmlElement> = match select(html, "[data-id][data-value]", &names) {
        Some(elements) => elements,
        None => Vec::new(),
    };
    assert(element_views(elements@) =~= value_elements(html@));
    assert forall|i: int| 0 <= i < elements@.len() implies (
    #[trigger] elements@[i])@.attributes.len() == 2 by {
        assert(element_views(elements@)[i].attributes.len() == 2);
    }
    collect_facet_values(&elements, fields)
}

/// Whether an HTTP status is one of success.
pub open spec fn is_success(status: u16) -> bool {
    200 <= status < 300
}

/// Whether a page that was answered is short enough to be read, where it is read at all.
pub fn can_use_page(status: u16, body: &str) -> (result: bool)
    ensures
        result == (is_success(status) ==> page_fits(body@)),
{
    !(200 <= status && status < 300) || can_read_page(body)
}

/// What a search page that was answered lists, or why it cannot be used.
pub fn search_page_result(status: u16, body: &str) -> (result: Result<
    SearchPageResult,
    FetchFailure,
>)
    requires
        is_success(status) ==> page_fits(body@),
    ensures
        match result {
            Ok(page) => is_success(status) && texts(page.ids@) == listed_items(body@) && opt_nat(
                page.total_results,
            ) == reported_total(body@),
            Err(failure) => !is_success(status) && failure.status == Some(status)
                && failure.message@ == page_error(status),
        },
{
    if !(200 <= status && status < 300) {
        return Err(FetchFailure { status: Some(status), message: search_page_error(status) });
    }
    Ok(
        SearchPageResult {
            ids: extract_catalog_ids(body),
            total_results: extract_total_results(body),
        },
    )
}

/// The values that the page of the advanced search offers, where it was answered, or why it cannot
/// be used.
pub fn advanced_filter_result(status: u16, body: &str, fields: &Vec<String>) -> (result: Result<
    TextMap<Vec<String>>,
    FetchFailure,
>)
    requires
        is_success(status) ==> page_fits(body@),
    ensures
        match result {
            Ok(map) => is_success(status) && map.well_formed() && list_map_view(map)
                == facet_values(value_elements(body@), texts(fields@)),
            Err(failure) => !is_success(status) && failure.status == Some(status)
                && failure.message@ == "advanced search HTTP "@ + decimal(status as nat),
        },
{
    if !(200 <= status && status < 300) {
        let mut message: String = "advanced search HTTP ".to_owned();
        let number = decimal_text(status as u64);
        message.append(&number);
        return Err(FetchFailure { status: Some(status), message });
    }
    Ok(extract_advanced_filter_values(body, fields))
}

/// The failure to get an answer.
pub fn to_fetch_failure(error: &str) -> (result: FetchFailure)
    ensures
        result.status is None,
        result.message@ == error@,
{
    FetchFailure { status: None, message: error.to_owned() }
}

/// Whether a link of a search page leads to an item with this identifier.
pub open spec fn leads_to_item(link: ElementView, id: Seq<char>) -> bool {
    link.attributes[0] matches Some(href) && first_group(
        "^/catalog/([^/\"?#]+)/?"@,
        href,
    ) matches Some(raw) && decoded(raw) == id && id.len() > 0 && id != "undefined"@
}

proof fn lemma_linked_ids(links: Seq<ElementView>, id: Seq<char>)
    ensures
        linked_ids(links).contains(id) <==> exists|i: int|
            0 <= i < links.len() && leads_to_item(#[trigger] links[i], id),
    decreases links.len(),
{
    let all = linked_ids(links);
    if links.len() > 0 {
        let rest = links.drop_last();
        let before = linked_ids(rest);
        lemma_linked_ids(rest, id);
        if all.contains(id) {
            let k = all.index_of(id);
            if k < before.len() {
                assert(before[k] == id);
                let i = choose|i: int| 0 <= i < rest.len() && leads_to_item(#[trigger] rest[i], id);
                assert(leads_to_item(links[i], id));
            } else {
                assert(leads_to_item(links[links.len() - 1], id));
            }
        }
        if exists|i: int| 0 <= i < links.len() && leads_to_item(#[trigger] links[i], id) {
            let i = choose|i: int| 0 <= i < links.len() && leads_to_item(#[trigger] links[i], id);
            if i < rest.len() {
                assert(leads_to_item(rest[i], id));
                let k = before.index_of(id);
                assert(all[k] == id);
            } else {
                assert(all[before.len() as int] == id);
            }
        }
    } else {
        assert(all =~= Seq::empty());
    }
}

proof fn lemma_plain_ids(raw: Seq<Option<Seq<char>>>, id: Seq<char>)
    ensures
        plain_ids(raw).contains(id) <==> id.len() > 0 && id != "undefined"@ && exists|i: int|
            0 <= i < raw.len() && (#[trigger] raw[i] matches Some(text) && decoded(text) == id),
    decreases raw.len(),
{
    let all = plain_ids(raw);
    if raw.len() > 0 {
        let rest = raw.drop_last();
        let before = plain_ids(rest);
        lemma_plain_ids(rest, id);
        if all.contains(id) {
            let k = all.index_of(id);
            if k < before.len() {
                assert(before[k] == id);
                let i = choose|i: int|
                    0 <= i < rest.len() && (#[trigger] rest[i] matches Some(text) && decoded(text)
                        == id);
                assert(raw[i] == rest[i]);
            } else {
                assert(raw[raw.len() - 1] is Some);
            }
        }
        if id.len() > 0 && id != "undefined"@ && exists|i: int|
            0 <= i < raw.len() && (#[trigger] raw[i] matches Some(text) && decoded(text) == id) {
            let i = choose|i: int|
                0 <= i < raw.len() && (#[trigger] raw[i] matches Some(text) && decoded(text) == id);
            if i < rest.len() {
                assert(rest[i] == raw[i]);
                let k = before.index_of(id);
                assert(all[k] == id);
            } else {
                assert(all[before.len() as int] == id);
            }
        }
    } else {
        assert(all =~= Seq::empty());
    }
}

/// A search page lists the items that its result links lead to, each once and no others; and where
/// none of them leads to an item, those that are named anywhere on the page.
pub proof fn law_page_lists_items(
    html: Seq<char>,
    links: Seq<ElementView>,
    named: Seq<Option<Seq<char>>>,
    id: Seq<char>,
)
    requires
        selected(
            html,
            ".search-list__item_link[href], .search-result__content-main-read-button[href]"@,
            seq!["href"@],
        ) == Some(links),
        all_groups("/catalog/([^/\"?#]+)/?"@, html) == Some(named),
    ensures
        listed_items(html).no_duplicates(),
        (exists|i: int| 0 <= i < links.len() && leads_to_item(#[trigger] links[i], id))
            ==> listed_items(html).contains(id),
        listed_items(html).contains(id) ==> (exists|i: int|
            0 <= i < links.len() && leads_to_item(#[trigger] links[i], id)) || exists|i: int|
            0 <= i < named.len() && (#[trigger] named[i] matches Some(text) && decoded(text) == id
                && id.len() > 0 && id != "undefined"@),
        (forall|i: int, other: Seq<char>|
            0 <= i < links.len() ==> !#[trigger] leads_to_item(links[i], other)) && (exists|i: int|
            0 <= i < named.len() && (#[trigger] named[i] matches Some(text) && decoded(text) == id
                && id.len() > 0 && id != "undefined"@)) ==> listed_items(html).contains(id),
{
    law_first_occurrences(linked_ids(links));
    law_first_occurrences(plain_ids(named));
    lemma_linked_ids(links, id);
    lemma_plain_ids(named, id);
    let linked = first_occurrences(linked_ids(links));
    if linked.len() > 0 {
        let first = linked[0];
        assert(linked.contains(first));
        lemma_linked_ids(links, first);
    }
    assert(linked_ids(links).contains(id) ==> linked.contains(id));
}

/// The items of a search page stand in the order of its links.
pub proof fn law_links_keep_their_order(a: Seq<ElementView>, b: Seq<ElementView>)
    ensures
        linked_ids(a + b) == linked_ids(a) + linked_ids(b),
    decreases b.len(),
{
    if b.len() == 0 {
        assert(a + b =~= a);
    } else {
        law_links_keep_their_order(a, b.drop_last());
        assert((a + b).drop_last() =~= a + b.drop_last());
    }
}

/// The total that a page reports is the number that its numerals spell, whatever stands between
/// them.
pub proof fn law_total_is_spelled(html: Seq<char>, group: Seq<char>, n: nat)
    requires
        first_group("Найдено\\s+([0-9\\s]+)\\s+результ"@, html) == Some(group),
        numerals_in(group) == decimal(n),
    ensures
        n <= u64::MAX ==> reported_total(html) == Some(n),
        n > u64::MAX ==> reported_total(html) is None,
{
    law_decimal_reads_back(n, n);
}

/// The numerals of a text are all of its characters from `0` to `9`, in their order.
pub proof fn law_numerals_in(a: Seq<char>, b: Seq<char>)
    ensures
        numerals_in(a + b) == numerals_in(a) + numerals_in(b),
        b.len() == 1 && '0' <= b[0] <= '9' ==> numerals_in(b) == b,
        b.len() == 1 && !('0' <= b[0] <= '9') ==> numerals_in(b).len() == 0,
    decreases b.len(),
{
    if b.len() == 0 {
        assert(a + b =~= a);
    } else {
        law_numerals_in(a, b.drop_last());
        assert((a + b).drop_last() =~= a + b.drop_last());
        if b.len() == 1 {
            assert(numerals_in(b.drop_last()) =~= Seq::empty());
            assert(numerals_in(b).len() <= 1);
            assert('0' <= b[0] <= '9' ==> numerals_in(b) =~= b);
        }
    }
}

/// Whether an element of the advanced search offers a value for a facet.
pub open spec fn offers(element: ElementView, facet: Seq<char>, value: Seq<char>) -> bool {
    &&& element.attributes[0] == Some(facet)
    &&& element.attributes[1] matches Some(raw) && trimmed(decoded(raw)) == value
    &&& value.len() > 0
}

/// The values under a facet that was asked for are those that some element offers, each once; a
/// facet that was not asked for has none.
pub proof fn law_facet_values(
    elements: Seq<ElementView>,
    facets: Seq<Seq<char>>,
    facet: Seq<char>,
    value: Seq<char>,
)
    ensures
        (facet_values(elements, facets).contains_key(facet) && facet_values(
            elements,
            facets,
        )[facet].contains(value)) <==> facets.contains(facet) && exists|i: int|
            0 <= i < elements.len() && offers(#[trigger] elements[i], facet, value),
        facet_values(elements, facets).contains_key(facet) ==> facet_values(
            elements,
            facets,
        )[facet].no_duplicates() && facet_values(elements, facets)[facet].len() > 0,
    decreases elements.len(),
{
    let map = facet_values(elements, facets);
    if elements.len() > 0 {
        let rest = elements.drop_last();
        let before = facet_values(rest, facets);
        let e = elements.last();
        law_facet_values(rest, facets, facet, value);
        let old_list = if before.contains_key(facet) {
            before[facet]
        } else {
            Seq::empty()
        };
        if map.contains_key(facet) {
            assert forall|k: int| 0 <= k < old_list.len() implies #[trigger] map[facet][k]
                == old_list[k] by {}
        }
        if map.contains_key(facet) && map[facet].contains(value) {
            let k = map[facet].index_of(value);
            if k < old_list.len() {
                assert(old_list[k] == value);
                let i = choose|i: int|
                    0 <= i < rest.len() && offers(#[trigger] rest[i], facet, value);
                assert(offers(elements[i], facet, value));
            } else {
                assert(offers(elements[elements.len() - 1], facet, value));
            }
        }
        if facets.contains(facet) && exists|i: int|
            0 <= i < elements.len() && offers(#[trigger] elements[i], facet, value) {
            let i = choose|i: int|
                0 <= i < elements.len() && offers(#[trigger] elements[i], facet, value);
            if i < rest.len() {
                assert(offers(rest[i], facet, value));
                let k = old_list.index_of(value);
                assert(map[facet][k] == value);
            } else if old_list.contains(value) {
                let k = old_list.index_of(value);
                assert(map[facet][k] == value);
            } else {
                assert(map[facet][old_list.len() as int] == value);
            }
        }
    }
}

/// A page is used where its status is one of success, which are those from 200 to 299.
pub proof fn law_success(status: u16)
    ensures
        is_success(status) <==> status / 100 == 2,
{
}

} // verus!
