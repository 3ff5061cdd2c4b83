use crate::html::{
    element_lists, element_text, element_views, have_attributes, lowered, normal, normalize_ws,
    opt_texts, page_fits, select, select_inside, selected, selected_inside, text_of, to_lower,
    ElementView, HtmlElement,
};
use crate::links::{absolute, absolutize};
use crate::maps::{with_appended, TextMap};
use crate::model::{
    detail_views, link_views, list_map_view, text_map_view, CardMetadata, DetailField, DetailView,
    Link, MetadataView,
};
use crate::order::{
    dedup, first_occurrences, law_first_occurrences, sort_unique, sorted_texts,
};
use crate::search_page::{one_name, push_text};
use crate::text::{
    behind_prefix, contains, ends_with, finishes_with, has_text, join, joined,
    law_joined, law_prefix_is_taken_off, remove_part, stands_at, strip_prefix, without_part,
};
use crate::views::{count_where, group_texts, lemma_take_next, opt_text, texts};
use vstd::prelude::*;

verus! {

broadcast use group_texts;

/// The elements that were selected, or none where the selector could not be read.
pub open spec fn found(elements: Option<Seq<ElementView>>) -> Seq<ElementView> {
    match elements {
        Some(list) => list,
        None => Seq::empty(),
    }
}

/// The elements of a document that a selector selects, without attributes.
pub open spec fn found_in(html: Seq<char>, selector: Seq<char>) -> Seq<ElementView> {
    found(selected(html, selector, Seq::empty()))
}

fn find(html: &str, selector: &str) -> (result: Vec<HtmlElement>)
    requires
        page_fits(html@),
    ensures
        element_views(result@) == found_in(html@, selector@),
{
    let names: Vec<String> = Vec::new();
    match select(html, selector, &names) {
        Some(list) => list,
        None => {
            let none: Vec<HtmlElement> = Vec::new();
            assert(element_views(none@) =~= Seq::empty());
            none
        },
    }
}

/// What a meta element says, under a name of the book or of the page.
pub open spec fn og_key(key: Seq<char>) -> Option<Seq<char>> {
    match behind_prefix(key, "og:"@) {
        Some(name) => Some(name),
        None => behind_prefix(key, "book:"@),
    }
}

/// The name that a meta element has as a property, or else as a name.
pub open spec fn meta_key(property: Option<Seq<char>>, name: Option<Seq<char>>) -> Seq<char> {
    match property {
        Some(text) => text,
        None => match name {
            Some(text) => text,
            None => Seq::empty(),
        },
    }
}

/// What the meta elements of a document say of the book and the page.
pub open spec fn og_of(elements: Seq<ElementView>) -> Map<Seq<char>, Seq<char>>
    decreases elements.len(),
{
    if elements.len() == 0 {
        Map::empty()
    } else {
        let before = og_of(elements.drop_last());
        let e = elements.last();
        match e.attributes[0] {
            None => before,
            Some(content) => match og_key(meta_key(e.attributes[1], e.attributes[2])) {
                Some(key) => before.insert(key, normal(content)),
                None => before,
            },
        }
    }
}

/// The meta elements of a document.
pub open spec fn meta_elements(html: Seq<char>) -> Seq<ElementView> {
    found(
        selected(
            html,
            "meta[property], meta[name]"@,
            seq!["content"@, "property"@, "name"@],
        ),
    )
}

/// The name under which a meta element says something of the book or the page.
pub fn meta_name(property: &Option<String>, name: &Option<String>) -> (result: Option<String>)
    ensures
        opt_text(result) == og_key(meta_key(opt_text(*property), opt_text(*name))),
{
    let key = match property {
        Some(text) => text.clone(),
        None => match name {
            Some(text) => text.clone(),
            None => String::new(),
        },
    };
    match strip_prefix(&key, "og:") {
        Some(rest) => Some(rest),
        None => strip_prefix(&key, "book:"),
    }
}

/// Makes a key of a map of texts lead to a text.
fn put_text(map: &mut TextMap<String>, key: String, value: String)
    requires
        old(map).well_formed(),
    ensures
        final(map).well_formed(),
        text_map_view(*final(map)) == text_map_view(*old(map)).insert(key@, value@),
{
    let ghost before = *map;
    map.insert(key, value);
    proof {
        let after = text_map_view(*map);
        let wanted = text_map_view(before).insert(key@, value@);
        assert forall|t: Seq<char>| #[trigger] after.contains_key(t) == wanted.contains_key(t) by {
            assert(map.contents().contains_key(t) == (before.contents().contains_key(t) || t
                == key@));
        }
        assert forall|t: Seq<char>| #[trigger] after.contains_key(t) implies after[t]
            == wanted[t] by {
            assert(map.contents().contains_key(t));
            assert(after[t] == map.contents()[t]@);
            if t != key@ {
                assert(before.contents().contains_key(t));
                assert(map.contents()[t] == before.contents()[t]);
                assert(wanted[t] == text_map_view(before)[t]);
            }
        }
        assert(after =~= wanted);
    }
}

/// What the meta elements of a document say of the book and the page.
pub fn extract_og(html: &str) -> (result: TextMap<String>)
    requires
        page_fits(html@),
    ensures
        result.well_formed(),
        text_map_view(result) == og_of(meta_elements(html@)),
{
    let mut names: Vec<String> = Vec::new();
    names.push("content".to_owned());
    names.push("property".to_owned());
    names.push("name".to_owned());
    assert(texts(names@) =~= seq!["content"@, "property"@, "name"@]);
    let elements: Vec<HtmlElement> = match select(html, "meta[property], meta[name]", &names) {
        Some(list) => list,
        None => Vec::new(),
    };
    let ghost all = element_views(elements@);
    assert(all =~= meta_elements(html@));
    assert(have_attributes(all, 3));
    let mut out: TextMap<String> = TextMap::new();
    assert(text_map_view(out) =~= Map::empty());
    for i in 0..elements.len()
        invariant
            all == element_views(elements@),
            have_attributes(all, 3),
            out.well_formed(),
            text_map_view(out) == og_of(all.take(i as int)),
    {
        let e = &elements[i];
        proof {
            lemma_take_next(all, i as int);
            assert(all.take(i + 1).drop_last() == all.take(i as int));
            assert(all[i as int].attributes.len() == 3);
            assert(opt_texts(e.attributes@).len() == 3);
        }
        match &e.attributes[0] {
            Some(raw) => {
                let content = normalize_ws(raw);
                match meta_name(&e.attributes[1], &e.attributes[2]) {
                    Some(key) => {
                        put_text(&mut out, key, content);
                    },
                    None => {},
                }
            },
            None => {},
        }
    }
    assert(all.take(all.len() as int) == all);
    out
}

/// The first value that an element of a list has for its first attribute.
pub open spec fn first_attribute(elements: Seq<ElementView>) -> Option<Seq<char>>
    decreases elements.len(),
{
    if elements.len() == 0 {
        None
    } else if elements[0].attributes[0] is Some {
        elements[0].attributes[0]
    } else {
        first_attribute(elements.drop_first())
    }
}

/// A text, where it is not empty.
pub open spec fn non_empty(text: Option<Seq<char>>) -> Option<Seq<char>> {
    match text {
        Some(s) => if s.len() > 0 {
            Some(s)
        } else {
            None
        },
        None => None,
    }
}

/// A text, where it is not empty.
pub fn keep_non_empty(text: Option<String>) -> (result: Option<String>)
    ensures
        opt_text(result) == non_empty(opt_text(text)),
{
    match text {
        Some(s) => {
            if s.as_str().is_empty() {
                None
            } else {
                Some(s)
            }
        },
        None => None,
    }
}

/// What the first meta element that a selector selects says.
pub open spec fn meta_of(html: Seq<char>, selector: Seq<char>) -> Option<Seq<char>> {
    match first_attribute(found(selected(html, selector, seq!["content"@]))) {
        Some(content) => non_empty(Some(normal(content))),
        None => None,
    }
}

/// What the first meta element that a selector selects says.
pub fn meta_content(html: &str, selector: &str) -> (result: Option<String>)
    requires
        page_fits(html@),
    ensures
        opt_text(result) == meta_of(html@, selector@),
{
    let names = one_name("content");
    let elements: Vec<HtmlElement> = match select(html, selector, &names) {
        Some(list) => list,
        None => return None,
    };
    let ghost all = element_views(elements@);
    assert(all.skip(0) == all);
    for i in 0..elements.len()
        invariant
            all == element_views(elements@),
            have_attributes(all, 1),
            meta_of(html@, selector@) == match first_attribute(all.skip(i as int)) {
                Some(content) => non_empty(Some(normal(content))),
                None => None,
            },
    {
        let e = &elements[i];
        proof {
            assert(all.skip(i as int)[0] == all[i as int]);
            assert(all.skip(i as int).drop_first() == all.skip(i + 1));
            assert(all[i as int].attributes.len() == 1);
            assert(opt_texts(e.attributes@).len() == 1);
        }
        match &e.attributes[0] {
            Some(content) => {
                return keep_non_empty(Some(normalize_ws(content)));
            },
            None => {},
        }
    }
    None
}

/// The first text among those of some elements that is not empty.
pub open spec fn first_said(elements: Seq<ElementView>) -> Option<Seq<char>>
    decreases elements.len(),
{
    if elements.len() == 0 {
        None
    } else if text_of(elements[0]).len() > 0 {
        Some(text_of(elements[0]))
    } else {
        first_said(elements.drop_first())
    }
}

/// The first text of the elements that a selector selects that is not empty.
pub fn first_text(html: &str, selector: &str) -> (result: Option<String>)
    requires
        page_fits(html@),
    ensures
        opt_text(result) == first_said(found_in(html@, selector@)),
{
    let elements = find(html, selector);
    let ghost all = element_views(elements@);
    assert(all.skip(0) == all);
    for i in 0..elements.len()
        invariant
            all == element_views(elements@),
            first_said(found_in(html@, selector@)) == first_said(all.skip(i as int)),
    {
        proof {
            assert(all.skip(i as int)[0] == all[i as int]);
            assert(all.skip(i as int).drop_first() == all.skip(i + 1));
        }
        let text = element_text(&elements[i]);
        if !text.as_str().is_empty() {
            return Some(text);
        }
    }
    None
}

/// The texts of some elements that are not empty.
pub open spec fn said_texts(elements: Seq<ElementView>) -> Seq<Seq<char>>
    decreases elements.len(),
{
    if elements.len() == 0 {
        Seq::empty()
    } else if text_of(elements.last()).len() > 0 {
        said_texts(elements.drop_last()).push(text_of(elements.last()))
    } else {
        said_texts(elements.drop_last())
    }
}

fn collect_texts(elements: &Vec<HtmlElement>) -> (result: Vec<String>)
    ensures
        texts(result@) == said_texts(element_views(elements@)),
{
    let ghost all = element_views(elements@);
    let mut out: Vec<String> = Vec::new();
    for i in 0..elements.len()
        invariant
            all == element_views(elements@),
            texts(out@) == said_texts(all.take(i as int)),
    {
        proof {
            lemma_take_next(all, i as int);
            assert(all.take(i + 1).drop_last() == all.take(i as int));
        }
        let text = element_text(&elements[i]);
        if !text.as_str().is_empty() {
            out.push(text);
        }
    }
    assert(all.take(all.len() as int) == all);
    out
}

/// The texts of the elements that a selector selects that are not empty, sorted and each once.
pub fn select_texts(html: &str, selector: &str) -> (result: Vec<String>)
    requires
        page_fits(html@),
    ensures
        texts(result@) == sorted_texts(said_texts(found_in(html@, selector@))),
{
    let elements = find(html, selector);
    let said = collect_texts(&elements);
    sort_unique(&said)
}

/// The text of the first of some elements, or the empty text.
pub open spec fn head_text(elements: Seq<ElementView>) -> Seq<char> {
    if elements.len() > 0 {
        text_of(elements[0])
    } else {
        Seq::empty()
    }
}

fn text_of_first(elements: &Vec<HtmlElement>) -> (result: String)
    ensures
        result@ == head_text(element_views(elements@)),
{
    if elements.len() > 0 {
        element_text(&elements[0])
    } else {
        String::new()
    }
}

/// A text with every occurrence of each of some parts taken out, one part after the other.
pub open spec fn without_parts(text: Seq<char>, parts: Seq<Seq<char>>) -> Seq<char>
    decreases parts.len(),
{
    if parts.len() == 0 {
        text
    } else {
        without_part(without_parts(text, parts.drop_last()), parts.last())
    }
}

/// The value of a detail before it is made normal: what its boxes say, or else its text without
/// what its marked links say.
pub open spec fn raw_value(
    boxes: Seq<Seq<char>>,
    text: Seq<char>,
    marked: Seq<Seq<char>>,
) -> Seq<char> {
    if boxes.len() > 0 {
        joined(boxes, " "@)
    } else {
        without_parts(text, marked)
    }
}

/// The value of a detail before it is made normal: what its boxes say, or else its text without
/// what its marked links say. The texts of the marked links are not empty.
pub fn raw_detail_value(boxes: &Vec<String>, text: &str, marked: &Vec<String>) -> (result: String)
    requires
        forall|i: int| 0 <= i < marked@.len() ==> (#[trigger] marked@[i])@.len() > 0,
    ensures
        result@ == raw_value(texts(boxes@), text@, texts(marked@)),
{
    if boxes.len() > 0 {
        return join(boxes, " ");
    }
    let ghost all = texts(marked@);
    let mut out: String = text.to_owned();
    for i in 0..marked.len()
        invariant
            forall|k: int| 0 <= k < marked@.len() ==> (#[trigger] marked@[k])@.len() > 0,
            all == texts(marked@),
            out@ == without_parts(text@, all.take(i as int)),
    {
        proof {
            lemma_take_next(all, i as int);
            assert(all.take(i + 1).drop_last() == all.take(i as int));
            assert(marked@[i as int]@.len() > 0);
        }
        out = remove_part(&out, &marked[i]);
    }
    assert(all.take(all.len() as int) == all);
    out
}

proof fn lemma_said_not_empty(elements: Seq<ElementView>, i: int)
    requires
        0 <= i < said_texts(elements).len(),
    ensures
        said_texts(elements)[i].len() > 0,
    decreases elements.len(),
{
    if elements.len() > 0 {
        if i < said_texts(elements.drop_last()).len() {
            lemma_said_not_empty(elements.drop_last(), i);
        }
    }
}

/// The value of a detail.
pub open spec fn value_text(
    node: ElementView,
    boxes: Seq<ElementView>,
    marked: Seq<ElementView>,
) -> Seq<char> {
    normal(raw_value(said_texts(boxes), text_of(node), said_texts(marked)))
}

/// The value of a detail, from its element and the boxes and marked links inside.
pub fn detail_value_text(
    node: &HtmlElement,
    boxes: &Vec<HtmlElement>,
    marked: &Vec<HtmlElement>,
) -> (result: String)
    ensures
        result@ == value_text(node@, element_views(boxes@), element_views(marked@)),
{
    let box_texts = collect_texts(boxes);
    let marked_texts = collect_texts(marked);
    let text = element_text(node);
    assert forall|i: int| 0 <= i < marked_texts@.len() implies (
    #[trigger] marked_texts@[i])@.len() > 0 by {
        lemma_said_not_empty(element_views(marked@), i);
        assert(texts(marked_texts@)[i] == marked_texts@[i]@);
    }
    let raw = raw_detail_value(&box_texts, &text, &marked_texts);
    normalize_ws(&raw)
}

/// The links that some anchors make, with their texts.
pub open spec fn links_of(anchors: Seq<ElementView>, base: Seq<char>) -> Seq<(Seq<char>, Seq<char>)>
    decreases anchors.len(),
{
    if anchors.len() == 0 {
        Seq::empty()
    } else {
        let before = links_of(anchors.drop_last(), base);
        match anchors.last().attributes[0] {
            Some(href) => before.push((text_of(anchors.last()), absolute(base, href))),
            None => before,
        }
    }
}

/// The links that some anchors make, with their texts.
pub fn extract_links(anchors: &Vec<HtmlElement>, base_url: &str) -> (result: Vec<Link>)
    requires
        have_attributes(element_views(anchors@), 1),
    ensures
        link_views(result@) == links_of(element_views(anchors@), base_url@),
{
    let ghost all = element_views(anchors@);
    let mut out: Vec<Link> = Vec::new();
    for i in 0..anchors.len()
        invariant
            all == element_views(anchors@),
            have_attributes(all, 1),
            link_views(out@) == links_of(all.take(i as int), base_url@),
    {
        let e = &anchors[i];
        proof {
            lemma_take_next(all, i as int);
            assert(all.take(i + 1).drop_last() == all.take(i as int));
            assert(all[i as int].attributes.len() == 1);
            assert(opt_texts(e.attributes@).len() == 1);
        }
        match &e.attributes[0] {
            Some(href) => {
                let link = Link { text: element_text(e), href: absolutize(base_url, href) };
                assert(link@ == (text_of(all[i as int]), absolute(base_url@, href@)));
                out.push(link);
            },
            None => {},
        }
    }
    assert(all.take(all.len() as int) == all);
    out
}

/// The detail that a row of the table shows, unless it is empty.
pub open spec fn detail_of(
    left: Seq<ElementView>,
    right: Seq<ElementView>,
    boxes: Seq<ElementView>,
    marked: Seq<ElementView>,
    anchors: Seq<ElementView>,
    base: Seq<char>,
) -> Option<DetailView> {
    let label = head_text(left);
    let value = if right.len() > 0 {
        value_text(right[0], boxes, marked)
    } else {
        Seq::empty()
    };
    if label.len() == 0 && value.len() == 0 {
        None
    } else {
        Some(
            DetailView {
                label,
                value,
                links: if right.len() > 0 {
                    links_of(anchors, base)
                } else {
                    Seq::empty()
                },
            },
        )
    }
}

/// The texts of an optional detail.
pub open spec fn opt_detail(field: Option<DetailField>) -> Option<DetailView> {
    match field {
        Some(f) => Some(f@),
        None => None,
    }
}

/// The detail that a row of the table shows, unless it is empty.
pub fn detail_field(
    left: &Vec<HtmlElement>,
    right: &Vec<HtmlElement>,
    boxes: &Vec<HtmlElement>,
    marked: &Vec<HtmlElement>,
    anchors: &Vec<HtmlElement>,
    base_url: &str,
) -> (result: Option<DetailField>)
    requires
        have_attributes(element_views(anchors@), 1),
    ensures
        opt_detail(result) == detail_of(
            element_views(left@),
            element_views(right@),
            element_views(boxes@),
            element_views(marked@),
            element_views(anchors@),
            base_url@,
        ),
{
    let label = text_of_first(left);
    let mut value: String = String::new();
    let mut links: Vec<Link> = Vec::new();
    if right.len() > 0 {
        value = detail_value_text(&right[0], boxes, marked);
    }
    if label.as_str().is_empty() && value.as_str().is_empty() {
        return None;
    }
    if right.len() > 0 {
        links = extract_links(anchors, base_url);
    }
    assert(right@.len() == 0 ==> link_views(links@) =~= Seq::empty());
    Some(DetailField { label, value, links })
}

/// The places of some elements.
pub open spec fn nodes_of(elements: Seq<ElementView>) -> Seq<usize> {
    elements.map_values(|e: ElementView| e.node)
}

fn collect_nodes(elements: &Vec<HtmlElement>) -> (result: Vec<usize>)
    ensures
        result@ == nodes_of(element_views(elements@)),
{
    let ghost all = nodes_of(element_views(elements@));
    let mut out: Vec<usize> = Vec::new();
    for i in 0..elements.len()
        invariant
            all == nodes_of(element_views(elements@)),
            out@ == all.take(i as int),
    {
        out.push(elements[i].node);
        proof {
            lemma_take_next(all, i as int);
        }
    }
    assert(all.take(all.len() as int) == all);
    out
}

/// Whether a heading is that of the table of details.
pub open spec fn heads_details(heading: Seq<char>) -> bool {
    has_text(heading, "Детальная информация"@)
}

/// The places of the sections whose first heading is that of the table of details.
pub open spec fn detail_sections(
    sections: Seq<ElementView>,
    headings: Seq<Seq<ElementView>>,
) -> Seq<usize>
    decreases sections.len(),
{
    if sections.len() == 0 {
        Seq::empty()
    } else {
        let n = sections.len() - 1;
        let before = detail_sections(sections.drop_last(), headings);
        if heads_details(head_text(headings[n])) {
            before.push(sections[n].node)
        } else {
            before
        }
    }
}

/// The places of the elements of some lists, one list after the other.
pub open spec fn all_nodes(lists: Seq<Seq<ElementView>>) -> Seq<usize>
    decreases lists.len(),
{
    if lists.len() == 0 {
        Seq::empty()
    } else {
        all_nodes(lists.drop_last()) + nodes_of(lists.last())
    }
}

/// The places of the first elements of some lists, or that of the document where a list is empty.
pub open spec fn first_nodes(lists: Seq<Seq<ElementView>>) -> Seq<usize> {
    lists.map_values(
        |l: Seq<ElementView>|
            if l.len() > 0 {
                l[0].node
            } else {
                0
            },
    )
}

/// The details of so many rows.
pub open spec fn details_of_rows(
    left: Seq<Seq<ElementView>>,
    right: Seq<Seq<ElementView>>,
    boxes: Seq<Seq<ElementView>>,
    marked: Seq<Seq<ElementView>>,
    anchors: Seq<Seq<ElementView>>,
    base: Seq<char>,
    n: nat,
) -> Seq<DetailView>
    decreases n,
{
    if n == 0 {
        Seq::empty()
    } else {
        let i = n - 1;
        let before = details_of_rows(left, right, boxes, marked, anchors, base, i as nat);
        match detail_of(left[i], right[i], boxes[i], marked[i], anchors[i], base) {
            Some(field) => before.push(field),
            None => before,
        }
    }
}

/// The details that some rows of a document show.
pub open spec fn details_in_rows(html: Seq<char>, rows: Seq<usize>, base: Seq<char>) -> Seq<
    DetailView,
> {
    match (
        selected_inside(html, rows, ".cards-table__left"@, Seq::empty()),
        selected_inside(html, rows, ".cards-table__right"@, Seq::empty()),
    ) {
        (Some(left), Some(right)) => {
            let values = first_nodes(right);
            match (
                selected_inside(html, values, ".cards-table__right_box"@, Seq::empty()),
                selected_inside(html, values, ".cards-table__right_link"@, Seq::empty()),
                selected_inside(html, values, "a[href]"@, seq!["href"@]),
            ) {
                (Some(boxes), Some(marked), Some(anchors)) => details_of_rows(
                    left,
                    right,
                    boxes,
                    marked,
                    anchors,
                    base,
                    rows.len(),
                ),
                _ => Seq::empty(),
            }
        },
        _ => Seq::empty(),
    }
}

/// The details that a card page shows.
pub open spec fn card_details(html: Seq<char>, base: Seq<char>) -> Seq<DetailView> {
    match selected(html, ".cards-section"@, Seq::empty()) {
        None => Seq::empty(),
        Some(sections) => match selected_inside(html, nodes_of(sections), "h2"@, Seq::empty()) {
            None => Seq::empty(),
            Some(headings) => match selected_inside(
                html,
                detail_sections(sections, headings),
                ".cards-table__row"@,
                Seq::empty(),
            ) {
                None => Seq::empty(),
                Some(rows) => details_in_rows(html, all_nodes(rows), base),
            },
        },
    }
}

fn no_details() -> (result: Vec<DetailField>)
    ensures
        detail_views(result@) == Seq::<DetailView>::empty(),
{
    let none: Vec<DetailField> = Vec::new();
    assert(detail_views(none@) =~= Seq::empty());
    none
}

/// The details that some rows of a document show.
fn extract_rows(html: &str, rows: &Vec<usize>, base_url: &str) -> (result: Vec<DetailField>)
    requires
        page_fits(html@),
    ensures
        detail_views(result@) == details_in_rows(html@, rows@, base_url@),
{
    let none: Vec<String> = Vec::new();
    let href = one_name("href");
    let (left, right) = match (
        select_inside(html, rows, ".cards-table__left", &none),
        select_inside(html, rows, ".cards-table__right", &none),
    ) {
        (Some(left), Some(right)) => (left, right),
        _ => return no_details(),
    };
    let ghost rights = element_lists(right@);
    let ghost wanted = first_nodes(rights);
    let mut values: Vec<usize> = Vec::new();
    for i in 0..right.len()
        invariant
            rights == element_lists(right@),
            wanted == first_nodes(rights),
            values@ == wanted.take(i as int),
    {
        proof {
            lemma_take_next(wanted, i as int);
            assert(rights[i as int] == element_views(right@[i as int]@));
        }
        if right[i].len() > 0 {
            values.push(right[i][0].node);
        } else {
            values.push(0);
        }
    }
    assert(wanted.take(wanted.len() as int) == wanted);
    let (boxes, marked, anchors) = match (
        select_inside(html, &values, ".cards-table__right_box", &none),
        select_inside(html, &values, ".cards-table__right_link", &none),
        select_inside(html, &values, "a[href]", &href),
    ) {
        (Some(boxes), Some(marked), Some(anchors)) => (boxes, marked, anchors),
        _ => return no_details(),
    };
    let ghost l = element_lists(left@);
    let ghost b = element_lists(boxes@);
    let ghost m = element_lists(marked@);
    let ghost a = element_lists(anchors@);
    let mut out = no_details();
    for i in 0..rows.len()
        invariant
            left@.len() == rows@.len(),
            right@.len() == rows@.len(),
            boxes@.len() == rows@.len(),
            marked@.len() == rows@.len(),
            anchors@.len() == rows@.len(),
            forall|k: int|
                0 <= k < anchors@.len() ==> have_attributes(
                    element_views((#[trigger] anchors@[k])@),
                    1,
                ),
            l == element_lists(left@),
            rights == element_lists(right@),
            b == element_lists(boxes@),
            m == element_lists(marked@),
            a == element_lists(anchors@),
            detail_views(out@) == details_of_rows(l, rights, b, m, a, base_url@, i as nat),
    {
        match detail_field(&left[i], &right[i], &boxes[i], &marked[i], &anchors[i], base_url) {
            Some(field) => {
                out.push(field);
            },
            None => {},
        }
    }
    out
}

/// The details that a card page shows.
pub fn extract_detail_fields(html: &str, base_url: &str) -> (result: Vec<DetailField>)
    requires
        page_fits(html@),
    ensures
        detail_views(result@) == card_details(html@, base_url@),
{
    let none: Vec<String> = Vec::new();
    let sections = match select(html, ".cards-section", &none) {
        Some(list) => list,
        None => return no_details(),
    };
    let ghost all = element_views(sections@);
    let nodes = collect_nodes(&sections);
    let headings = match select_inside(html, &nodes, "h2", &none) {
        Some(lists) => lists,
        None => return no_details(),
    };
    let ghost heads = element_lists(headings@);
    let mut chosen: Vec<usize> = Vec::new();
    for i in 0..sections.len()
        invariant
            all == element_views(sections@),
            heads == element_lists(headings@),
            headings@.len() == sections@.len(),
            chosen@ == detail_sections(all.take(i as int), heads),
    {
        proof {
            lemma_take_next(all, i as int);
            assert(all.take(i + 1).drop_last() == all.take(i as int));
            assert(heads[i as int] == element_views(headings@[i as int]@));
        }
        let heading = text_of_first(&headings[i]);
        if contains(&heading, "Детальная информация") {
            chosen.push(sections[i].node);
        }
    }
    assert(all.take(all.len() as int) == all);
    let lists = match select_inside(html, &chosen, ".cards-table__row", &none) {
        Some(lists) => lists,
        None => return no_details(),
    };
    let ghost views = element_lists(lists@);
    let mut rows: Vec<usize> = Vec::new();
    for i in 0..lists.len()
        invariant
            views == element_lists(lists@),
            rows@ == all_nodes(views.take(i as int)),
    {
        proof {
            lemma_take_next(views, i as int);
            assert(views.take(i + 1).drop_last() == views.take(i as int));
            assert(views[i as int] == element_views(lists@[i as int]@));
        }
        let mut more = collect_nodes(&lists[i]);
        rows.append(&mut more);
    }
    assert(views.take(views.len() as int) == views);
    extract_rows(html, &rows, base_url)
}

/// Whether a link leads to a PDF file, by its address and text in lower case.
pub open spec fn leads_to_pdf(href: Seq<char>, text: Seq<char>) -> bool {
    has_text(href, "doc_type=pdf"@) || finishes_with(href, ".pdf"@) || (has_text(text, "pdf"@)
        && has_text(href, "getfiles.php"@))
}

/// Whether a link leads to a PDF file, by its address and text in lower case.
pub fn is_pdf_link(href_lower: &str, text_lower: &str) -> (result: bool)
    ensures
        result == leads_to_pdf(href_lower@, text_lower@),
{
    contains(href_lower, "doc_type=pdf") || ends_with(href_lower, ".pdf") || (contains(
        text_lower,
        "pdf",
    ) && contains(href_lower, "getfiles.php"))
}

/// The address of an anchor, or the empty text.
pub open spec fn anchor_href(anchor: ElementView) -> Seq<char> {
    match anchor.attributes[0] {
        Some(href) => href,
        None => Seq::empty(),
    }
}

/// Where the anchors that lead to PDF files lead to.
pub open spec fn pdf_targets(anchors: Seq<ElementView>, base: Seq<char>) -> Seq<Seq<char>>
    decreases anchors.len(),
{
    if anchors.len() == 0 {
        Seq::empty()
    } else {
        let before = pdf_targets(anchors.drop_last(), base);
        let href = anchor_href(anchors.last());
        if leads_to_pdf(lowered(href), lowered(text_of(anchors.last()))) {
            before.push(absolute(base, href))
        } else {
            before
        }
    }
}

/// The links of a card page to PDF files, each once.
pub open spec fn card_pdf_links(html: Seq<char>, base: Seq<char>) -> Seq<Seq<char>> {
    first_occurrences(
        pdf_targets(found(selected(html, "a[href]"@, seq!["href"@])), base),
    )
}

/// The links of a card page to PDF files, each once.
pub fn extract_pdf_links(html: &str, base_url: &str) -> (result: Vec<String>)
    requires
        page_fits(html@),
    ensures
        texts(result@) == card_pdf_links(html@, base_url@),
{
    let names = one_name("href");
    let anchors: Vec<HtmlElement> = match select(html, "a[href]", &names) {
        Some(list) => list,
        None => Vec::new(),
    };
    let ghost all = element_views(anchors@);
    assert(all =~= found(selected(html@, "a[href]"@, seq!["href"@])));
    assert(have_attributes(all, 1));
    let mut out: Vec<String> = Vec::new();
    for i in 0..anchors.len()
        invariant
            all == element_views(anchors@),
            have_attributes(all, 1),
            texts(out@) == pdf_targets(all.take(i as int), base_url@),
    {
        let e = &anchors[i];
        proof {
            lemma_take_next(all, i as int);
            assert(all.take(i + 1).drop_last() == all.take(i as int));
            assert(all[i as int].attributes.len() == 1);
            assert(opt_texts(e.attributes@).len() == 1);
        }
        let href = match &e.attributes[0] {
            Some(href) => href.clone(),
            None => String::new(),
        };
        let text = element_text(e);
        let text_lower = to_lower(&text);
        let href_lower = to_lower(&href);
        if is_pdf_link(&href_lower, &text_lower) {
            out.push(absolutize(base_url, &href));
        }
    }
    assert(all.take(all.len() as int) == all);
    dedup(out)
}

/// The values of some details under their labels.
pub open spec fn values_by_label(fields: Seq<DetailView>) -> Map<Seq<char>, Seq<Seq<char>>>
    decreases fields.len(),
{
    if fields.len() == 0 {
        Map::empty()
    } else {
        let before = values_by_label(fields.drop_last());
        let field = fields.last();
        if field.label.len() == 0 || field.value.len() == 0 {
            before
        } else {
            with_appended(before, field.label, field.value)
        }
    }
}

/// The values of some details under their labels.
pub fn detail_map(fields: &Vec<DetailField>) -> (result: TextMap<Vec<String>>)
    ensures
        result.well_formed(),
        list_map_view(result) == values_by_label(detail_views(fields@)),
{
    let ghost all = detail_views(fields@);
    let mut out: TextMap<Vec<String>> = TextMap::new();
    assert(list_map_view(out) =~= Map::empty());
    for i in 0..fields.len()
        invariant
            all == detail_views(fields@),
            out.well_formed(),
            list_map_view(out) == values_by_label(all.take(i as int)),
    {
        proof {
            lemma_take_next(all, i as int);
            assert(all.take(i + 1).drop_last() == all.take(i as int));
        }
        let field = &fields[i];
        if !field.label.as_str().is_empty() && !field.value.as_str().is_empty() {
            push_text(&mut out, field.label.clone(), field.value.clone());
        }
    }
    assert(all.take(all.len() as int) == all);
    out
}

/// The values that a table of details has under a label, from top to bottom.
pub open spec fn values_with_label(fields: Seq<DetailView>, label: Seq<char>) -> Seq<Seq<char>>
    decreases fields.len(),
{
    if fields.len() == 0 {
        Seq::empty()
    } else if fields.last().label == label && fields.last().value.len() > 0 {
        values_with_label(fields.drop_last(), label).push(fields.last().value)
    } else {
        values_with_label(fields.drop_last(), label)
    }
}

/// A label of the table of details leads to the values under it, from top to bottom; a label that
/// has none, or is empty, leads nowhere.
pub proof fn law_details_keep_their_order(fields: Seq<DetailView>, label: Seq<char>)
    ensures
        values_by_label(fields).contains_key(label) <==> label.len() > 0 && values_with_label(
            fields,
            label,
        ).len() > 0,
        values_by_label(fields).contains_key(label) ==> values_by_label(fields)[label]
            == values_with_label(fields, label),
    decreases fields.len(),
{
    if fields.len() > 0 {
        law_details_keep_their_order(fields.drop_last(), label);
        let before = values_by_label(fields.drop_last());
        if fields.last().label == label && label.len() > 0 && fields.last().value.len() > 0
            && !before.contains_key(label) {
            assert(values_with_label(fields.drop_last(), label) =~= Seq::empty());
        }
    }
}

/// The first value under a label, where it is not empty.
pub open spec fn value_under(map: Map<Seq<char>, Seq<Seq<char>>>, label: Seq<char>) -> Option<
    Seq<char>,
> {
    if map.contains_key(label) && map[label].len() > 0 {
        non_empty(Some(map[label][0]))
    } else {
        None
    }
}

/// The first value under the first of some labels that has one.
pub open spec fn first_value(
    map: Map<Seq<char>, Seq<Seq<char>>>,
    labels: Seq<Seq<char>>,
) -> Option<Seq<char>>
    decreases labels.len(),
{
    if labels.len() == 0 {
        None
    } else {
        match value_under(map, labels[0]) {
            Some(value) => Some(value),
            None => first_value(map, labels.drop_first()),
        }
    }
}

/// The first value under the first of some labels that has one.
pub fn first_detail_value(map: &TextMap<Vec<String>>, labels: &Vec<String>) -> (result: Option<
    String,
>)
    requires
        map.well_formed(),
    ensures
        opt_text(result) == first_value(list_map_view(*map), texts(labels@)),
{
    let ghost view = list_map_view(*map);
    let ghost all = texts(labels@);
    assert(all.skip(0) == all);
    for i in 0..labels.len()
        invariant
            map.well_formed(),
            view == list_map_view(*map),
            all == texts(labels@),
            first_value(view, all) == first_value(view, all.skip(i as int)),
    {
        proof {
            assert(all.skip(i as int)[0] == all[i as int]);
            assert(all.skip(i as int).drop_first() == all.skip(i + 1));
        }
        match map.get(&labels[i]) {
            Some(values) => {
                assert(view[all[i as int]] == texts(values@));
                if values.len() > 0 && !values[0].as_str().is_empty() {
                    return Some(values[0].clone());
                }
            },
            None => {},
        }
    }
    None
}

/// Whether a label is that of a topic.
pub open spec fn names_topic(label: Seq<char>) -> bool {
    has_text(label, "Тем"@) || has_text(label, "Предмет"@) || has_text(label, "ББК"@) || has_text(
        label,
        "УДК"@,
    ) || has_text(label, "Ключ"@)
}

/// The values of the details that are topics.
pub open spec fn topic_values(fields: Seq<DetailView>) -> Seq<Seq<char>>
    decreases fields.len(),
{
    if fields.len() == 0 {
        Seq::empty()
    } else if names_topic(fields.last().label) {
        topic_values(fields.drop_last()).push(fields.last().value)
    } else {
        topic_values(fields.drop_last())
    }
}

/// The values of the details that are topics, each once.
pub fn detail_topics(fields: &Vec<DetailField>) -> (result: Vec<String>)
    ensures
        texts(result@) == first_occurrences(topic_values(detail_views(fields@))),
{
    let ghost all = detail_views(fields@);
    let mut out: Vec<String> = Vec::new();
    for i in 0..fields.len()
        invariant
            all == detail_views(fields@),
            texts(out@) == topic_values(all.take(i as int)),
    {
        proof {
            lemma_take_next(all, i as int);
            assert(all.take(i + 1).drop_last() == all.take(i as int));
        }
        let label = &fields[i].label;
        if contains(label, "Тем") || contains(label, "Предмет") || contains(label, "ББК")
            || contains(label, "УДК") || contains(label, "Ключ") {
            out.push(fields[i].value.clone());
        }
    }
    assert(all.take(all.len() as int) == all);
    dedup(out)
}

/// The first of two optional texts that is there.
pub open spec fn or_text(a: Option<Seq<char>>, b: Option<Seq<char>>) -> Option<Seq<char>> {
    if a is Some {
        a
    } else {
        b
    }
}

/// The text that a key of a map leads to.
pub open spec fn text_under(map: Map<Seq<char>, Seq<char>>, key: Seq<char>) -> Option<Seq<char>> {
    if map.contains_key(key) {
        Some(map[key])
    } else {
        None
    }
}

fn text_for(map: &TextMap<String>, key: &str) -> (result: Option<String>)
    requires
        map.well_formed(),
    ensures
        opt_text(result) == text_under(text_map_view(*map), key@),
{
    match map.get(key) {
        Some(text) => {
            assert(text_map_view(*map)[key@] == text@);
            Some(text.clone())
        },
        None => None,
    }
}

fn either(a: Option<String>, b: Option<String>) -> (result: Option<String>)
    ensures
        opt_text(result) == or_text(opt_text(a), opt_text(b)),
{
    if a.is_some() {
        a
    } else {
        b
    }
}

/// What was read from a card page.
#[derive(Debug)]
pub struct CardParts {
    pub og: TextMap<String>,
    pub meta_title: Option<String>,
    pub heading: Option<String>,
    pub page_title: Option<String>,
    pub meta_description: Option<String>,
    pub gray_text: Option<String>,
    pub authors: Vec<String>,
    pub bibliographic_description: Option<String>,
    pub detail: Vec<DetailField>,
    pub pdf_links: Vec<String>,
}

/// The labels under which a card shows the year.
pub open spec fn year_labels() -> Seq<Seq<char>> {
    seq!["Год издания"@, "Год издания/создания"@]
}

/// What a card says of an item, from its parts.
pub open spec fn metadata_of(parts: CardParts) -> MetadataView {
    let og = text_map_view(parts.og);
    let detail = detail_views(parts.detail@);
    MetadataView {
        title: or_text(
            text_under(og, "title"@),
            or_text(
                opt_text(parts.meta_title),
                or_text(opt_text(parts.heading), opt_text(parts.page_title)),
            ),
        ),
        authors: texts(parts.authors@),
        year: or_text(
            text_under(og, "release_date"@),
            first_value(values_by_label(detail), year_labels()),
        ),
        bibliographic_description: opt_text(parts.bibliographic_description),
        description: or_text(
            opt_text(parts.meta_description),
            or_text(text_under(og, "description"@), opt_text(parts.gray_text)),
        ),
        detail,
        detail_map: values_by_label(detail),
        topics: first_occurrences(topic_values(detail)),
        pdf_links: texts(parts.pdf_links@),
        og,
    }
}

/// What a card says of an item, from its parts.
pub fn assemble_card(parts: CardParts) -> (result: CardMetadata)
    requires
        parts.og.well_formed(),
    ensures
        result@ == metadata_of(parts),
        result.well_formed(),
{
    let mut labels: Vec<String> = Vec::new();
    labels.push("Год издания".to_owned());
    labels.push("Год издания/создания".to_owned());
    assert(texts(labels@) =~= year_labels());
    let by_label = detail_map(&parts.detail);
    let topics = detail_topics(&parts.detail);
    let year = either(text_for(&parts.og, "release_date"), first_detail_value(&by_label, &labels));
    let title = either(
        text_for(&parts.og, "title"),
        either(parts.meta_title, either(parts.heading, parts.page_title)),
    );
    let description = either(
        parts.meta_description,
        either(text_for(&parts.og, "description"), parts.gray_text),
    );
    CardMetadata {
        title,
        authors: parts.authors,
        year,
        bibliographic_description: parts.bibliographic_description,
        description,
        detail: parts.detail,
        detail_map: by_label,
        topics,
        pdf_links: parts.pdf_links,
        og: parts.og,
    }
}

/// What a card page says of an item.
pub open spec fn card_of(html: Seq<char>, base: Seq<char>) -> MetadataView {
    let og = og_of(meta_elements(html));
    let detail = card_details(html, base);
    MetadataView {
        title: or_text(
            text_under(og, "title"@),
            or_text(
                meta_of(html, "meta[name=\"title\"]"@),
                or_text(first_said(found_in(html, "h1"@)), first_said(found_in(html, "title"@))),
            ),
        ),
        authors: sorted_texts(said_texts(found_in(html, "[itemprop=\"author\"]"@))),
        year: or_text(
            text_under(og, "release_date"@),
            first_value(values_by_label(detail), year_labels()),
        ),
        bibliographic_description: first_said(found_in(html, "#toClipBoard"@)),
        description: or_text(
            meta_of(html, "meta[name=\"description\"]"@),
            or_text(
                text_under(og, "description"@),
                first_said(found_in(html, ".cards-content .color_gray"@)),
            ),
        ),
        detail,
        detail_map: values_by_label(detail),
        topics: first_occurrences(topic_values(detail)),
        pdf_links: card_pdf_links(html, base),
        og,
    }
}

/// What a card page says of an item.
pub fn parse_card_metadata(html: &str, base_url: &str) -> (result: CardMetadata)
    requires
        page_fits(html@),
    ensures
        result@ == card_of(html@, base_url@),
        result.well_formed(),
{
    assemble_card(
        CardParts {
            og: extract_og(html),
            meta_title: meta_content(html, "meta[name=\"title\"]"),
            heading: first_text(html, "h1"),
            page_title: first_text(html, "title"),
            meta_description: meta_content(html, "meta[name=\"description\"]"),
            gray_text: first_text(html, ".cards-content .color_gray"),
            authors: select_texts(html, "[itemprop=\"author\"]"),
            bibliographic_description: first_text(html, "#toClipBoard"),
            detail: extract_detail_fields(html, base_url),
            pdf_links: extract_pdf_links(html, base_url),
        },
    )
}

/// The links of a detail are those of its anchors, one for each and in their order.
pub proof fn law_links_follow_anchors(anchors: Seq<ElementView>, base: Seq<char>)
    requires
        forall|i: int|
            0 <= i < anchors.len() ==> (#[trigger] anchors[i]).attributes.len() > 0
                && anchors[i].attributes[0] is Some,
    ensures
        links_of(anchors, base).len() == anchors.len(),
        forall|i: int|
            0 <= i < anchors.len() ==> (#[trigger] links_of(anchors, base)[i]).0 == text_of(
                anchors[i],
            ) && links_of(anchors, base)[i].1 == absolute(
                base,
                anchors[i].attributes[0].unwrap(),
            ),
    decreases anchors.len(),
{
    if anchors.len() > 0 {
        let rest = anchors.drop_last();
        assert forall|i: int| 0 <= i < rest.len() implies (
        #[trigger] rest[i]).attributes.len() > 0 && rest[i].attributes[0] is Some by {
            assert(rest[i] == anchors[i]);
        }
        law_links_follow_anchors(rest, base);
        assert forall|i: int| 0 <= i < anchors.len() implies (
        #[trigger] links_of(anchors, base)[i]).0 == text_of(anchors[i])
            && links_of(anchors, base)[i].1 == absolute(
            base,
            anchors[i].attributes[0].unwrap(),
        ) by {
            if i < rest.len() {
                assert(links_of(anchors, base)[i] == links_of(rest, base)[i]);
                assert(rest[i] == anchors[i]);
            }
        }
    }
}

/// The links of some anchors and of more behind them are those of the first and then those of the
/// others; an anchor that leads nowhere makes no link.
pub proof fn law_links_split(a: Seq<ElementView>, b: Seq<ElementView>, base: Seq<char>)
    ensures
        links_of(a + b, base) == links_of(a, base) + links_of(b, base),
        b.len() == 1 && b[0].attributes[0] is None ==> links_of(b, base).len() == 0,
    decreases b.len(),
{
    if b.len() == 0 {
        assert(a + b =~= a);
    } else {
        law_links_split(a, b.drop_last(), base);
        assert((a + b).drop_last() =~= a + b.drop_last());
    }
}

/// Whatever an element of a list says, unless it is nothing, is among the texts of the list, and
/// those of two lists follow each other.
pub proof fn law_said_texts(a: Seq<ElementView>, b: Seq<ElementView>, text: Seq<char>)
    ensures
        said_texts(a + b) == said_texts(a) + said_texts(b),
        said_texts(a).contains(text) <==> text.len() > 0 && exists|i: int|
            0 <= i < a.len() && text_of(#[trigger] a[i]) == text,
    decreases b.len(), a.len(),
{
    if b.len() == 0 {
        assert(a + b =~= a);
    } else {
        law_said_texts(a, b.drop_last(), text);
        assert((a + b).drop_last() =~= a + b.drop_last());
    }
    if b.len() == 0 && a.len() > 0 {
        law_said_texts(a.drop_last(), b, text);
        let before = said_texts(a.drop_last());
        let last = a.last();
        if said_texts(a).contains(text) {
            let k = said_texts(a).index_of(text);
            if k < before.len() {
                assert(before[k] == text);
                let i = choose|i: int|
                    0 <= i < a.drop_last().len() && text_of(#[trigger] a.drop_last()[i]) == text;
                assert(text_of(a[i]) == text);
            } else {
                assert(text_of(a[a.len() - 1]) == text);
            }
        }
        if text.len() > 0 && exists|i: int| 0 <= i < a.len() && text_of(#[trigger] a[i]) == text {
            let i = choose|i: int| 0 <= i < a.len() && text_of(#[trigger] a[i]) == text;
            if i < a.len() - 1 {
                assert(text_of(a.drop_last()[i]) == text);
                let k = before.index_of(text);
                assert(said_texts(a)[k] == text);
            } else {
                assert(said_texts(a)[before.len() as int] == text);
            }
        }
    } else if b.len() == 0 {
        assert(said_texts(a) =~= Seq::empty());
    }
}

/// What is found first is the text of the first element that says anything.
pub proof fn law_first_said(elements: Seq<ElementView>)
    ensures
        match first_said(elements) {
            Some(text) => text.len() > 0 && exists|i: int|
                0 <= i < elements.len() && text_of(#[trigger] elements[i]) == text && forall|k: int|
                    0 <= k < i ==> text_of(#[trigger] elements[k]).len() == 0,
            None => forall|i: int|
                0 <= i < elements.len() ==> text_of(#[trigger] elements[i]).len() == 0,
        },
    decreases elements.len(),
{
    if elements.len() > 0 {
        let rest = elements.drop_first();
        law_first_said(rest);
        if text_of(elements[0]).len() == 0 {
            match first_said(rest) {
                Some(text) => {
                    let i = choose|i: int|
                        0 <= i < rest.len() && text_of(#[trigger] rest[i]) == text && forall|k: int|
                            0 <= k < i ==> text_of(#[trigger] rest[k]).len() == 0;
                    assert(text_of(elements[i + 1]) == text);
                    assert forall|k: int| 0 <= k < i + 1 implies text_of(
                        #[trigger] elements[k],
                    ).len() == 0 by {
                        if k > 0 {
                            assert(rest[k - 1] == elements[k]);
                        }
                    }
                },
                None => {
                    assert forall|i: int| 0 <= i < elements.len() implies text_of(
                        #[trigger] elements[i],
                    ).len() == 0 by {
                        if i > 0 {
                            assert(rest[i - 1] == elements[i]);
                        }
                    }
                },
            }
        } else {
            assert(text_of(elements[0]) == first_said(elements).unwrap());
        }
    }
}

/// The first value is that of the first element that has one.
pub proof fn law_first_attribute(elements: Seq<ElementView>)
    ensures
        match first_attribute(elements) {
            Some(value) => exists|i: int|
                0 <= i < elements.len() && (#[trigger] elements[i]).attributes[0] == Some(value)
                    && forall|k: int| 0 <= k < i ==> (#[trigger] elements[k]).attributes[0] is None,
            None => forall|i: int|
                0 <= i < elements.len() ==> (#[trigger] elements[i]).attributes[0] is None,
        },
    decreases elements.len(),
{
    if elements.len() > 0 {
        let rest = elements.drop_first();
        law_first_attribute(rest);
        if elements[0].attributes[0] is None {
            match first_attribute(rest) {
                Some(value) => {
                    let i = choose|i: int|
                        0 <= i < rest.len() && (#[trigger] rest[i]).attributes[0] == Some(value)
                            && forall|k: int|
                            0 <= k < i ==> (#[trigger] rest[k]).attributes[0] is None;
                    assert(elements[i + 1].attributes[0] == Some(value));
                    assert forall|k: int| 0 <= k < i + 1 implies (
                    #[trigger] elements[k]).attributes[0] is None by {
                        if k > 0 {
                            assert(rest[k - 1] == elements[k]);
                        }
                    }
                },
                None => {
                    assert forall|i: int| 0 <= i < elements.len() implies (
                    #[trigger] elements[i]).attributes[0] is None by {
                        if i > 0 {
                            assert(rest[i - 1] == elements[i]);
                        }
                    }
                },
            }
        } else {
            assert(elements[0].attributes[0] == first_attribute(elements));
        }
    }
}

/// Whether a meta element says something under a name: its property, or else its name, is the name
/// behind `og:` or `book:`, and it has a content.
pub open spec fn says_under(e: ElementView, name: Seq<char>) -> bool {
    let key = if e.attributes[1] is Some {
        e.attributes[1]
    } else {
        e.attributes[2]
    };
    &&& e.attributes[0] is Some
    &&& key == Some("og:"@ + name) || key == Some("book:"@ + name)
}

/// A name leads to what the last meta element with this name says, and to nothing where there is
/// none.
pub proof fn law_last_meta_element_counts(elements: Seq<ElementView>, name: Seq<char>, last: int)
    requires
        0 <= last < elements.len(),
        says_under(elements[last], name),
        forall|i: int|
            last < i < elements.len() ==> !says_under(#[trigger] elements[i], name),
    ensures
        og_of(elements).contains_key(name),
        og_of(elements)[name] == normal(elements[last].attributes[0].unwrap()),
    decreases elements.len(),
{
    let e = elements.last();
    lemma_og_key(e, name);
    if last < elements.len() - 1 {
        let rest = elements.drop_last();
        assert(rest[last] == elements[last]);
        assert forall|i: int| last < i < rest.len() implies !says_under(
            #[trigger] rest[i],
            name,
        ) by {
            assert(rest[i] == elements[i]);
        }
        law_last_meta_element_counts(rest, name, last);
        assert(!says_under(elements[elements.len() - 1], name));
    }
}

/// A name that no meta element has leads to nothing.
pub proof fn law_other_names_lead_nowhere(elements: Seq<ElementView>, name: Seq<char>)
    requires
        forall|i: int| 0 <= i < elements.len() ==> !says_under(#[trigger] elements[i], name),
    ensures
        !og_of(elements).contains_key(name),
    decreases elements.len(),
{
    if elements.len() > 0 {
        let rest = elements.drop_last();
        assert forall|i: int| 0 <= i < rest.len() implies !says_under(#[trigger] rest[i], name) by {
            assert(rest[i] == elements[i]);
        }
        law_other_names_lead_nowhere(rest, name);
        lemma_og_key(elements.last(), name);
        assert(!says_under(elements[elements.len() - 1], name));
    }
}

/// A meta element says something under a name just where it has a content and its key leads there.
proof fn lemma_og_key(e: ElementView, name: Seq<char>)
    ensures
        says_under(e, name) <==> e.attributes[0] is Some && og_key(
            meta_key(e.attributes[1], e.attributes[2]),
        ) == Some(name),
{
    reveal_strlit("og:");
    reveal_strlit("book:");
    let key = meta_key(e.attributes[1], e.attributes[2]);
    law_prefix_is_taken_off(key, "og:"@, name);
    law_prefix_is_taken_off(key, "book:"@, name);
    if let Some(rest) = behind_prefix(key, "og:"@) {
        law_prefix_is_taken_off(key, "og:"@, rest);
        assert(key[0] == 'o');
    }
    if key == "book:"@ + name {
        assert(key[0] == 'b');
    }
}

/// An address that ends in `.pdf` or asks for a PDF document leads to a PDF file, and so does one
/// that fetches files where its text speaks of PDF.
pub proof fn law_pdf_links(
    href: Seq<char>,
    text: Seq<char>,
    before: Seq<char>,
    behind: Seq<char>,
)
    ensures
        href == before + ".pdf"@ ==> leads_to_pdf(href, text),
        href == before + "doc_type=pdf"@ + behind ==> leads_to_pdf(href, text),
        href == before + "getfiles.php"@ + behind && has_text(text, "pdf"@) ==> leads_to_pdf(
            href,
            text,
        ),
        leads_to_pdf(href, text) ==> finishes_with(href, ".pdf"@) || has_text(
            href,
            "doc_type=pdf"@,
        ) || (has_text(href, "getfiles.php"@) && has_text(text, "pdf"@)),
{
    let n = before.len() as int;
    if href == before + ".pdf"@ {
        assert(href.subrange(n, n + ".pdf"@.len()) =~= ".pdf"@);
        assert(stands_at(href, ".pdf"@, n));
    }
    if href == before + "doc_type=pdf"@ + behind {
        assert(href.subrange(n, n + "doc_type=pdf"@.len()) =~= "doc_type=pdf"@);
        assert(stands_at(href, "doc_type=pdf"@, n));
    }
    if href == before + "getfiles.php"@ + behind {
        assert(href.subrange(n, n + "getfiles.php"@.len()) =~= "getfiles.php"@);
        assert(stands_at(href, "getfiles.php"@, n));
    }
}

/// The addresses of the anchors that lead to PDF files, made absolute, are kept, and no others; and
/// those of two lists of anchors follow each other.
pub proof fn law_pdf_targets(a: Seq<ElementView>, b: Seq<ElementView>, base: Seq<char>)
    ensures
        pdf_targets(a + b, base) == pdf_targets(a, base) + pdf_targets(b, base),
        b.len() == 1 ==> ({
            let href = match b[0].attributes[0] {
                Some(href) => href,
                None => Seq::empty(),
            };
            if leads_to_pdf(lowered(href), lowered(text_of(b[0]))) {
                pdf_targets(b, base) == seq![absolute(base, href)]
            } else {
                pdf_targets(b, base).len() == 0
            }
        }),
    decreases b.len(),
{
    if b.len() == 0 {
        assert(a + b =~= a);
    } else {
        law_pdf_targets(a, b.drop_last(), base);
        assert((a + b).drop_last() =~= a + b.drop_last());
        if b.len() == 1 {
            assert(b.drop_last() =~= Seq::empty());
            assert(pdf_targets(b.drop_last(), base) =~= Seq::empty());
        }
    }
}

/// Every detail whose label speaks of a theme, a subject, the BBK, the UDC or keywords is a topic,
/// and no other is.
pub proof fn law_topics_of_details(fields: Seq<DetailView>, value: Seq<char>)
    ensures
        first_occurrences(topic_values(fields)).contains(value) <==> exists|i: int|
            0 <= i < fields.len() && (#[trigger] fields[i]).value == value && value.len() > 0 && (
            has_text(fields[i].label, "Тем"@) || has_text(fields[i].label, "Предмет"@) || has_text(
                fields[i].label,
                "ББК"@,
            ) || has_text(fields[i].label, "УДК"@) || has_text(fields[i].label, "Ключ"@)),
{
    law_first_occurrences(topic_values(fields));
    lemma_topic_values(fields, value);
}

proof fn lemma_topic_values(fields: Seq<DetailView>, value: Seq<char>)
    ensures
        topic_values(fields).contains(value) <==> exists|i: int|
            0 <= i < fields.len() && (#[trigger] fields[i]).value == value && names_topic(
                fields[i].label,
            ),
    decreases fields.len(),
{
    if fields.len() > 0 {
        let rest = fields.drop_last();
        let before = topic_values(rest);
        lemma_topic_values(rest, value);
        if topic_values(fields).contains(value) {
            let k = topic_values(fields).index_of(value);
            if k < before.len() {
                assert(before[k] == value);
                let i = choose|i: int|
                    0 <= i < rest.len() && (#[trigger] rest[i]).value == value && names_topic(
                        rest[i].label,
                    );
                assert(fields[i].value == value);
            } else {
                assert(fields[fields.len() - 1].value == value);
            }
        }
        if exists|i: int|
            0 <= i < fields.len() && (#[trigger] fields[i]).value == value && names_topic(
                fields[i].label,
            ) {
            let i = choose|i: int|
                0 <= i < fields.len() && (#[trigger] fields[i]).value == value && names_topic(
                    fields[i].label,
                );
            if i < rest.len() {
                assert(rest[i].value == value);
                let k = before.index_of(value);
                assert(topic_values(fields)[k] == value);
            } else {
                assert(topic_values(fields)[before.len() as int] == value);
            }
        }
    } else {
        assert(topic_values(fields) =~= Seq::empty());
    }
}

/// The value of a detail is what its boxes say, where they say anything, and otherwise its text
/// without what its marked links say.
pub proof fn law_boxes_come_first(
    node: ElementView,
    boxes: Seq<ElementView>,
    marked: Seq<ElementView>,
)
    ensures
        boxes.len() == 1 && text_of(boxes[0]).len() > 0 ==> value_text(node, boxes, marked)
            == normal(text_of(boxes[0])),
        boxes.len() == 2 && text_of(boxes[0]).len() > 0 && text_of(boxes[1]).len() > 0
            ==> value_text(node, boxes, marked) == normal(
            text_of(boxes[0]) + seq![' '] + text_of(boxes[1]),
        ),
        (forall|i: int| 0 <= i < boxes.len() ==> text_of(#[trigger] boxes[i]).len() == 0)
            && marked.len() == 0 ==> value_text(node, boxes, marked) == normal(text_of(node)),
        (forall|i: int| 0 <= i < boxes.len() ==> text_of(#[trigger] boxes[i]).len() == 0)
            && marked.len() == 1 && text_of(marked[0]).len() > 0 ==> value_text(node, boxes, marked)
            == normal(without_part(text_of(node), text_of(marked[0]))),
{
    reveal_strlit(" ");
    assert(" "@ =~= seq![' ']);
    let said = said_texts(boxes);
    reveal_with_fuel(said_texts, 3);
    if boxes.len() == 1 && text_of(boxes[0]).len() > 0 {
        assert(said =~= seq![text_of(boxes[0])]);
        law_joined(said, said, " "@);
    }
    if boxes.len() == 2 && text_of(boxes[0]).len() > 0 && text_of(boxes[1]).len() > 0 {
        assert(boxes.drop_last().last() == boxes[0]);
        assert(said =~= seq![text_of(boxes[0])] + seq![text_of(boxes[1])]);
        law_joined(seq![text_of(boxes[0])], seq![text_of(boxes[1])], " "@);
        law_joined(seq![text_of(boxes[1])], seq![text_of(boxes[0])], " "@);
    }
    if forall|i: int| 0 <= i < boxes.len() ==> text_of(#[trigger] boxes[i]).len() == 0 {
        if said.len() > 0 {
            law_said_texts(boxes, Seq::empty(), said[0]);
            lemma_said_not_empty(boxes, 0);
        }
        reveal_with_fuel(without_parts, 2);
        if marked.len() == 1 && text_of(marked[0]).len() > 0 {
            assert(said_texts(marked) =~= seq![text_of(marked[0])]);
        }
    }
}

/// A row of the table shows a detail unless neither its label nor its value says anything; the
/// label is the text of its first left cell, and its value and its links are those of the first
/// right cell.
pub proof fn law_row_shows_detail(
    left: Seq<ElementView>,
    right: Seq<ElementView>,
    boxes: Seq<ElementView>,
    marked: Seq<ElementView>,
    anchors: Seq<ElementView>,
    base: Seq<char>,
)
    requires
        left.len() > 0,
    ensures
        text_of(left[0]).len() > 0 ==> detail_of(left, right, boxes, marked, anchors, base) is Some,
        detail_of(left, right, boxes, marked, anchors, base) matches Some(field) ==> field.label
            == text_of(left[0]) && (right.len() > 0 ==> field.value == value_text(
            right[0],
            boxes,
            marked,
        ) && field.links == links_of(anchors, base)) && (right.len() == 0 ==> field.value.len() == 0
            && field.links.len() == 0),
        detail_of(left, right, boxes, marked, anchors, base) is None ==> right.len() == 0
            || value_text(right[0], boxes, marked).len() == 0,
{
}

/// Every row that shows a detail is in the table, in the order of the rows.
pub proof fn law_every_row_counts(
    left: Seq<Seq<ElementView>>,
    right: Seq<Seq<ElementView>>,
    boxes: Seq<Seq<ElementView>>,
    marked: Seq<Seq<ElementView>>,
    anchors: Seq<Seq<ElementView>>,
    base: Seq<char>,
    n: nat,
    i: int,
)
    requires
        0 <= i < n,
    ensures
        detail_of(left[i], right[i], boxes[i], marked[i], anchors[i], base) matches Some(field)
            ==> details_of_rows(left, right, boxes, marked, anchors, base, n).contains(field),
        (forall|k: int|
            0 <= k < n ==> detail_of(
                #[trigger] left[k],
                right[k],
                boxes[k],
                marked[k],
                anchors[k],
                base,
            ) is Some) ==> details_of_rows(left, right, boxes, marked, anchors, base, n).len() == n
            && details_of_rows(left, right, boxes, marked, anchors, base, n)[i] == detail_of(
            left[i],
            right[i],
            boxes[i],
            marked[i],
            anchors[i],
            base,
        ).unwrap(),
    decreases n,
{
    let all = details_of_rows(left, right, boxes, marked, anchors, base, n);
    let before = details_of_rows(left, right, boxes, marked, anchors, base, (n - 1) as nat);
    if i < n - 1 {
        law_every_row_counts(
            left,
            right,
            boxes,
            marked,
            anchors,
            base,
            (n - 1) as nat,
            i,
        );
        if let Some(field) = detail_of(
            left[i],
            right[i],
            boxes[i],
            marked[i],
            anchors[i],
            base,
        ) {
            let k = before.index_of(field);
            assert(all[k] == field);
        }
    } else {
        if let Some(field) = detail_of(
            left[i],
            right[i],
            boxes[i],
            marked[i],
            anchors[i],
            base,
        ) {
            assert(all[before.len() as int] == field);
        }
        if n > 1 && (forall|k: int|
            0 <= k < n ==> detail_of(
                #[trigger] left[k],
                right[k],
                boxes[k],
                marked[k],
                anchors[k],
                base,
            ) is Some) {
            law_every_row_counts(
                left,
                right,
                boxes,
                marked,
                anchors,
                base,
                (n - 1) as nat,
                0,
            );
        } else if n == 1 {
            assert(before =~= Seq::empty());
        }
        if forall|k: int|
            0 <= k < n ==> detail_of(
                #[trigger] left[k],
                right[k],
                boxes[k],
                marked[k],
                anchors[k],
                base,
            ) is Some {
            assert(detail_of(left[i], right[i], boxes[i], marked[i], anchors[i], base) is Some);
        }
    }
}

/// The sections that are read are those whose first heading holds the words for the table of
/// details.
pub proof fn law_detail_sections(
    sections: Seq<ElementView>,
    headings: Seq<Seq<ElementView>>,
    node: usize,
)
    ensures
        detail_sections(sections, headings).contains(node) <==> exists|i: int|
            0 <= i < sections.len() && (#[trigger] sections[i]).node == node && has_text(
                head_text(headings[i]),
                "Детальная информация"@,
            ),
    decreases sections.len(),
{
    let all = detail_sections(sections, headings);
    if sections.len() > 0 {
        let rest = sections.drop_last();
        let before = detail_sections(rest, headings);
        law_detail_sections(rest, headings, node);
        if all.contains(node) {
            let k = all.index_of(node);
            if k < before.len() {
                assert(before[k] == node);
                let i = choose|i: int|
                    0 <= i < rest.len() && (#[trigger] rest[i]).node == node && has_text(
                        head_text(headings[i]),
                        "Детальная информация"@,
                    );
                assert(sections[i].node == node);
            } else {
                assert(sections[sections.len() - 1].node == node);
            }
        }
        if exists|i: int|
            0 <= i < sections.len() && (#[trigger] sections[i]).node == node && has_text(
                head_text(headings[i]),
                "Детальная информация"@,
            ) {
            let i = choose|i: int|
                0 <= i < sections.len() && (#[trigger] sections[i]).node == node && has_text(
                    head_text(headings[i]),
                    "Детальная информация"@,
                );
            if i < rest.len() {
                assert(rest[i].node == node);
                let k = before.index_of(node);
                assert(all[k] == node);
            } else {
                assert(all[before.len() as int] == node);
            }
        }
    } else {
        assert(all =~= Seq::empty());
    }
}

/// The rows of all lists are read, one list after the other.
pub proof fn law_all_rows_are_read(a: Seq<Seq<ElementView>>, b: Seq<Seq<ElementView>>)
    ensures
        all_nodes(a + b) == all_nodes(a) + all_nodes(b),
        b.len() == 1 ==> all_nodes(b).len() == b[0].len() && forall|i: int|
            0 <= i < b[0].len() ==> #[trigger] all_nodes(b)[i] == b[0][i].node,
    decreases b.len(),
{
    if b.len() == 0 {
        assert(a + b =~= a);
    } else {
        law_all_rows_are_read(a, b.drop_last());
        assert((a + b).drop_last() =~= a + b.drop_last());
        assert(all_nodes(a) + (all_nodes(b.drop_last()) + nodes_of(b.last())) =~= all_nodes(a)
            + all_nodes(b.drop_last()) + nodes_of(b.last()));
        if b.len() == 1 {
            assert(b.drop_last() =~= Seq::empty());
            assert(all_nodes(b.drop_last()) =~= Seq::empty());
        }
    }
}

/// A label's first value is found before those of the labels behind it, and a value that is found
/// stands first under one of the labels.
pub proof fn law_first_value(map: Map<Seq<char>, Seq<Seq<char>>>, labels: Seq<Seq<char>>, i: int)
    requires
        0 <= i < labels.len(),
        map.contains_key(labels[i]),
        map[labels[i]].len() > 0,
        map[labels[i]][0].len() > 0,
        forall|k: int|
            0 <= k < i ==> !map.contains_key(#[trigger] labels[k]) || map[labels[k]].len() == 0
                || map[labels[k]][0].len() == 0,
    ensures
        first_value(map, labels) == Some(map[labels[i]][0]),
    decreases labels.len(),
{
    if i > 0 {
        let rest = labels.drop_first();
        assert(rest[i - 1] == labels[i]);
        assert forall|k: int| 0 <= k < i - 1 implies !map.contains_key(#[trigger] rest[k])
            || map[rest[k]].len() == 0 || map[rest[k]][0].len() == 0 by {
            assert(rest[k] == labels[k + 1]);
        }
        law_first_value(map, rest, i - 1);
        assert(!map.contains_key(labels[0]) || map[labels[0]].len() == 0 || map[labels[0]][0].len()
            == 0);
    }
}

/// A card's title is that for sharing, or else that of the page's meta element, its heading or its
/// title, in this order; its year is the date of release, or else a detail; and its description is
/// that of the meta element, or else that for sharing or the gray text.
pub proof fn law_card_takes_best_source(parts: CardParts)
    ensures
        ({
            let og = text_map_view(parts.og);
            let card = metadata_of(parts);
            let by_label = values_by_label(detail_views(parts.detail@));
            &&& og.contains_key("title"@) ==> card.title == Some(og["title"@])
            &&& !og.contains_key("title"@) && parts.meta_title is Some ==> card.title == opt_text(
                parts.meta_title,
            )
            &&& !og.contains_key("title"@) && parts.meta_title is None && parts.heading is Some
                ==> card.title == opt_text(parts.heading)
            &&& !og.contains_key("title"@) && parts.meta_title is None && parts.heading is None
                ==> card.title == opt_text(parts.page_title)
            &&& og.contains_key("release_date"@) ==> card.year == Some(og["release_date"@])
            &&& !og.contains_key("release_date"@) ==> card.year == first_value(
                by_label,
                seq!["Год издания"@, "Год издания/создания"@],
            )
            &&& parts.meta_description is Some ==> card.description == opt_text(
                parts.meta_description,
            )
            &&& parts.meta_description is None && og.contains_key("description"@)
                ==> card.description == Some(og["description"@])
            &&& parts.meta_description is None && !og.contains_key("description"@)
                ==> card.description == opt_text(parts.gray_text)
            &&& card.authors == texts(parts.authors@)
            &&& card.pdf_links == texts(parts.pdf_links@)
            &&& card.detail == detail_views(parts.detail@)
            &&& card.bibliographic_description == opt_text(parts.bibliographic_description)
            &&& card.og == og
            &&& card.detail_map == by_label
            &&& card.topics == first_occurrences(topic_values(card.detail))
        }),
{
}

/// Where the parts of a card are found on its page.
pub proof fn law_card_reads_page(html: Seq<char>, base: Seq<char>)
    ensures
        ({
            let none = Seq::<Seq<char>>::empty();
            let card = card_of(html, base);
            let meta = selected(
                html,
                "meta[property], meta[name]"@,
                seq!["content"@, "property"@, "name"@],
            );
            &&& meta matches Some(list) ==> card.og == og_of(list)
            &&& selected(html, "[itemprop=\"author\"]"@, none) matches Some(list)
                ==> card.authors == sorted_texts(said_texts(list))
            &&& selected(html, "#toClipBoard"@, none) matches Some(list)
                ==> card.bibliographic_description == first_said(list)
            &&& selected(html, "a[href]"@, seq!["href"@]) matches Some(list) ==> card.pdf_links
                == first_occurrences(pdf_targets(list, base))
            &&& !card.og.contains_key("title"@) ==> (selected(
                html,
                "meta[name=\"title\"]"@,
                seq!["content"@],
            ) matches Some(list) ==> (first_attribute(list) matches Some(content) ==> (normal(
                content,
            ).len() > 0 ==> card.title == Some(normal(content)))))
            &&& selected(
                html,
                "meta[name=\"description\"]"@,
                seq!["content"@],
            ) matches Some(list) ==> (first_attribute(list) matches Some(content) ==> (normal(
                content,
            ).len() > 0 ==> card.description == Some(normal(content))))
            &&& (selected(html, "meta[name=\"title\"]"@, seq!["content"@]) == Some(
                Seq::<ElementView>::empty(),
            ) && !card.og.contains_key("title"@)) ==> (selected(html, "h1"@, none) matches Some(
                list,
            ) ==> (first_said(list) is Some ==> card.title == first_said(list)))
            &&& (selected(html, "meta[name=\"title\"]"@, seq!["content"@]) == Some(
                Seq::<ElementView>::empty(),
            ) && selected(html, "h1"@, none) == Some(Seq::<ElementView>::empty())
                && !card.og.contains_key("title"@)) ==> (selected(
                html,
                "title"@,
                none,
            ) matches Some(list) ==> card.title == first_said(list))
            &&& (selected(html, "meta[name=\"description\"]"@, seq!["content"@]) == Some(
                Seq::<ElementView>::empty(),
            ) && !card.og.contains_key("description"@)) ==> (selected(
                html,
                ".cards-content .color_gray"@,
                none,
            ) matches Some(list) ==> card.description == first_said(list))
        }),
{
}

/// Every detail with a label and a value stands under its label, in the order of the table.
pub proof fn law_every_detail_is_kept(fields: Seq<DetailView>, i: int, j: int)
    requires
        0 <= i < j < fields.len(),
        fields[i].label == fields[j].label,
        fields[i].label.len() > 0,
        fields[i].value.len() > 0,
        fields[j].value.len() > 0,
    ensures
        ({
            let values = values_by_label(fields)[fields[i].label];
            &&& values_by_label(fields).contains_key(fields[i].label)
            &&& exists|a: int, b: int|
                0 <= a < b < values.len() && #[trigger] values[a] == fields[i].value
                    && #[trigger] values[b] == fields[j].value
        }),
{
    let label = fields[i].label;
    law_details_keep_their_order(fields, label);
    let (a, b) = lemma_values_with_label(fields, label, i, j);
    let values = values_with_label(fields, label);
    assert(values[a] == fields[i].value && values[b] == fields[j].value);
}

proof fn lemma_values_with_label(
    fields: Seq<DetailView>,
    label: Seq<char>,
    i: int,
    j: int,
) -> (places: (int, int))
    requires
        0 <= i < j < fields.len(),
        fields[i].label == label,
        fields[j].label == label,
        fields[i].value.len() > 0,
        fields[j].value.len() > 0,
    ensures
        0 <= places.0 < places.1 < values_with_label(fields, label).len(),
        values_with_label(fields, label)[places.0] == fields[i].value,
        values_with_label(fields, label)[places.1] == fields[j].value,
    decreases fields.len(),
{
    let rest = fields.drop_last();
    if j < rest.len() {
        lemma_values_with_label(rest, label, i, j)
    } else {
        let at = lemma_value_with_label(rest, label, i);
        (at, values_with_label(rest, label).len() as int)
    }
}

proof fn lemma_value_with_label(fields: Seq<DetailView>, label: Seq<char>, i: int) -> (place: int)
    requires
        0 <= i < fields.len(),
        fields[i].label == label,
        fields[i].value.len() > 0,
    ensures
        0 <= place < values_with_label(fields, label).len(),
        values_with_label(fields, label)[place] == fields[i].value,
    decreases fields.len(),
{
    let rest = fields.drop_last();
    if i < rest.len() {
        lemma_value_with_label(rest, label, i)
    } else {
        values_with_label(rest, label).len() as int
    }
}

/// A label leads to values that some detail shows under it, and to no others; and to as many as
/// there are details that show one.
pub proof fn law_labels_lead_to_their_values(fields: Seq<DetailView>, label: Seq<char>)
    requires
        label.len() > 0,
    ensures
        values_by_label(fields).contains_key(label) <==> exists|i: int|
            0 <= i < fields.len() && (#[trigger] fields[i]).label == label && fields[i].value.len()
                > 0,
        values_by_label(fields).contains_key(label) ==> values_by_label(fields)[label].len()
            == count_where(fields, |f: DetailView| f.label == label && f.value.len() > 0),
    decreases fields.len(),
{
    law_details_keep_their_order(fields, label);
    lemma_values_counted(fields, label);
    if values_with_label(fields, label).len() > 0 {
        let i = lemma_some_value(fields, label);
        assert(fields[i].label == label);
    }
    if exists|i: int|
        0 <= i < fields.len() && (#[trigger] fields[i]).label == label && fields[i].value.len()
            > 0 {
        let i = choose|i: int|
            0 <= i < fields.len() && (#[trigger] fields[i]).label == label && fields[i].value.len()
                > 0;
        let at = lemma_value_with_label(fields, label, i);
    }
}

proof fn lemma_values_counted(fields: Seq<DetailView>, label: Seq<char>)
    ensures
        values_with_label(fields, label).len() == count_where(
            fields,
            |f: DetailView| f.label == label && f.value.len() > 0,
        ),
    decreases fields.len(),
{
    if fields.len() > 0 {
        lemma_values_counted(fields.drop_last(), label);
    }
}

proof fn lemma_some_value(fields: Seq<DetailView>, label: Seq<char>) -> (i: int)
    requires
        values_with_label(fields, label).len() > 0,
    ensures
        0 <= i < fields.len(),
        fields[i].label == label,
        fields[i].value.len() > 0,
    decreases fields.len(),
{
    if fields.last().label == label && fields.last().value.len() > 0 {
        fields.len() - 1
    } else {
        lemma_some_value(fields.drop_last(), label)
    }
}

/// The table of a card page is read from the rows of its sections on details: the label from the
/// left cell, the value from the right cell with its boxes and marked links, and the links from the
/// anchors of the right cell.
pub proof fn law_table_reads_page(
    html: Seq<char>,
    base: Seq<char>,
    sections: Seq<ElementView>,
    headings: Seq<Seq<ElementView>>,
    rows: Seq<Seq<ElementView>>,
    left: Seq<Seq<ElementView>>,
    right: Seq<Seq<ElementView>>,
    boxes: Seq<Seq<ElementView>>,
    marked: Seq<Seq<ElementView>>,
    anchors: Seq<Seq<ElementView>>,
)
    requires
        ({
            let none = Seq::<Seq<char>>::empty();
            let places = all_nodes(rows);
            let cells = Seq::new(
                right.len(),
                |i: int|
                    if right[i].len() > 0 {
                        right[i][0].node
                    } else {
                        0
                    },
            );
            &&& selected(html, ".cards-section"@, none) == Some(sections)
            &&& selected_inside(
                html,
                Seq::new(sections.len(), |i: int| sections[i].node),
                "h2"@,
                none,
            ) == Some(headings)
            &&& selected_inside(
                html,
                detail_sections(sections, headings),
                ".cards-table__row"@,
                none,
            ) == Some(rows)
            &&& selected_inside(html, places, ".cards-table__left"@, none) == Some(left)
            &&& selected_inside(html, places, ".cards-table__right"@, none) == Some(right)
            &&& selected_inside(html, cells, ".cards-table__right_box"@, none) == Some(boxes)
            &&& selected_inside(html, cells, ".cards-table__right_link"@, none) == Some(marked)
            &&& selected_inside(html, cells, "a[href]"@, seq!["href"@]) == Some(anchors)
        }),
    ensures
        card_of(html, base).detail == details_of_rows(
            left,
            right,
            boxes,
            marked,
            anchors,
            base,
            all_nodes(rows).len(),
        ),
{
    assert(nodes_of(sections) =~= Seq::new(sections.len(), |i: int| sections[i].node));
    assert(first_nodes(right) =~= Seq::new(
        right.len(),
        |i: int|
            if right[i].len() > 0 {
                right[i][0].node
            } else {
                0
            },
    ));
}

/// The marked parts of a text are taken out one after the other, each where it first stands in what
/// is left.
pub proof fn law_parts_are_taken_out(text: Seq<char>, parts: Seq<Seq<char>>, part: Seq<char>)
    ensures
        without_parts(text, Seq::empty()) == text,
        without_parts(text, parts.push(part)) == without_part(without_parts(text, parts), part),
        raw_value(Seq::empty(), text, parts) == without_parts(text, parts),
{
    assert(parts.push(part).drop_last() =~= parts);
}

} // verus!
