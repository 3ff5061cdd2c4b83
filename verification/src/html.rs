use crate::text::{join, joined, split_words, words};
use crate::views::{group_texts, opt_text, texts};
use scraper::{ElementRef, Html, Selector};
use vstd::utf8::encode_utf8;
use vstd::prelude::*;

verus! {

broadcast use group_texts;

/// An element of an HTML document: its place among the nodes, the values of the attributes that
/// were asked for, and its texts.
#[derive(Debug)]
pub struct HtmlElement {
    pub node: usize,
    pub attributes: Vec<Option<String>>,
    pub text: Vec<String>,
}

/// The texts of an element of an HTML document.
#[verifier::ext_equal]
pub ghost struct ElementView {
    pub node: usize,
    pub attributes: Seq<Option<Seq<char>>>,
    pub text: Seq<Seq<char>>,
}

/// The texts of a list of optional texts.
pub open spec fn opt_texts(list: Seq<Option<String>>) -> Seq<Option<Seq<char>>> {
    list.map_values(|s: Option<String>| opt_text(s))
}

impl View for HtmlElement {
    type V = ElementView;

    open spec fn view(&self) -> ElementView {
        ElementView {
            node: self.node,
            attributes: opt_texts(self.attributes@),
            text: texts(self.text@),
        }
    }
}

/// The texts of a list of elements.
pub open spec fn element_views(list: Seq<HtmlElement>) -> Seq<ElementView> {
    list.map_values(|e: HtmlElement| e@)
}

/// The texts of a list of lists of elements.
pub open spec fn element_lists(list: Seq<Vec<HtmlElement>>) -> Seq<Seq<ElementView>> {
    list.map_values(|l: Vec<HtmlElement>| element_views(l@))
}

/// Whether every element has a value or none for each of so many attributes.
pub open spec fn have_attributes(list: Seq<ElementView>, count: nat) -> bool {
    forall|i: int| 0 <= i < list.len() ==> (#[trigger] list[i]).attributes.len() == count
}

/// The length, in bytes, of the longest document that can be read. Reading makes up to three bytes
/// of one, and no text of a document may come to more than half of what thirty-two bits count.
pub const MAX_PAGE_BYTES: usize = 0x2AAA_AAAA;

/// Whether a document is short enough to be read.
pub open spec fn page_fits(html: Seq<char>) -> bool {
    encode_utf8(html).len() <= MAX_PAGE_BYTES
}

/// Whether a document is short enough to be read.
pub fn can_read_page(html: &str) -> (result: bool)
    ensures
        result == page_fits(html@),
{
    html.as_bytes().len() <= MAX_PAGE_BYTES
}

/// The elements of a document that a selector selects, with some of their attributes; none where
/// the selector cannot be read.
pub uninterp spec fn selected(
    html: Seq<char>,
    selector: Seq<char>,
    attributes: Seq<Seq<char>>,
) -> Option<Seq<ElementView>>;

/// `scraper::Html::parse_document`, `scraper::Selector::parse` and `scraper::Html::select`, with
/// what `ElementRef::attr` and `ElementRef::text` give of each element. The result is named
/// by `selected`; each element has as many attribute values as were asked for. The parser panics
/// where a text outgrows its buffers, which are doubled up to half of what thirty-two bits count.
#[verifier::external_body]
pub(crate) fn select(html: &str, selector: &str, attributes: &Vec<String>) -> (result: Option<
    Vec<HtmlElement>,
>)
    requires
        page_fits(html@),
    ensures
        match result {
            Some(list) => selected(html@, selector@, texts(attributes@)) == Some(
                element_views(list@),
            ) && have_attributes(element_views(list@), attributes@.len()),
            None => selected(html@, selector@, texts(attributes@)) is None,
        },
{
    let page = Html::parse_document(html);
    let selector = Selector::parse(selector).ok()?;
    let found = page.select(&selector).map(|e| HtmlElement {
        node: page.tree.nodes().position(|n| n.id() == e.id()).unwrap_or_default(),
        attributes: attributes.iter().map(|a| e.attr(a).map(str::to_string)).collect(),
        text: e.text().map(str::to_string).collect(),
    });
    Some(found.collect())
}

/// The elements inside some nodes of a document that a selector selects, with some of their
/// attributes; none where the selector cannot be read.
pub uninterp spec fn selected_inside(
    html: Seq<char>,
    nodes: Seq<usize>,
    selector: Seq<char>,
    attributes: Seq<Seq<char>>,
) -> Option<Seq<Seq<ElementView>>>;

/// `scraper::Html::parse_document`, `scraper::Selector::parse` and, for each node that is an
/// element, `scraper::ElementRef::select`, with what `ElementRef::attr` and
/// `ElementRef::text` give of each element. The result is named by `selected_inside`; it has a list
/// for each node, and each element has as many attribute values as were asked for. The parser
/// panics on long documents as it does in `select`.
#[verifier::external_body]
pub(crate) fn select_inside(
    html: &str,
    nodes: &Vec<usize>,
    selector: &str,
    attributes: &Vec<String>,
) -> (result: Option<Vec<Vec<HtmlElement>>>)
    requires
        page_fits(html@),
    ensures
        match result {
            Some(lists) => selected_inside(html@, nodes@, selector@, texts(attributes@)) == Some(
                element_lists(lists@),
            ) && lists@.len() == nodes@.len() && forall|i: int|
                0 <= i < lists@.len() ==> have_attributes(
                    element_views((#[trigger] lists@[i])@),
                    attributes@.len(),
                ),
            None => selected_inside(html@, nodes@, selector@, texts(attributes@)) is None,
        },
{
    let page = Html::parse_document(html);
    let selector = Selector::parse(selector).ok()?;
    let inside = nodes.iter().map(|n| page.tree.nodes().nth(*n).and_then(ElementRef::wrap));
    let found = inside.map(|scope| scope.iter().flat_map(|s| s.select(&selector)).map(|e| HtmlElement {
        node: page.tree.nodes().position(|n| n.id() == e.id()).unwrap_or_default(),
        attributes: attributes.iter().map(|a| e.attr(a).map(str::to_string)).collect(),
        text: e.text().map(str::to_string).collect(),
    }).collect());
    Some(found.collect())
}

/// A text with its HTML entities replaced by what they stand for.
pub uninterp spec fn decoded(text: Seq<char>) -> Seq<char>;

/// `html_escape::decode_html_entities`, named by `decoded`.
#[verifier::external_body]
pub(crate) fn decode_entities(text: &str) -> (result: String)
    ensures
        result@ == decoded(text@),
{
    html_escape::decode_html_entities(text).to_string()
}

/// A text in lower case.
pub uninterp spec fn lowered(text: Seq<char>) -> Seq<char>;

/// `str::to_lowercase` of std, named by `lowered`.
#[verifier::external_body]
pub(crate) fn to_lower(text: &str) -> (result: String)
    ensures
        result@ == lowered(text@),
{
    text.to_lowercase()
}

/// A text with its entities replaced and its words one space apart.
pub open spec fn normal(text: Seq<char>) -> Seq<char> {
    joined(words(decoded(text)), " "@)
}

/// A text with its entities replaced and its words one space apart.
pub fn normalize_ws(input: &str) -> (result: String)
    ensures
        result@ == normal(input@),
{
    let plain = decode_entities(input);
    let parts = split_words(&plain);
    join(&parts, " ")
}

/// The text of an element: its texts, one space apart, made normal.
pub open spec fn text_of(element: ElementView) -> Seq<char> {
    normal(joined(element.text, " "@))
}

/// The text of an element: its texts, one space apart, made normal.
pub fn element_text(element: &HtmlElement) -> (result: String)
    ensures
        result@ == text_of(element@),
{
    let all = join(&element.text, " ");
    normalize_ws(&all)
}

} // verus!
