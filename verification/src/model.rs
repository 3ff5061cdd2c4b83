use crate::json::parsed_json;
use crate::maps::TextMap;
use crate::views::{opt_text, texts};
use vstd::prelude::*;

verus! {

/// What is known of one catalogue item.
#[derive(Debug)]
pub struct RusnebRecord {
    pub id: String,
    pub url: String,
    pub fetched_at: String,
    pub fetched_at_unix: i64,
    pub source: SourceUrls,
    pub metadata: CardMetadata,
    pub marc21: Option<MarcXmlRecord>,
    /// A compact JSON text.
    pub viewer_access: Option<String>,
    pub fetch_errors: Vec<String>,
}

/// Where the parts of a record were fetched from.
#[derive(Debug)]
pub struct SourceUrls {
    pub card_html: String,
    pub marc21_xml: String,
    pub viewer_access_json: String,
}

/// What the card page says of an item.
#[derive(Debug)]
pub struct CardMetadata {
    pub title: Option<String>,
    pub authors: Vec<String>,
    pub year: Option<String>,
    pub bibliographic_description: Option<String>,
    pub description: Option<String>,
    pub detail: Vec<DetailField>,
    pub detail_map: TextMap<Vec<String>>,
    pub topics: Vec<String>,
    pub pdf_links: Vec<String>,
    pub og: TextMap<String>,
}

/// A row of the card's table of details.
#[derive(Debug)]
pub struct DetailField {
    pub label: String,
    pub value: String,
    pub links: Vec<Link>,
}

/// A link with its text.
#[derive(Debug)]
pub struct Link {
    pub text: String,
    pub href: String,
}

/// A MARC21 record.
#[derive(Debug)]
pub struct MarcXmlRecord {
    pub raw_xml: String,
    pub leader: Option<String>,
    pub control_fields: Vec<MarcControlField>,
    pub data_fields: Vec<MarcDataField>,
    pub pdf_links: Vec<String>,
}

/// A control field of a MARC21 record.
#[derive(Debug)]
pub struct MarcControlField {
    pub tag: String,
    pub value: String,
}

/// A data field of a MARC21 record.
#[derive(Debug)]
pub struct MarcDataField {
    pub tag: String,
    pub ind1: Option<String>,
    pub ind2: Option<String>,
    pub subfields: Vec<MarcSubfield>,
}

/// A subfield of a data field.
#[derive(Debug)]
pub struct MarcSubfield {
    pub code: String,
    pub value: String,
}

/// What a search page lists, and the total that it reports.
#[derive(Debug)]
pub struct SearchPageResult {
    pub ids: Vec<String>,
    pub total_results: Option<u64>,
}

/// Why something could not be fetched, with the HTTP status where there was an answer.
#[derive(Debug)]
pub struct FetchFailure {
    pub status: Option<u16>,
    pub message: String,
}

/// The texts of a row of details.
#[verifier::ext_equal]
pub ghost struct DetailView {
    pub label: Seq<char>,
    pub value: Seq<char>,
    pub links: Seq<(Seq<char>, Seq<char>)>,
}

impl View for Link {
    type V = (Seq<char>, Seq<char>);

    open spec fn view(&self) -> (Seq<char>, Seq<char>) {
        (self.text@, self.href@)
    }
}

/// The texts and targets of a list of links.
pub open spec fn link_views(links: Seq<Link>) -> Seq<(Seq<char>, Seq<char>)> {
    links.map_values(|l: Link| l@)
}

impl View for DetailField {
    type V = DetailView;

    open spec fn view(&self) -> DetailView {
        DetailView { label: self.label@, value: self.value@, links: link_views(self.links@) }
    }
}

/// The texts of a table of details.
pub open spec fn detail_views(fields: Seq<DetailField>) -> Seq<DetailView> {
    fields.map_values(|f: DetailField| f@)
}

/// What the keys of a map of text lists lead to.
pub open spec fn list_map_view(map: TextMap<Vec<String>>) -> Map<Seq<char>, Seq<Seq<char>>> {
    map.contents().map_values(|v: Vec<String>| texts(v@))
}

/// What the keys of a map of texts lead to.
pub open spec fn text_map_view(map: TextMap<String>) -> Map<Seq<char>, Seq<char>> {
    map.contents().map_values(|v: String| v@)
}

/// The texts of what a card page says of an item.
#[verifier::ext_equal]
pub ghost struct MetadataView {
    pub title: Option<Seq<char>>,
    pub authors: Seq<Seq<char>>,
    pub year: Option<Seq<char>>,
    pub bibliographic_description: Option<Seq<char>>,
    pub description: Option<Seq<char>>,
    pub detail: Seq<DetailView>,
    pub detail_map: Map<Seq<char>, Seq<Seq<char>>>,
    pub topics: Seq<Seq<char>>,
    pub pdf_links: Seq<Seq<char>>,
    pub og: Map<Seq<char>, Seq<char>>,
}

impl View for CardMetadata {
    type V = MetadataView;

    open spec fn view(&self) -> MetadataView {
        MetadataView {
            title: opt_text(self.title),
            authors: texts(self.authors@),
            year: opt_text(self.year),
            bibliographic_description: opt_text(self.bibliographic_description),
            description: opt_text(self.description),
            detail: detail_views(self.detail@),
            detail_map: list_map_view(self.detail_map),
            topics: texts(self.topics@),
            pdf_links: texts(self.pdf_links@),
            og: text_map_view(self.og),
        }
    }
}

impl CardMetadata {
    /// The maps hold each key once, in order.
    pub open spec fn well_formed(self) -> bool {
        self.detail_map.well_formed() && self.og.well_formed()
    }
}

impl RusnebRecord {
    /// The maps hold each key once, in order, and what the viewer may access is JSON.
    pub open spec fn well_formed(self) -> bool {
        &&& self.metadata.well_formed()
        &&& self.viewer_access matches Some(json) ==> parsed_json(json@) is Ok
    }
}

/// The texts of a data field.
#[verifier::ext_equal]
pub ghost struct DataFieldView {
    pub tag: Seq<char>,
    pub ind1: Option<Seq<char>>,
    pub ind2: Option<Seq<char>>,
    pub subfields: Seq<(Seq<char>, Seq<char>)>,
}

impl View for MarcSubfield {
    type V = (Seq<char>, Seq<char>);

    open spec fn view(&self) -> (Seq<char>, Seq<char>) {
        (self.code@, self.value@)
    }
}

/// The codes and values of a list of subfields.
pub open spec fn subfield_views(list: Seq<MarcSubfield>) -> Seq<(Seq<char>, Seq<char>)> {
    list.map_values(|s: MarcSubfield| s@)
}

impl View for MarcControlField {
    type V = (Seq<char>, Seq<char>);

    open spec fn view(&self) -> (Seq<char>, Seq<char>) {
        (self.tag@, self.value@)
    }
}

/// The tags and values of a list of control fields.
pub open spec fn control_views(list: Seq<MarcControlField>) -> Seq<(Seq<char>, Seq<char>)> {
    list.map_values(|f: MarcControlField| f@)
}

impl View for MarcDataField {
    type V = DataFieldView;

    open spec fn view(&self) -> DataFieldView {
        DataFieldView {
            tag: self.tag@,
            ind1: opt_text(self.ind1),
            ind2: opt_text(self.ind2),
            subfields: subfield_views(self.subfields@),
        }
    }
}

/// The texts of a list of data fields.
pub open spec fn data_field_views(list: Seq<MarcDataField>) -> Seq<DataFieldView> {
    list.map_values(|f: MarcDataField| f@)
}

/// The texts of a MARC21 record.
#[verifier::ext_equal]
pub ghost struct MarcView {
    pub raw_xml: Seq<char>,
    pub leader: Option<Seq<char>>,
    pub control_fields: Seq<(Seq<char>, Seq<char>)>,
    pub data_fields: Seq<DataFieldView>,
    pub pdf_links: Seq<Seq<char>>,
}

impl View for MarcXmlRecord {
    type V = MarcView;

    open spec fn view(&self) -> MarcView {
        MarcView {
            raw_xml: self.raw_xml@,
            leader: opt_text(self.leader),
            control_fields: control_views(self.control_fields@),
            data_fields: data_field_views(self.data_fields@),
            pdf_links: texts(self.pdf_links@),
        }
    }
}

/// The texts of an optional MARC21 record.
pub open spec fn opt_marc(marc: Option<MarcXmlRecord>) -> Option<MarcView> {
    match marc {
        Some(record) => Some(record@),
        None => None,
    }
}

} // verus!
