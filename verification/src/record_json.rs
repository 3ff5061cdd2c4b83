use crate::json::{
    array, array_text, object, object_text, optional, optional_text, quote, quoted, quoted_list,
    text_array,
};
use crate::maps::TextMap;
use crate::model::{
    control_views, data_field_views, detail_views, link_views, subfield_views, CardMetadata,
    DataFieldView, DetailField, DetailView, Link, MarcControlField, MarcDataField, MarcSubfield,
    MarcView, MarcXmlRecord, RusnebRecord, SourceUrls,
};
use crate::numerals::{signed_decimal, signed_decimal_text};
use crate::views::{group_texts, lemma_take_next, opt_text, pair_texts, texts};
use vstd::prelude::*;

verus! {

broadcast use group_texts;

/// Appends a member to an object.
pub(crate) fn put(members: &mut Vec<(String, String)>, key: &str, value: String)
    ensures
        pair_texts(final(members)@) == pair_texts(old(members)@).push((key@, value@)),
{
    let ghost before = members@;
    members.push((key.to_owned(), value));
    assert(pair_texts(members@) =~= pair_texts(before).push((key@, value@)));
}

pub(crate) fn no_members() -> (result: Vec<(String, String)>)
    ensures
        pair_texts(result@) == Seq::<(Seq<char>, Seq<char>)>::empty(),
{
    let none: Vec<(String, String)> = Vec::new();
    assert(pair_texts(none@) =~= Seq::empty());
    none
}

/// An object of two texts.
pub open spec fn two_texts(
    first: Seq<char>,
    second: Seq<char>,
    pair: (Seq<char>, Seq<char>),
) -> Seq<char> {
    object_text(seq![(first, quoted(pair.0)), (second, quoted(pair.1))])
}

fn two_text_json(first: &str, second: &str, a: &str, b: &str) -> (result: String)
    ensures
        result@ == two_texts(first@, second@, (a@, b@)),
{
    let mut members = no_members();
    put(&mut members, first, quote(a));
    put(&mut members, second, quote(b));
    assert(pair_texts(members@) =~= seq![(first@, quoted(a@)), (second@, quoted(b@))]);
    object(&members)
}

/// An array of objects of two texts.
pub open spec fn two_text_list(
    first: Seq<char>,
    second: Seq<char>,
    list: Seq<(Seq<char>, Seq<char>)>,
) -> Seq<char> {
    array_text(list.map_values(|p: (Seq<char>, Seq<char>)| two_texts(first, second, p)))
}

/// The links of a detail as JSON.
pub fn links_json(links: &Vec<Link>) -> (result: String)
    ensures
        result@ == two_text_list("text"@, "href"@, link_views(links@)),
{
    let ghost all = link_views(links@).map_values(
        |p: (Seq<char>, Seq<char>)| two_texts("text"@, "href"@, p),
    );
    let mut items: Vec<String> = Vec::new();
    for i in 0..links.len()
        invariant
            all == link_views(links@).map_values(
                |p: (Seq<char>, Seq<char>)| two_texts("text"@, "href"@, p),
            ),
            texts(items@) == all.take(i as int),
    {
        let link = &links[i];
        let item = two_text_json("text", "href", &link.text, &link.href);
        assert(item@ == all[i as int]);
        items.push(item);
        proof {
            lemma_take_next(all, i as int);
        }
    }
    assert(all.take(links@.len() as int) == all);
    array(&items)
}

/// The subfields of a data field as JSON.
pub fn subfields_json(list: &Vec<MarcSubfield>) -> (result: String)
    ensures
        result@ == two_text_list("code"@, "value"@, subfield_views(list@)),
{
    let ghost all = subfield_views(list@).map_values(
        |p: (Seq<char>, Seq<char>)| two_texts("code"@, "value"@, p),
    );
    let mut items: Vec<String> = Vec::new();
    for i in 0..list.len()
        invariant
            all == subfield_views(list@).map_values(
                |p: (Seq<char>, Seq<char>)| two_texts("code"@, "value"@, p),
            ),
            texts(items@) == all.take(i as int),
    {
        let item = two_text_json("code", "value", &list[i].code, &list[i].value);
        assert(item@ == all[i as int]);
        items.push(item);
        proof {
            lemma_take_next(all, i as int);
        }
    }
    assert(all.take(list@.len() as int) == all);
    array(&items)
}

/// The control fields of a MARC21 record as JSON.
pub fn control_fields_json(list: &Vec<MarcControlField>) -> (result: String)
    ensures
        result@ == two_text_list("tag"@, "value"@, control_views(list@)),
{
    let ghost all = control_views(list@).map_values(
        |p: (Seq<char>, Seq<char>)| two_texts("tag"@, "value"@, p),
    );
    let mut items: Vec<String> = Vec::new();
    for i in 0..list.len()
        invariant
            all == control_views(list@).map_values(
                |p: (Seq<char>, Seq<char>)| two_texts("tag"@, "value"@, p),
            ),
            texts(items@) == all.take(i as int),
    {
        let item = two_text_json("tag", "value", &list[i].tag, &list[i].value);
        assert(item@ == all[i as int]);
        items.push(item);
        proof {
            lemma_take_next(all, i as int);
        }
    }
    assert(all.take(list@.len() as int) == all);
    array(&items)
}

/// A detail as JSON.
pub open spec fn detail_text(field: DetailView) -> Seq<char> {
    object_text(
        seq![
            ("label"@, quoted(field.label)),
            ("value"@, quoted(field.value)),
            ("links"@, two_text_list("text"@, "href"@, field.links)),
        ],
    )
}

/// A table of details as JSON.
pub open spec fn details_text(fields: Seq<DetailView>) -> Seq<char> {
    array_text(fields.map_values(|f: DetailView| detail_text(f)))
}

/// A table of details as JSON.
pub fn details_json(fields: &Vec<DetailField>) -> (result: String)
    ensures
        result@ == details_text(detail_views(fields@)),
{
    let ghost all = detail_views(fields@).map_values(|f: DetailView| detail_text(f));
    let mut items: Vec<String> = Vec::new();
    for i in 0..fields.len()
        invariant
            all == detail_views(fields@).map_values(|f: DetailView| detail_text(f)),
            texts(items@) == all.take(i as int),
    {
        let field = &fields[i];
        let mut members = no_members();
        put(&mut members, "label", quote(&field.label));
        put(&mut members, "value", quote(&field.value));
        put(&mut members, "links", links_json(&field.links));
        let item = object(&members);
        assert(pair_texts(members@) =~= seq![
            ("label"@, quoted(field.label@)),
            ("value"@, quoted(field.value@)),
            ("links"@, two_text_list("text"@, "href"@, link_views(field.links@))),
        ]);
        assert(item@ == all[i as int]);
        items.push(item);
        proof {
            lemma_take_next(all, i as int);
        }
    }
    assert(all.take(fields@.len() as int) == all);
    array(&items)
}

/// A data field as JSON.
pub open spec fn data_field_text(field: DataFieldView) -> Seq<char> {
    object_text(
        seq![
            ("tag"@, quoted(field.tag)),
            ("ind1"@, optional_text(field.ind1)),
            ("ind2"@, optional_text(field.ind2)),
            ("subfields"@, two_text_list("code"@, "value"@, field.subfields)),
        ],
    )
}

/// The data fields of a MARC21 record as JSON.
pub open spec fn data_fields_text(fields: Seq<DataFieldView>) -> Seq<char> {
    array_text(fields.map_values(|f: DataFieldView| data_field_text(f)))
}

/// The data fields of a MARC21 record as JSON.
pub fn data_fields_json(fields: &Vec<MarcDataField>) -> (result: String)
    ensures
        result@ == data_fields_text(data_field_views(fields@)),
{
    let ghost all = data_field_views(fields@).map_values(|f: DataFieldView| data_field_text(f));
    let mut items: Vec<String> = Vec::new();
    for i in 0..fields.len()
        invariant
            all == data_field_views(fields@).map_values(|f: DataFieldView| data_field_text(f)),
            texts(items@) == all.take(i as int),
    {
        let field = &fields[i];
        let mut members = no_members();
        put(&mut members, "tag", quote(&field.tag));
        put(&mut members, "ind1", optional(&field.ind1));
        put(&mut members, "ind2", optional(&field.ind2));
        put(&mut members, "subfields", subfields_json(&field.subfields));
        let item = object(&members);
        assert(pair_texts(members@) =~= seq![
            ("tag"@, quoted(field.tag@)),
            ("ind1"@, optional_text(opt_text(field.ind1))),
            ("ind2"@, optional_text(opt_text(field.ind2))),
            ("subfields"@, two_text_list("code"@, "value"@, subfield_views(field.subfields@))),
        ]);
        assert(item@ == all[i as int]);
        items.push(item);
        proof {
            lemma_take_next(all, i as int);
        }
    }
    assert(all.take(fields@.len() as int) == all);
    array(&items)
}

/// The members of a map of text lists, in the order of the keys.
pub open spec fn list_members(entries: Seq<(String, Vec<String>)>) -> Seq<(Seq<char>, Seq<char>)> {
    entries.map_values(
        |e: (String, Vec<String>)| (e.0@, array_text(quoted_list(texts(e.1@)))),
    )
}

/// A map of text lists as JSON.
pub fn list_map_json(map: &TextMap<Vec<String>>) -> (result: String)
    ensures
        result@ == object_text(list_members(map.entries@)),
{
    let ghost all = list_members(map.entries@);
    let mut members = no_members();
    for i in 0..map.entries.len()
        invariant
            all == list_members(map.entries@),
            pair_texts(members@) == all.take(i as int),
    {
        let entry = &map.entries[i];
        put(&mut members, &entry.0, text_array(&entry.1));
        proof {
            lemma_take_next(all, i as int);
        }
    }
    assert(all.take(map.entries@.len() as int) == all);
    object(&members)
}

/// The members of a map of texts, in the order of the keys.
pub open spec fn text_members(entries: Seq<(String, String)>) -> Seq<(Seq<char>, Seq<char>)> {
    entries.map_values(|e: (String, String)| (e.0@, quoted(e.1@)))
}

/// A map of texts as JSON.
pub fn text_map_json(map: &TextMap<String>) -> (result: String)
    ensures
        result@ == object_text(text_members(map.entries@)),
{
    let ghost all = text_members(map.entries@);
    let mut members = no_members();
    for i in 0..map.entries.len()
        invariant
            all == text_members(map.entries@),
            pair_texts(members@) == all.take(i as int),
    {
        let entry = &map.entries[i];
        put(&mut members, &entry.0, quote(&entry.1));
        proof {
            lemma_take_next(all, i as int);
        }
    }
    assert(all.take(map.entries@.len() as int) == all);
    object(&members)
}

/// A list of texts as JSON.
pub open spec fn list_text(list: Seq<Seq<char>>) -> Seq<char> {
    array_text(quoted_list(list))
}

/// The members of what a card says of an item.
pub open spec fn metadata_members(m: CardMetadata) -> Seq<(Seq<char>, Seq<char>)> {
    seq![
        ("title"@, optional_text(opt_text(m.title))),
        ("authors"@, list_text(texts(m.authors@))),
        ("year"@, optional_text(opt_text(m.year))),
        ("bibliographic_description"@, optional_text(opt_text(m.bibliographic_description))),
        ("description"@, optional_text(opt_text(m.description))),
        ("detail"@, details_text(detail_views(m.detail@))),
        ("detail_map"@, object_text(list_members(m.detail_map.entries@))),
        ("topics"@, list_text(texts(m.topics@))),
        ("pdf_links"@, list_text(texts(m.pdf_links@))),
        ("og"@, object_text(text_members(m.og.entries@))),
    ]
}

/// What a card says of an item as JSON.
pub fn metadata_json(m: &CardMetadata) -> (result: String)
    ensures
        result@ == object_text(metadata_members(*m)),
{
    let mut members = no_members();
    put(&mut members, "title", optional(&m.title));
    put(&mut members, "authors", text_array(&m.authors));
    put(&mut members, "year", optional(&m.year));
    put(&mut members, "bibliographic_description", optional(&m.bibliographic_description));
    put(&mut members, "description", optional(&m.description));
    put(&mut members, "detail", details_json(&m.detail));
    put(&mut members, "detail_map", list_map_json(&m.detail_map));
    put(&mut members, "topics", text_array(&m.topics));
    put(&mut members, "pdf_links", text_array(&m.pdf_links));
    put(&mut members, "og", text_map_json(&m.og));
    assert(pair_texts(members@) =~= metadata_members(*m));
    object(&members)
}

/// The members of a MARC21 record.
pub open spec fn marc_members(m: MarcView) -> Seq<(Seq<char>, Seq<char>)> {
    seq![
        ("raw_xml"@, quoted(m.raw_xml)),
        ("leader"@, optional_text(m.leader)),
        ("control_fields"@, two_text_list("tag"@, "value"@, m.control_fields)),
        ("data_fields"@, data_fields_text(m.data_fields)),
        ("pdf_links"@, list_text(m.pdf_links)),
    ]
}

/// An optional MARC21 record as JSON.
pub open spec fn marc_text(marc: Option<MarcXmlRecord>) -> Seq<char> {
    match marc {
        Some(m) => object_text(marc_members(m@)),
        None => "null"@,
    }
}

/// An optional MARC21 record as JSON.
pub fn marc_json(marc: &Option<MarcXmlRecord>) -> (result: String)
    ensures
        result@ == marc_text(*marc),
{
    match marc {
        Some(m) => {
            let mut members = no_members();
            put(&mut members, "raw_xml", quote(&m.raw_xml));
            put(&mut members, "leader", optional(&m.leader));
            put(&mut members, "control_fields", control_fields_json(&m.control_fields));
            put(&mut members, "data_fields", data_fields_json(&m.data_fields));
            put(&mut members, "pdf_links", text_array(&m.pdf_links));
            assert(pair_texts(members@) =~= marc_members(m@));
            object(&members)
        },
        None => "null".to_owned(),
    }
}

/// The members of the addresses of an item's parts.
pub open spec fn source_members(s: SourceUrls) -> Seq<(Seq<char>, Seq<char>)> {
    seq![
        ("card_html"@, quoted(s.card_html@)),
        ("marc21_xml"@, quoted(s.marc21_xml@)),
        ("viewer_access_json"@, quoted(s.viewer_access_json@)),
    ]
}

/// The addresses of an item's parts as JSON.
pub fn source_json(s: &SourceUrls) -> (result: String)
    ensures
        result@ == object_text(source_members(*s)),
{
    let mut members = no_members();
    put(&mut members, "card_html", quote(&s.card_html));
    put(&mut members, "marc21_xml", quote(&s.marc21_xml));
    put(&mut members, "viewer_access_json", quote(&s.viewer_access_json));
    assert(pair_texts(members@) =~= source_members(*s));
    object(&members)
}

/// The members of a record.
pub open spec fn record_members(r: RusnebRecord) -> Seq<(Seq<char>, Seq<char>)> {
    seq![
        ("id"@, quoted(r.id@)),
        ("url"@, quoted(r.url@)),
        ("fetched_at"@, quoted(r.fetched_at@)),
        ("fetched_at_unix"@, signed_decimal(r.fetched_at_unix as int)),
        ("source"@, object_text(source_members(r.source))),
        ("metadata"@, object_text(metadata_members(r.metadata))),
        ("marc21"@, marc_text(r.marc21)),
        (
            "viewer_access"@,
            match r.viewer_access {
                Some(json) => json@,
                None => "null"@,
            },
        ),
        ("fetch_errors"@, list_text(texts(r.fetch_errors@))),
    ]
}

/// A record as compact JSON.
pub fn record_json(r: &RusnebRecord) -> (result: String)
    ensures
        result@ == object_text(record_members(*r)),
{
    let viewer_access = match &r.viewer_access {
        Some(json) => json.clone(),
        None => "null".to_owned(),
    };
    let mut members = no_members();
    put(&mut members, "id", quote(&r.id));
    put(&mut members, "url", quote(&r.url));
    put(&mut members, "fetched_at", quote(&r.fetched_at));
    put(&mut members, "fetched_at_unix", signed_decimal_text(r.fetched_at_unix));
    put(&mut members, "source", source_json(&r.source));
    put(&mut members, "metadata", metadata_json(&r.metadata));
    put(&mut members, "marc21", marc_json(&r.marc21));
    put(&mut members, "viewer_access", viewer_access);
    put(&mut members, "fetch_errors", text_array(&r.fetch_errors));
    assert(pair_texts(members@) =~= record_members(*r));
    object(&members)
}

/// A record is written with each of its parts under the part's name.
pub proof fn law_record_is_written_by_name(r: RusnebRecord)
    ensures
        ({
            let m = record_members(r);
            &&& m.len() == 9
            &&& m.contains(("id"@, quoted(r.id@)))
            &&& m.contains(("url"@, quoted(r.url@)))
            &&& m.contains(("fetched_at"@, quoted(r.fetched_at@)))
            &&& m.contains(("fetched_at_unix"@, signed_decimal(r.fetched_at_unix as int)))
            &&& m.contains(("source"@, object_text(source_members(r.source))))
            &&& m.contains(("metadata"@, object_text(metadata_members(r.metadata))))
            &&& r.marc21 matches Some(marc) ==> m.contains(
                ("marc21"@, object_text(marc_members(marc@))),
            )
            &&& r.marc21 is None ==> m.contains(("marc21"@, "null"@))
            &&& r.viewer_access matches Some(json) ==> m.contains(("viewer_access"@, json@))
            &&& r.viewer_access is None ==> m.contains(("viewer_access"@, "null"@))
            &&& m.contains(("fetch_errors"@, array_text(quoted_list(texts(r.fetch_errors@)))))
        }),
{
    let m = record_members(r);
    assert(m[0].0 == "id"@ && m[1].0 == "url"@ && m[2].0 == "fetched_at"@ && m[3].0
        == "fetched_at_unix"@ && m[4].0 == "source"@ && m[5].0 == "metadata"@ && m[6].0
        == "marc21"@ && m[7].0 == "viewer_access"@ && m[8].0 == "fetch_errors"@);
}

/// What a card says is written with each of its parts under the part's name.
pub proof fn law_metadata_is_written_by_name(c: CardMetadata)
    ensures
        ({
            let m = metadata_members(c);
            &&& m.len() == 10
            &&& m.contains(("title"@, optional_text(opt_text(c.title))))
            &&& m.contains(("authors"@, array_text(quoted_list(texts(c.authors@)))))
            &&& m.contains(("year"@, optional_text(opt_text(c.year))))
            &&& m.contains(
                ("bibliographic_description"@, optional_text(opt_text(c.bibliographic_description))),
            )
            &&& m.contains(("description"@, optional_text(opt_text(c.description))))
            &&& m.contains(("detail"@, details_text(detail_views(c.detail@))))
            &&& m.contains(("detail_map"@, object_text(list_members(c.detail_map.entries@))))
            &&& m.contains(("topics"@, array_text(quoted_list(texts(c.topics@)))))
            &&& m.contains(("pdf_links"@, array_text(quoted_list(texts(c.pdf_links@)))))
            &&& m.contains(("og"@, object_text(text_members(c.og.entries@))))
        }),
{
    let m = metadata_members(c);
    assert(m[0].0 == "title"@ && m[1].0 == "authors"@ && m[2].0 == "year"@ && m[3].0
        == "bibliographic_description"@ && m[4].0 == "description"@ && m[5].0 == "detail"@
        && m[6].0 == "detail_map"@ && m[7].0 == "topics"@ && m[8].0 == "pdf_links"@ && m[9].0
        == "og"@);
}

/// A MARC21 record and where an item's parts are from are written by name.
pub proof fn law_marc_is_written_by_name(marc: MarcView, s: SourceUrls)
    ensures
        marc_members(marc).len() == 5,
        marc_members(marc).contains(("raw_xml"@, quoted(marc.raw_xml))),
        marc_members(marc).contains(("leader"@, optional_text(marc.leader))),
        marc_members(marc).contains(
            ("control_fields"@, two_text_list("tag"@, "value"@, marc.control_fields)),
        ),
        marc_members(marc).contains(("data_fields"@, data_fields_text(marc.data_fields))),
        marc_members(marc).contains(("pdf_links"@, array_text(quoted_list(marc.pdf_links)))),
        source_members(s).len() == 3,
        source_members(s).contains(("card_html"@, quoted(s.card_html@))),
        source_members(s).contains(("marc21_xml"@, quoted(s.marc21_xml@))),
        source_members(s).contains(("viewer_access_json"@, quoted(s.viewer_access_json@))),
{
    let m = marc_members(marc);
    assert(m[0].0 == "raw_xml"@ && m[1].0 == "leader"@ && m[2].0 == "control_fields"@ && m[3].0
        == "data_fields"@ && m[4].0 == "pdf_links"@);
    let n = source_members(s);
    assert(n[0].0 == "card_html"@ && n[1].0 == "marc21_xml"@ && n[2].0 == "viewer_access_json"@);
}

/// Lists of details, of data fields and of pairs are written element by element, in their order and
/// with nothing left out.
pub proof fn law_lists_are_written_whole(
    details: Seq<DetailView>,
    fields: Seq<DataFieldView>,
    first: Seq<char>,
    second: Seq<char>,
    pairs: Seq<(Seq<char>, Seq<char>)>,
)
    ensures
        exists|items: Seq<Seq<char>>|
            #[trigger] array_text(items) == details_text(details) && items.len() == details.len()
                && forall|i: int|
                0 <= i < items.len() ==> #[trigger] items[i] == object_text(
                    seq![
                        ("label"@, quoted(details[i].label)),
                        ("value"@, quoted(details[i].value)),
                        ("links"@, two_text_list("text"@, "href"@, details[i].links)),
                    ],
                ),
        exists|items: Seq<Seq<char>>|
            #[trigger] array_text(items) == data_fields_text(fields) && items.len() == fields.len()
                && forall|i: int|
                0 <= i < items.len() ==> #[trigger] items[i] == object_text(
                    seq![
                        ("tag"@, quoted(fields[i].tag)),
                        ("ind1"@, optional_text(fields[i].ind1)),
                        ("ind2"@, optional_text(fields[i].ind2)),
                        ("subfields"@, two_text_list("code"@, "value"@, fields[i].subfields)),
                    ],
                ),
        exists|items: Seq<Seq<char>>|
            #[trigger] array_text(items) == two_text_list(first, second, pairs) && items.len()
                == pairs.len() && forall|i: int|
                0 <= i < items.len() ==> #[trigger] items[i] == object_text(
                    seq![(first, quoted(pairs[i].0)), (second, quoted(pairs[i].1))],
                ),
{
    let a = details.map_values(|f: DetailView| detail_text(f));
    assert(array_text(a) == details_text(details));
    let b = fields.map_values(|f: DataFieldView| data_field_text(f));
    assert(array_text(b) == data_fields_text(fields));
    let c = pairs.map_values(|p: (Seq<char>, Seq<char>)| two_texts(first, second, p));
    assert(array_text(c) == two_text_list(first, second, pairs));
}

} // verus!
