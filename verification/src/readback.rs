use crate::card::{non_empty, value_under};
use crate::json::{
    array_text, member_keys, object_text, optional_text, parsed_json, plain_json, quoted,
    quoted_list,
};
use crate::maps::TextMap;
use crate::model::{
    control_views, data_field_views, detail_views, list_map_view, CardMetadata, DataFieldView,
    DetailView, MarcXmlRecord, RusnebRecord,
};
use crate::order::strictly_sorted;
use crate::pointers::{
    is_step, is_written, keeps_its_form, leads_along, leads_beyond, leads_nowhere, leads_to_value,
    lemma_array_is_written, lemma_number_is_written, lemma_object_is_written,
    lemma_string_is_written, readable_members,
};
use crate::record_json::{
    data_field_text, data_fields_text, detail_text, details_text, list_members, list_text,
    marc_members, marc_text, metadata_members, record_members, source_members, text_members,
    two_text_list, two_texts,
};
use crate::views::{opt_text, texts};
use vstd::prelude::*;

verus! {

proof fn lemma_optional_is_written(value: Option<Seq<char>>, depth: nat)
    ensures
        is_written(optional_text(value), depth),
        plain_json(optional_text(value)),
{
}

proof fn lemma_list_is_written(list: Seq<Seq<char>>, depth: nat)
    requires
        depth > 0,
    ensures
        is_written(list_text(list), depth),
        plain_json(list_text(list)),
{
    let items = quoted_list(list);
    assert forall|i: int| 0 <= i < items.len() implies is_written(
        #[trigger] items[i],
        (depth - 1) as nat,
    ) by {
        lemma_string_is_written(list[i], (depth - 1) as nat);
    }
    lemma_array_is_written(items, depth);
    assert(list_text(list) == array_text(quoted_list(list)));
}

proof fn lemma_two_texts_are_written(
    first: Seq<char>,
    second: Seq<char>,
    pair: (Seq<char>, Seq<char>),
    depth: nat,
)
    requires
        depth > 0,
    ensures
        is_written(two_texts(first, second, pair), depth),
{
    let members = seq![(first, quoted(pair.0)), (second, quoted(pair.1))];
    lemma_string_is_written(pair.0, (depth - 1) as nat);
    lemma_string_is_written(pair.1, (depth - 1) as nat);
    lemma_object_is_written(members, depth);
}

proof fn lemma_two_text_list_is_written(
    first: Seq<char>,
    second: Seq<char>,
    list: Seq<(Seq<char>, Seq<char>)>,
    depth: nat,
)
    requires
        depth > 1,
    ensures
        is_written(two_text_list(first, second, list), depth),
{
    let items = list.map_values(|p: (Seq<char>, Seq<char>)| two_texts(first, second, p));
    assert forall|i: int| 0 <= i < items.len() implies is_written(
        #[trigger] items[i],
        (depth - 1) as nat,
    ) by {
        lemma_two_texts_are_written(first, second, list[i], (depth - 1) as nat);
    }
    lemma_array_is_written(items, depth);
}

proof fn lemma_details_are_written(fields: Seq<DetailView>, depth: nat)
    requires
        depth > 3,
    ensures
        is_written(details_text(fields), depth),
{
    let items = fields.map_values(|f: DetailView| detail_text(f));
    let below = (depth - 1) as nat;
    let inside = (depth - 2) as nat;
    assert forall|i: int| 0 <= i < items.len() implies is_written(#[trigger] items[i], below) by {
        let f = fields[i];
        let members = seq![
            ("label"@, quoted(f.label)),
            ("value"@, quoted(f.value)),
            ("links"@, two_text_list("text"@, "href"@, f.links)),
        ];
        lemma_string_is_written(f.label, inside);
        lemma_string_is_written(f.value, inside);
        lemma_two_text_list_is_written("text"@, "href"@, f.links, inside);
        lemma_object_is_written(members, below);
        assert(items[i] == detail_text(f));
    }
    lemma_array_is_written(items, depth);
}

proof fn lemma_data_fields_are_written(fields: Seq<DataFieldView>, depth: nat)
    requires
        depth > 3,
    ensures
        is_written(data_fields_text(fields), depth),
{
    let items = fields.map_values(|f: DataFieldView| data_field_text(f));
    let below = (depth - 1) as nat;
    let inside = (depth - 2) as nat;
    assert forall|i: int| 0 <= i < items.len() implies is_written(#[trigger] items[i], below) by {
        let f = fields[i];
        let members = seq![
            ("tag"@, quoted(f.tag)),
            ("ind1"@, optional_text(f.ind1)),
            ("ind2"@, optional_text(f.ind2)),
            ("subfields"@, two_text_list("code"@, "value"@, f.subfields)),
        ];
        lemma_string_is_written(f.tag, inside);
        lemma_optional_is_written(f.ind1, inside);
        lemma_optional_is_written(f.ind2, inside);
        lemma_two_text_list_is_written("code"@, "value"@, f.subfields, inside);
        lemma_object_is_written(members, below);
        assert(items[i] == data_field_text(f));
    }
    lemma_array_is_written(items, depth);
}

proof fn lemma_list_map_is_written(map: TextMap<Vec<String>>, depth: nat)
    requires
        depth > 1,
        map.well_formed(),
    ensures
        is_written(object_text(list_members(map.entries@)), depth),
        keeps_its_form(object_text(list_members(map.entries@))),
{
    let members = list_members(map.entries@);
    assert forall|i: int| 0 <= i < members.len() implies is_written(
        (#[trigger] members[i]).1,
        (depth - 1) as nat,
    ) && plain_json(members[i].1) by {
        lemma_list_is_written(texts(map.entries@[i].1@), (depth - 1) as nat);
    }
    lemma_object_is_written(members, depth);
    assert(member_keys(members) =~= map.keys());
    assert(strictly_sorted(member_keys(members)));
}

proof fn lemma_text_map_is_written(map: TextMap<String>, depth: nat)
    requires
        depth > 0,
    ensures
        is_written(object_text(text_members(map.entries@)), depth),
{
    let members = text_members(map.entries@);
    assert forall|i: int| 0 <= i < members.len() implies is_written(
        (#[trigger] members[i]).1,
        (depth - 1) as nat,
    ) by {
        lemma_string_is_written(map.entries@[i].1@, (depth - 1) as nat);
    }
    lemma_object_is_written(members, depth);
}

proof fn lemma_metadata_keys(m: CardMetadata)
    ensures
        member_keys(metadata_members(m)).no_duplicates(),
{
    reveal_strlit("title");
    reveal_strlit("authors");
    reveal_strlit("year");
    reveal_strlit("bibliographic_description");
    reveal_strlit("description");
    reveal_strlit("detail");
    reveal_strlit("detail_map");
    reveal_strlit("topics");
    reveal_strlit("pdf_links");
    reveal_strlit("og");
    let keys = member_keys(metadata_members(m));
    assert("detail"@[0] != "topics"@[0]);
    assert(keys.len() == 10);
    assert forall|i: int, j: int| 0 <= i < j < keys.len() implies keys[i] != keys[j] by {
        if keys[i] == keys[j] {
            assert(keys[i].len() == keys[j].len());
            assert(keys[i][0] == keys[j][0]);
        }
    }
}

proof fn lemma_metadata_is_written(m: CardMetadata, depth: nat)
    requires
        m.well_formed(),
        depth > 3,
    ensures
        forall|i: int|
            0 <= i < metadata_members(m).len() ==> is_written(
                (#[trigger] metadata_members(m)[i]).1,
                depth,
            ),
{
    lemma_optional_is_written(opt_text(m.title), depth);
    lemma_list_is_written(texts(m.authors@), depth);
    lemma_optional_is_written(opt_text(m.year), depth);
    lemma_optional_is_written(opt_text(m.bibliographic_description), depth);
    lemma_optional_is_written(opt_text(m.description), depth);
    lemma_details_are_written(detail_views(m.detail@), depth);
    lemma_list_map_is_written(m.detail_map, depth);
    lemma_list_is_written(texts(m.topics@), depth);
    lemma_list_is_written(texts(m.pdf_links@), depth);
    lemma_text_map_is_written(m.og, depth);
}

proof fn lemma_marc_keys(m: MarcXmlRecord)
    ensures
        member_keys(marc_members(m@)).no_duplicates(),
{
    reveal_strlit("raw_xml");
    reveal_strlit("leader");
    reveal_strlit("control_fields");
    reveal_strlit("data_fields");
    reveal_strlit("pdf_links");
    let keys = member_keys(marc_members(m@));
    assert forall|i: int, j: int| 0 <= i < j < keys.len() implies keys[i] != keys[j] by {
        if keys[i] == keys[j] {
            assert(keys[i].len() == keys[j].len());
        }
    }
}

proof fn lemma_marc_is_written(m: MarcXmlRecord, depth: nat)
    requires
        depth > 3,
    ensures
        forall|i: int|
            0 <= i < marc_members(m@).len() ==> is_written(
                (#[trigger] marc_members(m@)[i]).1,
                depth,
            ),
{
    lemma_string_is_written(m.raw_xml@, depth);
    lemma_optional_is_written(opt_text(m.leader), depth);
    lemma_two_text_list_is_written("tag"@, "value"@, control_views(m.control_fields@), depth);
    lemma_data_fields_are_written(data_field_views(m.data_fields@), depth);
    lemma_list_is_written(texts(m.pdf_links@), depth);
}

proof fn lemma_record_keys(r: RusnebRecord)
    ensures
        member_keys(record_members(r)).no_duplicates(),
{
    reveal_strlit("id");
    reveal_strlit("url");
    reveal_strlit("fetched_at");
    reveal_strlit("fetched_at_unix");
    reveal_strlit("source");
    reveal_strlit("metadata");
    reveal_strlit("marc21");
    reveal_strlit("viewer_access");
    reveal_strlit("fetch_errors");
    let keys = member_keys(record_members(r));
    assert("source"@[0] != "marc21"@[0]);
    assert forall|i: int, j: int| 0 <= i < j < keys.len() implies keys[i] != keys[j] by {
        if keys[i] == keys[j] {
            assert(keys[i].len() == keys[j].len());
            assert(keys[i][0] == keys[j][0]);
        }
    }
}

/// The members of a record can be read.
proof fn lemma_record_is_readable(r: RusnebRecord)
    requires
        r.well_formed(),
    ensures
        readable_members(record_members(r)),
        readable_members(metadata_members(r.metadata)),
        r.marc21 matches Some(m) ==> readable_members(marc_members(m@)),
{
    let members = record_members(r);
    lemma_record_keys(r);
    lemma_string_is_written(r.id@, 6);
    lemma_string_is_written(r.url@, 6);
    lemma_string_is_written(r.fetched_at@, 6);
    lemma_number_is_written(r.fetched_at_unix as int, 6);
    lemma_string_is_written(r.source.card_html@, 5);
    lemma_string_is_written(r.source.marc21_xml@, 5);
    lemma_string_is_written(r.source.viewer_access_json@, 5);
    lemma_object_is_written(source_members(r.source), 6);
    lemma_metadata_is_written(r.metadata, 5);
    lemma_metadata_is_written(r.metadata, 6);
    lemma_metadata_keys(r.metadata);
    lemma_object_is_written(metadata_members(r.metadata), 6);
    lemma_list_is_written(texts(r.fetch_errors@), 6);
    match r.marc21 {
        Some(m) => {
            lemma_marc_is_written(m, 5);
            lemma_marc_is_written(m, 6);
            lemma_marc_keys(m);
            lemma_object_is_written(marc_members(m@), 6);
        },
        None => {
            lemma_optional_is_written(None, 6);
        },
    }
    match r.viewer_access {
        Some(json) => {
            assert(parsed_json(json@) is Ok);
        },
        None => {
            lemma_optional_is_written(None, 6);
        },
    }
    assert forall|i: int| 0 <= i < members.len() implies is_written((#[trigger] members[i]).1, 6)
        || parsed_json(members[i].1) is Ok by {
        assert(i == 0 || i == 1 || i == 2 || i == 3 || i == 4 || i == 5 || i == 6 || i == 7 || i
            == 8);
    }
}

proof fn lemma_steps()
    ensures
        is_step("metadata"@),
        is_step("marc21"@),
        is_step("title"@),
        is_step("authors"@),
        is_step("year"@),
        is_step("pdf_links"@),
        is_step("detail_map"@),
        is_step("raw_xml"@),
{
    reveal_strlit("metadata");
    reveal_strlit("marc21");
    reveal_strlit("title");
    reveal_strlit("authors");
    reveal_strlit("year");
    reveal_strlit("pdf_links");
    reveal_strlit("detail_map");
    reveal_strlit("raw_xml");
}

proof fn lemma_pointers()
    ensures
        "/metadata/title"@ == seq!['/'] + "metadata"@ + seq!['/'] + "title"@,
        "/metadata/authors"@ == seq!['/'] + "metadata"@ + seq!['/'] + "authors"@,
        "/metadata/year"@ == seq!['/'] + "metadata"@ + seq!['/'] + "year"@,
        "/metadata/pdf_links"@ == seq!['/'] + "metadata"@ + seq!['/'] + "pdf_links"@,
        "/metadata/detail_map"@ == seq!['/'] + "metadata"@ + seq!['/'] + "detail_map"@,
        "/marc21/raw_xml"@ == seq!['/'] + "marc21"@ + seq!['/'] + "raw_xml"@,
{
    reveal_strlit("metadata");
    reveal_strlit("marc21");
    reveal_strlit("title");
    reveal_strlit("authors");
    reveal_strlit("year");
    reveal_strlit("pdf_links");
    reveal_strlit("detail_map");
    reveal_strlit("raw_xml");
    reveal_strlit("/metadata/title");
    reveal_strlit("/metadata/authors");
    reveal_strlit("/metadata/year");
    reveal_strlit("/metadata/pdf_links");
    reveal_strlit("/metadata/detail_map");
    reveal_strlit("/marc21/raw_xml");
    assert("/metadata/title"@ =~= seq!['/'] + "metadata"@ + seq!['/'] + "title"@);
    assert("/metadata/authors"@ =~= seq!['/'] + "metadata"@ + seq!['/'] + "authors"@);
    assert("/metadata/year"@ =~= seq!['/'] + "metadata"@ + seq!['/'] + "year"@);
    assert("/metadata/pdf_links"@ =~= seq!['/'] + "metadata"@ + seq!['/'] + "pdf_links"@);
    assert("/metadata/detail_map"@ =~= seq!['/'] + "metadata"@ + seq!['/'] + "detail_map"@);
    assert("/marc21/raw_xml"@ =~= seq!['/'] + "marc21"@ + seq!['/'] + "raw_xml"@);
}

/// The text of a record.
pub open spec fn record_text(r: RusnebRecord) -> Seq<char> {
    object_text(record_members(r))
}

/// The pointers into the text of a record lead to what the record holds.
pub proof fn lemma_record_pointers(r: RusnebRecord)
    requires
        r.well_formed(),
    ensures
        leads_to_value(
            record_text(r),
            "/metadata/title"@,
            optional_text(opt_text(r.metadata.title)),
        ),
        leads_to_value(
            record_text(r),
            "/metadata/authors"@,
            list_text(texts(r.metadata.authors@)),
        ),
        leads_to_value(
            record_text(r),
            "/metadata/year"@,
            optional_text(opt_text(r.metadata.year)),
        ),
        leads_to_value(
            record_text(r),
            "/metadata/pdf_links"@,
            list_text(texts(r.metadata.pdf_links@)),
        ),
        leads_to_value(
            record_text(r),
            "/metadata/detail_map"@,
            object_text(list_members(r.metadata.detail_map.entries@)),
        ),
        match r.marc21 {
            Some(m) => leads_to_value(
                record_text(r),
                "/marc21/raw_xml"@,
                optional_text(Some(m.raw_xml@)),
            ),
            None => leads_nowhere(record_text(r), "/marc21/raw_xml"@),
        },
{
    let json = record_text(r);
    let outer = record_members(r);
    let inner = metadata_members(r.metadata);
    lemma_record_is_readable(r);
    lemma_steps();
    lemma_pointers();
    lemma_optional_is_written(opt_text(r.metadata.title), 6);
    lemma_list_is_written(texts(r.metadata.authors@), 6);
    lemma_optional_is_written(opt_text(r.metadata.year), 6);
    lemma_list_is_written(texts(r.metadata.pdf_links@), 6);
    lemma_list_map_is_written(r.metadata.detail_map, 6);
    assert(outer[5] == ("metadata"@, object_text(inner)));
    assert(inner[0] == ("title"@, optional_text(opt_text(r.metadata.title))));
    assert(inner[1] == ("authors"@, list_text(texts(r.metadata.authors@))));
    assert(inner[2] == ("year"@, optional_text(opt_text(r.metadata.year))));
    assert(inner[6] == ("detail_map"@, object_text(
        list_members(r.metadata.detail_map.entries@),
    )));
    assert(inner[8] == ("pdf_links"@, list_text(texts(r.metadata.pdf_links@))));
    assert(leads_along(json, "/metadata/title"@, inner[0].1, outer, inner, 5, 0));
    assert(leads_along(json, "/metadata/authors"@, inner[1].1, outer, inner, 5, 1));
    assert(leads_along(json, "/metadata/year"@, inner[2].1, outer, inner, 5, 2));
    assert(leads_along(json, "/metadata/detail_map"@, inner[6].1, outer, inner, 5, 6));
    assert(leads_along(json, "/metadata/pdf_links"@, inner[8].1, outer, inner, 5, 8));
    assert(outer[6] == ("marc21"@, marc_text(r.marc21)));
    match r.marc21 {
        Some(m) => {
            let members = marc_members(m@);
            assert(members[0] == ("raw_xml"@, quoted(m.raw_xml@)));
            lemma_optional_is_written(Some(m.raw_xml@), 6);
            assert(leads_along(json, "/marc21/raw_xml"@, members[0].1, outer, members, 6, 0));
        },
        None => {
            assert(leads_beyond(json, "/marc21/raw_xml"@, outer, 6, "raw_xml"@));
        },
    }
}

/// The first value of a detail of a record, where it is not empty.
pub open spec fn first_of_detail(r: RusnebRecord, label: Seq<char>) -> Option<Seq<char>> {
    value_under(list_map_view(r.metadata.detail_map), label)
}

/// The MARC21 text of a record, where it is not empty.
pub open spec fn marc_xml_of(r: RusnebRecord) -> Option<Seq<char>> {
    match r.marc21 {
        Some(m) => non_empty(Some(m.raw_xml@)),
        None => None,
    }
}

} // verus!
