use crate::card::{keep_non_empty, non_empty, or_text, value_under};
use crate::json::{
    array_text, in_key_order, json_node, member_keys, node_view, object_text, optional_text,
    parsed_json, plain_json, plain_members, quoted, quoted_list, reads_as_object, JsonNode,
    JsonView,
};
use crate::maps::TextMap;
use crate::model::{list_map_view, RusnebRecord};
use crate::order::{lemma_before_irreflexive, text_before};
use crate::pointers::{json_pointer, leads_nowhere, leads_to_value, pointed};
use crate::readback::{first_of_detail, lemma_record_pointers, marc_xml_of, record_text};
use crate::record_json::{list_members, list_text};
use crate::text::{option_is, same};
use crate::views::{group_texts, opt_text, pair_texts, texts};
use vstd::prelude::*;

verus! {

broadcast use group_texts;

/// How a file of JSON lines is compressed.
#[derive(Debug, Clone, Copy, PartialEq, Eq, Structural)]
pub enum JsonlCompression {
    Gzip,
    Xz,
    Plain,
}

/// How a file of JSON lines is compressed, by the extension of its name.
pub open spec fn compression_of(extension: Option<Seq<char>>) -> JsonlCompression {
    if extension == Some("gz"@) {
        JsonlCompression::Gzip
    } else if extension == Some("xz"@) {
        JsonlCompression::Xz
    } else {
        JsonlCompression::Plain
    }
}

/// How a file of JSON lines is compressed, by the extension of its name.
pub fn jsonl_compression(extension: &Option<String>) -> (result: JsonlCompression)
    ensures
        result == compression_of(opt_text(*extension)),
{
    if option_is(extension, "gz") {
        JsonlCompression::Gzip
    } else if option_is(extension, "xz") {
        JsonlCompression::Xz
    } else {
        JsonlCompression::Plain
    }
}

/// The name of the file that is written before it takes the place of another.
pub open spec fn tmp_name(file_name: Option<Seq<char>>, fallback: Seq<char>) -> Seq<char> {
    "."@ + (match file_name {
        Some(name) => name,
        None => fallback,
    }) + ".tmp"@
}

/// The name of the file that is written before it takes the place of another. The fallback stands
/// in for a name that is missing or not text.
pub fn tmp_path(file_name: &Option<String>, fallback: &str) -> (result: String)
    ensures
        result@ == tmp_name(opt_text(*file_name), fallback@),
{
    let mut out: String = ".".to_owned();
    match file_name {
        Some(name) => out.append(name),
        None => out.append(fallback),
    }
    out.append(".tmp");
    out
}

/// The line that a record takes in a file of JSON lines.
pub fn jsonl_line(json: &str) -> (result: String)
    ensures
        result@ == json@ + seq!['\n'],
{
    let mut out: String = json.to_owned();
    out.push('\n');
    assert(out@ =~= json@ + seq!['\n']);
    out
}

/// The string that was read, where it is one that is not empty.
pub open spec fn string_in(read: Result<JsonView, Seq<char>>) -> Option<Seq<char>> {
    match read {
        Ok(JsonView::Text(text)) => non_empty(Some(text)),
        _ => None,
    }
}

/// The string that was read, where it is one that is not empty.
pub fn read_string(read: Result<JsonNode, String>) -> (result: Option<String>)
    ensures
        opt_text(result) == string_in(node_view(read)),
{
    match read {
        Ok(JsonNode::Text(text)) => keep_non_empty(Some(text)),
        _ => None,
    }
}

/// The first element of the array that was read.
pub open spec fn first_element_in(read: Result<JsonView, Seq<char>>) -> Option<Seq<char>> {
    match read {
        Ok(JsonView::Array(items)) => if items.len() > 0 {
            Some(items[0])
        } else {
            None
        },
        _ => None,
    }
}

/// The first element of the array that was read.
pub fn read_first_element(read: Result<JsonNode, String>) -> (result: Option<String>)
    ensures
        opt_text(result) == first_element_in(node_view(read)),
{
    match read {
        Ok(JsonNode::Array(items)) => {
            if items.len() > 0 {
                assert(texts(items@)[0] == items@[0]@);
                Some(items[0].clone())
            } else {
                None
            }
        },
        _ => None,
    }
}

/// The value of the first member with a key.
pub open spec fn value_under_key(members: Seq<(Seq<char>, Seq<char>)>, key: Seq<char>) -> Option<
    Seq<char>,
>
    decreases members.len(),
{
    if members.len() == 0 {
        None
    } else if members[0].0 == key {
        Some(members[0].1)
    } else {
        value_under_key(members.drop_first(), key)
    }
}

/// The value under a key of the object that was read.
pub open spec fn member_in(read: Result<JsonView, Seq<char>>, key: Seq<char>) -> Option<Seq<char>> {
    match read {
        Ok(JsonView::Object(members)) => value_under_key(members, key),
        _ => None,
    }
}

fn find_member(members: &Vec<(String, String)>, key: &str) -> (result: Option<String>)
    ensures
        opt_text(result) == value_under_key(pair_texts(members@), key@),
{
    let ghost all = pair_texts(members@);
    assert(all.skip(0) == all);
    for i in 0..members.len()
        invariant
            all == pair_texts(members@),
            value_under_key(all, key@) == value_under_key(all.skip(i as int), key@),
    {
        proof {
            assert(all.skip(i as int)[0] == all[i as int]);
            assert(all.skip(i as int).drop_first() == all.skip(i + 1));
        }
        if same(&members[i].0, key) {
            return Some(members[i].1.clone());
        }
    }
    None
}

/// The value under a key of the object that was read.
pub fn read_member(read: Result<JsonNode, String>, key: &str) -> (result: Option<String>)
    ensures
        opt_text(result) == member_in(node_view(read), key@),
{
    match read {
        Ok(JsonNode::Object(members)) => find_member(&members, key),
        _ => None,
    }
}

/// The string that a JSON text holds, where it is one that is not empty.
fn string_of(text: &str) -> (result: Option<String>)
    ensures
        opt_text(result) == string_in(parsed_json(text@)),
        forall|value: Option<Seq<char>>|
            text@ == #[trigger] optional_text(value) ==> opt_text(result) == non_empty(value),
{
    let read = json_node(text);
    let result = read_string(read);
    assert forall|value: Option<Seq<char>>| text@ == #[trigger] optional_text(value) implies opt_text(
        result,
    ) == non_empty(value) by {
        match value {
            Some(s) => {
                assert(text@ == quoted(s));
            },
            None => {},
        }
    }
    result
}

/// The first string of an array of strings, where it is not empty.
pub open spec fn first_string(list: Seq<Seq<char>>) -> Option<Seq<char>> {
    if list.len() > 0 {
        non_empty(Some(list[0]))
    } else {
        None
    }
}

/// The first string of the array that a JSON text holds, where it is not empty.
pub open spec fn first_string_in(read: Result<JsonView, Seq<char>>) -> Option<Seq<char>> {
    match first_element_in(read) {
        Some(first) => string_in(parsed_json(first)),
        None => None,
    }
}

fn first_string_of(text: &str) -> (result: Option<String>)
    ensures
        opt_text(result) == first_string_in(parsed_json(text@)),
        forall|list: Seq<Seq<char>>|
            text@ == array_text(#[trigger] quoted_list(list)) ==> opt_text(result)
                == first_string(list),
{
    let read = json_node(text);
    let first = read_first_element(read);
    let result = match &first {
        Some(element) => string_of(element),
        None => None,
    };
    assert forall|list: Seq<Seq<char>>|
        text@ == array_text(#[trigger] quoted_list(list)) implies opt_text(result) == first_string(
        list,
    ) by {
        if list.len() > 0 {
            assert(quoted_list(list)[0] == quoted(list[0]));
            assert(quoted(list[0]) == optional_text(Some(list[0])));
        }
    }
    result
}

/// What a key of a map of text lists leads to, as JSON.
pub open spec fn list_under(map: TextMap<Vec<String>>, key: Seq<char>) -> Option<Seq<char>> {
    if list_map_view(map).contains_key(key) {
        Some(array_text(quoted_list(list_map_view(map)[key])))
    } else {
        None
    }
}

proof fn lemma_value_under_key(members: Seq<(Seq<char>, Seq<char>)>, key: Seq<char>)
    ensures
        match value_under_key(members, key) {
            Some(value) => members.contains((key, value)),
            None => forall|i: int| 0 <= i < members.len() ==> (#[trigger] members[i]).0 != key,
        },
    decreases members.len(),
{
    if members.len() > 0 {
        let rest = members.drop_first();
        lemma_value_under_key(rest, key);
        if members[0].0 != key {
            match value_under_key(rest, key) {
                Some(value) => {
                    let i = rest.index_of((key, value));
                    assert(members[i + 1] == (key, value));
                },
                None => {
                    assert forall|i: int| 0 <= i < members.len() implies (
                    #[trigger] members[i]).0 != key by {
                        if i > 0 {
                            assert(rest[i - 1] == members[i]);
                        }
                    }
                },
            }
        }
    }
}

/// The members of a map are found under its keys, in whatever order they stand.
proof fn lemma_list_under(
    sorted: Seq<(Seq<char>, Seq<char>)>,
    map: TextMap<Vec<String>>,
    key: Seq<char>,
)
    requires
        map.well_formed(),
        in_key_order(sorted, list_members(map.entries@)),
    ensures
        value_under_key(sorted, key) == list_under(map, key),
{
    let members = list_members(map.entries@);
    lemma_value_under_key(sorted, key);
    match value_under_key(sorted, key) {
        Some(value) => {
            assert(sorted.to_set().contains((key, value)));
            assert(members.contains((key, value)));
            let i = members.index_of((key, value));
            assert(members[i] == (key, value));
            map.lemma_entry(i);
            assert(map.entries@[i].0@ == key);
        },
        None => {
            if list_map_view(map).contains_key(key) {
                assert(map.keys().contains(key));
                let i = map.keys().index_of(key);
                assert(members[i].0 == key);
                assert(members.to_set().contains(members[i]));
                assert(sorted.contains(members[i]));
                let k = sorted.index_of(members[i]);
                assert(sorted[k].0 == key);
            }
        },
    }
}

proof fn lemma_list_members_are_plain(map: TextMap<Vec<String>>)
    requires
        map.well_formed(),
    ensures
        plain_members(list_members(map.entries@)),
{
    let members = list_members(map.entries@);
    let keys = member_keys(members);
    assert(keys =~= map.keys());
    assert forall|i: int, j: int| 0 <= i < j < keys.len() implies keys[i] != keys[j] by {
        assert(text_before(keys[i], keys[j]));
        lemma_before_irreflexive(keys[i]);
    }
    assert(keys.no_duplicates());
    assert forall|i: int| 0 <= i < members.len() implies plain_json(#[trigger] members[i].1) by {
        let list = texts(map.entries@[i].1@);
        assert(members[i].1 == array_text(quoted_list(list)));
    }
}

/// The value under a key of the object that a JSON text holds.
fn member_of(text: &str, key: &str) -> (result: Option<String>)
    ensures
        opt_text(result) == member_in(parsed_json(text@), key@),
        forall|map: TextMap<Vec<String>>|
            map.well_formed() && text@ == object_text(#[trigger] list_members(map.entries@))
                ==> opt_text(result) == list_under(map, key@),
{
    let read = json_node(text);
    let result = read_member(read, key);
    assert forall|map: TextMap<Vec<String>>|
        map.well_formed() && text@ == object_text(
            #[trigger] list_members(map.entries@),
        ) implies opt_text(result) == list_under(map, key@) by {
        lemma_list_members_are_plain(map);
        let members = list_members(map.entries@);
        assert(text@ == object_text(members));
        assert(reads_as_object(read, members));
        match node_view(read) {
            Ok(JsonView::Object(sorted)) => {
                lemma_list_under(sorted, map, key@);
            },
            _ => {},
        }
    }
    result
}

/// The string that a pointer leads to, where it is not empty.
pub open spec fn pointed_string(json: Seq<char>, pointer: Seq<char>) -> Option<Seq<char>> {
    match pointed(json, pointer) {
        Some(text) => string_in(parsed_json(text)),
        None => None,
    }
}

/// The string that a pointer leads to, where it is not empty.
pub fn json_pointer_string(json: &str, pointer: &str) -> (result: Option<String>)
    ensures
        opt_text(result) == pointed_string(json@, pointer@),
        parsed_json(json@) is Ok ==> forall|value: Option<Seq<char>>|
            leads_to_value(json@, pointer@, #[trigger] optional_text(value)) ==> opt_text(result)
                == non_empty(value),
        parsed_json(json@) is Ok && leads_nowhere(json@, pointer@) ==> result is None,
{
    match json_pointer(json, pointer) {
        Some(text) => string_of(&text),
        None => None,
    }
}

/// The compact text of what a pointer leads to.
pub fn json_pointer_compact(json: &str, pointer: &str) -> (result: Option<String>)
    ensures
        opt_text(result) == pointed(json@, pointer@),
        parsed_json(json@) is Ok ==> forall|value: Seq<char>| #[trigger]
            leads_to_value(json@, pointer@, value) ==> opt_text(result) == Some(value),
{
    json_pointer(json, pointer)
}

/// The first value of a detail of a record, where it is a string that is not empty.
pub open spec fn detail_in(json: Seq<char>, label: Seq<char>) -> Option<Seq<char>> {
    match pointed(json, "/metadata/detail_map"@) {
        None => None,
        Some(map) => match member_in(parsed_json(map), label) {
            None => None,
            Some(values) => first_string_in(parsed_json(values)),
        },
    }
}

/// The first value of a detail of a record, where it is a string that is not empty.
pub fn first_detail(json: &str, key: &str) -> (result: Option<String>)
    ensures
        opt_text(result) == detail_in(json@, key@),
        parsed_json(json@) is Ok ==> forall|map: TextMap<Vec<String>>|
            map.well_formed() && leads_to_value(
                json@,
                "/metadata/detail_map"@,
                object_text(#[trigger] list_members(map.entries@)),
            ) ==> opt_text(result) == value_under(list_map_view(map), key@),
{
    match json_pointer(json, "/metadata/detail_map") {
        Some(map) => {
            match member_of(&map, key) {
                Some(values) => first_string_of(&values),
                None => None,
            }
        },
        None => None,
    }
}

/// A row of the flat table of records.
pub ghost struct FlatRow {
    pub id: Option<Seq<char>>,
    pub title: Option<Seq<char>>,
    pub authors_json: Option<Seq<char>>,
    pub year: Option<Seq<char>>,
    pub catalog: Option<Seq<char>>,
    pub language: Option<Seq<char>>,
    pub publication_place: Option<Seq<char>>,
    pub publisher: Option<Seq<char>>,
    pub pdf_links_json: Option<Seq<char>>,
    pub detail_json: Option<Seq<char>>,
    pub marc_xml: Option<Seq<char>>,
    pub record_json: Option<Seq<char>>,
}

/// The row that a record takes in the flat table.
pub open spec fn flat_row(id: Seq<char>, json: Seq<char>) -> FlatRow {
    FlatRow {
        id: Some(id),
        title: pointed_string(json, "/metadata/title"@),
        authors_json: pointed(json, "/metadata/authors"@),
        year: pointed_string(json, "/metadata/year"@),
        catalog: detail_in(json, "Каталог"@),
        language: detail_in(json, "Язык"@),
        publication_place: or_text(
            detail_in(json, "Место издания"@),
            detail_in(json, "Место публикации"@),
        ),
        publisher: detail_in(json, "Издательство"@),
        pdf_links_json: pointed(json, "/metadata/pdf_links"@),
        detail_json: pointed(json, "/metadata/detail_map"@),
        marc_xml: pointed_string(json, "/marc21/raw_xml"@),
        record_json: Some(json),
    }
}

/// The row that a record takes in the flat table, by what it holds.
pub open spec fn row_of_record(id: Seq<char>, r: RusnebRecord) -> FlatRow {
    FlatRow {
        id: Some(id),
        title: non_empty(opt_text(r.metadata.title)),
        authors_json: Some(list_text(texts(r.metadata.authors@))),
        year: non_empty(opt_text(r.metadata.year)),
        catalog: first_of_detail(r, "Каталог"@),
        language: first_of_detail(r, "Язык"@),
        publication_place: or_text(
            first_of_detail(r, "Место издания"@),
            first_of_detail(r, "Место публикации"@),
        ),
        publisher: first_of_detail(r, "Издательство"@),
        pdf_links_json: Some(list_text(texts(r.metadata.pdf_links@))),
        detail_json: Some(object_text(list_members(r.metadata.detail_map.entries@))),
        marc_xml: marc_xml_of(r),
        record_json: Some(record_text(r)),
    }
}

/// Whether a column ends with the first value that a label leads to: a value that is not empty stands
/// there, and nothing does where the label leads nowhere.
pub open spec fn ends_with_detail(
    column: Seq<Option<String>>,
    map: Map<Seq<char>, Seq<Seq<char>>>,
    label: Seq<char>,
) -> bool {
    &&& column.len() > 0
    &&& map.contains_key(label) && map[label].len() > 0 && map[label][0].len() > 0 ==> opt_text(
        column.last(),
    ) == Some(map[label][0])
    &&& !map.contains_key(label) ==> column.last() is None
}

/// Rows of the flat table of records, column by column.
#[derive(Debug)]
pub struct FlatRows {
    pub id: Vec<Option<String>>,
    pub title: Vec<Option<String>>,
    pub authors_json: Vec<Option<String>>,
    pub year: Vec<Option<String>>,
    pub catalog: Vec<Option<String>>,
    pub language: Vec<Option<String>>,
    pub publication_place: Vec<Option<String>>,
    pub publisher: Vec<Option<String>>,
    pub pdf_links_json: Vec<Option<String>>,
    pub detail_json: Vec<Option<String>>,
    pub marc_xml: Vec<Option<String>>,
    pub record_json: Vec<Option<String>>,
}

impl View for FlatRows {
    type V = Seq<FlatRow>;

    open spec fn view(&self) -> Seq<FlatRow> {
        Seq::new(
            self.id@.len(),
            |i: int|
                FlatRow {
                    id: opt_text(self.id@[i]),
                    title: opt_text(self.title@[i]),
                    authors_json: opt_text(self.authors_json@[i]),
                    year: opt_text(self.year@[i]),
                    catalog: opt_text(self.catalog@[i]),
                    language: opt_text(self.language@[i]),
                    publication_place: opt_text(self.publication_place@[i]),
                    publisher: opt_text(self.publisher@[i]),
                    pdf_links_json: opt_text(self.pdf_links_json@[i]),
                    detail_json: opt_text(self.detail_json@[i]),
                    marc_xml: opt_text(self.marc_xml@[i]),
                    record_json: opt_text(self.record_json@[i]),
                },
        )
    }
}

impl FlatRows {
    /// The columns are of the same length.
    pub open spec fn well_formed(self) -> bool {
        let n = self.id@.len();
        &&& self.title@.len() == n
        &&& self.authors_json@.len() == n
        &&& self.year@.len() == n
        &&& self.catalog@.len() == n
        &&& self.language@.len() == n
        &&& self.publication_place@.len() == n
        &&& self.publisher@.len() == n
        &&& self.pdf_links_json@.len() == n
        &&& self.detail_json@.len() == n
        &&& self.marc_xml@.len() == n
        &&& self.record_json@.len() == n
    }

    /// A table without rows.
    pub fn new() -> (result: Self)
        ensures
            result.well_formed(),
            result@ == Seq::<FlatRow>::empty(),
    {
        let rows = FlatRows {
            id: Vec::new(),
            title: Vec::new(),
            authors_json: Vec::new(),
            year: Vec::new(),
            catalog: Vec::new(),
            language: Vec::new(),
            publication_place: Vec::new(),
            publisher: Vec::new(),
            pdf_links_json: Vec::new(),
            detail_json: Vec::new(),
            marc_xml: Vec::new(),
            record_json: Vec::new(),
        };
        assert(rows@ =~= Seq::empty());
        rows
    }

    /// The number of rows.
    pub fn len(&self) -> (result: usize)
        ensures
            result == self@.len(),
    {
        self.id.len()
    }

    /// Whether the rows fill a batch of this size; a batch has at least one row.
    pub fn fill_batch(&self, batch_size: usize) -> (result: bool)
        ensures
            result == (self@.len() >= batch_size && self@.len() >= 1),
    {
        let count: usize = self.len();
        count >= batch_size && count >= 1
    }

    /// Appends the row of a record, unless its text is not JSON. Where the text is that of a record,
    /// the row has what the record holds.
    pub fn push(&mut self, id: &str, json: &str) -> (result: Result<(), String>)
        requires
            old(self).well_formed(),
        ensures
            final(self).well_formed(),
            match parsed_json(json@) {
                Ok(_) => result is Ok && final(self)@ == old(self)@.push(flat_row(id@, json@)),
                Err(message) => final(self)@ == old(self)@ && (result matches Err(error)
                    && error@ == message),
            },
            result is Ok ==> forall|r: RusnebRecord|
                r.well_formed() && json@ == #[trigger] record_text(r) ==> final(self)@
                    == old(self)@.push(row_of_record(id@, r)),
            result is Ok ==> final(self).id@.len() == old(self).id@.len() + 1 && opt_text(
                final(self).id@.last(),
            ) == Some(id@) && opt_text(final(self).record_json@.last()) == Some(json@),
            result is Ok ==> forall|r: RusnebRecord|
                r.well_formed() && json@ == #[trigger] record_text(r) ==> ({
                    let map = list_map_view(r.metadata.detail_map);
                    &&& ends_with_detail(final(self).catalog@, map, "Каталог"@)
                    &&& ends_with_detail(final(self).language@, map, "Язык"@)
                    &&& ends_with_detail(final(self).publisher@, map, "Издательство"@)
                    &&& map.contains_key("Место издания"@) && map["Место издания"@].len() > 0
                        && map["Место издания"@][0].len() > 0 ==> ends_with_detail(
                        final(self).publication_place@,
                        map,
                        "Место издания"@,
                    )
                    &&& !map.contains_key("Место издания"@) ==> ends_with_detail(
                        final(self).publication_place@,
                        map,
                        "Место публикации"@,
                    )
                    &&& r.metadata.title is Some && r.metadata.title.unwrap()@.len() > 0
                        ==> opt_text(final(self).title@.last()) == opt_text(r.metadata.title)
                    &&& r.metadata.title is None ==> final(self).title@.last() is None
                    &&& r.metadata.year is Some && r.metadata.year.unwrap()@.len() > 0 ==> opt_text(
                        final(self).year@.last(),
                    ) == opt_text(r.metadata.year)
                    &&& r.metadata.year is None ==> final(self).year@.last() is None
                    &&& opt_text(final(self).authors_json@.last()) == Some(
                        array_text(quoted_list(texts(r.metadata.authors@))),
                    )
                    &&& opt_text(final(self).pdf_links_json@.last()) == Some(
                        array_text(quoted_list(texts(r.metadata.pdf_links@))),
                    )
                    &&& opt_text(final(self).detail_json@.last()) == Some(
                        object_text(list_members(r.metadata.detail_map.entries@)),
                    )
                    &&& r.marc21 matches Some(marc) ==> (marc.raw_xml@.len() > 0 ==> opt_text(
                        final(self).marc_xml@.last(),
                    ) == Some(marc.raw_xml@))
                    &&& r.marc21 is None ==> final(self).marc_xml@.last() is None
                }),
    {
        match json_node(json) {
            Ok(_) => {},
            Err(error) => return Err(error),
        }
        let ghost before = *self;
        let place = match first_detail(json, "Место издания") {
            Some(place) => Some(place),
            None => first_detail(json, "Место публикации"),
        };
        self.id.push(Some(id.to_owned()));
        self.title.push(json_pointer_string(json, "/metadata/title"));
        self.authors_json.push(json_pointer_compact(json, "/metadata/authors"));
        self.year.push(json_pointer_string(json, "/metadata/year"));
        self.catalog.push(first_detail(json, "Каталог"));
        self.language.push(first_detail(json, "Язык"));
        self.publication_place.push(place);
        self.publisher.push(first_detail(json, "Издательство"));
        self.pdf_links_json.push(json_pointer_compact(json, "/metadata/pdf_links"));
        self.detail_json.push(json_pointer_compact(json, "/metadata/detail_map"));
        self.marc_xml.push(json_pointer_string(json, "/marc21/raw_xml"));
        self.record_json.push(Some(json.to_owned()));
        proof {
            let n = before@.len() as int;
            assert(self@[n] == flat_row(id@, json@));
            assert forall|i: int| 0 <= i < n implies self@[i] == before@[i] by {}
            assert(self@ =~= before@.push(flat_row(id@, json@)));
            assert forall|r: RusnebRecord|
                r.well_formed() && json@ == #[trigger] record_text(r) implies self@
                == before@.push(row_of_record(id@, r)) by {
                lemma_record_pointers(r);
                let entries = r.metadata.detail_map.entries@;
                assert(leads_to_value(
                    json@,
                    "/metadata/detail_map"@,
                    object_text(list_members(entries)),
                ));
                assert(self@[n] == row_of_record(id@, r));
            }
            lemma_last_row(*self);
            assert forall|r: RusnebRecord|
                r.well_formed() && json@ == #[trigger] record_text(r) implies self@.last()
                == row_of_record(id@, r) by {
                assert(self@ == before@.push(row_of_record(id@, r)));
            }
        }
        Ok(())
    }

    /// Takes all rows away.
    pub fn clear(&mut self)
        ensures
            final(self).well_formed(),
            final(self)@ == Seq::<FlatRow>::empty(),
    {
        *self = FlatRows::new();
    }
}

/// The last row of a table holds the last values of its columns.
proof fn lemma_last_row(rows: FlatRows)
    requires
        rows.well_formed(),
        rows.id@.len() > 0,
    ensures
        rows@.last().id == opt_text(rows.id@.last()),
        rows@.last().title == opt_text(rows.title@.last()),
        rows@.last().authors_json == opt_text(rows.authors_json@.last()),
        rows@.last().year == opt_text(rows.year@.last()),
        rows@.last().catalog == opt_text(rows.catalog@.last()),
        rows@.last().language == opt_text(rows.language@.last()),
        rows@.last().publication_place == opt_text(rows.publication_place@.last()),
        rows@.last().publisher == opt_text(rows.publisher@.last()),
        rows@.last().pdf_links_json == opt_text(rows.pdf_links_json@.last()),
        rows@.last().detail_json == opt_text(rows.detail_json@.last()),
        rows@.last().marc_xml == opt_text(rows.marc_xml@.last()),
        rows@.last().record_json == opt_text(rows.record_json@.last()),
{
}

/// The columns of the flat table hold what the record says under the name of the column: its title
/// and year, and the first values of its details for the catalogue, the language, the publisher and
/// the place of publication.
pub proof fn law_columns_hold_details(id: Seq<char>, r: RusnebRecord, value: Seq<char>)
    requires
        value.len() > 0,
    ensures
        ({
            let map = list_map_view(r.metadata.detail_map);
            let row = row_of_record(id, r);
            let says = |label: Seq<char>|
                map.contains_key(label) && map[label].len() > 0 && map[label][0] == value;
            &&& says("Каталог"@) <==> row.catalog == Some(value)
            &&& says("Язык"@) <==> row.language == Some(value)
            &&& says("Издательство"@) <==> row.publisher == Some(value)
            &&& says("Место издания"@) ==> row.publication_place == Some(value)
            &&& !map.contains_key("Место издания"@) ==> (says("Место публикации"@)
                <==> row.publication_place == Some(value))
            &&& (r.metadata.title is Some && r.metadata.title.unwrap()@ == value) <==> row.title
                == Some(value)
            &&& (r.metadata.year is Some && r.metadata.year.unwrap()@ == value) <==> row.year
                == Some(value)
            &&& (r.marc21 is Some && r.marc21.unwrap().raw_xml@ == value) <==> row.marc_xml
                == Some(value)
            &&& row.id == Some(id)
        }),
{
}

/// A name that ends in `gz` is that of a file that is compressed with gzip, one that ends in `xz` that
/// of one compressed with xz, and no other file is compressed.
pub proof fn law_compression(extension: Option<Seq<char>>)
    ensures
        extension == Some("gz"@) <==> compression_of(extension) == JsonlCompression::Gzip,
        extension == Some("xz"@) <==> compression_of(extension) == JsonlCompression::Xz,
{
    reveal_strlit("gz");
    reveal_strlit("xz");
    assert("gz"@[0] != "xz"@[0]);
}

/// The value under a key is that of the first member with this key.
pub proof fn law_value_under_key(members: Seq<(Seq<char>, Seq<char>)>, key: Seq<char>, i: int)
    requires
        0 <= i < members.len(),
        members[i].0 == key,
        forall|k: int| 0 <= k < i ==> (#[trigger] members[k]).0 != key,
    ensures
        value_under_key(members, key) == Some(members[i].1),
    decreases members.len(),
{
    if i > 0 {
        let rest = members.drop_first();
        assert(rest[i - 1] == members[i]);
        assert forall|k: int| 0 <= k < i - 1 implies (#[trigger] rest[k]).0 != key by {
            assert(rest[k] == members[k + 1]);
        }
        law_value_under_key(rest, key, i - 1);
        assert(members[0].0 != key);
    }
}

/// A file is written under a hidden name beside it, which tells its own.
pub proof fn law_tmp_name(name: Seq<char>, other: Seq<char>, fallback: Seq<char>)
    ensures
        tmp_name(Some(name), fallback) == "."@ + name + ".tmp"@,
        tmp_name(None, fallback) == tmp_name(Some(fallback), other),
        tmp_name(Some(name), fallback) == tmp_name(Some(other), fallback) ==> name == other,
        tmp_name(Some(name), fallback) != name,
{
    reveal_strlit(".tmp");
    let a = tmp_name(Some(name), fallback);
    let b = tmp_name(Some(other), fallback);
    let n = "."@.len() as int;
    assert(name =~= a.subrange(n, a.len() - 4));
    assert(a.len() > name.len());
    if a == b {
        assert(other =~= b.subrange(n, b.len() - 4));
    }
}

} // verus!
