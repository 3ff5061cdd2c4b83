use crate::html::{lowered, normal, normalize_ws, opt_texts, to_lower};
use crate::model::{
    control_views, data_field_views, subfield_views, DataFieldView, MarcControlField,
    MarcDataField, MarcSubfield, MarcView, MarcXmlRecord,
};
use crate::order::{dedup, first_occurrences, law_first_occurrences};
use crate::text::{contains, copy_option, has_text, same};
use crate::views::{group_texts, lemma_take_next, opt_text, texts};
use roxmltree::Document;
use vstd::prelude::*;

verus! {

broadcast use group_texts;

/// A node of an XML document: whether it is an element, its name without a namespace, its text,
/// the place of the node that it stands in, and the values of the attributes that were asked for.
#[derive(Debug)]
pub struct XmlNode {
    pub is_element: bool,
    pub name: String,
    pub text: Option<String>,
    pub parent: Option<usize>,
    pub attributes: Vec<Option<String>>,
}

/// The texts of a node of an XML document.
#[verifier::ext_equal]
pub ghost struct XmlView {
    pub is_element: bool,
    pub name: Seq<char>,
    pub text: Option<Seq<char>>,
    pub parent: Option<usize>,
    pub attributes: Seq<Option<Seq<char>>>,
}

impl View for XmlNode {
    type V = XmlView;

    open spec fn view(&self) -> XmlView {
        XmlView {
            is_element: self.is_element,
            name: self.name@,
            text: opt_text(self.text),
            parent: self.parent,
            attributes: opt_texts(self.attributes@),
        }
    }
}

/// The texts of a list of nodes.
pub open spec fn xml_views(list: Seq<XmlNode>) -> Seq<XmlView> {
    list.map_values(|n: XmlNode| n@)
}

/// The texts of what reading an XML document gave.
pub open spec fn xml_result(result: Result<Vec<XmlNode>, String>) -> Result<
    Seq<XmlView>,
    Seq<char>,
> {
    match result {
        Ok(list) => Ok(xml_views(list@)),
        Err(message) => Err(message@),
    }
}

/// Whether every node has a value or none for each of so many attributes.
pub open spec fn have_values(list: Seq<XmlView>, count: nat) -> bool {
    forall|i: int| 0 <= i < list.len() ==> (#[trigger] list[i]).attributes.len() == count
}

/// The nodes of an XML document in the order of the document, or the message of the error.
pub uninterp spec fn xml_nodes(xml: Seq<char>, attributes: Seq<Seq<char>>) -> Result<
    Seq<XmlView>,
    Seq<char>,
>;

/// `roxmltree::Document::parse` and `roxmltree::Document::descendants`, with what `is_element`,
/// `tag_name`, `text`, `parent` and `attribute` give of each node; an error is given by its
/// `Display`. The result is named by `xml_nodes`; each node has as many attribute values as were
/// asked for.
#[verifier::external_body]
pub(crate) fn read_xml(xml: &str, attributes: &Vec<String>) -> (result: Result<
    Vec<XmlNode>,
    String,
>)
    ensures
        xml_result(result) == xml_nodes(xml@, texts(attributes@)),
        result matches Ok(list) ==> have_values(xml_views(list@), attributes@.len()),
{
    let document = Document::parse(xml).map_err(|error| error.to_string())?;
    let nodes = document.descendants().map(|n| XmlNode {
        is_element: n.is_element(),
        name: n.tag_name().name().to_string(),
        text: n.text().map(str::to_string),
        parent: n.parent().map(|p| p.id().get_usize()),
        attributes: attributes.iter().map(|a| n.attribute(&a[..]).map(str::to_string)).collect(),
    });
    Ok(nodes.collect())
}

/// The attributes that the fields of a MARC21 record have.
pub open spec fn marc_attributes() -> Seq<Seq<char>> {
    seq!["tag"@, "ind1"@, "ind2"@, "code"@]
}

/// Whether a node is an element of this name.
pub open spec fn is_named(node: XmlView, name: Seq<char>) -> bool {
    node.is_element && node.name == name
}

/// Whether a node is an element of this name.
fn node_is(node: &XmlNode, name: &str) -> (result: bool)
    ensures
        result == is_named(node@, name@),
{
    node.is_element && same(&node.name, name)
}

/// A text, or the empty text.
pub open spec fn or_empty(text: Option<Seq<char>>) -> Seq<char> {
    match text {
        Some(s) => s,
        None => Seq::empty(),
    }
}

/// The text of a node, made normal.
fn value_of_node(node: &XmlNode) -> (result: String)
    ensures
        result@ == normal(or_empty(opt_text(node.text))),
{
    proof {
        reveal_strlit("");
        assert(""@ =~= Seq::empty());
    }
    match &node.text {
        Some(text) => normalize_ws(text),
        None => normalize_ws(""),
    }
}

/// The text of the first leader among the nodes.
pub open spec fn leader_in(nodes: Seq<XmlView>) -> Option<Seq<char>>
    decreases nodes.len(),
{
    if nodes.len() == 0 {
        None
    } else if is_named(nodes[0], "leader"@) {
        match nodes[0].text {
            Some(text) => Some(normal(text)),
            None => None,
        }
    } else {
        leader_in(nodes.drop_first())
    }
}

fn find_leader(nodes: &Vec<XmlNode>) -> (result: Option<String>)
    ensures
        opt_text(result) == leader_in(xml_views(nodes@)),
{
    let ghost all = xml_views(nodes@);
    assert(all.skip(0) == all);
    for i in 0..nodes.len()
        invariant
            all == xml_views(nodes@),
            leader_in(all) == leader_in(all.skip(i as int)),
    {
        proof {
            assert(all.skip(i as int)[0] == all[i as int]);
            assert(all.skip(i as int).drop_first() == all.skip(i + 1));
        }
        if node_is(&nodes[i], "leader") {
            return match &nodes[i].text {
                Some(text) => Some(normalize_ws(text)),
                None => None,
            };
        }
    }
    None
}

/// The tags and values of the control fields among the nodes.
pub open spec fn control_fields_in(nodes: Seq<XmlView>) -> Seq<(Seq<char>, Seq<char>)>
    decreases nodes.len(),
{
    if nodes.len() == 0 {
        Seq::empty()
    } else {
        let before = control_fields_in(nodes.drop_last());
        let node = nodes.last();
        match node.attributes[0] {
            Some(tag) => if is_named(node, "controlfield"@) {
                before.push((tag, normal(or_empty(node.text))))
            } else {
                before
            },
            None => before,
        }
    }
}

fn find_control_fields(nodes: &Vec<XmlNode>) -> (result: Vec<MarcControlField>)
    requires
        have_values(xml_views(nodes@), 4),
    ensures
        control_views(result@) == control_fields_in(xml_views(nodes@)),
{
    let ghost all = xml_views(nodes@);
    let mut out: Vec<MarcControlField> = Vec::new();
    assert(control_views(out@) =~= Seq::empty());
    for i in 0..nodes.len()
        invariant
            all == xml_views(nodes@),
            have_values(all, 4),
            control_views(out@) == control_fields_in(all.take(i as int)),
    {
        let node = &nodes[i];
        proof {
            lemma_take_next(all, i as int);
            assert(all.take(i + 1).drop_last() == all.take(i as int));
            assert(all[i as int].attributes.len() == 4);
            assert(opt_texts(node.attributes@).len() == 4);
        }
        if node_is(node, "controlfield") {
            match &node.attributes[0] {
                Some(tag) => {
                    let field = MarcControlField { tag: tag.clone(), value: value_of_node(node) };
                    let ghost before = out@;
                    out.push(field);
                    assert(control_views(out@) == control_views(before).push(field@));
                },
                None => {},
            }
        }
    }
    assert(all.take(all.len() as int) == all);
    out
}

/// The codes and values of the subfields among the nodes that stand in the node at a place.
pub open spec fn subfields_in(nodes: Seq<XmlView>, place: usize) -> Seq<(Seq<char>, Seq<char>)>
    decreases nodes.len(),
{
    if nodes.len() == 0 {
        Seq::empty()
    } else {
        let before = subfields_in(nodes.drop_last(), place);
        let node = nodes.last();
        if node.parent == Some(place) && is_named(node, "subfield"@) {
            before.push((or_empty(node.attributes[3]), normal(or_empty(node.text))))
        } else {
            before
        }
    }
}

fn find_subfields(nodes: &Vec<XmlNode>, place: usize) -> (result: Vec<MarcSubfield>)
    requires
        have_values(xml_views(nodes@), 4),
    ensures
        subfield_views(result@) == subfields_in(xml_views(nodes@), place),
{
    let ghost all = xml_views(nodes@);
    let mut out: Vec<MarcSubfield> = Vec::new();
    assert(subfield_views(out@) =~= Seq::empty());
    for i in 0..nodes.len()
        invariant
            all == xml_views(nodes@),
            have_values(all, 4),
            subfield_views(out@) == subfields_in(all.take(i as int), place),
    {
        let node = &nodes[i];
        proof {
            lemma_take_next(all, i as int);
            assert(all.take(i + 1).drop_last() == all.take(i as int));
            assert(all[i as int].attributes.len() == 4);
            assert(opt_texts(node.attributes@).len() == 4);
        }
        let inside = match node.parent {
            Some(parent) => parent == place,
            None => false,
        };
        if inside && node_is(node, "subfield") {
            let code = match &node.attributes[3] {
                Some(code) => code.clone(),
                None => String::new(),
            };
            let subfield = MarcSubfield { code, value: value_of_node(node) };
            let ghost before = out@;
            out.push(subfield);
            assert(subfield_views(out@) == subfield_views(before).push(subfield@));
        }
    }
    assert(all.take(all.len() as int) == all);
    out
}

/// The data field at a place among the nodes, where there is one.
pub open spec fn data_field_at(nodes: Seq<XmlView>, place: usize) -> Option<DataFieldView> {
    let node = nodes[place as int];
    match node.attributes[0] {
        Some(tag) => if is_named(node, "datafield"@) {
            Some(
                DataFieldView {
                    tag,
                    ind1: node.attributes[1],
                    ind2: node.attributes[2],
                    subfields: subfields_in(nodes, place),
                },
            )
        } else {
            None
        },
        None => None,
    }
}

/// The data fields at the first places among the nodes.
pub open spec fn data_fields_before(nodes: Seq<XmlView>, end: nat) -> Seq<DataFieldView>
    decreases end,
{
    if end == 0 {
        Seq::empty()
    } else {
        let before = data_fields_before(nodes, (end - 1) as nat);
        match data_field_at(nodes, (end - 1) as usize) {
            Some(field) => before.push(field),
            None => before,
        }
    }
}

fn find_data_fields(nodes: &Vec<XmlNode>) -> (result: Vec<MarcDataField>)
    requires
        have_values(xml_views(nodes@), 4),
    ensures
        data_field_views(result@) == data_fields_before(xml_views(nodes@), nodes@.len()),
{
    let ghost all = xml_views(nodes@);
    let mut out: Vec<MarcDataField> = Vec::new();
    assert(data_field_views(out@) =~= Seq::empty());
    for i in 0..nodes.len()
        invariant
            all == xml_views(nodes@),
            have_values(all, 4),
            data_field_views(out@) == data_fields_before(all, i as nat),
    {
        let node = &nodes[i];
        proof {
            assert(all[i as int].attributes.len() == 4);
            assert(opt_texts(node.attributes@).len() == 4);
            assert((i + 1 - 1) as usize == i);
        }
        if node_is(node, "datafield") {
            match &node.attributes[0] {
                Some(tag) => {
                    let field = MarcDataField {
                        tag: tag.clone(),
                        ind1: copy_option(&node.attributes[1]),
                        ind2: copy_option(&node.attributes[2]),
                        subfields: find_subfields(nodes, i),
                    };
                    let ghost before = out@;
                    out.push(field);
                    assert(data_field_views(out@) == data_field_views(before).push(field@));
                },
                None => {},
            }
        }
    }
    out
}

/// Whether a subfield of a field holds a link to a PDF file.
pub open spec fn holds_pdf_link(tag: Seq<char>, subfield: (Seq<char>, Seq<char>)) -> bool {
    tag == "856"@ && subfield.0 == "u"@ && has_text(lowered(subfield.1), ".pdf"@)
}

/// The values of the subfields that hold links to PDF files.
pub open spec fn pdf_values(tag: Seq<char>, subfields: Seq<(Seq<char>, Seq<char>)>) -> Seq<
    Seq<char>,
>
    decreases subfields.len(),
{
    if subfields.len() == 0 {
        Seq::empty()
    } else if holds_pdf_link(tag, subfields.last()) {
        pdf_values(tag, subfields.drop_last()).push(subfields.last().1)
    } else {
        pdf_values(tag, subfields.drop_last())
    }
}

/// The links to PDF files that some data fields hold.
pub open spec fn pdf_links_in(fields: Seq<DataFieldView>) -> Seq<Seq<char>>
    decreases fields.len(),
{
    if fields.len() == 0 {
        Seq::empty()
    } else {
        pdf_links_in(fields.drop_last()) + pdf_values(fields.last().tag, fields.last().subfields)
    }
}

fn push_pdf_values(field: &MarcDataField, out: &mut Vec<String>)
    ensures
        texts(final(out)@) == texts(old(out)@) + pdf_values(
            field.tag@,
            subfield_views(field.subfields@),
        ),
{
    let ghost all = subfield_views(field.subfields@);
    let ghost start = texts(out@);
    assert(start + Seq::<Seq<char>>::empty() == start);
    for i in 0..field.subfields.len()
        invariant
            all == subfield_views(field.subfields@),
            texts(out@) == start + pdf_values(field.tag@, all.take(i as int)),
    {
        proof {
            lemma_take_next(all, i as int);
            assert(all.take(i + 1).drop_last() == all.take(i as int));
        }
        let subfield = &field.subfields[i];
        if same(&field.tag, "856") && same(&subfield.code, "u") {
            let value_lower = to_lower(&subfield.value);
            if contains(&value_lower, ".pdf") {
                out.push(subfield.value.clone());
                assert(texts(out@) == start + pdf_values(field.tag@, all.take(i as int)).push(
                    subfield.value@,
                ));
            }
        }
    }
    assert(all.take(all.len() as int) == all);
}

/// The links to PDF files that some data fields hold, each once.
pub fn marc_pdf_links(fields: &Vec<MarcDataField>) -> (result: Vec<String>)
    ensures
        texts(result@) == first_occurrences(pdf_links_in(data_field_views(fields@))),
{
    let ghost all = data_field_views(fields@);
    let mut out: Vec<String> = Vec::new();
    for i in 0..fields.len()
        invariant
            all == data_field_views(fields@),
            texts(out@) == pdf_links_in(all.take(i as int)),
    {
        proof {
            lemma_take_next(all, i as int);
            assert(all.take(i + 1).drop_last() == all.take(i as int));
        }
        push_pdf_values(&fields[i], &mut out);
    }
    assert(all.take(all.len() as int) == all);
    dedup(out)
}

/// The MARC21 record that the nodes of an XML document make.
pub open spec fn marc_of(xml: Seq<char>, nodes: Seq<XmlView>) -> MarcView {
    let data_fields = data_fields_before(nodes, nodes.len());
    MarcView {
        raw_xml: xml,
        leader: leader_in(nodes),
        control_fields: control_fields_in(nodes),
        data_fields,
        pdf_links: first_occurrences(pdf_links_in(data_fields)),
    }
}

/// The MARC21 record that the nodes of an XML document make.
pub fn marc_record(xml: &str, nodes: &Vec<XmlNode>) -> (result: MarcXmlRecord)
    requires
        have_values(xml_views(nodes@), 4),
    ensures
        result@ == marc_of(xml@, xml_views(nodes@)),
{
    let data_fields = find_data_fields(nodes);
    let pdf_links = marc_pdf_links(&data_fields);
    MarcXmlRecord {
        raw_xml: xml.to_owned(),
        leader: find_leader(nodes),
        control_fields: find_control_fields(nodes),
        data_fields,
        pdf_links,
    }
}

/// What an XML text holds as a MARC21 record, or the message of the error.
pub open spec fn parsed_marc(xml: Seq<char>) -> Result<MarcView, Seq<char>> {
    match xml_nodes(xml, marc_attributes()) {
        Ok(nodes) => Ok(marc_of(xml, nodes)),
        Err(message) => Err(message),
    }
}

/// The texts of what reading a MARC21 record gave.
pub open spec fn marc_result(result: Result<MarcXmlRecord, String>) -> Result<
    MarcView,
    Seq<char>,
> {
    match result {
        Ok(record) => Ok(record@),
        Err(message) => Err(message@),
    }
}

/// What an XML text holds as a MARC21 record.
pub fn parse_marc_xml(xml: &str) -> (result: Result<MarcXmlRecord, String>)
    ensures
        marc_result(result) == parsed_marc(xml@),
{
    let mut names: Vec<String> = Vec::new();
    names.push("tag".to_owned());
    names.push("ind1".to_owned());
    names.push("ind2".to_owned());
    names.push("code".to_owned());
    assert(texts(names@) =~= marc_attributes());
    match read_xml(xml, &names) {
        Ok(nodes) => Ok(marc_record(xml, &nodes)),
        Err(message) => Err(message),
    }
}

/// Whether a data field of this tag names topics.
pub open spec fn is_topic_tag(tag: Seq<char>) -> bool {
    seq!["600"@, "610"@, "611"@, "630"@, "650"@, "651"@, "653"@, "655"@, "979"@].contains(tag)
}

/// Whether a subfield of this code is part of a topic.
pub open spec fn is_topic_code(code: Seq<char>) -> bool {
    seq!["a"@, "b"@, "x"@, "y"@, "z"@].contains(code)
}

fn tag_names_topic(tag: &str) -> (result: bool)
    ensures
        result == is_topic_tag(tag@),
{
    let ghost tags = seq![
        "600"@, "610"@, "611"@, "630"@, "650"@, "651"@, "653"@, "655"@, "979"@
    ];
    proof {
        assert forall|i: int| 0 <= i < 9 implies tags.contains(#[trigger] tags[i]) by {}
        assert(tags[0] == "600"@ && tags[1] == "610"@ && tags[2] == "611"@);
        assert(tags[3] == "630"@ && tags[4] == "650"@ && tags[5] == "651"@);
        assert(tags[6] == "653"@ && tags[7] == "655"@ && tags[8] == "979"@);
    }
    same(tag, "600") || same(tag, "610") || same(tag, "611") || same(tag, "630") || same(tag, "650")
        || same(tag, "651") || same(tag, "653") || same(tag, "655") || same(tag, "979")
}

fn code_names_topic(code: &str) -> (result: bool)
    ensures
        result == is_topic_code(code@),
{
    let ghost codes = seq!["a"@, "b"@, "x"@, "y"@, "z"@];
    proof {
        assert forall|i: int| 0 <= i < 5 implies codes.contains(#[trigger] codes[i]) by {}
        assert(codes[0] == "a"@ && codes[1] == "b"@ && codes[2] == "x"@);
        assert(codes[3] == "y"@ && codes[4] == "z"@);
    }
    same(code, "a") || same(code, "b") || same(code, "x") || same(code, "y") || same(code, "z")
}

/// The values of the subfields that are parts of topics.
pub open spec fn topic_parts(subfields: Seq<(Seq<char>, Seq<char>)>) -> Seq<Seq<char>>
    decreases subfields.len(),
{
    if subfields.len() == 0 {
        Seq::empty()
    } else if is_topic_code(subfields.last().0) {
        topic_parts(subfields.drop_last()).push(subfields.last().1)
    } else {
        topic_parts(subfields.drop_last())
    }
}

/// The topics that some data fields name.
pub open spec fn topics_in(fields: Seq<DataFieldView>) -> Seq<Seq<char>>
    decreases fields.len(),
{
    if fields.len() == 0 {
        Seq::empty()
    } else if is_topic_tag(fields.last().tag) {
        topics_in(fields.drop_last()) + topic_parts(fields.last().subfields)
    } else {
        topics_in(fields.drop_last())
    }
}

fn push_topic_parts(field: &MarcDataField, out: &mut Vec<String>)
    ensures
        texts(final(out)@) == texts(old(out)@) + topic_parts(subfield_views(field.subfields@)),
{
    let ghost all = subfield_views(field.subfields@);
    let ghost start = texts(out@);
    assert(start + Seq::<Seq<char>>::empty() == start);
    for i in 0..field.subfields.len()
        invariant
            all == subfield_views(field.subfields@),
            texts(out@) == start + topic_parts(all.take(i as int)),
    {
        proof {
            lemma_take_next(all, i as int);
            assert(all.take(i + 1).drop_last() == all.take(i as int));
        }
        let subfield = &field.subfields[i];
        if code_names_topic(&subfield.code) {
            out.push(subfield.value.clone());
            assert(texts(out@) == start + topic_parts(all.take(i as int)).push(subfield.value@));
        }
    }
    assert(all.take(all.len() as int) == all);
}

/// The topics that a MARC21 record names, each once.
pub fn marc_topics(marc: &MarcXmlRecord) -> (result: Vec<String>)
    ensures
        texts(result@) == first_occurrences(topics_in(marc@.data_fields)),
{
    let ghost all = data_field_views(marc.data_fields@);
    let mut out: Vec<String> = Vec::new();
    for i in 0..marc.data_fields.len()
        invariant
            all == data_field_views(marc.data_fields@),
            texts(out@) == topics_in(all.take(i as int)),
    {
        proof {
            lemma_take_next(all, i as int);
            assert(all.take(i + 1).drop_last() == all.take(i as int));
        }
        let field = &marc.data_fields[i];
        if tag_names_topic(&field.tag) {
            push_topic_parts(field, &mut out);
        }
    }
    assert(all.take(all.len() as int) == all);
    dedup(out)
}

/// The control fields of some nodes and of more behind them follow each other; an element
/// `controlfield` with a tag is one, with its text made normal, and any other node is none.
pub proof fn law_control_fields(a: Seq<XmlView>, b: Seq<XmlView>)
    ensures
        control_fields_in(a + b) == control_fields_in(a) + control_fields_in(b),
        b.len() == 1 && b[0].is_element && b[0].name == "controlfield"@ ==> (
        b[0].attributes[0] matches Some(tag) ==> control_fields_in(b).len() == 1
            && control_fields_in(b)[0].0 == tag && (b[0].text matches Some(text)
            ==> control_fields_in(b)[0].1 == normal(text))),
        b.len() == 1 && (!b[0].is_element || b[0].name != "controlfield"@
            || b[0].attributes[0] is None) ==> control_fields_in(b).len() == 0,
    decreases b.len(),
{
    if b.len() == 0 {
        assert(a + b =~= a);
    } else {
        law_control_fields(a, b.drop_last());
        assert((a + b).drop_last() =~= a + b.drop_last());
        if b.len() == 1 {
            assert(control_fields_in(b.drop_last()) =~= Seq::empty());
        }
    }
}

/// Where every node is a control field with a tag, the record has them all in their order, each with
/// its tag and its text made normal.
pub proof fn law_control_fields_keep_their_values(nodes: Seq<XmlView>, i: int)
    requires
        0 <= i < nodes.len(),
        forall|k: int|
            0 <= k < nodes.len() ==> (#[trigger] nodes[k]).is_element && nodes[k].name
                == "controlfield"@ && nodes[k].attributes[0] is Some && nodes[k].text is Some,
    ensures
        control_fields_in(nodes).len() == nodes.len(),
        control_fields_in(nodes)[i].0 == nodes[i].attributes[0].unwrap(),
        control_fields_in(nodes)[i].1 == normal(nodes[i].text.unwrap()),
    decreases nodes.len(),
{
    let rest = nodes.drop_last();
    assert(is_named(nodes[nodes.len() - 1], "controlfield"@));
    assert forall|k: int| 0 <= k < rest.len() implies (#[trigger] rest[k]).is_element
        && rest[k].name == "controlfield"@ && rest[k].attributes[0] is Some
        && rest[k].text is Some by {
        assert(rest[k] == nodes[k]);
    }
    if i < rest.len() {
        law_control_fields_keep_their_values(rest, i);
    } else if rest.len() > 0 {
        law_control_fields_keep_their_values(rest, 0);
    } else {
        assert(control_fields_in(rest) =~= Seq::empty());
    }
}

/// The subfields of a data field are the elements `subfield` that stand in it, each with its code
/// and its text made normal; those of two lists of nodes follow each other.
pub proof fn law_subfields(a: Seq<XmlView>, b: Seq<XmlView>, place: usize)
    ensures
        subfields_in(a + b, place) == subfields_in(a, place) + subfields_in(b, place),
        b.len() == 1 && b[0].is_element && b[0].name == "subfield"@ && b[0].parent == Some(place)
            ==> subfields_in(b, place).len() == 1 && (b[0].attributes[3] matches Some(code)
            ==> subfields_in(b, place)[0].0 == code) && (b[0].attributes[3] is None
            ==> subfields_in(b, place)[0].0.len() == 0) && (b[0].text matches Some(text)
            ==> subfields_in(b, place)[0].1 == normal(text)),
        b.len() == 1 && (!b[0].is_element || b[0].name != "subfield"@ || b[0].parent != Some(place))
            ==> subfields_in(b, place).len() == 0,
    decreases b.len(),
{
    if b.len() == 0 {
        assert(a + b =~= a);
    } else {
        law_subfields(a, b.drop_last(), place);
        assert((a + b).drop_last() =~= a + b.drop_last());
        if b.len() == 1 {
            assert(subfields_in(b.drop_last(), place) =~= Seq::empty());
        }
    }
}

/// Every element `datafield` with a tag is a data field of the record, with its tag, its indicators
/// and the subfields in it, and every data field is such an element.
pub proof fn law_data_fields(nodes: Seq<XmlView>, end: nat, field: DataFieldView)
    requires
        end <= nodes.len() <= usize::MAX,
    ensures
        data_fields_before(nodes, end).contains(field) <==> exists|i: int|
            0 <= i < end && (#[trigger] nodes[i]).is_element && nodes[i].name == "datafield"@
                && nodes[i].attributes[0] == Some(field.tag) && nodes[i].attributes[1]
                == field.ind1 && nodes[i].attributes[2] == field.ind2 && field.subfields
                == subfields_in(nodes, i as usize),
    decreases end,
{
    let all = data_fields_before(nodes, end);
    if end > 0 {
        let before = data_fields_before(nodes, (end - 1) as nat);
        let last = end - 1;
        law_data_fields(nodes, (end - 1) as nat, field);
        if all.contains(field) {
            let k = all.index_of(field);
            if k < before.len() {
                assert(before[k] == field);
            } else {
                assert(data_field_at(nodes, last as usize) == Some(field));
                assert(nodes[last].is_element);
            }
        }
        if exists|i: int|
            0 <= i < end && (#[trigger] nodes[i]).is_element && nodes[i].name == "datafield"@
                && nodes[i].attributes[0] == Some(field.tag) && nodes[i].attributes[1]
                == field.ind1 && nodes[i].attributes[2] == field.ind2 && field.subfields
                == subfields_in(nodes, i as usize) {
            let i = choose|i: int|
                0 <= i < end && (#[trigger] nodes[i]).is_element && nodes[i].name == "datafield"@
                    && nodes[i].attributes[0] == Some(field.tag) && nodes[i].attributes[1]
                    == field.ind1 && nodes[i].attributes[2] == field.ind2 && field.subfields
                    == subfields_in(nodes, i as usize);
            if i < last {
                let k = before.index_of(field);
                assert(all[k] == field);
            } else {
                assert(data_field_at(nodes, last as usize) =~= Some(field));
                assert(all[before.len() as int] == field);
            }
        }
    } else {
        assert(all =~= Seq::empty());
    }
}

/// The data fields stand in the order of their elements: those of the first nodes come first.
pub proof fn law_data_fields_keep_their_order(nodes: Seq<XmlView>, end: nat, more: nat)
    requires
        end <= more,
    ensures
        data_fields_before(nodes, end).is_prefix_of(data_fields_before(nodes, more)),
    decreases more,
{
    if end < more {
        law_data_fields_keep_their_order(nodes, end, (more - 1) as nat);
    }
}

/// The leader is the text, made normal, of the first element `leader`.
pub proof fn law_leader(nodes: Seq<XmlView>, i: int)
    requires
        0 <= i < nodes.len(),
        nodes[i].is_element && nodes[i].name == "leader"@,
        forall|k: int|
            0 <= k < i ==> !(#[trigger] nodes[k]).is_element || nodes[k].name != "leader"@,
    ensures
        nodes[i].text matches Some(text) ==> leader_in(nodes) == Some(normal(text)),
        nodes[i].text is None ==> leader_in(nodes) is None,
    decreases nodes.len(),
{
    if i > 0 {
        let rest = nodes.drop_first();
        assert(rest[i - 1] == nodes[i]);
        assert forall|k: int| 0 <= k < i - 1 implies !(#[trigger] rest[k]).is_element
            || rest[k].name != "leader"@ by {
            assert(rest[k] == nodes[k + 1]);
        }
        law_leader(rest, i - 1);
        assert(!nodes[0].is_element || nodes[0].name != "leader"@);
    }
}

/// A record's links to PDF files are the values of the subfields `u` of its fields `856` that speak
/// of `.pdf`, and no others.
pub proof fn law_marc_pdf_links(fields: Seq<DataFieldView>, value: Seq<char>)
    ensures
        first_occurrences(pdf_links_in(fields)).contains(value) <==> value.len() > 0 && has_text(
            lowered(value),
            ".pdf"@,
        ) && exists|i: int|
            0 <= i < fields.len() && (#[trigger] fields[i]).tag == "856"@
                && fields[i].subfields.contains(("u"@, value)),
{
    law_first_occurrences(pdf_links_in(fields));
    lemma_pdf_links_in(fields, value);
}

proof fn lemma_pdf_values(tag: Seq<char>, subfields: Seq<(Seq<char>, Seq<char>)>, value: Seq<char>)
    ensures
        pdf_values(tag, subfields).contains(value) <==> tag == "856"@ && has_text(
            lowered(value),
            ".pdf"@,
        ) && subfields.contains(("u"@, value)),
    decreases subfields.len(),
{
    let all = pdf_values(tag, subfields);
    if subfields.len() > 0 {
        let rest = subfields.drop_last();
        let before = pdf_values(tag, rest);
        lemma_pdf_values(tag, rest, value);
        assert(subfields =~= rest.push(subfields.last()));
        if all.contains(value) {
            let k = all.index_of(value);
            if k < before.len() {
                assert(before[k] == value);
                let j = rest.index_of(("u"@, value));
                assert(subfields[j] == ("u"@, value));
            } else {
                assert(subfields[subfields.len() - 1] == ("u"@, value));
            }
        }
        if tag == "856"@ && has_text(lowered(value), ".pdf"@) && subfields.contains(
            ("u"@, value),
        ) {
            let j = subfields.index_of(("u"@, value));
            if j < rest.len() {
                assert(rest[j] == ("u"@, value));
                let k = before.index_of(value);
                assert(all[k] == value);
            } else {
                assert(all[before.len() as int] == value);
            }
        }
    } else {
        assert(all =~= Seq::empty());
    }
}

proof fn lemma_pdf_links_in(fields: Seq<DataFieldView>, value: Seq<char>)
    ensures
        pdf_links_in(fields).contains(value) <==> has_text(lowered(value), ".pdf"@) && exists|
            i: int,
        |
            0 <= i < fields.len() && (#[trigger] fields[i]).tag == "856"@
                && fields[i].subfields.contains(("u"@, value)),
    decreases fields.len(),
{
    let all = pdf_links_in(fields);
    if fields.len() > 0 {
        let rest = fields.drop_last();
        let before = pdf_links_in(rest);
        let last = fields.last();
        let values = pdf_values(last.tag, last.subfields);
        lemma_pdf_links_in(rest, value);
        lemma_pdf_values(last.tag, last.subfields, value);
        assert(all == before + values);
        if all.contains(value) {
            let k = all.index_of(value);
            if k < before.len() {
                assert(before[k] == value);
                let i = choose|i: int|
                    0 <= i < rest.len() && (#[trigger] rest[i]).tag == "856"@
                        && rest[i].subfields.contains(("u"@, value));
                assert(fields[i].tag == "856"@);
            } else {
                assert(values[k - before.len()] == value);
                assert(fields[fields.len() - 1].tag == "856"@);
            }
        }
        if has_text(lowered(value), ".pdf"@) && exists|i: int|
            0 <= i < fields.len() && (#[trigger] fields[i]).tag == "856"@
                && fields[i].subfields.contains(("u"@, value)) {
            let i = choose|i: int|
                0 <= i < fields.len() && (#[trigger] fields[i]).tag == "856"@
                    && fields[i].subfields.contains(("u"@, value));
            if i < rest.len() {
                assert(rest[i].tag == "856"@);
                let k = before.index_of(value);
                assert(all[k] == value);
            } else {
                let k = values.index_of(value);
                assert(all[before.len() + k] == value);
            }
        }
    } else {
        assert(all =~= Seq::empty());
    }
}

/// The tags of the fields that name topics.
pub open spec fn topic_tags() -> Set<Seq<char>> {
    set!["600"@, "610"@, "611"@, "630"@, "650"@, "651"@, "653"@, "655"@, "979"@]
}

/// The codes of the subfields that are parts of topics.
pub open spec fn topic_codes() -> Set<Seq<char>> {
    set!["a"@, "b"@, "x"@, "y"@, "z"@]
}

/// A record's topics are the values of the subfields for topics in its fields for topics, and no
/// others.
pub proof fn law_marc_topics(fields: Seq<DataFieldView>, value: Seq<char>)
    ensures
        first_occurrences(topics_in(fields)).contains(value) <==> value.len() > 0 && exists|
            i: int,
            j: int,
        |
            0 <= i < fields.len() && topic_tags().contains((#[trigger] fields[i]).tag) && 0 <= j
                < fields[i].subfields.len() && topic_codes().contains(
                (#[trigger] fields[i].subfields[j]).0,
            ) && fields[i].subfields[j].1 == value,
{
    law_first_occurrences(topics_in(fields));
    lemma_topics_in(fields, value);
}

proof fn lemma_topic_sets(text: Seq<char>)
    ensures
        is_topic_tag(text) <==> topic_tags().contains(text),
        is_topic_code(text) <==> topic_codes().contains(text),
{
    let tags = seq!["600"@, "610"@, "611"@, "630"@, "650"@, "651"@, "653"@, "655"@, "979"@];
    let codes = seq!["a"@, "b"@, "x"@, "y"@, "z"@];
    assert(tags[0] == "600"@ && tags[1] == "610"@ && tags[2] == "611"@ && tags[3] == "630"@
        && tags[4] == "650"@ && tags[5] == "651"@ && tags[6] == "653"@ && tags[7] == "655"@
        && tags[8] == "979"@);
    assert(codes[0] == "a"@ && codes[1] == "b"@ && codes[2] == "x"@ && codes[3] == "y"@
        && codes[4] == "z"@);
    if tags.contains(text) {
        let i = tags.index_of(text);
        assert(tags[i] == text);
    }
    if codes.contains(text) {
        let i = codes.index_of(text);
        assert(codes[i] == text);
    }
}

proof fn lemma_topic_parts(subfields: Seq<(Seq<char>, Seq<char>)>, value: Seq<char>)
    ensures
        topic_parts(subfields).contains(value) <==> exists|j: int|
            0 <= j < subfields.len() && topic_codes().contains((#[trigger] subfields[j]).0)
                && subfields[j].1 == value,
    decreases subfields.len(),
{
    let all = topic_parts(subfields);
    if subfields.len() > 0 {
        let rest = subfields.drop_last();
        let before = topic_parts(rest);
        lemma_topic_parts(rest, value);
        lemma_topic_sets(subfields.last().0);
        if all.contains(value) {
            let k = all.index_of(value);
            if k < before.len() {
                assert(before[k] == value);
                let j = choose|j: int|
                    0 <= j < rest.len() && topic_codes().contains((#[trigger] rest[j]).0)
                        && rest[j].1 == value;
                assert(subfields[j].1 == value);
            } else {
                assert(subfields[subfields.len() - 1].1 == value);
            }
        }
        if exists|j: int|
            0 <= j < subfields.len() && topic_codes().contains((#[trigger] subfields[j]).0)
                && subfields[j].1 == value {
            let j = choose|j: int|
                0 <= j < subfields.len() && topic_codes().contains((#[trigger] subfields[j]).0)
                    && subfields[j].1 == value;
            if j < rest.len() {
                assert(rest[j].1 == value);
                let k = before.index_of(value);
                assert(all[k] == value);
            } else {
                assert(all[before.len() as int] == value);
            }
        }
    } else {
        assert(all =~= Seq::empty());
    }
}

proof fn lemma_topics_in(fields: Seq<DataFieldView>, value: Seq<char>)
    ensures
        topics_in(fields).contains(value) <==> exists|i: int, j: int|
            0 <= i < fields.len() && topic_tags().contains((#[trigger] fields[i]).tag) && 0 <= j
                < fields[i].subfields.len() && topic_codes().contains(
                (#[trigger] fields[i].subfields[j]).0,
            ) && fields[i].subfields[j].1 == value,
    decreases fields.len(),
{
    let all = topics_in(fields);
    if fields.len() > 0 {
        let rest = fields.drop_last();
        let before = topics_in(rest);
        let last = fields.last();
        let parts = topic_parts(last.subfields);
        lemma_topics_in(rest, value);
        lemma_topic_parts(last.subfields, value);
        lemma_topic_sets(last.tag);
        if all.contains(value) {
            let k = all.index_of(value);
            if k < before.len() {
                assert(before[k] == value);
                let (i, j) = choose|i: int, j: int|
                    0 <= i < rest.len() && topic_tags().contains((#[trigger] rest[i]).tag) && 0
                        <= j < rest[i].subfields.len() && topic_codes().contains(
                        (#[trigger] rest[i].subfields[j]).0,
                    ) && rest[i].subfields[j].1 == value;
                assert(fields[i].subfields[j].1 == value);
            } else {
                assert(parts[k - before.len()] == value);
                let j = choose|j: int|
                    0 <= j < last.subfields.len() && topic_codes().contains(
                        (#[trigger] last.subfields[j]).0,
                    ) && last.subfields[j].1 == value;
                assert(fields[fields.len() - 1].subfields[j].1 == value);
            }
        }
        if exists|i: int, j: int|
            0 <= i < fields.len() && topic_tags().contains((#[trigger] fields[i]).tag) && 0 <= j
                < fields[i].subfields.len() && topic_codes().contains(
                (#[trigger] fields[i].subfields[j]).0,
            ) && fields[i].subfields[j].1 == value {
            let (i, j) = choose|i: int, j: int|
                0 <= i < fields.len() && topic_tags().contains((#[trigger] fields[i]).tag) && 0
                    <= j < fields[i].subfields.len() && topic_codes().contains(
                    (#[trigger] fields[i].subfields[j]).0,
                ) && fields[i].subfields[j].1 == value;
            if i < rest.len() {
                assert(rest[i].subfields[j].1 == value);
                let k = before.index_of(value);
                assert(all[k] == value);
            } else {
                assert(last.subfields[j].1 == value);
                let k = parts.index_of(value);
                assert(all[before.len() + k] == value);
            }
        }
    } else {
        assert(all =~= Seq::empty());
    }
}

/// Where the parts of a MARC21 record stand in its XML, which is kept as it is.
pub proof fn law_marc_reads_xml(xml: Seq<char>, nodes: Seq<XmlView>)
    requires
        xml_nodes(xml, seq!["tag"@, "ind1"@, "ind2"@, "code"@]) == Ok::<Seq<XmlView>, Seq<char>>(
            nodes,
        ),
    ensures
        parsed_marc(xml) matches Ok(marc) && marc.raw_xml == xml && marc.leader == leader_in(nodes)
            && marc.control_fields == control_fields_in(nodes) && marc.data_fields
            == data_fields_before(nodes, nodes.len()) && marc.pdf_links == first_occurrences(
            pdf_links_in(marc.data_fields),
        ),
{
}

} // verus!
