use crate::card::{card_of, parse_card_metadata};
use crate::groups::json_compact;
use crate::html::page_fits;
use crate::json::{
    JsonNode, JsonView, json_node, members_of, node_text, node_view, object_text, parsed_json,
    writes_again,
};
use crate::links::{join_url, resolved};
use crate::marc::{marc_result, marc_topics, parse_marc_xml, parsed_marc, topics_in};
use crate::model::{
    opt_marc, CardMetadata, FetchFailure, MarcView, MarcXmlRecord, MetadataView, RusnebRecord,
    SourceUrls,
};
use crate::numerals::{decimal, decimal_text};
use crate::order::{
    first_occurrences, law_first_occurrences, law_merge_unique, law_merged, merge_unique,
    with_all_new,
};
use crate::search_page::{is_success, to_fetch_failure};
use crate::text::{
    begins_with, contains, copy_list, has_text, join, joined, law_joined, law_words, no_space, same,
    split_words, stands_at, starts_with, trim_start, without_leading_space, words,
};
use crate::views::{group_texts, lemma_take_next, opt_text, pair_texts, texts};
use vstd::prelude::*;

verus! {

broadcast use group_texts;

/// How a request ended: with a status and a body, or with a message on why there was no answer.
#[derive(Debug)]
pub enum Answer {
    Answered { status: u16, body: String },
    Failed { message: String },
}

/// The texts of how a request ended.
pub ghost enum AnswerView {
    Answered { status: u16, body: Seq<char> },
    Failed { message: Seq<char> },
}

impl View for Answer {
    type V = AnswerView;

    open spec fn view(&self) -> AnswerView {
        match self {
            Answer::Answered { status, body } => AnswerView::Answered {
                status: *status,
                body: body@,
            },
            Answer::Failed { message } => AnswerView::Failed { message: message@ },
        }
    }
}

/// The text of a status behind some words.
pub open spec fn with_status(words: Seq<char>, status: u16) -> Seq<char> {
    words + decimal(status as nat)
}

fn status_message(words: &str, status: u16) -> (result: String)
    ensures
        result@ == with_status(words@, status),
{
    let mut out: String = words.to_owned();
    let number = decimal_text(status as u64);
    out.append(&number);
    out
}

/// The reference to an item's card.
pub open spec fn card_path(id: Seq<char>) -> Seq<char> {
    "/catalog/"@ + id + "/"@
}

/// The reference to an item's MARC21 record.
pub open spec fn marc_path(id: Seq<char>) -> Seq<char> {
    "/local/components/exalead/search.page.detail/ajax/marcExport.php?book_id="@ + id
}

/// The reference to what the viewer may access of an item.
pub open spec fn viewer_path(id: Seq<char>) -> Seq<char> {
    "/rest_api/viewer/access/?book_id="@ + id + "&viewer=Y"@
}

/// Whether these are the addresses of the parts of an item.
pub open spec fn leads_to(urls: SourceUrls, base: Seq<char>, id: Seq<char>) -> bool {
    &&& resolved(base, card_path(id)) == Ok::<Seq<char>, Seq<char>>(urls.card_html@)
    &&& resolved(base, marc_path(id)) == Ok::<Seq<char>, Seq<char>>(urls.marc21_xml@)
    &&& resolved(base, viewer_path(id)) == Ok::<Seq<char>, Seq<char>>(urls.viewer_access_json@)
}

/// The message on why an item has no addresses: that of the first reference that leads nowhere.
pub open spec fn no_address(base: Seq<char>, id: Seq<char>) -> Option<Seq<char>> {
    match resolved(base, card_path(id)) {
        Err(message) => Some(message),
        Ok(_) => match resolved(base, marc_path(id)) {
            Err(message) => Some(message),
            Ok(_) => match resolved(base, viewer_path(id)) {
                Err(message) => Some(message),
                Ok(_) => None,
            },
        },
    }
}

/// Where the parts of an item are fetched from.
pub fn record_urls(base_url: &str, id: &str) -> (result: Result<SourceUrls, FetchFailure>)
    ensures
        match result {
            Ok(urls) => leads_to(urls, base_url@, id@) && no_address(base_url@, id@) is None,
            Err(failure) => failure.status is None && no_address(base_url@, id@) == Some(
                failure.message@,
            ),
        },
{
    let mut card: String = "/catalog/".to_owned();
    card.append(id);
    card.append("/");
    let mut marc: String =
        "/local/components/exalead/search.page.detail/ajax/marcExport.php?book_id=".to_owned();
    marc.append(id);
    let mut viewer: String = "/rest_api/viewer/access/?book_id=".to_owned();
    viewer.append(id);
    viewer.append("&viewer=Y");
    let card_html = match join_url(base_url, &card) {
        Ok(url) => url,
        Err(error) => return Err(to_fetch_failure(&error)),
    };
    let marc21_xml = match join_url(base_url, &marc) {
        Ok(url) => url,
        Err(error) => return Err(to_fetch_failure(&error)),
    };
    let viewer_access_json = match join_url(base_url, &viewer) {
        Ok(url) => url,
        Err(error) => return Err(to_fetch_failure(&error)),
    };
    Ok(SourceUrls { card_html, marc21_xml, viewer_access_json })
}

/// The page of a card that was answered, or why there is none.
pub fn card_page(answer: Answer) -> (result: Result<String, FetchFailure>)
    ensures
        match (answer@, result) {
            (AnswerView::Answered { status, body }, Ok(page)) => is_success(status) && page@
                == body,
            (AnswerView::Answered { status, body }, Err(failure)) => !is_success(status)
                && failure.status == Some(status) && failure.message@ == with_status(
                "card HTTP "@,
                status,
            ),
            (AnswerView::Failed { message }, Ok(page)) => false,
            (AnswerView::Failed { message }, Err(failure)) => failure.status is None
                && failure.message@ == message,
        },
{
    match answer {
        Answer::Answered { status, body } => {
            if 200 <= status && status < 300 {
                Ok(body)
            } else {
                Err(
                    FetchFailure {
                        status: Some(status),
                        message: status_message("card HTTP ", status),
                    },
                )
            }
        },
        Answer::Failed { message } => Err(to_fetch_failure(&message)),
    }
}

/// Whether a body looks like a MARC21 record in XML.
pub open spec fn looks_like_marc(body: Seq<char>) -> bool {
    begins_with(without_leading_space(body), "<?xml"@) || has_text(body, "<marc:record"@)
        || has_text(body, "<record"@)
}

/// The MARC21 record that was answered.
pub open spec fn marc_body(answer: AnswerView) -> Option<Seq<char>> {
    match answer {
        AnswerView::Answered { status, body } => if is_success(status) && looks_like_marc(body) {
            Some(body)
        } else {
            None
        },
        AnswerView::Failed { message } => None,
    }
}

/// Why no MARC21 record was answered.
pub open spec fn marc_error(answer: AnswerView) -> Seq<char> {
    match answer {
        AnswerView::Answered { status, body } => if is_success(status) {
            with_status("MARC response was not XML, HTTP "@, status)
        } else {
            with_status("MARC HTTP "@, status)
        },
        AnswerView::Failed { message } => "MARC request failed: "@ + message,
    }
}

/// The MARC21 record that was answered, or why there is none.
pub fn marc_page(answer: Answer) -> (result: Result<String, String>)
    ensures
        match result {
            Ok(body) => marc_body(answer@) == Some(body@),
            Err(message) => marc_body(answer@) is None && message@ == marc_error(answer@),
        },
{
    match answer {
        Answer::Answered { status, body } => {
            if 200 <= status && status < 300 {
                let start = trim_start(&body);
                if starts_with(&start, "<?xml") || contains(&body, "<marc:record") || contains(
                    &body,
                    "<record",
                ) {
                    Ok(body)
                } else {
                    Err(status_message("MARC response was not XML, HTTP ", status))
                }
            } else {
                Err(status_message("MARC HTTP ", status))
            }
        },
        Answer::Failed { message } => {
            let mut out: String = "MARC request failed: ".to_owned();
            out.append(&message);
            Err(out)
        },
    }
}

/// Whether a member of what the viewer may access is short-lived.
pub open spec fn is_ephemeral(key: Seq<char>) -> bool {
    key == "token"@ || key == "viewer"@
}

/// The members that are not short-lived.
pub open spec fn lasting_members(members: Seq<(Seq<char>, Seq<char>)>) -> Seq<
    (Seq<char>, Seq<char>),
>
    decreases members.len(),
{
    if members.len() == 0 {
        Seq::empty()
    } else if is_ephemeral(members.last().0) {
        lasting_members(members.drop_last())
    } else {
        lasting_members(members.drop_last()).push(members.last())
    }
}

/// What the viewer may access, without what is short-lived.
pub open spec fn sanitized(value: JsonView) -> JsonView {
    match value {
        JsonView::Object(members) => JsonView::Object(lasting_members(members)),
        other => other,
    }
}

/// What the viewer may access, without the token and the viewer's own address.
pub fn sanitize_viewer_access(value: JsonNode) -> (result: JsonNode)
    ensures
        result@ == sanitized(value@),
{
    match value {
        JsonNode::Object(members) => {
            let ghost all = pair_texts(members@);
            let mut kept: Vec<(String, String)> = Vec::new();
            assert(pair_texts(kept@) =~= Seq::empty());
            for i in 0..members.len()
                invariant
                    all == pair_texts(members@),
                    pair_texts(kept@) == lasting_members(all.take(i as int)),
            {
                proof {
                    lemma_take_next(all, i as int);
                    assert(all.take(i + 1).drop_last() == all.take(i as int));
                }
                let member = &members[i];
                if !same(&member.0, "token") && !same(&member.0, "viewer") {
                    kept.push((member.0.clone(), member.1.clone()));
                }
            }
            assert(all.take(all.len() as int) == all);
            JsonNode::Object(kept)
        },
        other => other,
    }
}

proof fn lemma_lasting(members: Seq<(Seq<char>, Seq<char>)>, member: (Seq<char>, Seq<char>))
    ensures
        lasting_members(members).contains(member) == (members.contains(member) && !is_ephemeral(
            member.0,
        )),
    decreases members.len(),
{
    if members.len() > 0 {
        let rest = members.drop_last();
        lemma_lasting(rest, member);
        assert(members == rest.push(members.last()));
        assert(members.contains(member) == (rest.contains(member) || member == members.last())) by {
            if rest.contains(member) {
                let i = rest.index_of(member);
                assert(members[i] == member);
            }
            if member == members.last() {
                assert(members[members.len() - 1] == member);
            }
        }
        let kept = lasting_members(rest);
        let grown = kept.push(members.last());
        assert(grown.contains(member) == (kept.contains(member) || member == members.last())) by {
            if kept.contains(member) {
                let i = kept.index_of(member);
                assert(grown[i] == member);
            }
            if member == members.last() {
                assert(grown[kept.len() as int] == member);
            }
        }
    }
}

/// What is kept of what the viewer may access has every member but the token and the viewer's own
/// address, and neither of these.
pub proof fn law_tokens_are_removed(
    members: Seq<(Seq<char>, Seq<char>)>,
    member: (Seq<char>, Seq<char>),
)
    ensures
        sanitized(JsonView::Object(members)) matches JsonView::Object(kept) && (kept.contains(
            member,
        ) <==> members.contains(member) && member.0 != "token"@ && member.0 != "viewer"@),
{
    lemma_lasting(members, member);
}

/// What is kept of an answered access record that was read.
pub open spec fn kept_access(value: Result<JsonView, Seq<char>>) -> Option<Seq<char>> {
    match value {
        Ok(view) => Some(node_text(sanitized(view))),
        Err(_) => None,
    }
}

/// What is said where an answered access record could not be read.
pub open spec fn access_error(value: Result<JsonView, Seq<char>>) -> Seq<Seq<char>> {
    match value {
        Ok(_) => Seq::empty(),
        Err(message) => seq!["viewer JSON parse failed: "@ + message],
    }
}

proof fn lemma_sanitized_is_json(view: JsonView)
    ensures
        writes_again(view) ==> parsed_json(node_text(sanitized(view))) is Ok,
{
    reveal(writes_again);
    match view {
        JsonView::Object(members) => {
            let kept = lasting_members(members);
            assert forall|i: int| 0 <= i < kept.len() implies members.contains(
                #[trigger] kept[i],
            ) by {
                assert(kept.contains(kept[i]));
                lemma_lasting(members, kept[i]);
            }
            assert(members_of(kept, members));
        },
        _ => {},
    }
}

/// What is kept of an answered access record that was read, and what is said where it was not.
pub fn keep_viewer_access(value: Result<JsonNode, String>, errors: &mut Vec<String>) -> (result:
    Option<String>)
    ensures
        opt_text(result) == kept_access(node_view(value)),
        texts(final(errors)@) == texts(old(errors)@) + access_error(node_view(value)),
        value matches Ok(node) && writes_again(node@) ==> (result matches Some(kept)
            && parsed_json(kept@) is Ok),
{
    let ghost before = texts(errors@);
    match value {
        Ok(node) => {
            let kept = sanitize_viewer_access(node);
            proof {
                lemma_sanitized_is_json(node@);
            }
            assert(before + Seq::<Seq<char>>::empty() == before);
            Some(json_compact(&kept))
        },
        Err(message) => {
            let mut out: String = "viewer JSON parse failed: ".to_owned();
            out.append(&message);
            errors.push(out);
            assert(texts(errors@) =~= before + seq![out@]);
            None
        },
    }
}

/// What is kept of what the viewer may access.
pub open spec fn viewer_access_of(answer: AnswerView) -> Option<Seq<char>> {
    match answer {
        AnswerView::Answered { status, body } => if is_success(status) {
            kept_access(parsed_json(body))
        } else {
            None
        },
        AnswerView::Failed { message } => None,
    }
}

/// What is said where it is not known what the viewer may access.
pub open spec fn viewer_errors(answer: AnswerView) -> Seq<Seq<char>> {
    match answer {
        AnswerView::Answered { status, body } => if is_success(status) {
            access_error(parsed_json(body))
        } else {
            seq![with_status("viewer access HTTP "@, status)]
        },
        AnswerView::Failed { message } => seq!["viewer access request failed: "@ + message],
    }
}

/// What is kept of what the viewer may access; where it is not known, that is said.
pub fn viewer_page(answer: Answer, errors: &mut Vec<String>) -> (result: Option<String>)
    ensures
        opt_text(result) == viewer_access_of(answer@),
        texts(final(errors)@) == texts(old(errors)@) + viewer_errors(answer@),
        result matches Some(kept) ==> parsed_json(kept@) is Ok,
{
    let ghost before = texts(errors@);
    match answer {
        Answer::Answered { status, body } => {
            if 200 <= status && status < 300 {
                keep_viewer_access(json_node(&body), errors)
            } else {
                let message = status_message("viewer access HTTP ", status);
                errors.push(message);
                assert(texts(errors@) =~= before + seq![message@]);
                None
            }
        },
        Answer::Failed { message } => {
            let mut out: String = "viewer access request failed: ".to_owned();
            out.append(&message);
            errors.push(out);
            assert(texts(errors@) =~= before + seq![out@]);
            None
        },
    }
}

/// A MARC21 record that could not be read: only its text.
pub open spec fn unread_marc(xml: Seq<char>) -> MarcView {
    MarcView {
        raw_xml: xml,
        leader: None,
        control_fields: Seq::empty(),
        data_fields: Seq::empty(),
        pdf_links: Seq::empty(),
    }
}

/// What is kept of a MARC21 record.
pub open spec fn kept_marc(xml: Seq<char>, read: Result<MarcView, Seq<char>>) -> MarcView {
    match read {
        Ok(record) => record,
        Err(_) => unread_marc(xml),
    }
}

/// What is said where a MARC21 record could not be read.
pub open spec fn marc_read_error(read: Result<MarcView, Seq<char>>) -> Seq<Seq<char>> {
    match read {
        Ok(_) => Seq::empty(),
        Err(message) => seq!["MARC XML parse failed: "@ + message],
    }
}

/// What is kept of a MARC21 record; where it could not be read, that is said, and its text is kept.
pub fn keep_marc(xml: String, read: Result<MarcXmlRecord, String>, errors: &mut Vec<String>) -> (
    result: MarcXmlRecord)
    ensures
        result@ == kept_marc(xml@, marc_result(read)),
        texts(final(errors)@) == texts(old(errors)@) + marc_read_error(marc_result(read)),
{
    let ghost before = texts(errors@);
    match read {
        Ok(record) => {
            assert(before + Seq::<Seq<char>>::empty() == before);
            record
        },
        Err(message) => {
            let mut out: String = "MARC XML parse failed: ".to_owned();
            out.append(&message);
            errors.push(out);
            assert(texts(errors@) =~= before + seq![out@]);
            let record = MarcXmlRecord {
                raw_xml: xml,
                leader: None,
                control_fields: Vec::new(),
                data_fields: Vec::new(),
                pdf_links: Vec::new(),
            };
            assert(record@ =~= unread_marc(xml@));
            record
        },
    }
}

/// What a card says of an item, with the links and topics of its MARC21 record.
pub open spec fn with_marc(card: MetadataView, marc: Option<MarcView>) -> MetadataView {
    match marc {
        Some(record) => MetadataView {
            pdf_links: with_all_new(card.pdf_links, record.pdf_links),
            topics: with_all_new(card.topics, first_occurrences(topics_in(record.data_fields))),
            ..card
        },
        None => card,
    }
}

/// Adds the links and topics of a MARC21 record to what a card says of an item.
pub fn merge_marc(metadata: &mut CardMetadata, marc: &Option<MarcXmlRecord>)
    requires
        old(metadata).well_formed(),
    ensures
        final(metadata).well_formed(),
        final(metadata)@ == with_marc(old(metadata)@, opt_marc(*marc)),
{
    match marc {
        Some(record) => {
            merge_unique(&mut metadata.pdf_links, copy_list(&record.pdf_links));
            merge_unique(&mut metadata.topics, marc_topics(record));
        },
        None => {},
    }
}

/// The links and topics of a record begin with those of its card, and leave out none that its
/// MARC21 record has.
pub proof fn law_record_has_links_of_both(card: MetadataView, marc: MarcView)
    ensures
        card.pdf_links.is_prefix_of(with_marc(card, Some(marc)).pdf_links),
        card.topics.is_prefix_of(with_marc(card, Some(marc)).topics),
        forall|i: int|
            0 <= i < marc.pdf_links.len() && marc.pdf_links[i].len() > 0 ==> with_marc(
                card,
                Some(marc),
            ).pdf_links.contains(#[trigger] marc.pdf_links[i]),
{
    law_merge_unique(card.pdf_links, marc.pdf_links);
    law_merge_unique(card.topics, first_occurrences(topics_in(marc.data_fields)));
}

/// The MARC21 record of an item.
pub open spec fn marc_kept(answer: AnswerView) -> Option<MarcView> {
    match marc_body(answer) {
        Some(xml) => Some(kept_marc(xml, parsed_marc(xml))),
        None => None,
    }
}

/// What is said of the parts of an item that could not be fetched or read.
pub open spec fn fetch_errors_of(marc: AnswerView, viewer: AnswerView) -> Seq<Seq<char>> {
    match marc_body(marc) {
        Some(xml) => viewer_errors(viewer) + marc_read_error(parsed_marc(xml)),
        None => seq![marc_error(marc)] + viewer_errors(viewer),
    }
}

/// When an item was fetched.
#[derive(Debug)]
pub struct FetchTime {
    pub text: String,
    pub unix: i64,
}

/// The record of an item, from the page of its card and how the requests for its MARC21 record and
/// for what the viewer may access ended.
pub fn assemble_record(
    id: &str,
    base_url: &str,
    source: SourceUrls,
    time: FetchTime,
    card: &str,
    marc: Answer,
    viewer: Answer,
) -> (result: RusnebRecord)
    requires
        page_fits(card@),
    ensures
        result.id@ == id@,
        result.url@ == source.card_html@,
        result.source == source,
        result.fetched_at@ == time.text@,
        result.fetched_at_unix == time.unix,
        result.well_formed(),
        result.metadata@ == with_marc(card_of(card@, base_url@), marc_kept(marc@)),
        opt_marc(result.marc21) == marc_kept(marc@),
        opt_text(result.viewer_access) == viewer_access_of(viewer@),
        texts(result.fetch_errors@) == fetch_errors_of(marc@, viewer@),
{
    let mut errors: Vec<String> = Vec::new();
    let xml: Option<String> = match marc_page(marc) {
        Ok(body) => Some(body),
        Err(message) => {
            errors.push(message);
            None
        },
    };
    let ghost first = texts(errors@);
    let viewer_access = viewer_page(viewer, &mut errors);
    let marc21: Option<MarcXmlRecord> = match xml {
        Some(xml) => {
            let read = parse_marc_xml(&xml);
            Some(keep_marc(xml, read, &mut errors))
        },
        None => None,
    };
    proof {
        match marc_body(marc@) {
            Some(_) => {
                assert(first =~= Seq::empty());
                assert(first + viewer_errors(viewer@) =~= viewer_errors(viewer@));
            },
            None => {
                assert(first =~= seq![marc_error(marc@)]);
            },
        }
    }
    let mut metadata = parse_card_metadata(card, base_url);
    merge_marc(&mut metadata, &marc21);
    RusnebRecord {
        id: id.to_owned(),
        url: source.card_html.clone(),
        fetched_at: time.text,
        fetched_at_unix: time.unix,
        source,
        metadata,
        marc21,
        viewer_access,
        fetch_errors: errors,
    }
}

/// How the title of a record is shown.
pub open spec fn shown_title(title: Option<Seq<char>>) -> Seq<char> {
    match title {
        Some(text) => if joined(words(text), " "@).len() > 0 {
            joined(words(text), " "@)
        } else {
            "<no title>"@
        },
        None => "<no title>"@,
    }
}

/// How the title of a record is shown.
pub fn log_record_title(record: &RusnebRecord) -> (result: String)
    ensures
        result@ == shown_title(opt_text(record.metadata.title)),
{
    match &record.metadata.title {
        Some(title) => {
            let parts = split_words(title);
            let shown = join(&parts, " ");
            if shown.as_str().is_empty() {
                "<no title>".to_owned()
            } else {
                shown
            }
        },
        None => "<no title>".to_owned(),
    }
}

/// An item's card, MARC21 record and viewer are asked for under its identifier.
pub proof fn law_addresses_name_the_item(id: Seq<char>, other: Seq<char>)
    ensures
        card_path(id) == "/catalog/"@ + id + "/"@,
        marc_path(id).skip(marc_path(id).len() - id.len()) == id,
        has_text(viewer_path(id), "book_id="@ + id + "&viewer=Y"@),
        card_path(id) == card_path(other) ==> id == other,
        marc_path(id) == marc_path(other) ==> id == other,
        viewer_path(id) == viewer_path(other) ==> id == other,
{
    let a = "/catalog/"@;
    let b = "/local/components/exalead/search.page.detail/ajax/marcExport.php?book_id="@;
    let c = "/rest_api/viewer/access/?book_id="@;
    assert(marc_path(id).skip(marc_path(id).len() - id.len()) =~= id);
    reveal_strlit("/rest_api/viewer/access/?book_id=");
    reveal_strlit("book_id=");
    let tail = "book_id="@ + id + "&viewer=Y"@;
    let path = viewer_path(id);
    let at = path.len() - tail.len();
    assert(path.subrange(at, at + tail.len()) =~= tail);
    assert(stands_at(path, tail, at));
    if card_path(id) == card_path(other) {
        assert(id =~= card_path(id).subrange(a.len() as int, card_path(id).len() - "/"@.len()));
        assert(other =~= card_path(other).subrange(
            a.len() as int,
            card_path(other).len() - "/"@.len(),
        ));
    }
    if marc_path(id) == marc_path(other) {
        assert(id =~= marc_path(id).skip(b.len() as int));
        assert(other =~= marc_path(other).skip(b.len() as int));
    }
    if viewer_path(id) == viewer_path(other) {
        assert(id =~= path.subrange(c.len() as int, path.len() - "&viewer=Y"@.len()));
        assert(other =~= viewer_path(other).subrange(
            c.len() as int,
            viewer_path(other).len() - "&viewer=Y"@.len(),
        ));
    }
}

/// A MARC21 record is kept with its XML where its answer is a success and looks like one, even if it
/// cannot be read; whatever else happens is told as an error.
pub proof fn law_marc_answers(status: u16, body: Seq<char>, message: Seq<char>, viewer: AnswerView)
    ensures
        ({
            let answer = AnswerView::Answered { status, body };
            let failed = AnswerView::Failed { message };
            &&& 200 <= status < 300 && begins_with(body, "<?xml"@) ==> (marc_kept(
                answer,
            ) matches Some(marc) && (parsed_marc(body) is Err ==> marc.raw_xml == body
                && marc.data_fields.len() == 0))
            &&& 200 <= status < 300 && (has_text(body, "<record"@) || has_text(
                body,
                "<marc:record"@,
            )) ==> marc_kept(answer) is Some
            &&& marc_kept(answer) is Some ==> 200 <= status < 300 && (begins_with(
                without_leading_space(body),
                "<?xml"@,
            ) || has_text(body, "<record"@) || has_text(body, "<marc:record"@))
            &&& marc_kept(answer) is None ==> fetch_errors_of(answer, viewer).len()
                == viewer_errors(viewer).len() + 1
            &&& !(200 <= status < 300) ==> fetch_errors_of(answer, viewer)[0] == "MARC HTTP "@
                + decimal(status as nat)
            &&& marc_kept(failed) is None
            &&& fetch_errors_of(failed, viewer)[0] == "MARC request failed: "@ + message
            &&& marc_kept(answer) is Some ==> (parsed_marc(body) matches Ok(read) ==> marc_kept(
                answer,
            ) == Some(read) && fetch_errors_of(answer, viewer) == viewer_errors(viewer))
            &&& marc_kept(answer) is Some ==> (parsed_marc(body) matches Err(why)
                ==> fetch_errors_of(answer, viewer).last() == "MARC XML parse failed: "@ + why)
        }),
{
    let answer = AnswerView::Answered { status, body };
    if begins_with(body, "<?xml"@) {
        reveal_strlit("<?xml");
        assert(body.subrange(0, 5)[0] == '<');
        assert(body[0] == '<');
        assert(without_leading_space(body) == body);
    }
    if marc_kept(answer) is Some {
        assert(viewer_errors(viewer) + Seq::<Seq<char>>::empty() =~= viewer_errors(viewer));
    }
}

/// What the viewer may access is kept where its answer is a success and JSON; whatever else happens
/// is told as an error.
pub proof fn law_viewer_answers(status: u16, body: Seq<char>, message: Seq<char>)
    ensures
        ({
            let answer = AnswerView::Answered { status, body };
            let failed = AnswerView::Failed { message };
            &&& viewer_access_of(answer) is Some <==> 200 <= status < 300 && parsed_json(
                body,
            ) is Ok
            &&& viewer_access_of(failed) is None
            &&& viewer_errors(answer).len() == 0 <==> viewer_access_of(answer) is Some
            &&& !(200 <= status < 300) ==> viewer_errors(answer) == seq![
                "viewer access HTTP "@ + decimal(status as nat),
            ]
            &&& viewer_errors(failed) == seq!["viewer access request failed: "@ + message]
            &&& 200 <= status < 300 ==> (parsed_json(body) matches Err(why) ==> viewer_errors(answer)
                == seq!["viewer JSON parse failed: "@ + why])
            &&& 200 <= status < 300 ==> (parsed_json(body) matches Ok(JsonView::Object(members))
                ==> viewer_access_of(answer) == Some(object_text(lasting_members(members))))
        }),
{
}

/// The members that stay keep their order.
pub proof fn law_lasting_members_keep_their_order(
    a: Seq<(Seq<char>, Seq<char>)>,
    b: Seq<(Seq<char>, Seq<char>)>,
)
    ensures
        lasting_members(a + b) == lasting_members(a) + lasting_members(b),
    decreases b.len(),
{
    if b.len() == 0 {
        assert(a + b =~= a);
    } else {
        law_lasting_members_keep_their_order(a, b.drop_last());
        assert((a + b).drop_last() =~= a + b.drop_last());
    }
}

/// A MARC21 record adds its topics and its links to those of the card, and changes nothing else.
pub proof fn law_marc_only_adds(card: MetadataView, marc: MarcView, text: Seq<char>)
    ensures
        ({
            let merged = with_marc(card, Some(marc));
            &&& merged.title == card.title
            &&& merged.authors == card.authors
            &&& merged.year == card.year
            &&& merged.description == card.description
            &&& merged.bibliographic_description == card.bibliographic_description
            &&& merged.detail == card.detail
            &&& merged.detail_map == card.detail_map
            &&& merged.og == card.og
            &&& merged.topics.contains(text) <==> card.topics.contains(text) || (topics_in(
                marc.data_fields,
            ).contains(text) && text.len() > 0)
            &&& merged.pdf_links.contains(text) <==> card.pdf_links.contains(text) || (
            marc.pdf_links.contains(text) && text.len() > 0)
            &&& card.topics.is_prefix_of(merged.topics)
            &&& card.pdf_links.is_prefix_of(merged.pdf_links)
        }),
        with_marc(card, None) == card,
{
    let topics = first_occurrences(topics_in(marc.data_fields));
    law_merge_unique(card.topics, topics);
    law_merge_unique(card.pdf_links, marc.pdf_links);
    law_merged(card.topics, topics, text);
    law_merged(card.pdf_links, marc.pdf_links, text);
    law_first_occurrences(topics_in(marc.data_fields));
}

/// A record is shown with its title, its words one space apart, or as having none.
pub proof fn law_shown_title(word: Seq<char>)
    requires
        word.len() > 0,
        no_space(word),
    ensures
        shown_title(Some(word)) == word,
        shown_title(None) == "<no title>"@,
        shown_title(Some(Seq::empty())) == "<no title>"@,
{
    law_words(word, ' ', Seq::empty());
    law_joined(seq![word], seq![word], " "@);
    law_joined(seq![word], seq![word], " "@);
    assert(words(Seq::<char>::empty()) =~= Seq::empty());
}

} // verus!
