use crate::item_worker::WorkerStats;
use crate::numerals::{decimal, decimal_text};
use crate::order::{law_sorting_keeps_the_texts, sort_unique, sorted_texts, strictly_sorted};
use crate::state::RetryCounts;
use crate::text::{has_text, lemma_stands_last, lemma_stays_inside, starts_with, trim, trimmed};
use crate::views::{group_texts, lemma_take_next, texts};
use vstd::prelude::*;

verus! {

broadcast use group_texts;

/// The identifiers among some texts: each without the space around it, where something is left.
pub open spec fn given_ids(list: Seq<Seq<char>>) -> Seq<Seq<char>>
    decreases list.len(),
{
    if list.len() == 0 {
        Seq::empty()
    } else if trimmed(list.last()).len() > 0 {
        given_ids(list.drop_last()).push(trimmed(list.last()))
    } else {
        given_ids(list.drop_last())
    }
}

/// Whether a line of a file of identifiers holds one: it is neither empty nor a comment.
pub open spec fn holds_id(line: Seq<char>) -> bool {
    trimmed(line).len() > 0 && trimmed(line)[0] != '#'
}

/// The identifiers among the lines of a file.
pub open spec fn listed_ids(lines: Seq<Seq<char>>) -> Seq<Seq<char>>
    decreases lines.len(),
{
    if lines.len() == 0 {
        Seq::empty()
    } else if holds_id(lines.last()) {
        listed_ids(lines.drop_last()).push(trimmed(lines.last()))
    } else {
        listed_ids(lines.drop_last())
    }
}

/// The identifiers that were given and those that a file lists, sorted and each once.
pub fn load_ids(ids: &Vec<String>, file_lines: &Vec<String>) -> (result: Vec<String>)
    ensures
        texts(result@) == sorted_texts(given_ids(texts(ids@)) + listed_ids(texts(file_lines@))),
{
    let ghost given = texts(ids@);
    let ghost lines = texts(file_lines@);
    let mut out: Vec<String> = Vec::new();
    for i in 0..ids.len()
        invariant
            given == texts(ids@),
            texts(out@) == given_ids(given.take(i as int)),
    {
        proof {
            lemma_take_next(given, i as int);
            assert(given.take(i + 1).drop_last() == given.take(i as int));
        }
        let id = trim(&ids[i]);
        if !id.as_str().is_empty() {
            out.push(id);
        }
    }
    assert(given.take(given.len() as int) == given);
    let ghost start = texts(out@);
    assert(start + listed_ids(lines.take(0)) =~= start);
    for i in 0..file_lines.len()
        invariant
            lines == texts(file_lines@),
            texts(out@) == start + listed_ids(lines.take(i as int)),
    {
        proof {
            lemma_take_next(lines, i as int);
            assert(lines.take(i + 1).drop_last() == lines.take(i as int));
            reveal_strlit("#");
        }
        let id = trim(&file_lines[i]);
        let comment = starts_with(&id, "#");
        assert(id@.len() > 0 ==> comment == (id@[0] == '#')) by {
            if id@.len() > 0 {
                assert(id@.take(1) =~= seq![id@[0]]);
                assert("#"@ =~= seq!['#']);
                if comment {
                    assert(id@.take(1)[0] == '#');
                }
            }
        }
        if !id.as_str().is_empty() && !comment {
            out.push(id);
            assert(texts(out@) =~= start + listed_ids(lines.take(i as int)).push(id@));
        }
    }
    assert(lines.take(lines.len() as int) == lines);
    sort_unique(&out)
}

/// The line on identifiers that were queued.
pub open spec fn queued_text(count: nat, what: Seq<char>, inserted: nat) -> Seq<char> {
    "queued "@ + decimal(count) + what + decimal(inserted) + " new)"@
}

fn queued(count: usize, what: &str, inserted: usize) -> (result: String)
    ensures
        result@ == queued_text(count as nat, what@, inserted as nat),
{
    let mut out: String = "queued ".to_owned();
    let number = decimal_text(count as u64);
    out.append(&number);
    out.append(what);
    let fresh = decimal_text(inserted as u64);
    out.append(&fresh);
    out.append(" new)");
    out
}

/// The line on identifiers that were queued on their own.
pub fn queued_line(count: usize, inserted: usize) -> (result: String)
    ensures
        result@ == queued_text(count as nat, " IDs ("@, inserted as nat),
{
    queued(count, " IDs (", inserted)
}

/// The line on identifiers that were queued before a crawl.
pub fn explicit_line(count: usize, inserted: usize) -> (result: String)
    ensures
        result@ == queued_text(count as nat, " explicit IDs ("@, inserted as nat),
{
    queued(count, " explicit IDs (", inserted)
}

/// The line on failed rows that were given a new start.
pub open spec fn retried_text(http_status: Option<u16>, items: nat, pages: nat) -> Seq<char> {
    (match http_status {
        Some(status) => "reset failed HTTP "@ + decimal(status as nat) + " rows to pending: "@,
        None => "reset all failed rows to pending: "@,
    }) + decimal(items) + " item(s), "@ + decimal(pages) + " search page(s)"@
}

/// The line on failed rows that were given a new start.
pub fn retried_line(http_status: Option<u16>, counts: &RetryCounts) -> (result: String)
    ensures
        result@ == retried_text(http_status, counts.items as nat, counts.search_pages as nat),
{
    let mut out: String = match http_status {
        Some(status) => {
            let mut start: String = "reset failed HTTP ".to_owned();
            let number = decimal_text(status as u64);
            start.append(&number);
            start.append(" rows to pending: ");
            start
        },
        None => "reset all failed rows to pending: ".to_owned(),
    };
    let items = decimal_text(counts.items);
    out.append(&items);
    out.append(" item(s), ");
    let pages = decimal_text(counts.search_pages);
    out.append(&pages);
    out.append(" search page(s)");
    out
}

/// The lines on how many rows of a table are in each state.
pub open spec fn count_lines(counts: Seq<(String, u64)>) -> Seq<Seq<char>> {
    counts.map_values(|c: (String, u64)| "  "@ + c.0@ + ": "@ + decimal(c.1 as nat))
}

fn push_counts(lines: &mut Vec<String>, counts: &Vec<(String, u64)>)
    ensures
        texts(final(lines)@) == texts(old(lines)@) + count_lines(counts@),
{
    let ghost start = texts(lines@);
    let ghost all = count_lines(counts@);
    assert(start + all.take(0) =~= start);
    for i in 0..counts.len()
        invariant
            all == count_lines(counts@),
            texts(lines@) == start + all.take(i as int),
    {
        let mut line: String = "  ".to_owned();
        line.append(&counts[i].0);
        line.append(": ");
        let number = decimal_text(counts[i].1);
        line.append(&number);
        lines.push(line);
        proof {
            lemma_take_next(all, i as int);
            assert(line@ == all[i as int]);
            assert(texts(lines@) =~= start + all.take(i as int).push(line@));
        }
    }
    assert(all.take(all.len() as int) == all);
}

/// The lines on a crawl's state.
pub open spec fn stats_text(
    records: nat,
    items: Seq<(String, u64)>,
    pages: Seq<(String, u64)>,
) -> Seq<Seq<char>> {
    seq!["records: "@ + decimal(records), "items:"@] + count_lines(items) + seq!["search_pages:"@]
        + count_lines(pages)
}

/// The lines on a crawl's state.
pub fn stats_lines(
    records: u64,
    items: &Vec<(String, u64)>,
    search_pages: &Vec<(String, u64)>,
) -> (result: Vec<String>)
    ensures
        texts(result@) == stats_text(records as nat, items@, search_pages@),
{
    let mut lines: Vec<String> = Vec::new();
    let mut first: String = "records: ".to_owned();
    let number = decimal_text(records);
    first.append(&number);
    lines.push(first);
    lines.push("items:".to_owned());
    assert(texts(lines@) =~= seq!["records: "@ + decimal(records as nat), "items:"@]);
    push_counts(&mut lines, items);
    let ghost before = texts(lines@);
    lines.push("search_pages:".to_owned());
    assert(texts(lines@) =~= before + seq!["search_pages:"@]);
    push_counts(&mut lines, search_pages);
    lines
}

/// The line on what the workers did.
pub open spec fn stopped_text(stats: WorkerStats) -> Seq<char> {
    "item workers stopped: saved="@ + decimal(stats.saved as nat) + ", missing="@ + decimal(
        stats.missing as nat,
    ) + ", failed="@ + decimal(stats.failed as nat) + ", deferred="@ + decimal(
        stats.deferred as nat,
    )
}

/// The line on what the workers did.
pub fn stopped_line(stats: &WorkerStats) -> (result: String)
    ensures
        result@ == stopped_text(*stats),
{
    let mut out: String = "item workers stopped: saved=".to_owned();
    let saved = decimal_text(stats.saved);
    out.append(&saved);
    out.append(", missing=");
    let missing = decimal_text(stats.missing);
    out.append(&missing);
    out.append(", failed=");
    let failed = decimal_text(stats.failed);
    out.append(&failed);
    out.append(", deferred=");
    let deferred = decimal_text(stats.deferred);
    out.append(&deferred);
    out
}

/// The messages of the workers that failed, each on a line.
pub open spec fn error_lines(errors: Seq<Seq<char>>) -> Seq<char>
    decreases errors.len(),
{
    if errors.len() == 0 {
        Seq::empty()
    } else {
        error_lines(errors.drop_last()) + "\n- "@ + errors.last()
    }
}

/// The message on the workers that failed.
pub fn workers_failed(errors: &Vec<String>) -> (result: Option<String>)
    ensures
        match result {
            Some(message) => errors@.len() > 0 && message@ == decimal(errors@.len())
                + " item worker(s) failed"@ + error_lines(texts(errors@)),
            None => errors@.len() == 0,
        },
{
    if errors.len() == 0 {
        return None;
    }
    let ghost all = texts(errors@);
    let mut out: String = decimal_text(errors.len() as u64);
    out.append(" item worker(s) failed");
    let ghost start = out@;
    assert(start + error_lines(all.take(0)) =~= start);
    for i in 0..errors.len()
        invariant
            all == texts(errors@),
            out@ == start + error_lines(all.take(i as int)),
    {
        proof {
            lemma_take_next(all, i as int);
            assert(all.take(i + 1).drop_last() == all.take(i as int));
        }
        out.append("\n- ");
        out.append(&errors[i]);
        assert(out@ =~= start + error_lines(all.take(i + 1)));
    }
    assert(all.take(all.len() as int) == all);
    Some(out)
}

/// The identifiers that are loaded are those that were given and those on the lines of the file,
/// trimmed; empty ones and lines that begin with `#` are left out.
pub proof fn law_loaded_ids(ids: Seq<Seq<char>>, lines: Seq<Seq<char>>, id: Seq<char>)
    ensures
        sorted_texts(given_ids(ids) + listed_ids(lines)).contains(id) <==> id.len() > 0 && ((
        exists|i: int| 0 <= i < ids.len() && trimmed(#[trigger] ids[i]) == id) || (id[0] != '#'
            && exists|i: int| 0 <= i < lines.len() && trimmed(#[trigger] lines[i]) == id)),
        strictly_sorted(sorted_texts(given_ids(ids) + listed_ids(lines))),
{
    let given = given_ids(ids);
    let listed = listed_ids(lines);
    let all = given + listed;
    let sorted = sorted_texts(all);
    law_sorting_keeps_the_texts(all);
    lemma_given_ids(ids, id);
    lemma_listed_ids(lines, id);
    assert(sorted.contains(id) <==> sorted.to_set().contains(id));
    assert(all.contains(id) <==> all.to_set().contains(id));
    if all.contains(id) {
        let k = all.index_of(id);
        if k < given.len() {
            assert(given[k] == id);
        } else {
            assert(listed[k - given.len()] == id);
        }
    }
    if given.contains(id) {
        let k = given.index_of(id);
        assert(all[k] == id);
    }
    if listed.contains(id) {
        let k = listed.index_of(id);
        assert(all[given.len() + k] == id);
    }
}

proof fn lemma_given_ids(ids: Seq<Seq<char>>, id: Seq<char>)
    ensures
        given_ids(ids).contains(id) <==> id.len() > 0 && exists|i: int|
            0 <= i < ids.len() && trimmed(#[trigger] ids[i]) == id,
    decreases ids.len(),
{
    let all = given_ids(ids);
    if ids.len() > 0 {
        let rest = ids.drop_last();
        let before = given_ids(rest);
        let n = rest.len() as int;
        lemma_given_ids(rest, id);
        assert(ids[n] == ids.last());
        assert forall|i: int| 0 <= i < n implies #[trigger] rest[i] == ids[i] by {}
        if before.contains(id) {
            let k = before.index_of(id);
            assert(all[k] == id);
            let i = choose|i: int| 0 <= i < rest.len() && trimmed(#[trigger] rest[i]) == id;
            assert(trimmed(ids[i]) == id);
        }
        if all.contains(id) && !before.contains(id) {
            let k = all.index_of(id);
            assert(k < before.len() ==> before[k] == id);
        }
        if trimmed(ids.last()) == id && id.len() > 0 {
            assert(all[before.len() as int] == id);
        }
        if id.len() > 0 && exists|i: int| 0 <= i < ids.len() && trimmed(#[trigger] ids[i]) == id {
            let i = choose|i: int| 0 <= i < ids.len() && trimmed(#[trigger] ids[i]) == id;
            if i < n {
                assert(trimmed(rest[i]) == id);
            }
        }
    } else {
        assert(all =~= Seq::empty());
    }
}

proof fn lemma_listed_ids(lines: Seq<Seq<char>>, id: Seq<char>)
    ensures
        listed_ids(lines).contains(id) <==> id.len() > 0 && id[0] != '#' && exists|i: int|
            0 <= i < lines.len() && trimmed(#[trigger] lines[i]) == id,
    decreases lines.len(),
{
    let all = listed_ids(lines);
    if lines.len() > 0 {
        let rest = lines.drop_last();
        let before = listed_ids(rest);
        let n = rest.len() as int;
        lemma_listed_ids(rest, id);
        assert(lines[n] == lines.last());
        assert forall|i: int| 0 <= i < n implies #[trigger] rest[i] == lines[i] by {}
        if before.contains(id) {
            let k = before.index_of(id);
            assert(all[k] == id);
            let i = choose|i: int| 0 <= i < rest.len() && trimmed(#[trigger] rest[i]) == id;
            assert(trimmed(lines[i]) == id);
        }
        if all.contains(id) && !before.contains(id) {
            let k = all.index_of(id);
            assert(k < before.len() ==> before[k] == id);
        }
        if trimmed(lines.last()) == id && id.len() > 0 && id[0] != '#' {
            assert(all[before.len() as int] == id);
        }
        if id.len() > 0 && exists|i: int|
            0 <= i < lines.len() && trimmed(#[trigger] lines[i]) == id {
            let i = choose|i: int| 0 <= i < lines.len() && trimmed(#[trigger] lines[i]) == id;
            if i < n {
                assert(trimmed(rest[i]) == id);
            }
        }
    } else {
        assert(all =~= Seq::empty());
    }
}

/// The line on the end of the workers tells each of their numbers under its name.
pub proof fn law_stopped_line(stats: WorkerStats)
    ensures
        has_text(stopped_text(stats), "item workers stopped: saved="@ + decimal(stats.saved as nat) + ", missing="@),
        has_text(stopped_text(stats), ", missing="@ + decimal(stats.missing as nat) + ", failed="@),
        has_text(stopped_text(stats), ", failed="@ + decimal(stats.failed as nat) + ", deferred="@),
        has_text(stopped_text(stats), ", deferred="@ + decimal(stats.deferred as nat) + Seq::empty()),
{
    broadcast use lemma_stays_inside;

    assert(stopped_text(stats) + Seq::empty() =~= stopped_text(stats));
    let s0 = Seq::<char>::empty();
    lemma_stands_last(s0, "item workers stopped: saved="@, decimal(stats.saved as nat), ", missing="@);
    let s2 = s0 + "item workers stopped: saved="@ + decimal(stats.saved as nat);
    lemma_stands_last(s2, ", missing="@, decimal(stats.missing as nat), ", failed="@);
    let s4 = s2 + ", missing="@ + decimal(stats.missing as nat);
    lemma_stands_last(s4, ", failed="@, decimal(stats.failed as nat), ", deferred="@);
    let s6 = s4 + ", failed="@ + decimal(stats.failed as nat);
    lemma_stands_last(s6, ", deferred="@, decimal(stats.deferred as nat), Seq::empty());
}

/// The statistics tell the records, the items by state and the search pages by state, in this order.
pub proof fn law_stats(
    records: nat,
    items: Seq<(String, u64)>,
    pages: Seq<(String, u64)>,
    i: int,
)
    ensures
        ({
            let lines = stats_text(records, items, pages);
            &&& lines.len() == items.len() + pages.len() + 3
            &&& lines[0] == "records: "@ + decimal(records)
            &&& lines[1] == "items:"@
            &&& 0 <= i < items.len() ==> lines[2 + i] == "  "@ + items[i].0@ + ": "@ + decimal(
                items[i].1 as nat,
            )
            &&& lines[2 + items.len() as int] == "search_pages:"@
            &&& 0 <= i < pages.len() ==> lines[3 + items.len() + i] == "  "@ + pages[i].0@ + ": "@
                + decimal(pages[i].1 as nat)
        }),
{
}

/// Each error of a worker is told on a line of its own, in their order.
pub proof fn law_error_lines(a: Seq<Seq<char>>, error: Seq<char>)
    ensures
        error_lines(Seq::empty()).len() == 0,
        error_lines(a.push(error)) == error_lines(a) + "\n- "@ + error,
{
    assert(a.push(error).drop_last() =~= a);
}

/// A retry tells for which status, and how many items and search pages it took up.
pub proof fn law_retried_line(status: u16, items: nat, pages: nat)
    ensures
        retried_text(Some(status), items, pages) == "reset failed HTTP "@ + decimal(status as nat)
            + " rows to pending: "@ + decimal(items) + " item(s), "@ + decimal(pages)
            + " search page(s)"@,
        retried_text(None, items, pages) == "reset all failed rows to pending: "@ + decimal(items)
            + " item(s), "@ + decimal(pages) + " search page(s)"@,
{
}

} // verus!
