use crate::coverage::group_for;
use crate::discovery::{
    beyond, discovers, job_keys, lemma_seeded_again, setup_for, state_begun, DiscoveryStep,
};
use crate::item_worker::{works, WorkerSetup, WorkerStep};
use crate::items::{
    has_item, is_next, item_selected, items_counted, ItemSelectionView, ItemView,
};
use crate::jobs::{chosen_facets, chosen_sorts, planned_jobs, CrawlArgs, JobView};
use crate::overflow::{overflow_of, state_overflowed, OverflowRules};
use crate::pages::{
    has_page, is_next_page, page_selected, pages_counted, PageSelectionView, PageView,
};
use crate::pauses::{pause_step, PauseControl, PauseStep};
use crate::report::completion_error;
use crate::settings::limited;
use crate::shards::shard_of;
use crate::state::{state_reset, StateView};
use crate::state_laws::{law_known_items_are_skipped, lemma_statuses_differ};
use crate::summary::completion_of;
use crate::views::lemma_count_zero;
use crate::workers::WorkerControl;
use vstd::prelude::*;

verus! {

/// Whether a page is left out by the limits of a run: it is beyond the last page of its stream, and
/// it is neither in progress nor has it failed for good.
pub open spec fn left_out(row: PageView, args: CrawlArgs, jobs: Seq<JobView>) -> bool {
    &&& limited(args)
    &&& forall|j: int|
        0 <= j < jobs.len() && (#[trigger] jobs[j]).search_key == row.search_key ==> beyond(
            row.page as int,
            setup_for(args, jobs[j]).last_page,
        )
    &&& row.status != "in_progress"@
    &&& !page_selected(row, PageSelectionView::Exhausted { max_attempts: args.max_attempts })
}

/// Whether a crawl has come to its end: its streams and the items that were asked for have been
/// taken up, each page within the limits is done, and each item is done or missing.
pub open spec fn finished(state: StateView, args: CrawlArgs, ids: Seq<Seq<char>>) -> bool {
    &&& planned_jobs(args) matches Ok(jobs) && {
        &&& !args.no_discover ==> forall|j: int|
            0 <= j < jobs.len() ==> has_page(
                state.pages,
                (#[trigger] jobs[j]).search_key,
                args.start_page,
            )
        &&& forall|i: int|
            0 <= i < state.pages.len() ==> (#[trigger] state.pages[i]).status == "done"@
                || left_out(state.pages[i], args, jobs)
    }
    &&& forall|k: int| 0 <= k < ids.len() ==> has_item(state.items, #[trigger] ids[k])
    &&& forall|i: int|
        0 <= i < state.items.len() ==> (#[trigger] state.items[i]).status == "done"@
            || state.items[i].status == "missing"@
}

/// Starting a crawl that has come to its end changes nothing: there is no page within the limits
/// and no item to fetch, and the crawl is complete.
pub proof fn law_finished_crawl_stays_finished(
    state: StateView,
    args: CrawlArgs,
    ids: Seq<Seq<char>>,
    shutdown: bool,
    now: i64,
    later: i64,
)
    requires
        finished(state, args, ids),
    ensures
        state_reset(state, now) == state,
        state_begun(state, args, ids, later) == state,
        forall|i: int, j: int|
            0 <= j < planned_jobs(args)->Ok_0.len() && #[trigger] is_next_page(
                state.pages,
                i,
                (#[trigger] planned_jobs(args)->Ok_0[j]).search_key,
                args.max_attempts,
            ) ==> beyond(
                state.pages[i].page as int,
                setup_for(args, planned_jobs(args)->Ok_0[j]).last_page,
            ),
        forall|i: int| !#[trigger] is_next(state.items, i, args.max_attempts),
        items_counted(
            state.items,
            ItemSelectionView::Waiting { max_attempts: args.max_attempts },
        ) == 0,
        completion_error(
            completion_of(state, args.max_attempts),
            args.max_attempts as nat,
            limited(args),
            shutdown,
        ) is None,
{
    lemma_statuses_differ();
    assert(state_reset(state, now).pages =~= state.pages);
    assert(state_reset(state, now).items =~= state.items);
    law_known_items_are_skipped(state.items, ids, None, None, later);
    if !args.no_discover {
        lemma_seeded_again(state, planned_jobs(args)->Ok_0, args.start_page, later);
    }
    lemma_finished_items(state.items, args.max_attempts);
    lemma_finished_pages(state, args, ids);
}

/// Where each item is done or missing, none waits, is in progress or has failed.
proof fn lemma_finished_items(items: Seq<ItemView>, max_attempts: u32)
    requires
        forall|i: int|
            0 <= i < items.len() ==> (#[trigger] items[i]).status == "done"@ || items[i].status
                == "missing"@,
    ensures
        items_counted(items, ItemSelectionView::Waiting { max_attempts }) == 0,
        items_counted(items, ItemSelectionView::Status { status: "pending"@ }) == 0,
        items_counted(items, ItemSelectionView::Status { status: "in_progress"@ }) == 0,
        items_counted(items, ItemSelectionView::Retryable { max_attempts }) == 0,
        items_counted(items, ItemSelectionView::Exhausted { max_attempts }) == 0,
{
    lemma_statuses_differ();
    lemma_count_zero(
        items,
        |r: ItemView| item_selected(r, ItemSelectionView::Waiting { max_attempts }),
    );
    lemma_count_zero(
        items,
        |r: ItemView| item_selected(r, ItemSelectionView::Status { status: "pending"@ }),
    );
    lemma_count_zero(
        items,
        |r: ItemView| item_selected(r, ItemSelectionView::Status { status: "in_progress"@ }),
    );
    lemma_count_zero(
        items,
        |r: ItemView| item_selected(r, ItemSelectionView::Retryable { max_attempts }),
    );
    lemma_count_zero(
        items,
        |r: ItemView| item_selected(r, ItemSelectionView::Exhausted { max_attempts }),
    );
}

/// Where a crawl has come to its end, no page has failed for good, and without limits none waits,
/// is in progress or is to be retried.
proof fn lemma_finished_pages(state: StateView, args: CrawlArgs, ids: Seq<Seq<char>>)
    requires
        finished(state, args, ids),
    ensures
        pages_counted(
            state.pages,
            PageSelectionView::Exhausted { max_attempts: args.max_attempts },
        ) == 0,
        !limited(args) ==> pages_counted(
            state.pages,
            PageSelectionView::Status { status: "pending"@ },
        ) == 0 && pages_counted(
            state.pages,
            PageSelectionView::Status { status: "in_progress"@ },
        ) == 0 && pages_counted(
            state.pages,
            PageSelectionView::Retryable { max_attempts: args.max_attempts },
        ) == 0,
{
    lemma_statuses_differ();
    let max_attempts = args.max_attempts;
    lemma_count_zero(
        state.pages,
        |r: PageView| page_selected(r, PageSelectionView::Exhausted { max_attempts }),
    );
    if !limited(args) {
        lemma_count_zero(
            state.pages,
            |r: PageView| page_selected(r, PageSelectionView::Status { status: "pending"@ }),
        );
        lemma_count_zero(
            state.pages,
            |r: PageView| page_selected(r, PageSelectionView::Status { status: "in_progress"@ }),
        );
        lemma_count_zero(
            state.pages,
            |r: PageView| page_selected(r, PageSelectionView::Retryable { max_attempts }),
        );
    }
}

/// What a crawl's overflow goes by until the values of the facets are fetched.
pub open spec fn rules_of(args: CrawlArgs) -> OverflowRules {
    OverflowRules {
        auto_overflow: args.auto_overflow,
        shard_years: args.shard_years,
        max_depth: args.max_overflow_facet_depth as nat,
        sorts: chosen_sorts(args)->Ok_0,
        facets: chosen_facets(args),
        values: None,
    }
}

/// Whether overflow has nothing to add to any stream that a crawl starts with.
pub open spec fn settled(state: StateView, args: CrawlArgs) -> bool {
    planned_jobs(args) matches Ok(jobs) ==> forall|j: int|
        0 <= j < jobs.len() ==> overflow_of(
            state,
            #[trigger] jobs[j],
            rules_of(args),
            job_keys(jobs),
        ) is Nothing
}

/// Whether a stream has listed what was reported of it, or its group has.
pub open spec fn covered(state: StateView, job: JobView, facets: Seq<Seq<char>>) -> bool {
    shard_of(state, job.search_key) matches Some(shard) ==> !shard.has_gap() || (group_for(
        state,
        job.params_json,
        facets,
    ) matches Ok(Some(group)) && !group.has_gap())
}

/// Overflow has nothing to add to a crawl without automatic overflow, to one that is not split by
/// years, and to one each of whose streams is covered.
pub proof fn law_covered_crawl_is_settled(state: StateView, args: CrawlArgs)
    requires
        !args.auto_overflow || !args.shard_years || (planned_jobs(args) matches Ok(jobs)
            ==> forall|j: int|
            0 <= j < jobs.len() ==> covered(state, #[trigger] jobs[j], chosen_facets(args))),
    ensures
        settled(state, args),
{
    if let Ok(jobs) = planned_jobs(args) {
        assert forall|j: int| 0 <= j < jobs.len() implies overflow_of(
            state,
            #[trigger] jobs[j],
            rules_of(args),
            job_keys(jobs),
        ) is Nothing by {
            if args.auto_overflow && args.shard_years {
                assert(covered(state, jobs[j], chosen_facets(args)));
            }
        }
    }
}

/// One thing that a crawl does before it makes a request or adds a stream.
pub ghost enum CrawlMove {
    /// Discovery decides what it does next in a stream.
    Discovery { job: int, pauses: PauseControl, shutdown: bool, now: i64, step: DiscoveryStep },
    /// A worker decides what it does next.
    Work {
        worker_id: usize,
        workers: WorkerControl,
        pauses: PauseControl,
        started: u64,
        started_after: u64,
        shutdown: bool,
        discovery_done: bool,
        now: i64,
        work: WorkerStep,
    },
    /// Overflow looks at a stream.
    Overflow { job: int, now: i64 },
}

/// Whether a crawl may do this, and what becomes of its state.
pub open spec fn moves(
    before: StateView,
    after: StateView,
    args: CrawlArgs,
    jobs: Seq<JobView>,
    m: CrawlMove,
) -> bool {
    match m {
        CrawlMove::Discovery { job, pauses, shutdown, now, step } => {
            &&& 0 <= job < jobs.len()
            &&& discovers(
                before,
                after,
                pauses,
                jobs[job].search_key,
                setup_for(args, jobs[job]),
                shutdown,
                now,
                step,
            )
        },
        CrawlMove::Work {
            worker_id,
            workers,
            pauses,
            started,
            started_after,
            shutdown,
            discovery_done,
            now,
            work,
        } => works(
            before,
            after,
            workers,
            pauses,
            started,
            started_after,
            WorkerSetup { worker_id, max_attempts: args.max_attempts, max_items: args.max_items },
            shutdown,
            discovery_done,
            now,
            work,
        ),
        CrawlMove::Overflow { job, now } => {
            &&& 0 <= job < jobs.len()
            &&& after == state_overflowed(
                before,
                overflow_of(before, jobs[job], rules_of(args), job_keys(jobs)),
                args.start_page,
                now,
            )
        },
    }
}

/// Whether something that a crawl does leads to a request or to a new stream.
pub open spec fn asks(
    before: StateView,
    args: CrawlArgs,
    jobs: Seq<JobView>,
    m: CrawlMove,
) -> bool {
    match m {
        CrawlMove::Discovery { step, .. } => step is Fetch,
        CrawlMove::Work { work, .. } => work is Fetch,
        CrawlMove::Overflow { job, .. } => !(overflow_of(
            before,
            jobs[job],
            rules_of(args),
            job_keys(jobs),
        ) is Nothing),
    }
}

/// Whether a crawl goes through these states, one after the other.
pub open spec fn runs(
    states: Seq<StateView>,
    args: CrawlArgs,
    jobs: Seq<JobView>,
    done: Seq<CrawlMove>,
) -> bool {
    &&& states.len() == done.len() + 1
    &&& forall|i: int|
        0 <= i < done.len() ==> moves(states[i], states[i + 1], args, jobs, #[trigger] done[i])
}

/// Once discovery or a worker may go on in a crawl that has come to its end, it stops; and whatever
/// is done in such a crawl, where overflow has nothing to add, asks for nothing and changes nothing.
pub proof fn law_finished_crawl_asks_for_nothing(
    state: StateView,
    after: StateView,
    args: CrawlArgs,
    ids: Seq<Seq<char>>,
    m: CrawlMove,
)
    requires
        finished(state, args, ids),
        settled(state, args),
        moves(state, after, args, planned_jobs(args)->Ok_0, m),
    ensures
        after == state,
        !asks(state, args, planned_jobs(args)->Ok_0, m),
        m matches CrawlMove::Discovery { pauses, shutdown, now, step, .. } ==> (pause_step(
            pauses.pause_until,
            shutdown,
            now,
        ) == PauseStep::Go ==> step is Stop),
        m matches CrawlMove::Work { pauses, shutdown, discovery_done, now, work, .. } ==> (
        pause_step(pauses.pause_until, shutdown, now) == PauseStep::Go && discovery_done
            ==> work is Stop),
{
    law_finished_crawl_stays_finished(state, args, ids, false, 0, 0);
}

/// A crawl that has come to its end, where overflow has nothing to add, is in the same state
/// whatever it has done.
proof fn lemma_state_stays(
    state: StateView,
    args: CrawlArgs,
    ids: Seq<Seq<char>>,
    states: Seq<StateView>,
    done: Seq<CrawlMove>,
    i: int,
)
    requires
        finished(state, args, ids),
        settled(state, args),
        runs(states, args, planned_jobs(args)->Ok_0, done),
        states[0] == state,
        0 <= i < states.len(),
    ensures
        states[i] == state,
    decreases i,
{
    if i > 0 {
        lemma_state_stays(state, args, ids, states, done, i - 1);
        let m = done[i - 1];
        law_finished_crawl_asks_for_nothing(state, states[i], args, ids, m);
    }
}

/// A crawl that has come to its end, where overflow has nothing to add, and is run again with the
/// same settings and items, makes no request, however long it runs; its state stays as it was, and
/// the crawl is complete.
pub proof fn law_finished_crawl_is_not_repeated(
    state: StateView,
    args: CrawlArgs,
    ids: Seq<Seq<char>>,
    states: Seq<StateView>,
    done: Seq<CrawlMove>,
    shutdown: bool,
    now: i64,
    later: i64,
)
    requires
        finished(state, args, ids),
        settled(state, args),
        states.len() > 0,
        states[0] == state_begun(state_reset(state, now), args, ids, later),
        runs(states, args, planned_jobs(args)->Ok_0, done),
    ensures
        forall|i: int| 0 <= i < states.len() ==> #[trigger] states[i] == state,
        forall|i: int|
            0 <= i < done.len() ==> !asks(
                states[i],
                args,
                planned_jobs(args)->Ok_0,
                #[trigger] done[i],
            ),
        completion_error(
            completion_of(states.last(), args.max_attempts),
            args.max_attempts as nat,
            limited(args),
            shutdown,
        ) is None,
{
    law_finished_crawl_stays_finished(state, args, ids, shutdown, now, later);
    assert forall|i: int| 0 <= i < states.len() implies #[trigger] states[i] == state by {
        lemma_state_stays(state, args, ids, states, done, i);
    }
    assert forall|i: int| 0 <= i < done.len() implies !asks(
        states[i],
        args,
        planned_jobs(args)->Ok_0,
        #[trigger] done[i],
    ) by {
        lemma_state_stays(state, args, ids, states, done, i);
        law_finished_crawl_asks_for_nothing(state, states[i + 1], args, ids, done[i]);
    }
}

} // verus!
