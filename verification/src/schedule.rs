//! The course of a crawl, and what holds of every course.
//!
//! A crawl is a run of steps of the dispatcher over a store: refills,
//! launches and completions. The laws here say how the number of fetches
//! that were launched relates to the pages that had to be fetched.

use crate::crawler::{
    lemma_registered_all, registered_all, stored, DispatcherView, FetchedView, BATCH,
};
use crate::proxy::ProxyId;
use crate::storage::{
    before, is_pending_batch, lemma_written_wf, registered, table_wf, written, PageView, Row,
};
use vstd::prelude::*;

verus! {

/// The number of rows whose page is not downloaded.
pub open spec fn pending_count(rows: Seq<Row>) -> nat
    decreases rows.len(),
{
    if rows.len() == 0 {
        0
    } else {
        pending_count(rows.drop_last()) + if rows.last().is_pending() {
            1nat
        } else {
            0nat
        }
    }
}

/// A dispatcher together with the store it works on.
pub struct World {
    pub dispatcher: DispatcherView,
    pub rows: Seq<Row>,
}

/// One step of a crawl.
pub enum Step {
    /// The dispatcher takes `batch` from the store as its pending pages.
    Refill { batch: Seq<PageView> },
    /// The dispatcher launches its first pending page.
    Launch,
    /// The fetch of `page` through `proxy_id` ends with `fetched`.
    Complete { proxy_id: Option<ProxyId>, page: PageView, fetched: FetchedView },
}

impl Step {
    /// The step is a fetch that ended without valid content, so that the page
    /// has to be fetched again.
    pub open spec fn is_failure(self) -> bool {
        self matches Step::Complete { fetched, .. } && !(fetched is Valid)
    }
}

impl World {
    /// The pages that the dispatcher holds, pending or in flight.
    pub open spec fn held(self) -> Seq<PageView> {
        self.dispatcher.pending + self.dispatcher.in_flight
    }

    /// The dispatcher and the store agree: both obey their own rules, and
    /// every page that the dispatcher holds is a row of the store that is
    /// not downloaded.
    pub open spec fn wf(self) -> bool {
        &&& self.dispatcher.wf()
        &&& table_wf(self.rows)
        &&& forall|k: int|
            0 <= k < self.held().len() ==> {
                &&& 1 <= (#[trigger] self.held()[k]).id <= self.rows.len()
                &&& self.rows[self.held()[k].id - 1].page == self.held()[k]
                &&& self.rows[self.held()[k].id - 1].is_pending()
            }
    }

    /// The fetches that are still to be launched: one for every page that is
    /// not downloaded and not in flight.
    pub open spec fn owed(self) -> int {
        pending_count(self.rows) - self.dispatcher.in_flight.len()
    }

    /// The crawl is finished: nothing is held, and the store has nothing to
    /// offer.
    pub open spec fn finished(self) -> bool {
        &&& self.dispatcher.needs_refill()
        &&& is_pending_batch(self.rows, BATCH as nat, Seq::empty())
    }

    /// Whether `step` can be taken.
    pub open spec fn enabled(self, step: Step) -> bool {
        match step {
            Step::Refill { batch } => {
                &&& self.dispatcher.needs_refill()
                &&& is_pending_batch(self.rows, BATCH as nat, batch)
            },
            Step::Launch => self.dispatcher.can_launch(),
            Step::Complete { proxy_id, page, fetched } => {
                &&& self.dispatcher.in_flight.contains(page)
                &&& fetched matches FetchedView::Valid { content, links } ==> {
                    &&& links.len() > 0 ==> page.depth < u16::MAX
                    &&& self.rows.len() + links.len() < i64::MAX
                }
            },
        }
    }

    /// The world after `step`.
    pub open spec fn stepped(self, step: Step) -> World {
        match step {
            Step::Refill { batch } => World {
                dispatcher: self.dispatcher.refilled(batch),
                rows: self.rows,
            },
            Step::Launch => World { dispatcher: self.dispatcher.launched(), rows: self.rows },
            Step::Complete { proxy_id, page, fetched } => {
                let rows = stored(self.rows, page, fetched);
                World {
                    dispatcher: self.dispatcher.completed(
                        proxy_id,
                        page,
                        fetched is Valid,
                        (rows.len() - self.rows.len()) as nat,
                    ),
                    rows,
                }
            },
        }
    }

    /// The world after all of `steps`, taken in their order.
    pub open spec fn run(self, steps: Seq<Step>) -> World
        decreases steps.len(),
    {
        if steps.len() == 0 {
            self
        } else {
            self.run(steps.drop_last()).stepped(steps.last())
        }
    }

    /// Whether each of `steps` can be taken when its turn comes.
    pub open spec fn can_run(self, steps: Seq<Step>) -> bool
        decreases steps.len(),
    {
        steps.len() > 0 ==> {
            &&& self.can_run(steps.drop_last())
            &&& self.run(steps.drop_last()).enabled(steps.last())
        }
    }
}

/// The number of fetches among `steps` that ended without valid content.
pub open spec fn failures(steps: Seq<Step>) -> nat
    decreases steps.len(),
{
    if steps.len() == 0 {
        0
    } else {
        failures(steps.drop_last()) + if steps.last().is_failure() {
            1nat
        } else {
            0nat
        }
    }
}

/// Whether navigation is off in all of `steps`: no fetch brings links.
pub open spec fn without_navigation(steps: Seq<Step>) -> bool {
    forall|i: int|
        0 <= i < steps.len() ==> ((#[trigger] steps[i]) matches Step::Complete {
            fetched: FetchedView::Valid { links, .. },
            ..
        } ==> links.len() == 0)
}

proof fn lemma_count_update(rows: Seq<Row>, at: int, row: Row)
    requires
        0 <= at < rows.len(),
    ensures
        pending_count(rows.update(at, row)) + if rows[at].is_pending() {
            1nat
        } else {
            0nat
        } == pending_count(rows) + if row.is_pending() {
            1nat
        } else {
            0nat
        },
    decreases rows.len(),
{
    let after = rows.update(at, row);
    if at == rows.len() - 1 {
        assert(after.drop_last() =~= rows.drop_last());
    } else {
        assert(after.drop_last() =~= rows.drop_last().update(at, row));
        lemma_count_update(rows.drop_last(), at, row);
    }
}

proof fn lemma_count_registered(rows: Seq<Row>, links: Seq<crate::parsers::LinkView>, depth: u16)
    ensures
        registered_all(rows, links, depth).len() >= rows.len(),
        pending_count(registered_all(rows, links, depth)) == pending_count(rows) + registered_all(
            rows,
            links,
            depth,
        ).len() - rows.len(),
    decreases links.len(),
{
    if links.len() > 0 {
        lemma_count_registered(rows, links.drop_last(), depth);
        let front = registered_all(rows, links.drop_last(), depth);
        let after = registered(front, links.last().0, links.last().1, depth);
        if after.len() > front.len() {
            assert(after.drop_last() =~= front);
        }
    }
}

proof fn lemma_count_none(rows: Seq<Row>)
    requires
        forall|i: int| 0 <= i < rows.len() ==> !(#[trigger] rows[i]).is_pending(),
    ensures
        pending_count(rows) == 0,
    decreases rows.len(),
{
    if rows.len() > 0 {
        let front = rows.drop_last();
        assert forall|i: int| 0 <= i < front.len() implies !(#[trigger] front[i]).is_pending() by {
            assert(front[i] == rows[i]);
        }
        lemma_count_none(front);
        assert(!rows[rows.len() - 1].is_pending());
    }
}

/// A store that offers an empty batch holds no page that is not downloaded.
pub proof fn lemma_nothing_offered(rows: Seq<Row>)
    requires
        is_pending_batch(rows, BATCH as nat, Seq::empty()),
    ensures
        pending_count(rows) == 0,
{
    let batch = Seq::<PageView>::empty();
    assert forall|i: int| 0 <= i < rows.len() implies !(#[trigger] rows[i]).is_pending() by {
        if rows[i].is_pending() {
            assert(!batch.contains(rows[i].page));
        }
    }
    lemma_count_none(rows);
}

proof fn lemma_refill(w: World, batch: Seq<PageView>)
    requires
        w.wf(),
        w.enabled(Step::Refill { batch }),
    ensures
        w.stepped(Step::Refill { batch }).wf(),
{
    let after = w.stepped(Step::Refill { batch });
    assert(after.held() =~= batch);
    assert forall|i: int, j: int|
        0 <= i < batch.len() && 0 <= j < batch.len() && i != j implies batch[i] != batch[j] by {
        if i < j {
            assert(before(batch[i], batch[j]));
        } else {
            assert(before(batch[j], batch[i]));
        }
    }
    assert forall|i: int| 0 <= i < after.dispatcher.proxies.len() implies {
        &&& (#[trigger] after.dispatcher.proxies[i]).wf()
        &&& after.dispatcher.proxies[i].requests + after.dispatcher.in_flight.len()
            <= after.dispatcher.requests
        &&& after.dispatcher.proxies[i].successful_requests <= after.dispatcher.proxies[i].requests
    } by {
        assert(w.dispatcher.proxies[i].wf());
    }
}

proof fn lemma_launch(w: World)
    requires
        w.wf(),
        w.enabled(Step::Launch),
    ensures
        w.stepped(Step::Launch).wf(),
{
    let after = w.stepped(Step::Launch);
    let held = w.held();
    let held_after = after.held();
    let pending = w.dispatcher.pending;
    let from = |k: int|
        if k < held_after.len() - 1 {
            k + 1
        } else {
            0int
        };
    assert forall|k: int| 0 <= k < held_after.len() implies held_after[k] == held[from(k)] by {}
    assert forall|i: int, j: int|
        0 <= i < held_after.len() && 0 <= j < held_after.len() && i != j implies held_after[i]
        != held_after[j] by {
        assert(held_after[i] == held[from(i)]);
        assert(held_after[j] == held[from(j)]);
    }
    assert forall|i: int| 0 <= i < after.dispatcher.proxies.len() implies {
        &&& (#[trigger] after.dispatcher.proxies[i]).wf()
        &&& after.dispatcher.proxies[i].requests + after.dispatcher.in_flight.len()
            <= after.dispatcher.requests
        &&& after.dispatcher.proxies[i].successful_requests <= after.dispatcher.proxies[i].requests
    } by {
        assert(w.dispatcher.proxies[i].wf());
    }
    assert forall|k: int| 0 <= k < held_after.len() implies {
        &&& 1 <= (#[trigger] held_after[k]).id <= after.rows.len()
        &&& after.rows[held_after[k].id - 1].page == held_after[k]
        &&& after.rows[held_after[k].id - 1].is_pending()
    } by {
        assert(held_after[k] == held[from(k)]);
    }
}

proof fn lemma_complete(w: World, proxy_id: Option<ProxyId>, page: PageView, fetched: FetchedView)
    requires
        w.wf(),
        w.enabled(Step::Complete { proxy_id, page, fetched }),
    ensures
        w.stepped(Step::Complete { proxy_id, page, fetched }).wf(),
        w.stepped(Step::Complete { proxy_id, page, fetched }).rows.len() >= w.rows.len(),
        pending_count(w.stepped(Step::Complete { proxy_id, page, fetched }).rows) + if fetched is Valid {
            1int
        } else {
            0int
        } == pending_count(w.rows) + w.stepped(Step::Complete { proxy_id, page, fetched }).rows.len()
            - w.rows.len(),
        w.dispatcher.in_flight.len() >= 1,
{
    let step = Step::Complete { proxy_id, page, fetched };
    let after = w.stepped(step);
    let d = w.dispatcher;
    let held = w.held();
    let held_after = after.held();
    let at = d.in_flight.index_of(page);
    assert(0 <= at < d.in_flight.len() && d.in_flight[at] == page);
    let from = |k: int|
        if k < d.pending.len() + at {
            k
        } else {
            k + 1
        };
    assert forall|k: int| 0 <= k < held_after.len() implies held_after[k] == held[from(k)] by {}
    assert forall|i: int, j: int|
        0 <= i < held_after.len() && 0 <= j < held_after.len() && i != j implies held_after[i]
        != held_after[j] by {
        assert(held_after[i] == held[from(i)]);
        assert(held_after[j] == held[from(j)]);
    }
    let success = fetched is Valid;
    assert forall|i: int| 0 <= i < after.dispatcher.proxies.len() implies {
        &&& (#[trigger] after.dispatcher.proxies[i]).wf()
        &&& after.dispatcher.proxies[i].requests + after.dispatcher.in_flight.len()
            <= after.dispatcher.requests
        &&& after.dispatcher.proxies[i].successful_requests <= after.dispatcher.proxies[i].requests
    } by {
        assert(d.proxies[i].wf());
    }
    // the page itself is a pending row of the store
    let me = d.pending.len() + at;
    assert(held[me] == page);
    assert(1 <= page.id <= w.rows.len());
    assert(w.rows[page.id - 1].page == page);
    match fetched {
        FetchedView::Valid { content, links } => {
            let wrote = written(w.rows, page.id, content);
            lemma_written_wf(w.rows, page.id, content);
            lemma_count_update(w.rows, page.id - 1, wrote[page.id - 1]);
            assert(wrote =~= w.rows.update(page.id - 1, wrote[page.id - 1]));
            if links.len() > 0 {
                lemma_registered_all(wrote, links, (page.depth + 1) as u16);
                lemma_count_registered(wrote, links, (page.depth + 1) as u16);
            }
            assert forall|k: int| 0 <= k < held_after.len() implies {
                &&& 1 <= (#[trigger] held_after[k]).id <= after.rows.len()
                &&& after.rows[held_after[k].id - 1].page == held_after[k]
                &&& after.rows[held_after[k].id - 1].is_pending()
            } by {
                let m = from(k);
                assert(held_after[k] == held[m]);
                assert(held[m] != held[me]);
                assert(w.rows[held[m].id - 1].page == held[m]);
                assert(held[m].id != page.id);
                assert(wrote[held[m].id - 1] == w.rows[held[m].id - 1]);
            }
        },
        _ => {
            assert forall|k: int| 0 <= k < held_after.len() implies {
                &&& 1 <= (#[trigger] held_after[k]).id <= after.rows.len()
                &&& after.rows[held_after[k].id - 1].page == held_after[k]
                &&& after.rows[held_after[k].id - 1].is_pending()
            } by {
                assert(held_after[k] == held[from(k)]);
            }
        },
    }
}

/// One step keeps the dispatcher and the store in agreement, and keeps the
/// books: what was launched and what is still owed stands against the links
/// that were found and the fetches that failed.
pub proof fn lemma_step(w: World, step: Step)
    requires
        w.wf(),
        w.enabled(step),
    ensures
        w.stepped(step).wf(),
        w.stepped(step).dispatcher.new_links_found >= w.dispatcher.new_links_found,
        w.stepped(step).dispatcher.requests + w.stepped(step).owed() - w.stepped(
            step,
        ).dispatcher.new_links_found == w.dispatcher.requests + w.owed()
            - w.dispatcher.new_links_found + if step.is_failure() {
            1int
        } else {
            0int
        },
        step matches Step::Complete { fetched, .. } && !(fetched matches FetchedView::Valid {
            links,
            ..
        } && links.len() > 0) ==> w.stepped(step).dispatcher.new_links_found
            == w.dispatcher.new_links_found,
        !(step is Complete) ==> w.stepped(step).dispatcher.new_links_found
            == w.dispatcher.new_links_found,
{
    match step {
        Step::Refill { batch } => {
            lemma_refill(w, batch);
        },
        Step::Launch => {
            lemma_launch(w);
        },
        Step::Complete { proxy_id, page, fetched } => {
            lemma_complete(w, proxy_id, page, fetched);
        },
    }
}

/// Every course of a crawl keeps the dispatcher and the store in agreement,
/// and at each point of it the fetches launched so far and the fetches still
/// owed add up to the pages that had to be fetched at the start, the links
/// found since, and the fetches that failed.
pub proof fn lemma_fetch_attempts(w: World, steps: Seq<Step>)
    requires
        w.wf(),
        w.can_run(steps),
    ensures
        w.run(steps).wf(),
        w.run(steps).dispatcher.new_links_found >= w.dispatcher.new_links_found,
        w.run(steps).dispatcher.requests + w.run(steps).owed() == w.dispatcher.requests + w.owed()
            + (w.run(steps).dispatcher.new_links_found - w.dispatcher.new_links_found) + failures(
            steps,
        ),
        without_navigation(steps) ==> w.run(steps).dispatcher.new_links_found
            == w.dispatcher.new_links_found,
    decreases steps.len(),
{
    if steps.len() > 0 {
        let front = steps.drop_last();
        lemma_fetch_attempts(w, front);
        lemma_step(w.run(front), steps.last());
        if without_navigation(steps) {
            assert forall|i: int| 0 <= i < front.len() implies ((#[trigger] front[i]) matches Step::Complete {
                fetched: FetchedView::Valid { links, .. },
                ..
            } ==> links.len() == 0) by {
                assert(front[i] == steps[i]);
            }
            assert(without_navigation(front));
            let last = steps[steps.len() - 1];
            assert(last == steps.last());
        }
    }
}

/// A crawl that starts with a fresh dispatcher and ends finished has launched
/// exactly one fetch for every page that was not downloaded at the start, one
/// for every link it found, and one more for every fetch that failed. With
/// navigation off it finds no links: it has launched as many fetches as
/// there were pages to download, and a retry for each failure.
pub proof fn lemma_finished_crawl(w: World, steps: Seq<Step>)
    requires
        w.wf(),
        w.dispatcher.requests == 0,
        w.dispatcher.new_links_found == 0,
        w.dispatcher.in_flight.len() == 0,
        w.can_run(steps),
        w.run(steps).finished(),
    ensures
        w.run(steps).dispatcher.requests == pending_count(w.rows) + w.run(
            steps,
        ).dispatcher.new_links_found + failures(steps),
        without_navigation(steps) ==> w.run(steps).dispatcher.requests == pending_count(w.rows)
            + failures(steps),
{
    lemma_fetch_attempts(w, steps);
    lemma_nothing_offered(w.run(steps).rows);
}

} // verus!
