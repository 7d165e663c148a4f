//! The crawl dispatcher.
//!
//! The dispatcher decides; it fetches nothing itself. Asked for the next
//! action it refills its buffer of pending pages from the store, hands out a
//! page to fetch together with the proxy to use, or says that there is
//! nothing to do but wait, or that the crawl is finished. Told how a fetch
//! ended it updates the store, the counters and the health of the proxy.
//! Whoever drives it performs the fetches and reports back.

use crate::parsers::{LinkView, PageParsers};
use crate::prelude::{AppError, PageTypeId};
use crate::proxy::{Proxies, ProxyId, ProxyRecord, ProxyStat};
use crate::storage::{
    is_pending_batch, page_views, registered, table_wf, written, Page, PageView, Row, Storage,
};
use vstd::prelude::*;

verus! {

/// How many pending pages the dispatcher takes from the store at once.
pub const BATCH: u16 = 100;

/// A point-in-time summary of a crawl, for reporting.
pub struct CrawlerState {
    /// Number of requests the crawler initiated from the start of its run.
    pub requests: u32,
    /// Number of requests finished successfully.
    pub successfull_requests: u32,
    /// Number of new links that have been found.
    pub new_links_found: u32,
    /// The ongoing requests; no page occurs twice.
    pub requests_in_flight: Vec<Page>,
    /// The proxies with their counters.
    pub proxies: Vec<(String, ProxyStat)>,
}

impl Default for CrawlerState {
    fn default() -> (state: CrawlerState)
        ensures
            state.requests == 0,
            state.successfull_requests == 0,
            state.new_links_found == 0,
            state.requests_in_flight@.len() == 0,
            state.proxies@.len() == 0,
    {
        CrawlerState {
            requests: 0,
            successfull_requests: 0,
            new_links_found: 0,
            requests_in_flight: Vec::new(),
            proxies: Vec::new(),
        }
    }
}

/// What the dispatcher's driver publishes for whoever watches the crawl.
pub enum CrawlerReport {
    /// The crawl as it stands.
    Report(CrawlerState),
    /// The crawl has come to its end.
    Finished,
}

impl From<CrawlerState> for CrawlerReport {
    fn from(value: CrawlerState) -> (report: CrawlerReport) {
        CrawlerReport::Report(value)
    }
}

impl vstd::std_specs::convert::FromSpecImpl<CrawlerState> for CrawlerReport {
    open spec fn obeys_from_spec() -> bool {
        true
    }

    open spec fn from_spec(value: CrawlerState) -> CrawlerReport {
        CrawlerReport::Report(value)
    }
}

/// The table after each of `links` was registered at `depth`, one after the
/// other.
pub open spec fn registered_all(rows: Seq<Row>, links: Seq<LinkView>, depth: u16) -> Seq<Row>
    decreases links.len(),
{
    if links.len() == 0 {
        rows
    } else {
        registered(
            registered_all(rows, links.drop_last(), depth),
            links.last().0,
            links.last().1,
            depth,
        )
    }
}

/// Registering links only adds rows, and every row it adds is a page that is
/// not downloaded, at the depth that was asked for. So a link found on a page
/// at depth `d`, registered at `d + 1`, stands at `d + 1` whatever the order
/// in which links were found.
pub proof fn lemma_registered_all(rows: Seq<Row>, links: Seq<LinkView>, depth: u16)
    requires
        table_wf(rows),
        rows.len() + links.len() < i64::MAX,
    ensures
        table_wf(registered_all(rows, links, depth)),
        rows.len() <= registered_all(rows, links, depth).len() <= rows.len() + links.len(),
        forall|i: int|
            0 <= i < rows.len() ==> registered_all(rows, links, depth)[i] == rows[i],
        forall|i: int|
            rows.len() <= i < registered_all(rows, links, depth).len() ==> {
                &&& (#[trigger] registered_all(rows, links, depth)[i]).page.depth == depth
                &&& registered_all(rows, links, depth)[i].is_pending()
                &&& registered_all(rows, links, depth)[i].content is None
            },
    decreases links.len(),
{
    if links.len() > 0 {
        lemma_registered_all(rows, links.drop_last(), depth);
        let front = registered_all(rows, links.drop_last(), depth);
        crate::storage::lemma_registered_wf(front, links.last().0, links.last().1, depth);
    }
}

/// Registers the links found on `page`, one level deeper than the page, and
/// counts those that were new to the store.
pub fn navigate_page(
    page: &Page,
    links: Vec<(String, PageTypeId)>,
    storage: &mut Storage,
    state: &mut CrawlerState,
)
    requires
        old(storage).wf(),
        links@.len() > 0 ==> page.depth < u16::MAX,
        old(storage)@.len() + links@.len() < i64::MAX,
        old(state).new_links_found + links@.len() <= u32::MAX,
    ensures
        final(storage).wf(),
        links@.len() > 0 ==> final(storage)@ == registered_all(
            old(storage)@,
            crate::parsers::link_views(links@),
            (page.depth + 1) as u16,
        ),
        links@.len() == 0 ==> final(storage)@ == old(storage)@,
        final(state).new_links_found == old(state).new_links_found + final(storage)@.len() - old(
            storage,
        )@.len(),
        final(state).requests == old(state).requests,
        final(state).successfull_requests == old(state).successfull_requests,
        final(state).requests_in_flight == old(state).requests_in_flight,
        final(state).proxies == old(state).proxies,
{
    if links.len() == 0 {
        return ;
    }
    let depth = page.depth + 1;
    let ghost all = crate::parsers::link_views(links@);
    let mut links = links;
    let mut done: usize = 0;
    let total = links.len();
    let ghost given = links@;
    proof {
        assert(all.take(0) =~= Seq::<LinkView>::empty());
    }
    while links.len() > 0
        invariant
            storage.wf(),
            total == given.len(),
            all == crate::parsers::link_views(given),
            done + links@.len() == total,
            links@ == given.skip(done as int),
            old(storage)@.len() + total < i64::MAX,
            old(state).new_links_found + total <= u32::MAX,
            storage@ == registered_all(old(storage)@, all.take(done as int), depth),
            old(storage)@.len() <= storage@.len() <= old(storage)@.len() + done,
            state.new_links_found == old(state).new_links_found + storage@.len() - old(
                storage,
            )@.len(),
            state.requests == old(state).requests,
            state.successfull_requests == old(state).successfull_requests,
            state.requests_in_flight == old(state).requests_in_flight,
            state.proxies == old(state).proxies,
        decreases links@.len(),
    {
        let (link, type_id) = links.remove(0);
        proof {
            assert(all.take(done + 1).drop_last() == all.take(done as int));
            assert(all.take(done + 1).last() == (link@, type_id));
            assert(links@ =~= given.skip(done + 1));
        }
        let page_id = storage.register_url(link, type_id, depth);
        if page_id.is_some() {
            state.new_links_found = state.new_links_found + 1;
        }
        done = done + 1;
    }
    proof {
        assert(all.take(total as int) == all);
    }
}

/// How a fetch ended, as far as the dispatcher has to know.
pub enum Fetched {
    /// The transport failed: no content came back.
    Failed,
    /// Content came back and the parser of the page found it invalid.
    Invalid,
    /// Content came back and is valid. `links` are the absolute links that
    /// lead on from it; none where navigation is off.
    Valid { content: String, links: Vec<(String, PageTypeId)> },
}

/// The end of a fetch as the contracts see it.
pub enum FetchedView {
    Failed,
    Invalid,
    Valid { content: Seq<char>, links: Seq<LinkView> },
}

impl View for Fetched {
    type V = FetchedView;

    open spec fn view(&self) -> FetchedView {
        match self {
            Fetched::Failed => FetchedView::Failed,
            Fetched::Invalid => FetchedView::Invalid,
            Fetched::Valid { content, links } => FetchedView::Valid {
                content: content@,
                links: crate::parsers::link_views(links@),
            },
        }
    }
}

/// What the dispatcher makes of a fetch for which the parser has been
/// consulted. `valid` is the parser's verdict on the content. `navigation` is
/// what it said of the links, already made absolute, and `None` where it was
/// not asked.
///
/// A parser that failed to navigate counts as one that found no links; the
/// failure is handed back beside the result, to be logged.
pub fn assessed(
    content: String,
    valid: bool,
    navigation: Option<Result<Option<Vec<(String, PageTypeId)>>, AppError>>,
) -> (outcome: (Fetched, Option<AppError>))
    ensures
        !valid ==> outcome.0@ == FetchedView::Invalid && outcome.1 is None,
        valid ==> match navigation {
            Some(Ok(Some(links))) => outcome.0@ == (FetchedView::Valid {
                content: content@,
                links: crate::parsers::link_views(links@),
            }) && outcome.1 is None,
            Some(Ok(None)) | None => outcome.0@ == (FetchedView::Valid {
                content: content@,
                links: Seq::empty(),
            }) && outcome.1 is None,
            Some(Err(e)) => outcome.0@ == (FetchedView::Valid {
                content: content@,
                links: Seq::empty(),
            }) && outcome.1 == Some(e),
        },
{
    if !valid {
        return (Fetched::Invalid, None);
    }
    match navigation {
        Some(Ok(Some(links))) => (Fetched::Valid { content, links }, None),
        Some(Ok(None)) => {
            let links: Vec<(String, PageTypeId)> = Vec::new();
            assert(crate::parsers::link_views(links@) =~= Seq::<LinkView>::empty());
            (Fetched::Valid { content, links }, None)
        },
        None => {
            let links: Vec<(String, PageTypeId)> = Vec::new();
            assert(crate::parsers::link_views(links@) =~= Seq::<LinkView>::empty());
            (Fetched::Valid { content, links }, None)
        },
        Some(Err(e)) => {
            let links: Vec<(String, PageTypeId)> = Vec::new();
            assert(crate::parsers::link_views(links@) =~= Seq::<LinkView>::empty());
            (Fetched::Valid { content, links }, Some(e))
        },
    }
}

/// Consults the parser of `page` about what a fetch brought back.
///
/// A fetch without content has failed. Content that the parser finds invalid
/// is invalid. For valid content the parser is asked for the links that lead
/// on, if `navigate` is set. A parser that fails to validate fails the whole
/// assessment; one that fails to navigate found no links, and its failure
/// comes back beside the result.
pub fn assess(parsers: &PageParsers, page: &Page, response: Option<String>, navigate: bool) -> (outcome:
    Result<(Fetched, Option<AppError>), AppError>)
    ensures
        response is None ==> (outcome matches Ok(o) && o.0@ == FetchedView::Failed && o.1 is None),
        response is Some && parsers.0@.len() == 0 ==> outcome == Err::<
            (Fetched, Option<AppError>),
            AppError,
        >(AppError::PageParserNotFound(page.type_id)),
        response is Some ==> {
            ||| outcome == Err::<(Fetched, Option<AppError>), AppError>(
                AppError::PageParserNotFound(page.type_id),
            )
            ||| outcome == Err::<(Fetched, Option<AppError>), AppError>(
                AppError::PageParserFailed(page.type_id),
            )
            ||| (outcome matches Ok(o) && o.0@ == FetchedView::Invalid && o.1 is None)
            ||| {
                &&& outcome matches Ok(o)
                &&& o.0@ matches FetchedView::Valid { content, links }
                &&& content == response->0@
                &&& !navigate ==> links.len() == 0 && o.1 is None
                &&& o.1 is Some ==> links.len() == 0
            }
        },
{
    let content = match response {
        Some(content) => content,
        None => {
            return Ok((Fetched::Failed, None));
        },
    };
    let valid = match parsers.validate(page.type_id, content.as_str()) {
        Ok(valid) => valid,
        Err(e) => {
            return Err(e);
        },
    };
    let navigation = if valid && navigate {
        Some(parsers.navigate(page, content.as_str()))
    } else {
        None
    };
    Ok(assessed(content, valid, navigation))
}

/// What the end of a fetch came to.
pub struct Completion {
    /// The fetch brought valid content.
    pub success: bool,
    /// The proxy of the fetch has just been found dead.
    pub proxy_found_dead: bool,
}

/// No page is in flight twice.
proof fn lemma_in_flight_distinct(d: DispatcherView)
    requires
        d.wf(),
    ensures
        d.in_flight.no_duplicates(),
{
    let held = d.pending + d.in_flight;
    assert forall|i: int, j: int|
        0 <= i < d.in_flight.len() && 0 <= j < d.in_flight.len() && i != j implies d.in_flight[i]
        != d.in_flight[j] by {
        assert(held[d.pending.len() + i] == d.in_flight[i]);
        assert(held[d.pending.len() + j] == d.in_flight[j]);
    }
}

/// What the dispatcher asks its driver to do next.
pub enum Action {
    /// Fetch `page`, through `proxy` if there is one.
    Launch { page: Page, proxy: Option<(String, ProxyId)> },
    /// Wait for one of the fetches in flight to end and report it.
    Wait,
    /// The crawl is complete: nothing is pending and nothing is in flight.
    Finish,
}

/// The dispatcher as the contracts see it.
pub struct DispatcherView {
    /// How many fetches may be in flight at once.
    pub threads: nat,
    /// The pages taken from the store and not launched yet, next first.
    pub pending: Seq<PageView>,
    /// The pages whose fetch is under way.
    pub in_flight: Seq<PageView>,
    /// Number of fetches launched.
    pub requests: nat,
    /// Number of fetches that brought valid content.
    pub successful_requests: nat,
    /// Number of links that were new to the store.
    pub new_links_found: nat,
    /// The proxies with their counters.
    pub proxies: Seq<ProxyRecord>,
}

/// The proxies after the end of a fetch through `proxy_id` was reported.
pub open spec fn reported(proxies: Seq<ProxyRecord>, proxy_id: Option<ProxyId>, success: bool) -> Seq<
    ProxyRecord,
> {
    match proxy_id {
        Some(id) => if id < proxies.len() {
            proxies.update(
                id as int,
                if success {
                    proxies[id as int].succeeded()
                } else {
                    proxies[id as int].failed()
                },
            )
        } else {
            proxies
        },
        None => proxies,
    }
}

/// Whether the report of a fetch through `proxy_id` is the one that makes the
/// proxy dead: a failure that brings a proxy that was not dead down to `-2`.
pub open spec fn found_dead(proxies: Seq<ProxyRecord>, proxy_id: Option<ProxyId>, success: bool) -> bool {
    match proxy_id {
        Some(id) => !success && id < proxies.len() && !proxies[id as int].is_dead()
            && proxies[id as int].failed().is_dead(),
        None => false,
    }
}

/// The store after the fetch of `page` ended with `fetched`: valid content is
/// written and the links that lead on are registered one level deeper;
/// anything else leaves the store alone.
pub open spec fn stored(rows: Seq<Row>, page: PageView, fetched: FetchedView) -> Seq<Row> {
    match fetched {
        FetchedView::Valid { content, links } => if links.len() > 0 {
            registered_all(written(rows, page.id, content), links, (page.depth + 1) as u16)
        } else {
            written(rows, page.id, content)
        },
        _ => rows,
    }
}

impl DispatcherView {
    /// What always holds of a dispatcher: no page is held twice, neither
    /// pending nor in flight; what has succeeded or been reported for a proxy
    /// was launched before and is not in flight any more.
    pub open spec fn wf(self) -> bool {
        &&& (self.pending + self.in_flight).no_duplicates()
        &&& self.successful_requests + self.in_flight.len() <= self.requests
        &&& forall|i: int|
            0 <= i < self.proxies.len() ==> {
                &&& (#[trigger] self.proxies[i]).wf()
                &&& self.proxies[i].requests + self.in_flight.len() <= self.requests
                &&& self.proxies[i].successful_requests <= self.proxies[i].requests
            }
    }

    /// Nothing is pending and nothing in flight: time to ask the store.
    pub open spec fn needs_refill(self) -> bool {
        self.pending.len() == 0 && self.in_flight.len() == 0
    }

    /// A page is pending and a fetch slot is free.
    pub open spec fn can_launch(self) -> bool {
        self.in_flight.len() < self.threads && self.pending.len() > 0
    }

    /// The dispatcher with `batch` as its pending pages.
    pub open spec fn refilled(self, batch: Seq<PageView>) -> DispatcherView {
        DispatcherView { pending: batch, ..self }
    }

    /// The dispatcher after its first pending page was launched.
    pub open spec fn launched(self) -> DispatcherView {
        DispatcherView {
            pending: self.pending.skip(1),
            in_flight: self.in_flight.push(self.pending[0]),
            requests: self.requests + 1,
            ..self
        }
    }

    /// The dispatcher after the fetch of `page` through `proxy_id` ended.
    /// `new_links` is the number of links that were new to the store.
    pub open spec fn completed(
        self,
        proxy_id: Option<ProxyId>,
        page: PageView,
        success: bool,
        new_links: nat,
    ) -> DispatcherView {
        DispatcherView {
            in_flight: self.in_flight.remove(self.in_flight.index_of(page)),
            successful_requests: self.successful_requests + if success {
                1nat
            } else {
                0nat
            },
            new_links_found: self.new_links_found + new_links,
            proxies: reported(self.proxies, proxy_id, success),
            ..self
        }
    }
}

/// The scheduling core of a crawl.
pub struct Dispatcher {
    threads: usize,
    pages: Vec<Page>,
    state: CrawlerState,
    proxies: Proxies,
}

impl View for Dispatcher {
    type V = DispatcherView;

    closed spec fn view(&self) -> DispatcherView {
        DispatcherView {
            threads: self.threads as nat,
            pending: page_views(self.pages@),
            in_flight: page_views(self.state.requests_in_flight@),
            requests: self.state.requests as nat,
            successful_requests: self.state.successfull_requests as nat,
            new_links_found: self.state.new_links_found as nat,
            proxies: self.proxies@,
        }
    }
}

impl Dispatcher {
    /// What always holds of a dispatcher.
    pub closed spec fn wf(&self) -> bool {
        &&& self@.wf()
        &&& self.proxies.wf()
    }

    /// A dispatcher that keeps at most `threads` fetches in flight and sends
    /// them through the proxies listed in `proxy_list`, one per line.
    pub fn new(threads: usize, proxy_list: &Vec<String>) -> (dispatcher: Dispatcher)
        ensures
            dispatcher.wf(),
            dispatcher@ == (DispatcherView {
                threads: threads as nat,
                pending: Seq::empty(),
                in_flight: Seq::empty(),
                requests: 0,
                successful_requests: 0,
                new_links_found: 0,
                proxies: crate::proxy::fresh_pool(crate::proxy::trimmed_lines(proxy_list@)),
            }),
    {
        let proxies = Proxies::from_lines(proxy_list);
        let dispatcher = Dispatcher {
            threads,
            pages: Vec::new(),
            state: CrawlerState::default(),
            proxies,
        };
        proof {
            crate::proxy::lemma_fresh_pool(crate::proxy::trimmed_lines(proxy_list@));
            assert(dispatcher@.pending =~= Seq::<PageView>::empty());
            assert(dispatcher@.in_flight =~= Seq::<PageView>::empty());
            assert((dispatcher@.pending + dispatcher@.in_flight) =~= Seq::<PageView>::empty());
        }
        dispatcher
    }

    /// Number of fetches launched so far.
    pub fn requests(&self) -> (count: u32)
        ensures
            count == self@.requests,
    {
        self.state.requests
    }

    /// Number of links found so far that were new to the store.
    pub fn new_links_found(&self) -> (count: u32)
        ensures
            count == self@.new_links_found,
    {
        self.state.new_links_found
    }

    /// Whether the fetch of `page` is under way.
    pub fn is_in_flight(&self, page: &Page) -> (yes: bool)
        ensures
            yes == self@.in_flight.contains(page@),
    {
        self.position_in_flight(page).is_some()
    }

    fn position_in_flight(&self, page: &Page) -> (at: Option<usize>)
        ensures
            match at {
                Some(i) => i < self@.in_flight.len() && self@.in_flight[i as int] == page@,
                None => !self@.in_flight.contains(page@),
            },
    {
        let mut i: usize = 0;
        while i < self.state.requests_in_flight.len()
            invariant
                i <= self.state.requests_in_flight@.len(),
                forall|k: int| 0 <= k < i ==> self@.in_flight[k] != page@,
            decreases self.state.requests_in_flight@.len() - i,
        {
            if self.state.requests_in_flight[i].same_as(page) {
                return Some(i);
            }
            i += 1;
        }
        None
    }

    /// Decides what to do next.
    ///
    /// With nothing pending and nothing in flight the dispatcher first takes
    /// up to [`BATCH`] pages that are not downloaded from the store; if there
    /// are none, the crawl is finished. While a fetch slot is free and a page
    /// is pending, the first pending page is launched: it is counted as a
    /// request and as in flight at once, and a proxy is picked for it.
    /// Otherwise the driver has to wait for a fetch to end.
    pub fn next_action(&mut self, storage: &Storage) -> (action: Action)
        requires
            old(self).wf(),
            storage.wf(),
            old(self)@.requests < u32::MAX,
        ensures
            final(self).wf(),
            ({
                let before = old(self)@;
                let offered = match action {
                    Action::Launch { page, .. } => seq![page@] + final(self)@.pending,
                    _ => final(self)@.pending,
                };
                let ready = before.refilled(offered);
                &&& before.needs_refill() ==> is_pending_batch(storage@, BATCH as nat, offered)
                &&& !before.needs_refill() ==> offered == before.pending
                &&& match action {
                    Action::Finish => {
                        &&& before.needs_refill()
                        &&& offered.len() == 0
                        &&& final(self)@ == ready
                    },
                    Action::Launch { page, proxy } => {
                        &&& ready.can_launch()
                        &&& final(self)@ == ready.launched()
                        &&& proxy is None <==> before.proxies.len() == 0
                        &&& proxy matches Some((endpoint, id)) ==> {
                            &&& id < before.proxies.len()
                            &&& endpoint@ == before.proxies[id as int].endpoint
                            &&& (exists|other: int|
                                0 <= other < before.proxies.len() && !(
                                #[trigger] before.proxies[other]).is_dead())
                                ==> !before.proxies[id as int].is_dead()
                        }
                    },
                    Action::Wait => {
                        &&& !ready.can_launch()
                        &&& !(before.needs_refill() && offered.len() == 0)
                        &&& final(self)@ == ready
                    },
                }
            }),
    {
        if self.pages.len() == 0 && self.state.requests_in_flight.len() == 0 {
            self.pages = storage.list_not_downloaded_pages(BATCH);
            proof {
                let batch = page_views(self.pages@);
                assert((batch + self@.in_flight) =~= batch);
                assert forall|i: int, j: int|
                    0 <= i < batch.len() && 0 <= j < batch.len() && i != j implies batch[i]
                    != batch[j] by {
                    if i < j {
                        assert(crate::storage::before(batch[i], batch[j]));
                    } else {
                        assert(crate::storage::before(batch[j], batch[i]));
                    }
                }
            }
            if self.pages.len() == 0 {
                return Action::Finish;
            }
        }
        let ghost ready = self@;
        if self.state.requests_in_flight.len() < self.threads && self.pages.len() > 0 {
            let page = self.pages.remove(0);
            let proxy = self.proxies.next();
            self.state.requests = self.state.requests + 1;
            self.state.requests_in_flight.push(page.clone());
            proof {
                let now = self@;
                assert(now.pending =~= ready.pending.skip(1));
                assert(now.in_flight =~= ready.in_flight.push(ready.pending[0]));
                assert(ready.pending =~= seq![page@] + now.pending);
                assert(now.requests == ready.requests + 1);
                assert(now.successful_requests == ready.successful_requests);
                assert(now.proxies == ready.proxies);
                assert(now == ready.launched());
                assert(ready.wf());
                assert(now.successful_requests + now.in_flight.len() <= now.requests);
                assert forall|i: int| 0 <= i < now.proxies.len() implies {
                    &&& (#[trigger] now.proxies[i]).wf()
                    &&& now.proxies[i].requests + now.in_flight.len() <= now.requests
                    &&& now.proxies[i].successful_requests <= now.proxies[i].requests
                } by {
                    assert(ready.proxies[i].wf());
                }
                let held_before = ready.pending + ready.in_flight;
                let held = now.pending + now.in_flight;
                assert forall|i: int, j: int|
                    0 <= i < held.len() && 0 <= j < held.len() && i != j implies held[i]
                    != held[j] by {
                    let from = |k: int|
                        if k < now.pending.len() {
                            k + 1
                        } else if k < held.len() - 1 {
                            k + 1
                        } else {
                            0int
                        };
                    assert(held[i] == held_before[from(i)]);
                    assert(held[j] == held_before[from(j)]);
                }
            }
            return Action::Launch { page, proxy };
        }
        Action::Wait
    }

    /// Takes note of how the fetch of `page` through `proxy_id` ended.
    ///
    /// The page is in flight no more. Valid content is counted as a success
    /// and written to the store, which marks the page as downloaded; the
    /// links that lead on are registered one level deeper than the page, and
    /// those that are new are counted. A failed fetch and invalid content
    /// leave the page as it is, to be fetched again. The proxy, if one was
    /// used, is told of the success or the failure.
    pub fn complete(
        &mut self,
        storage: &mut Storage,
        proxy_id: Option<ProxyId>,
        page: &Page,
        fetched: Fetched,
    ) -> (done: Completion)
        requires
            old(self).wf(),
            old(storage).wf(),
            old(self)@.in_flight.contains(page@),
            fetched@ matches FetchedView::Valid { content, links } ==> {
                &&& links.len() > 0 ==> page.depth < u16::MAX
                &&& old(storage)@.len() + links.len() < i64::MAX
                &&& old(self)@.new_links_found + links.len() <= u32::MAX
            },
        ensures
            final(self).wf(),
            final(storage).wf(),
            done.success == (fetched@ is Valid),
            done.proxy_found_dead == found_dead(old(self)@.proxies, proxy_id, done.success),
            final(storage)@ == stored(old(storage)@, page@, fetched@),
            final(storage)@.len() >= old(storage)@.len(),
            final(self)@ == old(self)@.completed(
                proxy_id,
                page@,
                done.success,
                (final(storage)@.len() - old(storage)@.len()) as nat,
            ),
    {
        let ghost before = self@;
        let at = match self.position_in_flight(page) {
            Some(at) => at,
            None => {
                return Completion { success: false, proxy_found_dead: false };
            },
        };
        proof {
            lemma_in_flight_distinct(before);
            assert(before.in_flight.index_of(page@) == at);
        }
        self.state.requests_in_flight.remove(at);
        assert(self@.in_flight =~= before.in_flight.remove(at as int));
        let success = match fetched {
            Fetched::Valid { content, links } => {
                self.state.successfull_requests = self.state.successfull_requests + 1;
                storage.write_page_content(page.id, content.as_str());
                let ghost rows = storage@;
                assert(rows.len() == old(storage)@.len());
                proof {
                    if links@.len() > 0 {
                        lemma_registered_all(
                            rows,
                            crate::parsers::link_views(links@),
                            (page.depth + 1) as u16,
                        );
                    }
                }
                navigate_page(page, links, storage, &mut self.state);
                true
            },
            _ => false,
        };
        proof {
            assert(self.proxies@ == before.proxies);
            assert(before.in_flight.len() >= 1);
            match proxy_id {
                Some(id) => {
                    if id < before.proxies.len() {
                        assert(before.proxies[id as int].wf());
                    }
                },
                None => {},
            }
        }
        let proxy_found_dead = match proxy_id {
            Some(id) => {
                if success {
                    self.proxies.proxy_succeseed(id);
                    false
                } else {
                    self.proxies.proxy_failed(id)
                }
            },
            None => false,
        };
        proof {
            let now = self@;
            let new_links = (storage@.len() - old(storage)@.len()) as nat;
            assert(now.proxies =~= reported(before.proxies, proxy_id, success));
            let want = before.completed(proxy_id, page@, success, new_links);
            assert(now.in_flight =~= want.in_flight);
            assert(now.pending =~= want.pending);
            assert(now.successful_requests == want.successful_requests);
            assert(now.new_links_found == want.new_links_found);
            assert(now.requests == want.requests);
            assert(now.threads == want.threads);
            assert(now == want);
            let held_before = before.pending + before.in_flight;
            let held = now.pending + now.in_flight;
            assert forall|i: int, j: int|
                0 <= i < held.len() && 0 <= j < held.len() && i != j implies held[i]
                != held[j] by {
                let from = |k: int|
                    if k < before.pending.len() + at {
                        k
                    } else {
                        k + 1
                    };
                assert(held[i] == held_before[from(i)]);
                assert(held[j] == held_before[from(j)]);
            }
        }
        Completion { success, proxy_found_dead }
    }

    /// A summary of the crawl as it stands, with a fresh copy of the proxy
    /// counters.
    pub fn snapshot(&self) -> (state: CrawlerState)
        ensures
            state.requests == self@.requests,
            state.successfull_requests == self@.successful_requests,
            state.new_links_found == self@.new_links_found,
            page_views(state.requests_in_flight@) == self@.in_flight,
            state.proxies@.len() == self@.proxies.len(),
            forall|i: int|
                0 <= i < state.proxies@.len() ==> (#[trigger] state.proxies@[i]).1.record(
                    state.proxies@[i].0@,
                ) == self@.proxies[i],
    {
        let mut in_flight: Vec<Page> = Vec::new();
        let mut i: usize = 0;
        while i < self.state.requests_in_flight.len()
            invariant
                i <= self.state.requests_in_flight@.len(),
                in_flight@.len() == i,
                forall|k: int| 0 <= k < i ==> (#[trigger] in_flight@[k])@ == self@.in_flight[k],
            decreases self.state.requests_in_flight@.len() - i,
        {
            in_flight.push(self.state.requests_in_flight[i].clone());
            i += 1;
        }
        proof {
            assert(page_views(in_flight@) =~= self@.in_flight);
        }
        CrawlerState {
            requests: self.state.requests,
            successfull_requests: self.state.successfull_requests,
            new_links_found: self.state.new_links_found,
            requests_in_flight: in_flight,
            proxies: self.proxies.stat(),
        }
    }
}

} // verus!
