//! The pool of proxies through which pages are fetched.
//!
//! Every proxy carries a health score between `-2` and `2`. A request that
//! went well raises it, one that failed lowers it, and a proxy whose score
//! has reached `-2` counts as dead. Dead proxies are only picked when no
//! other is left.

use crate::counter::{clamp, CounterState, SaturatedI8};
use crate::text::{trim, trimmed};
use rand::rngs::ThreadRng;
use rand::seq::SliceRandom;
use vstd::prelude::*;

verus! {

type AliveCounter = SaturatedI8<2, 2>;

/// The position of a proxy in its pool.
pub type ProxyId = usize;

/// The health score of a dead proxy.
pub const DEAD: i8 = -2;

/// One proxy as the contracts see it.
pub struct ProxyRecord {
    /// The URI of the proxy.
    pub endpoint: Seq<char>,
    /// Requests that were attempted through the proxy.
    pub requests: nat,
    /// Requests that went well.
    pub successful_requests: nat,
    /// The health score, between `-2` and `2`.
    pub health: int,
}

impl ProxyRecord {
    /// A proxy nothing was sent through yet.
    pub open spec fn fresh(endpoint: Seq<char>) -> ProxyRecord {
        ProxyRecord { endpoint, requests: 0, successful_requests: 0, health: 0 }
    }

    /// The health score is in its range.
    pub open spec fn wf(self) -> bool {
        -2 <= self.health <= 2
    }

    /// The proxy has failed so often that it is avoided.
    pub open spec fn is_dead(self) -> bool {
        self.health == DEAD
    }

    /// The record after one more request that went well.
    pub open spec fn succeeded(self) -> ProxyRecord {
        ProxyRecord {
            endpoint: self.endpoint,
            requests: self.requests + 1,
            successful_requests: self.successful_requests + 1,
            health: clamp(self.health + 1, -2, 2),
        }
    }

    /// The record after one more request that failed.
    pub open spec fn failed(self) -> ProxyRecord {
        ProxyRecord {
            endpoint: self.endpoint,
            requests: self.requests + 1,
            successful_requests: self.successful_requests,
            health: clamp(self.health - 1, -2, 2),
        }
    }

    /// The record after a run of requests, `true` for each that went well.
    pub open spec fn after(self, outcomes: Seq<bool>) -> ProxyRecord
        decreases outcomes.len(),
    {
        if outcomes.len() == 0 {
            self
        } else if outcomes.last() {
            self.after(outcomes.drop_last()).succeeded()
        } else {
            self.after(outcomes.drop_last()).failed()
        }
    }
}

/// Whatever requests went well or failed, the health of a proxy stays
/// between `-2` and `2`.
pub proof fn lemma_health_stays_in_range(proxy: ProxyRecord, outcomes: Seq<bool>)
    requires
        proxy.wf(),
    ensures
        proxy.after(outcomes).wf(),
        proxy.after(outcomes).requests == proxy.requests + outcomes.len(),
    decreases outcomes.len(),
{
    if outcomes.len() > 0 {
        lemma_health_stays_in_range(proxy, outcomes.drop_last());
    }
}

/// A run of failures brings the health of a proxy down to exactly `-2`: at
/// the latest with the fourth failure in a row, and there it stays.
pub proof fn lemma_failures_end_dead(proxy: ProxyRecord, outcomes: Seq<bool>)
    requires
        proxy.wf(),
        forall|i: int| 0 <= i < outcomes.len() ==> !outcomes[i],
    ensures
        proxy.after(outcomes).health == clamp(proxy.health - outcomes.len(), -2, 2),
        outcomes.len() >= 4 ==> proxy.after(outcomes).is_dead(),
    decreases outcomes.len(),
{
    if outcomes.len() > 0 {
        lemma_failures_end_dead(proxy, outcomes.drop_last());
    }
}

/// A run of successes brings the health of a proxy up to exactly `2`: at
/// the latest with the fourth success in a row, and there it stays.
pub proof fn lemma_successes_end_healthy(proxy: ProxyRecord, outcomes: Seq<bool>)
    requires
        proxy.wf(),
        forall|i: int| 0 <= i < outcomes.len() ==> outcomes[i],
    ensures
        proxy.after(outcomes).health == clamp(proxy.health + outcomes.len(), -2, 2),
        outcomes.len() >= 4 ==> proxy.after(outcomes).health == 2,
    decreases outcomes.len(),
{
    if outcomes.len() > 0 {
        lemma_successes_end_healthy(proxy, outcomes.drop_last());
    }
}

/// What is counted for one proxy.
#[derive(Debug, Clone, Copy)]
pub struct ProxyStat {
    /// Number of requests attempted via the proxy.
    pub requests: u32,
    /// Number of requests executed successfully via the proxy.
    pub successfull_requests: u32,
    alive_counter: AliveCounter,
}

impl ProxyStat {
    /// The health score of the proxy.
    pub closed spec fn health(&self) -> int {
        self.alive_counter.value()
    }

    /// The health score is in its range.
    pub closed spec fn wf(&self) -> bool {
        -2 <= self.health() <= 2
    }

    /// The counters as a record of the proxy at `endpoint`.
    pub closed spec fn record(&self, endpoint: Seq<char>) -> ProxyRecord {
        ProxyRecord {
            endpoint,
            requests: self.requests as nat,
            successful_requests: self.successfull_requests as nat,
            health: self.health(),
        }
    }

    /// Counters of a proxy nothing was sent through yet.
    pub fn new() -> (s: ProxyStat)
        ensures
            s.wf(),
            forall|endpoint: Seq<char>| #[trigger] s.record(endpoint) == ProxyRecord::fresh(endpoint),
    {
        ProxyStat { requests: 0, successfull_requests: 0, alive_counter: AliveCounter::new() }
    }

    /// Whether the proxy counts as dead.
    pub fn is_dead(&self) -> (dead: bool)
        ensures
            dead == (self.health() == DEAD),
    {
        self.alive_counter.state() == CounterState::SaturatedDown
    }
}

impl Default for ProxyStat {
    fn default() -> (s: ProxyStat)
        ensures
            s.wf(),
            forall|endpoint: Seq<char>| #[trigger] s.record(endpoint) == ProxyRecord::fresh(endpoint),
    {
        ProxyStat::new()
    }
}

/// A list of proxies with their counters.
///
/// Tracks which proxies are alive and which are dead. Each proxy gets a
/// saturated counter in the range `-2..=2`, raised after a request that went
/// well and lowered after one that failed. A dead proxy is one whose counter
/// stands at `-2`.
pub struct Proxies {
    proxies: Vec<(String, ProxyStat)>,
    rng: ThreadRng,
}

/// `rand::rngs::ThreadRng`, the random number generator that the pool
/// carries. Nothing is known of what is inside.
#[verifier::external_type_specification]
#[verifier::external_body]
pub struct ExThreadRng(ThreadRng);

/// `rand::thread_rng`: the random number generator of the calling thread.
/// Nothing is claimed of what it will produce.
#[verifier::external_body]
fn thread_generator() -> ThreadRng {
    rand::thread_rng()
}

/// `SliceRandom::choose` of rand on a slice of proxy ids. It hands back one
/// of the slice's items, chosen at random, and `None` only for an empty
/// slice. Which item comes back is not claimed.
#[verifier::external_body]
fn pick_one(candidates: &Vec<ProxyId>, rng: &mut ThreadRng) -> (picked: Option<ProxyId>)
    ensures
        match picked {
            Some(id) => candidates@.contains(id),
            None => candidates@.len() == 0,
        },
{
    candidates.choose(rng).copied()
}

/// The proxies that a list of endpoints stands for: one fresh proxy for each
/// endpoint that is not empty, in the order of the list.
pub open spec fn fresh_pool(endpoints: Seq<Seq<char>>) -> Seq<ProxyRecord>
    decreases endpoints.len(),
{
    if endpoints.len() == 0 {
        Seq::empty()
    } else if endpoints.last().len() == 0 {
        fresh_pool(endpoints.drop_last())
    } else {
        fresh_pool(endpoints.drop_last()).push(ProxyRecord::fresh(endpoints.last()))
    }
}

/// Fresh proxies are in good health and have counted nothing.
pub proof fn lemma_fresh_pool(endpoints: Seq<Seq<char>>)
    ensures
        forall|i: int|
            0 <= i < fresh_pool(endpoints).len() ==> {
                &&& (#[trigger] fresh_pool(endpoints)[i]).wf()
                &&& fresh_pool(endpoints)[i].requests == 0
                &&& fresh_pool(endpoints)[i].successful_requests == 0
                &&& !fresh_pool(endpoints)[i].is_dead()
            },
    decreases endpoints.len(),
{
    if endpoints.len() > 0 {
        lemma_fresh_pool(endpoints.drop_last());
        let front = fresh_pool(endpoints.drop_last());
        let pool = fresh_pool(endpoints);
        assert forall|i: int| 0 <= i < pool.len() implies {
            &&& (#[trigger] pool[i]).wf()
            &&& pool[i].requests == 0
            &&& pool[i].successful_requests == 0
            &&& !pool[i].is_dead()
        } by {
            if i < front.len() {
                assert(pool[i] == front[i]);
            } else {
                assert(pool[i] == ProxyRecord::fresh(endpoints.last()));
            }
        }
    }
}

/// The lines of a proxy list without the white space around them.
pub open spec fn trimmed_lines(lines: Seq<String>) -> Seq<Seq<char>> {
    Seq::new(lines.len(), |i: int| trimmed(lines[i]@))
}

/// The ids of the proxies of `pool` that are not dead, in rising order.
pub open spec fn alive_ids(pool: Seq<ProxyRecord>) -> Seq<ProxyId>
    decreases pool.len(),
{
    if pool.len() == 0 {
        Seq::empty()
    } else if pool.last().is_dead() {
        alive_ids(pool.drop_last())
    } else {
        alive_ids(pool.drop_last()).push((pool.len() - 1) as usize)
    }
}

/// `alive_ids` holds exactly the ids of the proxies that are not dead.
pub proof fn lemma_alive_ids(pool: Seq<ProxyRecord>)
    requires
        pool.len() <= usize::MAX,
    ensures
        forall|id: ProxyId|
            alive_ids(pool).contains(id) <==> (id < pool.len() && !pool[id as int].is_dead()),
    decreases pool.len(),
{
    if pool.len() > 0 {
        let front = pool.drop_last();
        lemma_alive_ids(front);
        let last_id = (pool.len() - 1) as usize;
        assert forall|id: ProxyId|
            alive_ids(pool).contains(id) <==> (id < pool.len() && !pool[id as int].is_dead()) by {
            if pool.last().is_dead() {
                assert(alive_ids(pool) == alive_ids(front));
            } else {
                let ids = alive_ids(front);
                assert(alive_ids(pool) == ids.push(last_id));
                assert(ids.push(last_id)[ids.len() as int] == last_id);
                if ids.push(last_id).contains(id) {
                    let k = choose|k: int| 0 <= k < ids.push(last_id).len() && ids.push(last_id)[k] == id;
                    if k < ids.len() {
                        assert(ids[k] == id);
                    }
                }
                if ids.contains(id) {
                    let k = choose|k: int| 0 <= k < ids.len() && ids[k] == id;
                    assert(ids.push(last_id)[k] == id);
                }
            }
            if id < front.len() {
                assert(front[id as int] == pool[id as int]);
            }
        }
    }
}

impl View for Proxies {
    type V = Seq<ProxyRecord>;

    closed spec fn view(&self) -> Seq<ProxyRecord> {
        Seq::new(self.proxies@.len(), |i: int| self.proxies@[i].1.record(self.proxies@[i].0@))
    }
}

impl Proxies {
    /// Every health score is in its range.
    pub closed spec fn wf(&self) -> bool {
        forall|i: int| 0 <= i < self.proxies@.len() ==> (#[trigger] self.proxies@[i]).1.wf()
    }

    /// A pool without proxies.
    pub fn new() -> (pool: Proxies)
        ensures
            pool.wf(),
            pool@ == Seq::<ProxyRecord>::empty(),
    {
        Proxies { proxies: Vec::new(), rng: thread_generator() }
    }

    /// Adds a fresh proxy at `endpoint`, unless `endpoint` is empty.
    pub fn add(&mut self, endpoint: &str)
        requires
            old(self).wf(),
        ensures
            final(self).wf(),
            final(self)@ == if endpoint@.len() == 0 {
                old(self)@
            } else {
                old(self)@.push(ProxyRecord::fresh(endpoint@))
            },
    {
        if !endpoint.is_empty() {
            self.proxies.push((endpoint.to_owned(), ProxyStat::new()));
        }
    }

    /// Builds the pool from the lines of a proxy list: one proxy per line,
    /// the white space around it removed, blank lines left out.
    pub fn from_lines(lines: &Vec<String>) -> (pool: Proxies)
        ensures
            pool.wf(),
            pool@ == fresh_pool(trimmed_lines(lines@)),
    {
        let mut pool = Proxies::new();
        let mut i: usize = 0;
        while i < lines.len()
            invariant
                i <= lines.len(),
                pool.wf(),
                pool@ == fresh_pool(trimmed_lines(lines@).take(i as int)),
            decreases lines.len() - i,
        {
            let endpoint = trim(lines[i].as_str());
            pool.add(endpoint);
            proof {
                let all = trimmed_lines(lines@);
                assert(all.take(i + 1).drop_last() == all.take(i as int));
                assert(all.take(i + 1).last() == endpoint@);
            }
            i += 1;
        }
        proof {
            let all = trimmed_lines(lines@);
            assert(all.take(lines.len() as int) == all);
        }
        pool
    }

    /// Called when a proxy failed to process a request: counts the request
    /// and lowers the proxy's health. An id outside the pool changes nothing.
    ///
    /// The result tells whether this failure made the proxy dead.
    pub fn proxy_failed(&mut self, proxy_id: ProxyId) -> (found_dead: bool)
        requires
            old(self).wf(),
            proxy_id < old(self)@.len() ==> old(self)@[proxy_id as int].requests < u32::MAX,
        ensures
            final(self).wf(),
            final(self)@ == if proxy_id < old(self)@.len() {
                old(self)@.update(proxy_id as int, old(self)@[proxy_id as int].failed())
            } else {
                old(self)@
            },
            found_dead == (proxy_id < old(self)@.len() && !old(self)@[proxy_id as int].is_dead()
                && old(self)@[proxy_id as int].failed().is_dead()),
    {
        if proxy_id >= self.proxies.len() {
            return false;
        }
        let was_dead = self.proxies[proxy_id].1.is_dead();
        let mut stat = self.proxies[proxy_id].1;
        stat.requests = stat.requests + 1;
        stat.alive_counter.sub_assign(1);
        let is_dead = stat.is_dead();
        self.proxies[proxy_id].1 = stat;
        proof {
            assert(final(self)@ =~= old(self)@.update(
                proxy_id as int,
                old(self)@[proxy_id as int].failed(),
            ));
        }
        !was_dead && is_dead
    }

    /// Called when a proxy processed a request successfully: counts the
    /// request and raises the proxy's health. An id outside the pool changes
    /// nothing.
    pub fn proxy_succeseed(&mut self, proxy_id: ProxyId)
        requires
            old(self).wf(),
            proxy_id < old(self)@.len() ==> old(self)@[proxy_id as int].requests < u32::MAX,
            proxy_id < old(self)@.len() ==> old(self)@[proxy_id as int].successful_requests
                < u32::MAX,
        ensures
            final(self).wf(),
            final(self)@ == if proxy_id < old(self)@.len() {
                old(self)@.update(proxy_id as int, old(self)@[proxy_id as int].succeeded())
            } else {
                old(self)@
            },
    {
        if proxy_id >= self.proxies.len() {
            return ;
        }
        let mut stat = self.proxies[proxy_id].1;
        stat.requests = stat.requests + 1;
        stat.successfull_requests = stat.successfull_requests + 1;
        stat.alive_counter.add_assign(1);
        self.proxies[proxy_id].1 = stat;
        proof {
            assert(final(self)@ =~= old(self)@.update(
                proxy_id as int,
                old(self)@[proxy_id as int].succeeded(),
            ));
        }
    }

    /// A copy of the pool's endpoints and counters, for reporting.
    pub fn stat(&self) -> (copy: Vec<(String, ProxyStat)>)
        ensures
            copy@.len() == self@.len(),
            forall|i: int|
                0 <= i < copy@.len() ==> (#[trigger] copy@[i]).1.record(copy@[i].0@) == self@[i],
    {
        let mut copy: Vec<(String, ProxyStat)> = Vec::new();
        let mut i: usize = 0;
        while i < self.proxies.len()
            invariant
                i <= self.proxies.len(),
                copy@.len() == i,
                forall|k: int|
                    0 <= k < i ==> (#[trigger] copy@[k]).1.record(copy@[k].0@) == self@[k],
            decreases self.proxies.len() - i,
        {
            copy.push((self.proxies[i].0.clone(), self.proxies[i].1));
            i += 1;
        }
        copy
    }

    /// The ids of the proxies that are not dead, in rising order.
    pub fn alive(&self) -> (ids: Vec<ProxyId>)
        ensures
            ids@ == alive_ids(self@),
    {
        let mut ids: Vec<ProxyId> = Vec::new();
        let mut i: usize = 0;
        while i < self.proxies.len()
            invariant
                i <= self.proxies.len(),
                ids@ == alive_ids(self@.take(i as int)),
            decreases self.proxies.len() - i,
        {
            proof {
                assert(self@.take(i + 1).drop_last() == self@.take(i as int));
                assert(self@.take(i + 1).last() == self@[i as int]);
            }
            if !self.proxies[i].1.is_dead() {
                ids.push(i);
            }
            i += 1;
        }
        proof {
            assert(self@.take(self.proxies.len() as int) == self@);
        }
        ids
    }

    /// The ids of all proxies of the pool, in rising order.
    pub fn all(&self) -> (ids: Vec<ProxyId>)
        ensures
            ids@.len() == self@.len(),
            forall|i: int| 0 <= i < ids@.len() ==> ids@[i] == i,
    {
        let mut ids: Vec<ProxyId> = Vec::new();
        let mut i: usize = 0;
        while i < self.proxies.len()
            invariant
                i <= self.proxies.len(),
                ids@.len() == i,
                forall|k: int| 0 <= k < i ==> ids@[k] == k,
            decreases self.proxies.len() - i,
        {
            ids.push(i);
            i += 1;
        }
        ids
    }

    /// The endpoint of the proxy at `proxy_id`, together with the id.
    pub fn get(&self, proxy_id: ProxyId) -> (proxy: (String, ProxyId))
        requires
            proxy_id < self@.len(),
        ensures
            proxy.0@ == self@[proxy_id as int].endpoint,
            proxy.1 == proxy_id,
    {
        (self.proxies[proxy_id].0.clone(), proxy_id)
    }

    /// Returns the next proxy to be used.
    ///
    /// Picks at random among the proxies that are not dead. If all proxies
    /// are dead, picks at random among all of them, so that a pool of dead
    /// proxies keeps being tried. Only an empty pool gives `None`.
    pub fn next(&mut self) -> (proxy: Option<(String, ProxyId)>)
        requires
            old(self).wf(),
        ensures
            final(self).wf(),
            final(self)@ == old(self)@,
            proxy is None <==> old(self)@.len() == 0,
            proxy matches Some((endpoint, id)) ==> {
                &&& id < old(self)@.len()
                &&& endpoint@ == old(self)@[id as int].endpoint
                &&& (exists|other: int|
                    0 <= other < old(self)@.len() && !(#[trigger] old(self)@[other]).is_dead())
                    ==> !old(self)@[id as int].is_dead()
            },
    {
        let not_dead_proxies = self.alive();
        let count = self.proxies.len();
        proof {
            assert(self@.len() == count);
            lemma_alive_ids(self@);
        }
        if let Some(id) = pick_one(&not_dead_proxies, &mut self.rng) {
            return Some(self.get(id));
        }
        // No alive proxies left. Trying again all proxies in the list.
        let all_proxies = self.all();
        proof {
            assert forall|other: int| 0 <= other < self@.len() implies (#[trigger] self@[other]).is_dead() by {
                if !self@[other].is_dead() {
                    assert(alive_ids(self@).contains(other as usize));
                }
            }
        }
        if let Some(id) = pick_one(&all_proxies, &mut self.rng) {
            return Some(self.get(id));
        }
        None
    }

    /// The number of proxies in the pool.
    pub fn len(&self) -> (n: usize)
        ensures
            n == self@.len(),
    {
        self.proxies.len()
    }
}

impl Default for Proxies {
    fn default() -> (pool: Proxies)
        ensures
            pool.wf(),
            pool@ == Seq::<ProxyRecord>::empty(),
    {
        Proxies::new()
    }
}

} // verus!
