//! When upstreams are tried again, and when they are asked for their health.

use crate::config::types::{views, ProxyRoute, ProxyView, ServerConfig, ServerView};
use crate::server::http::{Method, MethodView};
use crate::server::pool::{health_key, state_key};
use crate::server::proxy::{attempts, candidates, candidates_of, retry_attempts};
use crate::text::{same_name, strings};
use vstd::prelude::*;

verus! {

/// How long to wait before a connection is tried again, in milliseconds.
pub const RETRY_PAUSE: u64 = 10;

/// The longest that the checker sleeps without looking whether it is to stop, in
/// milliseconds.
pub const LONGEST_NAP: u64 = 100;

/// The tries that are left for a request.
#[derive(Debug)]
pub struct Retries {
    left: usize,
}

impl View for Retries {
    type V = int;

    closed spec fn view(&self) -> int {
        self.left as int
    }
}

impl Retries {
    /// The tries behind the first one.
    pub fn new(method: &Method) -> (r: Self)
        ensures
            r@ == attempts(method@) - 1,
    {
        Retries { left: retry_attempts(method) - 1 }
    }

    /// A try failed: how long to wait before the next one, in milliseconds, if there is
    /// one.
    pub fn failed(&mut self) -> (r: Option<u64>)
        ensures
            match r {
                Some(pause) => old(self)@ > 0 && pause == RETRY_PAUSE && final(self)@
                    == old(self)@ - 1,
                None => old(self)@ <= 0 && final(self)@ == old(self)@,
            },
    {
        if self.left == 0 {
            return None;
        }
        self.left = self.left - 1;
        Some(RETRY_PAUSE)
    }
}

/// Upstreams are asked on their own where an interval is set and there are routes.
pub open spec fn asks(c: ServerView) -> bool {
    c.upstream_health_interval > 0 && c.proxy_routes.len() > 0
}

/// Whether upstreams are asked on their own.
pub fn checker_needed(config: &ServerConfig) -> (b: bool)
    ensures
        b == asks(config@),
{
    config.upstream_health_interval > 0 && config.proxy_routes.len() > 0
}

/// The upstreams of a route, each behind the key of its health.
pub open spec fn route_checks(r: ProxyView) -> Seq<(Seq<char>, Seq<char>)> {
    let c = candidates(r.upstream);
    Seq::new(c.len(), |i: int| (state_key(r, c[i]), c[i]))
}

/// The upstreams that are asked in one cycle: those of each route, in order.
pub open spec fn cycle(r: Seq<ProxyView>) -> Seq<(Seq<char>, Seq<char>)>
    decreases r.len(),
{
    if r.len() == 0 {
        Seq::empty()
    } else {
        cycle(r.drop_last()) + route_checks(r.last())
    }
}

/// Every upstream of every route is asked in a cycle, under its own key.
pub proof fn law_cycles_ask_every_upstream(r: Seq<ProxyView>, i: int, j: int)
    requires
        0 <= i < r.len(),
        0 <= j < candidates(r[i].upstream).len(),
    ensures
        cycle(r).contains(
            (state_key(r[i], candidates(r[i].upstream)[j]), candidates(r[i].upstream)[j]),
        ),
    decreases r.len(),
{
    let x = (state_key(r[i], candidates(r[i].upstream)[j]), candidates(r[i].upstream)[j]);
    let a = cycle(r.drop_last());
    let b = route_checks(r.last());
    if i == r.len() - 1 {
        assert(b[j] == x);
        assert((a + b)[a.len() + j] == x);
    } else {
        law_cycles_ask_every_upstream(r.drop_last(), i, j);
        let k = choose|k: int| 0 <= k < a.len() && a[k] == x;
        assert((a + b)[k] == x);
    }
}

pub open spec fn check_views(c: Seq<(String, String)>) -> Seq<(Seq<char>, Seq<char>)> {
    Seq::new(c.len(), |i: int| (c[i].0@, c[i].1@))
}

/// The upstreams that are asked in one cycle, each behind the key of its health.
pub fn checks_of(routes: &Vec<ProxyRoute>) -> (r: Vec<(String, String)>)
    ensures
        check_views(r@) == cycle(views(routes@)),
{
    let ghost v = views(routes@);
    let mut out: Vec<(String, String)> = Vec::new();
    let mut i: usize = 0;
    assert(v.subrange(0, 0) =~= Seq::<ProxyView>::empty());
    assert(check_views(out@) =~= Seq::<(Seq<char>, Seq<char>)>::empty());
    while i < routes.len()
        invariant
            v == views(routes@),
            i <= routes@.len(),
            check_views(out@) == cycle(v.subrange(0, i as int)),
        decreases routes@.len() - i,
    {
        assert(v.subrange(0, i + 1).drop_last() =~= v.subrange(0, i as int));
        assert(v.subrange(0, i + 1).last() == routes@[i as int]@);
        let ghost before = check_views(out@);
        let list = candidates_of(&routes[i]);
        let ghost c = candidates(routes@[i as int]@.upstream);
        let ghost all = route_checks(routes@[i as int]@);
        let mut j: usize = 0;
        assert(before + all.subrange(0, 0) =~= before);
        while j < list.len()
            invariant
                i < routes@.len(),
                c == strings(list@),
                c == candidates(routes@[i as int]@.upstream),
                all == route_checks(routes@[i as int]@),
                j <= list@.len(),
                check_views(out@) == before + all.subrange(0, j as int),
            decreases list@.len() - j,
        {
            let ghost prev = check_views(out@);
            let key = health_key(&routes[i], list[j].as_str());
            out.push((key, list[j].clone()));
            assert(c[j as int] == list@[j as int]@);
            assert(check_views(out@) =~= prev.push(all[j as int]));
            assert(before + all.subrange(0, j + 1) =~= prev.push(all[j as int]));
            j = j + 1;
        }
        assert(all.subrange(0, all.len() as int) =~= all);
        i = i + 1;
    }
    assert(v.subrange(0, v.len() as int) =~= v);
    out
}

/// How long to sleep next after a cycle that began so long ago, in milliseconds; none
/// where the next cycle is due. The interval is in seconds.
pub open spec fn nap_after(interval: u64, elapsed: u64) -> Option<int> {
    let left = interval * 1000 - elapsed;
    if left <= 0 {
        None
    } else if left < LONGEST_NAP {
        Some(left)
    } else {
        Some(LONGEST_NAP as int)
    }
}

/// Naps end with the interval and none is longer than it may be.
pub proof fn law_naps_end_with_the_interval(interval: u64, elapsed: u64)
    ensures
        match nap_after(interval, elapsed) {
            Some(n) => 0 < n <= LONGEST_NAP && elapsed + n <= interval * 1000,
            None => elapsed >= interval * 1000,
        },
{
}

/// How long to sleep next, in milliseconds.
pub fn next_nap(interval: u64, elapsed: u64) -> (r: Option<u64>)
    ensures
        match r {
            Some(n) => nap_after(interval, elapsed) == Some(n as int),
            None => nap_after(interval, elapsed) is None,
        },
{
    let whole: u128 = interval as u128 * 1000;
    if whole <= elapsed as u128 {
        return None;
    }
    let left: u128 = whole - elapsed as u128;
    if left < LONGEST_NAP as u128 {
        Some(left as u64)
    } else {
        Some(LONGEST_NAP)
    }
}

/// A request is tried twice at the most, and one that may change something once.
pub proof fn law_only_harmless_requests_are_tried_again(m: MethodView)
    ensures
        1 <= attempts(m) <= 2,
        attempts(m) == 2 <==> m is Get || m is Head || (m matches MethodView::Other(s)
            && same_name(s, "OPTIONS"@)),
{
}

} // verus!
