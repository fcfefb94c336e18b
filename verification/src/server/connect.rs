//! Which upstream of a route is connected to.

use crate::config::types::{ProxyRoute, ProxyView};
use crate::server::fault::{fault, Fault, FaultKind, FaultView};
use crate::server::health::{
    after_failure, eligible, gate_for, next_turn, state_of, turn_of, without_failure, Gate,
    HealthState, HealthTable, RoundRobin, HEALTH_COOLDOWN, PASSIVE_FAILURES,
};
use crate::server::pool::{health_key, round_robin_key, state_key, turn_key};
use crate::server::proxy::{candidate_at, candidates, candidates_of, in_turn};
use crate::text::{chars_of, part, starts_with, starts_with_str, string_of, strings};
use vstd::prelude::*;

verus! {

/// A round through the upstreams of a route.
#[derive(Debug)]
pub struct Round {
    candidates: Vec<String>,
    start: usize,
    offset: usize,
}

#[verifier::ext_equal]
pub struct RoundView {
    pub candidates: Seq<Seq<char>>,
    /// The one that the round begins with.
    pub start: usize,
    /// How many were dealt with.
    pub offset: int,
}

impl View for Round {
    type V = RoundView;

    closed spec fn view(&self) -> RoundView {
        RoundView {
            candidates: strings(self.candidates@),
            start: self.start,
            offset: self.offset as int,
        }
    }
}

/// What came of the last step.
#[derive(Debug, Clone, Copy, PartialEq, Eq, Structural)]
pub enum RoundEvent {
    /// There was none.
    Begin,
    /// The probe was answered, well or not.
    Probed(bool),
    /// The connection failed.
    Failed,
}

/// What to do next.
#[derive(Debug, PartialEq, Eq)]
pub enum RoundStep {
    Probe(String),
    Connect(String),
    /// No upstream is left.
    GiveUp,
}

#[verifier::ext_equal]
pub enum RoundStepView {
    Probe(Seq<char>),
    Connect(Seq<char>),
    GiveUp,
}

impl View for RoundStep {
    type V = RoundStepView;

    open spec fn view(&self) -> RoundStepView {
        match self {
            RoundStep::Probe(s) => RoundStepView::Probe(s@),
            RoundStep::Connect(s) => RoundStepView::Connect(s@),
            RoundStep::GiveUp => RoundStepView::GiveUp,
        }
    }
}

/// The upstream of a turn.
pub open spec fn turn_candidate(r: RoundView) -> Seq<char> {
    r.candidates[in_turn(r.start as int, r.offset, r.candidates.len() as int)]
}

/// What to do in a round: upstreams that are out are passed over.
pub open spec fn scan(
    r: RoundView,
    route: ProxyView,
    m: Map<Seq<char>, HealthState>,
    interval: u64,
    now: u64,
) -> (RoundView, RoundStepView)
    decreases r.candidates.len() - r.offset,
{
    if r.offset >= r.candidates.len() {
        (r, RoundStepView::GiveUp)
    } else {
        let c = turn_candidate(r);
        match gate_for(m, state_key(route, c), interval, now) {
            Gate::Skip => scan(one_further(r), route, m, interval, now),
            Gate::Probe => (r, RoundStepView::Probe(c)),
            Gate::Use => (r, RoundStepView::Connect(c)),
        }
    }
}

/// The round after one more upstream was dealt with.
pub open spec fn one_further(r: RoundView) -> RoundView {
    RoundView { offset: r.offset + 1, ..r }
}

/// The health of the upstreams after an event.
pub open spec fn health_after(
    r: RoundView,
    route: ProxyView,
    m: Map<Seq<char>, HealthState>,
    event: RoundEvent,
    now: u64,
) -> Map<Seq<char>, HealthState> {
    if event is Failed && r.offset < r.candidates.len() {
        let key = state_key(route, turn_candidate(r));
        m.insert(key, after_failure(state_of(m, key), PASSIVE_FAILURES, now))
    } else {
        m
    }
}

/// What to do after an event.
pub open spec fn next_step(
    r: RoundView,
    route: ProxyView,
    m: Map<Seq<char>, HealthState>,
    interval: u64,
    event: RoundEvent,
    now: u64,
) -> (RoundView, RoundStepView) {
    let n = health_after(r, route, m, event, now);
    if r.offset >= r.candidates.len() {
        (r, RoundStepView::GiveUp)
    } else {
        let c = turn_candidate(r);
        match event {
            RoundEvent::Begin => scan(r, route, n, interval, now),
            RoundEvent::Probed(well) => if well && without_failure(n, state_key(route, c)) {
                (r, RoundStepView::Connect(c))
            } else {
                scan(one_further(r), route, n, interval, now)
            },
            RoundEvent::Failed => scan(one_further(r), route, n, interval, now),
        }
    }
}

proof fn lemma_scan(
    r: RoundView,
    route: ProxyView,
    m: Map<Seq<char>, HealthState>,
    interval: u64,
    now: u64,
)
    ensures
        ({
            let (n, s) = scan(r, route, m, interval, now);
            &&& n.candidates == r.candidates && n.start == r.start && n.offset >= r.offset
            &&& s matches RoundStepView::Connect(c) ==> eligible(
                m,
                state_key(route, c),
                interval,
                now,
            )
        }),
    decreases r.candidates.len() - r.offset,
{
    if r.offset < r.candidates.len() {
        lemma_scan(one_further(r), route, m, interval, now);
    }
}

/// Only upstreams without an outstanding failure are connected to, whatever happens in
/// a round, but for those whose cooldown is over where no probes are made.
pub proof fn law_only_available_upstreams_are_used(
    r: RoundView,
    route: ProxyView,
    m: Map<Seq<char>, HealthState>,
    interval: u64,
    event: RoundEvent,
    now: u64,
)
    ensures
        next_step(r, route, m, interval, event, now).1 matches RoundStepView::Connect(c)
            ==> eligible(
            health_after(r, route, m, event, now),
            state_key(route, c),
            interval,
            now,
        ),
{
    let n = health_after(r, route, m, event, now);
    lemma_scan(r, route, n, interval, now);
    lemma_scan(one_further(r), route, n, interval, now);
}

/// A round comes to an end: after a failure it goes on with a later upstream.
pub proof fn law_rounds_come_to_an_end(
    r: RoundView,
    route: ProxyView,
    m: Map<Seq<char>, HealthState>,
    interval: u64,
    now: u64,
)
    requires
        0 <= r.offset < r.candidates.len(),
    ensures
        next_step(r, route, m, interval, RoundEvent::Failed, now).0.offset > r.offset,
{
    let n = health_after(r, route, m, RoundEvent::Failed, now);
    lemma_scan(one_further(r), route, n, interval, now);
}

impl Round {
    /// Begins a round of a route.
    pub fn begin(route: &ProxyRoute, turns: &mut RoundRobin) -> (r: Result<Self, Fault>)
        ensures
            match r {
                Ok(x) => candidates(route@.upstream).len() > 0 && x@ == (RoundView {
                    candidates: candidates(route@.upstream),
                    start: turn_of(old(turns)@, turn_key(route@)),
                    offset: 0,
                }) && final(turns)@ == old(turns)@.insert(
                    turn_key(route@),
                    next_turn(turn_of(old(turns)@, turn_key(route@))),
                ),
                Err(f) => candidates(route@.upstream).len() == 0 && f@ == fault(
                    FaultKind::NotFound,
                    "upstream has no addresses"@,
                ) && final(turns)@ == old(turns)@,
            },
    {
        let list = candidates_of(route);
        assert(strings(list@).len() == list@.len());
        if list.len() == 0 {
            return Err(Fault { kind: FaultKind::NotFound, message: "upstream has no addresses" });
        }
        let key = round_robin_key(route);
        let start: usize = turns.take_turn(key.as_str());
        Ok(Round { candidates: list, start, offset: 0 })
    }

    /// Takes what came of the last step and says what to do next; times are in
    /// milliseconds.
    pub fn next(
        &mut self,
        route: &ProxyRoute,
        health: &mut HealthTable,
        interval: u64,
        event: RoundEvent,
        now: u64,
    ) -> (s: RoundStep)
        requires
            now + HEALTH_COOLDOWN <= u64::MAX,
        ensures
            final(health)@ == health_after(old(self)@, route@, old(health)@, event, now),
            (final(self)@, s@) == next_step(
                old(self)@,
                route@,
                old(health)@,
                interval,
                event,
                now,
            ),
    {
        let n: usize = self.candidates.len();
        assert(self@.candidates.len() == n);
        if self.offset >= n {
            return RoundStep::GiveUp;
        }
        let k: usize = candidate_at(self.start, self.offset, n);
        let c = self.candidates[k].clone();
        assert(self@.candidates[k as int] == self.candidates@[k as int]@);
        match event {
            RoundEvent::Begin => {},
            RoundEvent::Probed(well) => {
                let key = health_key(route, c.as_str());
                if well && health.is_without_failure(key.as_str()) {
                    return RoundStep::Connect(c);
                }
                self.offset = self.offset + 1;
            },
            RoundEvent::Failed => {
                let key = health_key(route, c.as_str());
                health.mark_failed(key.as_str(), now);
                self.offset = self.offset + 1;
            },
        }
        self.look(route, health, interval, now)
    }

    fn look(&mut self, route: &ProxyRoute, health: &HealthTable, interval: u64, now: u64) -> (s:
        RoundStep)
        requires
            old(self)@.offset <= old(self)@.candidates.len(),
        ensures
            (final(self)@, s@) == scan(old(self)@, route@, health@, interval, now),
    {
        let ghost r = self@;
        let n: usize = self.candidates.len();
        while self.offset < n
            invariant
                n == self.candidates@.len(),
                self.offset <= n,
                r == old(self)@,
                scan(self@, route@, health@, interval, now) == scan(
                    r,
                    route@,
                    health@,
                    interval,
                    now,
                ),
            decreases n - self.offset,
        {
            let k: usize = candidate_at(self.start, self.offset, n);
            assert(self@.candidates[k as int] == self.candidates@[k as int]@);
            let c = self.candidates[k].clone();
            let key = health_key(route, c.as_str());
            match health.gate(key.as_str(), interval, now) {
                Gate::Skip => {},
                Gate::Probe => {
                    return RoundStep::Probe(c);
                },
                Gate::Use => {
                    return RoundStep::Connect(c);
                },
            }
            let ghost before = self@;
            self.offset = self.offset + 1;
            assert(self@ =~= one_further(before));
        }
        RoundStep::GiveUp
    }
}

/// The failure where no upstream is left and none was tried.
pub fn unavailable() -> (f: Fault)
    ensures
        f@ == fault(FaultKind::ConnectionRefused, "upstream unavailable"@),
{
    Fault { kind: FaultKind::ConnectionRefused, message: "upstream unavailable" }
}

/// The address of an upstream.
pub open spec fn authority_of(upstream: Seq<char>) -> Result<Seq<char>, FaultView> {
    if starts_with(upstream, "http://"@) {
        Ok(upstream.skip("http://"@.len() as int))
    } else {
        Err(fault(FaultKind::InvalidInput, "unsupported proxy scheme"@))
    }
}

/// The address of an upstream.
pub fn upstream_authority(upstream: &str) -> (r: Result<String, Fault>)
    ensures
        match r {
            Ok(a) => authority_of(upstream@) == Ok::<_, FaultView>(a@),
            Err(f) => authority_of(upstream@) == Err::<Seq<char>, _>(f@),
        },
{
    match after_prefix(upstream, "http://") {
        Some(a) => Ok(a),
        None => Err(Fault { kind: FaultKind::InvalidInput, message: "unsupported proxy scheme" }),
    }
}

/// What follows the beginning of a text.
pub fn after_prefix(s: &str, prefix: &str) -> (r: Option<String>)
    ensures
        match r {
            Some(t) => starts_with(s@, prefix@) && t@ == s@.skip(prefix@.len() as int),
            None => !starts_with(s@, prefix@),
        },
{
    let v = chars_of(s);
    if !starts_with_str(&v, prefix) {
        return None;
    }
    let t = part(&v, chars_of(prefix).len(), v.len());
    assert(t@ =~= s@.skip(prefix@.len() as int));
    Some(string_of(&t))
}

} // verus!
