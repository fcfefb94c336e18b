//! The health of upstreams, and whose turn it is.

use crate::bytes::{blank, blank_line, find_bytes, sub_find, utf8_text};
use crate::config::types::{ServerConfig, ServerView};
use crate::text::{chars_of, parse_uint, read_u16, words, words_of};
use vstd::hash_map::StringHashMap;
use vstd::prelude::*;
use vstd::utf8::{decode_utf8, valid_utf8};

verus! {

/// How long an upstream that failed is left alone, in milliseconds.
pub const HEALTH_COOLDOWN: u64 = 10000;

/// How many failed connections take an upstream out.
pub const PASSIVE_FAILURES: u32 = 3;

/// The most that is read of the answer to a probe.
pub const MAX_PROBE_RESPONSE: usize = 8192;

/// What an upstream is sent as a probe.
pub const PROBE_REQUEST: &'static str = "HEAD / HTTP/1.1\r\nHost: health\r\nConnection: close\r\n\r\n";

/// What is known of an upstream; times are in milliseconds.
#[derive(Debug, Clone, Copy, PartialEq, Eq, Structural)]
pub struct HealthState {
    pub failures: u32,
    pub recoveries: u32,
    pub last_probe: Option<u64>,
    pub unhealthy_until: Option<u64>,
}

/// An upstream of which nothing is known.
pub open spec fn unknown() -> HealthState {
    HealthState { failures: 0, recoveries: 0, last_probe: None, unhealthy_until: None }
}

pub open spec fn state_of(m: Map<Seq<char>, HealthState>, key: Seq<char>) -> HealthState {
    if m.contains_key(key) {
        m[key]
    } else {
        unknown()
    }
}

pub open spec fn one_more(n: u32) -> u32 {
    if n == u32::MAX {
        n
    } else {
        (n + 1) as u32
    }
}

pub open spec fn at_least_one(n: u32) -> u32 {
    if n == 0 {
        1
    } else {
        n
    }
}

/// The state after a failure, where that many take the upstream out.
pub open spec fn after_failure(s: HealthState, threshold: u32, now: u64) -> HealthState {
    let failures = one_more(s.failures);
    HealthState {
        failures,
        unhealthy_until: if failures >= at_least_one(threshold) {
            Some((now + HEALTH_COOLDOWN) as u64)
        } else {
            s.unhealthy_until
        },
        ..s
    }
}

/// The state after a probe that was answered, where that many bring the upstream
/// back.
pub open spec fn after_recovery(s: HealthState, threshold: u32) -> HealthState {
    if s.unhealthy_until is Some {
        let recoveries = one_more(s.recoveries);
        if recoveries >= at_least_one(threshold) {
            HealthState { failures: 0, recoveries: 0, unhealthy_until: None, ..s }
        } else {
            HealthState { recoveries, ..s }
        }
    } else {
        HealthState { failures: 0, ..s }
    }
}

/// No failure of the upstream is outstanding.
pub open spec fn without_failure(m: Map<Seq<char>, HealthState>, key: Seq<char>) -> bool {
    state_of(m, key).unhealthy_until is None
}

/// A probe is due.
pub open spec fn due(m: Map<Seq<char>, HealthState>, key: Seq<char>, interval: u64, now: u64) ->
    bool {
    state_of(m, key).last_probe matches Some(t) ==> elapsed(t, now) >= interval
}

/// How long ago a time was; nothing for one that is still to come.
pub open spec fn elapsed(t: u64, now: u64) -> int {
    if now >= t {
        now - t
    } else {
        0
    }
}

/// What to do about an upstream.
#[derive(Debug, Clone, Copy, PartialEq, Eq, Structural)]
pub enum Gate {
    Skip,
    Probe,
    Use,
}

/// The upstream was taken out and has been left alone long enough.
pub open spec fn rested(m: Map<Seq<char>, HealthState>, key: Seq<char>, now: u64) -> bool {
    state_of(m, key).unhealthy_until matches Some(t) && t <= now
}

/// The upstream may be connected to: no failure is outstanding or, where no probe can
/// bring it back, its cooldown is over.
pub open spec fn eligible(
    m: Map<Seq<char>, HealthState>,
    key: Seq<char>,
    interval: u64,
    now: u64,
) -> bool {
    without_failure(m, key) || (interval == 0 && rested(m, key, now))
}

/// What to do about an upstream; an interval of zero turns probes off.
pub open spec fn gate_for(
    m: Map<Seq<char>, HealthState>,
    key: Seq<char>,
    interval: u64,
    now: u64,
) -> Gate {
    if interval > 0 && due(m, key, interval, now) {
        Gate::Probe
    } else if eligible(m, key, interval, now) {
        Gate::Use
    } else {
        Gate::Skip
    }
}

/// The health of all upstreams, by key.
pub struct HealthTable {
    states: StringHashMap<HealthState>,
}

impl View for HealthTable {
    type V = Map<Seq<char>, HealthState>;

    closed spec fn view(&self) -> Map<Seq<char>, HealthState> {
        self.states@
    }
}

impl HealthTable {
    pub fn new() -> (r: Self)
        ensures
            r@ == Map::<Seq<char>, HealthState>::empty(),
    {
        HealthTable { states: StringHashMap::new() }
    }

    fn state(&self, key: &str) -> (s: HealthState)
        ensures
            s == state_of(self@, key@),
    {
        match self.states.get(key) {
            Some(s) => *s,
            None => HealthState {
                failures: 0,
                recoveries: 0,
                last_probe: None,
                unhealthy_until: None,
            },
        }
    }

    fn put(&mut self, key: &str, s: HealthState)
        ensures
            final(self)@ == old(self)@.insert(key@, s),
    {
        let k = crate::text::string_of(&chars_of(key));
        self.states.insert(k, s);
    }

    fn fail(&mut self, key: &str, s: HealthState, threshold: u32, now: u64)
        requires
            now + HEALTH_COOLDOWN <= u64::MAX,
        ensures
            final(self)@ == old(self)@.insert(key@, after_failure(s, threshold, now)),
    {
        let mut n = s;
        if n.failures < 0xffff_ffff {
            n.failures = n.failures + 1;
        }
        let bound: u32 = if threshold == 0 {
            1
        } else {
            threshold
        };
        if n.failures >= bound {
            n.unhealthy_until = Some(now + HEALTH_COOLDOWN);
        }
        self.put(key, n);
    }

    /// A connection to the upstream failed.
    pub fn mark_failed(&mut self, key: &str, now: u64)
        requires
            now + HEALTH_COOLDOWN <= u64::MAX,
        ensures
            final(self)@ == old(self)@.insert(
                key@,
                after_failure(state_of(old(self)@, key@), PASSIVE_FAILURES, now),
            ),
    {
        let s = self.state(key);
        self.fail(key, s, PASSIVE_FAILURES, now);
    }

    /// A connection to the upstream was made.
    pub fn mark_healthy(&mut self, key: &str)
        ensures
            final(self)@ == (if old(self)@.contains_key(key@) {
                old(self)@.insert(
                    key@,
                    HealthState {
                        failures: 0,
                        recoveries: 0,
                        unhealthy_until: None,
                        ..old(self)@[key@]
                    },
                )
            } else {
                old(self)@
            }),
    {
        if self.states.contains_key(key) {
            let mut s = self.state(key);
            s.failures = 0;
            s.recoveries = 0;
            s.unhealthy_until = None;
            self.put(key, s);
        }
    }

    /// A probe is sent.
    pub fn begin_probe(&mut self, key: &str, now: u64)
        ensures
            final(self)@ == old(self)@.insert(
                key@,
                HealthState { last_probe: Some(now), ..state_of(old(self)@, key@) },
            ),
    {
        let mut s = self.state(key);
        s.last_probe = Some(now);
        self.put(key, s);
    }

    /// A probe was not answered, or not well.
    pub fn mark_probe_failed(&mut self, key: &str, threshold: u32, now: u64)
        requires
            now + HEALTH_COOLDOWN <= u64::MAX,
        ensures
            final(self)@ == old(self)@.insert(
                key@,
                after_failure(
                    HealthState { recoveries: 0, ..state_of(old(self)@, key@) },
                    threshold,
                    now,
                ),
            ),
    {
        let mut s = self.state(key);
        s.recoveries = 0;
        self.fail(key, s, threshold, now);
    }

    /// A probe was answered well.
    pub fn mark_probe_healthy(&mut self, key: &str, threshold: u32)
        ensures
            final(self)@ == old(self)@.insert(
                key@,
                after_recovery(state_of(old(self)@, key@), threshold),
            ),
    {
        let mut s = self.state(key);
        let bound: u32 = if threshold == 0 {
            1
        } else {
            threshold
        };
        if s.unhealthy_until.is_some() {
            let mut n: u32 = s.recoveries;
            if n < 0xffff_ffff {
                n = n + 1;
            }
            if n >= bound {
                s.failures = 0;
                s.recoveries = 0;
                s.unhealthy_until = None;
            } else {
                s.recoveries = n;
            }
        } else {
            s.failures = 0;
        }
        self.put(key, s);
    }

    /// Whether no failure of an upstream is outstanding.
    pub(crate) fn is_without_failure(&self, key: &str) -> (b: bool)
        ensures
            b == without_failure(self@, key@),
    {
        self.state(key).unhealthy_until.is_none()
    }

    /// Whether an upstream may be connected to: no failure is outstanding or, where no
    /// probe can bring it back, its cooldown is over.
    pub fn health_available(&self, key: &str, interval: u64, now: u64) -> (b: bool)
        ensures
            b == eligible(self@, key@, interval, now),
    {
        self.is_without_failure(key) || (interval == 0 && self.cooled_down(key, now))
    }

    /// Whether a probe is due.
    pub fn health_probe_due(&self, key: &str, interval: u64, now: u64) -> (b: bool)
        ensures
            b == due(self@, key@, interval, now),
    {
        match self.state(key).last_probe {
            Some(t) => if now >= t {
                now - t >= interval
            } else {
                interval == 0
            },
            None => true,
        }
    }

    /// What to do about an upstream. After a probe that was answered well, the
    /// upstream is used where no failure is outstanding; after another one it is left
    /// out.
    pub fn gate(&self, key: &str, interval: u64, now: u64) -> (g: Gate)
        ensures
            g == gate_for(self@, key@, interval, now),
    {
        if interval > 0 && self.health_probe_due(key, interval, now) {
            Gate::Probe
        } else if self.health_available(key, interval, now) {
            Gate::Use
        } else {
            Gate::Skip
        }
    }

    fn cooled_down(&self, key: &str, now: u64) -> (b: bool)
        ensures
            b == rested(self@, key@, now),
    {
        match self.state(key).unhealthy_until {
            Some(t) => t <= now,
            None => false,
        }
    }
}

/// Where no probes are made, an upstream that failed once too often is passed over
/// until its cooldown is over, and is tried again from then on.
pub proof fn law_cooldowns_are_bounded(
    m: Map<Seq<char>, HealthState>,
    key: Seq<char>,
    failed: u64,
    now: u64,
)
    requires
        state_of(m, key).failures >= PASSIVE_FAILURES - 1,
        failed + HEALTH_COOLDOWN <= u64::MAX,
    ensures
        ({
            let n = m.insert(key, after_failure(state_of(m, key), PASSIVE_FAILURES, failed));
            gate_for(n, key, 0, now) == if now < failed + HEALTH_COOLDOWN {
                Gate::Skip
            } else {
                Gate::Use
            }
        }),
{
}

/// After three failures in a row an upstream of which nothing was known is taken
/// out.
pub proof fn law_failures_take_an_upstream_out(
    m: Map<Seq<char>, HealthState>,
    key: Seq<char>,
    t1: u64,
    t2: u64,
    t3: u64,
)
    requires
        !m.contains_key(key),
    ensures
        ({
            let a = m.insert(key, after_failure(state_of(m, key), PASSIVE_FAILURES, t1));
            let b = a.insert(key, after_failure(state_of(a, key), PASSIVE_FAILURES, t2));
            let c = b.insert(key, after_failure(state_of(b, key), PASSIVE_FAILURES, t3));
            without_failure(a, key) && without_failure(b, key) && !without_failure(c, key)
        }),
{
}

/// What happens to one upstream says nothing of another.
pub proof fn law_health_is_kept_apart(
    m: Map<Seq<char>, HealthState>,
    key: Seq<char>,
    s: HealthState,
    other: Seq<char>,
)
    requires
        other != key,
    ensures
        without_failure(m.insert(key, s), other) == without_failure(m, other),
        forall|interval: u64, now: u64|
            due(m.insert(key, s), other, interval, now) == due(m, other, interval, now),
{
}

/// An upstream that was taken out stays out until enough probes in a row were
/// answered well.
pub proof fn law_recovery_takes_enough_probes(s: HealthState, threshold: u32)
    requires
        s.unhealthy_until is Some,
    ensures
        after_recovery(s, threshold).unhealthy_until is None <==> one_more(s.recoveries)
            >= at_least_one(threshold),
        forall|now: u64|
            (#[trigger] after_failure(
                HealthState { recoveries: 0, ..s },
                threshold,
                now,
            )).recoveries == 0,
        forall|now: u64|
            (#[trigger] after_failure(
                HealthState { recoveries: 0, ..s },
                threshold,
                now,
            )).unhealthy_until is Some,
{
}

/// The line that the answer to a probe begins with.
pub open spec fn probe_line(b: Seq<u8>) -> Seq<u8> {
    b.subrange(0, sub_find(b, seq![10u8], 0))
}

/// The answer to a probe is one of an upstream that works.
pub open spec fn answers_well(b: Seq<u8>) -> bool {
    let w = words(decode_utf8(probe_line(b)));
    valid_utf8(probe_line(b)) && w.len() >= 2 && (parse_uint(w[1], 65535) matches Some(n) && 200
        <= n <= 499)
}

/// Whether the answer to a probe is one of an upstream that works.
pub fn probe_answer(b: &[u8]) -> (r: bool)
    ensures
        r == answers_well(b@),
{
    let mut feed: Vec<u8> = Vec::new();
    feed.push(10);
    assert(feed@ =~= seq![10u8]);
    let end: usize = match find_bytes(b, feed.as_slice()) {
        Some(k) => k,
        None => b.len(),
    };
    let line = crate::bytes::part_bytes(b, 0, end);
    match utf8_text(line.as_slice()) {
        Some(t) => {
            let w = words_of(&chars_of(t.as_str()));
            if w.len() < 2 {
                return false;
            }
            assert(words(t@)[1] == w@[1]@);
            match read_u16(&w[1]) {
                Some(n) => 200 <= n && n <= 499,
                None => false,
            }
        },
        None => false,
    }
}

/// Whether more of the answer to a probe is read.
pub fn probe_goes_on(b: &[u8]) -> (r: bool)
    ensures
        r == (b@.len() < MAX_PROBE_RESPONSE && sub_find(b@, blank_line(), 0) == b@.len()),
{
    let needle = blank();
    proof {
        crate::bytes::lemma_sub_find(b@, blank_line(), 0);
    }
    let found = find_bytes(b, needle.as_slice());
    b.len() < MAX_PROBE_RESPONSE && found.is_none()
}

/// How probes are made; times are in seconds.
#[derive(Debug, Clone, Copy, PartialEq, Eq, Structural)]
pub struct HealthSettings {
    /// Zero turns probes off.
    pub interval: u64,
    pub timeout: u64,
    pub failure_threshold: u32,
    pub recovery_threshold: u32,
}

impl Default for HealthSettings {
    fn default() -> (r: Self)
        ensures
            r == (HealthSettings {
                interval: 0,
                timeout: 2,
                failure_threshold: 3,
                recovery_threshold: 2,
            }),
    {
        HealthSettings { interval: 0, timeout: 2, failure_threshold: 3, recovery_threshold: 2 }
    }
}

/// How the configuration wants probes to be made.
pub open spec fn settings_of(c: ServerView) -> HealthSettings {
    HealthSettings {
        interval: c.upstream_health_interval,
        timeout: if c.upstream_health_timeout == 0 {
            1
        } else {
            c.upstream_health_timeout
        },
        failure_threshold: at_least_one(c.upstream_health_failures),
        recovery_threshold: at_least_one(c.upstream_health_recovery),
    }
}

/// How the configuration wants probes to be made.
pub fn health_settings(config: &ServerConfig) -> (r: HealthSettings)
    ensures
        r == settings_of(config@),
{
    HealthSettings {
        interval: config.upstream_health_interval,
        timeout: if config.upstream_health_timeout == 0 {
            1
        } else {
            config.upstream_health_timeout
        },
        failure_threshold: if config.upstream_health_failures == 0 {
            1
        } else {
            config.upstream_health_failures
        },
        recovery_threshold: if config.upstream_health_recovery == 0 {
            1
        } else {
            config.upstream_health_recovery
        },
    }
}

/// Whose turn it is, by key.
pub struct RoundRobin {
    turns: StringHashMap<usize>,
}

impl View for RoundRobin {
    type V = Map<Seq<char>, usize>;

    closed spec fn view(&self) -> Map<Seq<char>, usize> {
        self.turns@
    }
}

pub open spec fn turn_of(m: Map<Seq<char>, usize>, key: Seq<char>) -> usize {
    if m.contains_key(key) {
        m[key]
    } else {
        0
    }
}

/// The turn after that one; after the greatest number comes zero.
pub open spec fn next_turn(n: usize) -> usize {
    if n == usize::MAX {
        0
    } else {
        (n + 1) as usize
    }
}

impl RoundRobin {
    pub fn new() -> (r: Self)
        ensures
            r@ == Map::<Seq<char>, usize>::empty(),
    {
        RoundRobin { turns: StringHashMap::new() }
    }

    /// Takes a turn.
    pub fn take_turn(&mut self, key: &str) -> (n: usize)
        ensures
            n == turn_of(old(self)@, key@),
            final(self)@ == old(self)@.insert(key@, next_turn(n)),
    {
        let n: usize = match self.turns.get(key) {
            Some(v) => *v,
            None => 0,
        };
        let k = crate::text::string_of(&chars_of(key));
        let after: usize = if n == usize::MAX {
            0
        } else {
            n + 1
        };
        self.turns.insert(k, after);
        n
    }
}

} // verus!
