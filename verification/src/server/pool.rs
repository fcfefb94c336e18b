//! Idle connections to upstreams, and how many connections there may be.

use crate::config::types::{ProxyRoute, ProxyView};
use crate::server::fault::{fault, Fault, FaultKind};
use crate::server::health::elapsed;
use crate::text::{chars_of, has_char, lemma_split_extends, push_str, same, split, string_of};
use vstd::prelude::*;

verus! {

/// The most idle connections with one key.
pub const MAX_IDLE_UPSTREAMS: usize = 16;

/// The most idle connections in all.
pub const MAX_TOTAL_IDLE_UPSTREAMS: usize = 256;

/// How long a connection may be idle, in milliseconds.
pub const IDLE_UPSTREAM_TTL: u64 = 30000;

/// The most connections in use.
pub const MAX_ACTIVE_UPSTREAMS: usize = 256;

/// The parts with a zero character between them.
pub open spec fn key_of(parts: Seq<Seq<char>>) -> Seq<char>
    decreases parts.len(),
{
    if parts.len() == 0 {
        Seq::empty()
    } else if parts.len() == 1 {
        parts[0]
    } else {
        key_of(parts.drop_last()).push('\0') + parts.last()
    }
}

/// Keys of different parts are different, where no part holds a zero character.
pub proof fn law_keys_tell_parts_apart(a: Seq<Seq<char>>, b: Seq<Seq<char>>)
    requires
        a.len() > 0,
        b.len() > 0,
        forall|i: int| 0 <= i < a.len() ==> !has_char(#[trigger] a[i], '\0'),
        forall|i: int| 0 <= i < b.len() ==> !has_char(#[trigger] b[i], '\0'),
        key_of(a) == key_of(b),
    ensures
        a == b,
{
    lemma_key_splits(a);
    lemma_key_splits(b);
}

proof fn lemma_key_splits(a: Seq<Seq<char>>)
    requires
        a.len() > 0,
        forall|i: int| 0 <= i < a.len() ==> !has_char(#[trigger] a[i], '\0'),
    ensures
        split(key_of(a), '\0') == a,
    decreases a.len(),
{
    if a.len() == 1 {
        let e = Seq::<char>::empty();
        assert(!has_char(a[0], '\0'));
        lemma_split_extends(e, a[0], '\0');
        assert(e + a[0] =~= a[0]);
        assert(split(e, '\0') =~= seq![e]);
        assert(split(key_of(a), '\0') =~= a);
    } else {
        let t = a.drop_last();
        assert(forall|i: int| 0 <= i < t.len() ==> t[i] == a[i]);
        lemma_key_splits(t);
        let k = key_of(t).push('\0');
        assert(k.drop_last() =~= key_of(t));
        let e = Seq::<char>::empty();
        assert(split(k, '\0') == t.push(e));
        assert(!has_char(a[a.len() - 1], '\0'));
        lemma_split_extends(k, a.last(), '\0');
        assert(t.push(e).drop_last() =~= t);
        assert(e + a.last() =~= a.last());
        assert(t.push(a.last()) =~= a);
    }
}

/// The key under which turns are taken.
pub open spec fn turn_key(r: ProxyView) -> Seq<char> {
    key_of(seq![r.host, r.prefix])
}

/// The key of an upstream's health.
pub open spec fn state_key(r: ProxyView, upstream: Seq<char>) -> Seq<char> {
    key_of(seq![r.host, r.prefix, upstream])
}

/// The key of idle connections to one upstream of a route.
pub open spec fn idle_key(r: ProxyView, candidate: Seq<char>) -> Seq<char> {
    key_of(seq![r.host, r.prefix, r.upstream, candidate])
}

proof fn lemma_turn_key(r: ProxyView)
    ensures
        turn_key(r) == r.host.push('\0') + r.prefix,
{
    reveal_with_fuel(key_of, 2);
    assert(seq![r.host, r.prefix].drop_last() =~= seq![r.host]);
}

proof fn lemma_state_key(r: ProxyView, upstream: Seq<char>)
    ensures
        state_key(r, upstream) == turn_key(r).push('\0') + upstream,
{
    assert(seq![r.host, r.prefix, upstream].drop_last() =~= seq![r.host, r.prefix]);
}

proof fn lemma_idle_key(r: ProxyView, candidate: Seq<char>)
    ensures
        idle_key(r, candidate) == state_key(r, r.upstream).push('\0') + candidate,
{
    assert(seq![r.host, r.prefix, r.upstream, candidate].drop_last() =~= seq![
        r.host,
        r.prefix,
        r.upstream,
    ]);
}

fn turn_chars(route: &ProxyRoute) -> (r: Vec<char>)
    ensures
        r@ == turn_key(route@),
{
    proof {
        lemma_turn_key(route@);
    }
    let mut k = chars_of(route.host.as_str());
    k.push('\0');
    push_str(&mut k, route.prefix.as_str());
    k
}

/// The key under which turns are taken.
pub fn round_robin_key(route: &ProxyRoute) -> (r: String)
    ensures
        r@ == turn_key(route@),
{
    string_of(&turn_chars(route))
}

/// The key of an upstream's health.
pub fn health_key(route: &ProxyRoute, upstream: &str) -> (r: String)
    ensures
        r@ == state_key(route@, upstream@),
{
    proof {
        lemma_state_key(route@, upstream@);
    }
    let mut k = turn_chars(route);
    k.push('\0');
    push_str(&mut k, upstream);
    string_of(&k)
}

/// The key of idle connections to one upstream of a route.
pub fn pool_key(route: &ProxyRoute, candidate: &str) -> (r: String)
    ensures
        r@ == idle_key(route@, candidate@),
{
    proof {
        lemma_state_key(route@, route@.upstream);
        lemma_idle_key(route@, candidate@);
    }
    let mut k = turn_chars(route);
    k.push('\0');
    push_str(&mut k, route.upstream.as_str());
    k.push('\0');
    push_str(&mut k, candidate);
    string_of(&k)
}

/// An idle connection.
pub struct IdleUpstream<T> {
    key: String,
    stream: T,
    inserted: u64,
}

pub struct IdleView<T> {
    pub key: Seq<char>,
    pub stream: T,
    /// Since when it is idle, in milliseconds.
    pub inserted: u64,
}

impl<T> View for IdleUpstream<T> {
    type V = IdleView<T>;

    closed spec fn view(&self) -> IdleView<T> {
        IdleView { key: self.key@, stream: self.stream, inserted: self.inserted }
    }
}

pub open spec fn expired(inserted: u64, now: u64) -> bool {
    elapsed(inserted, now) > IDLE_UPSTREAM_TTL
}

/// The number of connections with a key.
pub open spec fn with_key<T>(p: Seq<IdleView<T>>, key: Seq<char>) -> nat
    decreases p.len(),
{
    if p.len() == 0 {
        0
    } else {
        with_key(p.drop_last(), key) + if p.last().key == key {
            1nat
        } else {
            0nat
        }
    }
}

/// The connections that did not expire.
pub open spec fn fresh<T>(p: Seq<IdleView<T>>, now: u64) -> Seq<IdleView<T>>
    decreases p.len(),
{
    if p.len() == 0 {
        p
    } else if expired(p.last().inserted, now) {
        fresh(p.drop_last(), now)
    } else {
        fresh(p.drop_last(), now).push(p.last())
    }
}

/// The position of the first connection with a key, at or after another, or the
/// length.
pub open spec fn first_with<T>(p: Seq<IdleView<T>>, key: Seq<char>, from: int) -> int
    decreases p.len() - from,
{
    if from >= p.len() {
        p.len() as int
    } else if p[from].key == key {
        from
    } else {
        first_with(p, key, from + 1)
    }
}

/// What is left, and the connection that is taken: the one with the key that is idle
/// for the longest time, where those that expired are thrown away.
pub open spec fn taken<T>(p: Seq<IdleView<T>>, key: Seq<char>, now: u64) -> (
    Seq<IdleView<T>>,
    Option<T>,
)
    decreases p.len(),
{
    let k = first_with(p, key, 0);
    if k < 0 || k >= p.len() {
        (p, None)
    } else if expired(p[k].inserted, now) {
        taken(p.remove(k), key, now)
    } else {
        (p.remove(k), Some(p[k].stream))
    }
}

/// The connections after one more was given back.
pub open spec fn given_back<T>(p: Seq<IdleView<T>>, key: Seq<char>, stream: T, now: u64) -> Seq<
    IdleView<T>,
> {
    let f = fresh(p, now);
    if f.len() >= MAX_TOTAL_IDLE_UPSTREAMS || with_key(f, key) >= MAX_IDLE_UPSTREAMS {
        f
    } else {
        f.push(IdleView { key, stream, inserted: now })
    }
}

proof fn lemma_fresh<T>(p: Seq<IdleView<T>>, now: u64, key: Seq<char>)
    ensures
        fresh(p, now).len() <= p.len(),
        with_key(fresh(p, now), key) <= with_key(p, key),
    decreases p.len(),
{
    if p.len() > 0 {
        lemma_fresh(p.drop_last(), now, key);
        let f = fresh(p.drop_last(), now);
        assert(f.push(p.last()).drop_last() =~= f);
    }
}

/// The pool stays within its bounds, whatever is given back.
pub proof fn law_the_pool_is_bounded<T>(
    p: Seq<IdleView<T>>,
    key: Seq<char>,
    stream: T,
    now: u64,
    other: Seq<char>,
)
    requires
        p.len() <= MAX_TOTAL_IDLE_UPSTREAMS,
        with_key(p, other) <= MAX_IDLE_UPSTREAMS,
    ensures
        given_back(p, key, stream, now).len() <= MAX_TOTAL_IDLE_UPSTREAMS,
        with_key(given_back(p, key, stream, now), other) <= MAX_IDLE_UPSTREAMS,
{
    lemma_fresh(p, now, other);
    let f = fresh(p, now);
    let x = IdleView { key, stream, inserted: now };
    assert(f.push(x).drop_last() =~= f);
}

proof fn lemma_first_with<T>(p: Seq<IdleView<T>>, key: Seq<char>, from: int)
    requires
        0 <= from <= p.len(),
    ensures
        from <= first_with(p, key, from) <= p.len(),
        first_with(p, key, from) < p.len() ==> p[first_with(p, key, from)].key == key,
    decreases p.len() - from,
{
    if from < p.len() && p[from].key != key {
        lemma_first_with(p, key, from + 1);
    }
}

/// A connection that is taken was given back with the same key and did not expire.
pub proof fn law_connections_are_reused_by_key<T>(p: Seq<IdleView<T>>, key: Seq<char>, now: u64)
    ensures
        taken(p, key, now).1 matches Some(t) ==> exists|i: int|
            0 <= i < p.len() && (#[trigger] p[i]).key == key && p[i].stream == t && !expired(
                p[i].inserted,
                now,
            ),
    decreases p.len(),
{
    lemma_first_with(p, key, 0);
    let k = first_with(p, key, 0);
    if k < p.len() && expired(p[k].inserted, now) {
        law_connections_are_reused_by_key(p.remove(k), key, now);
        if taken(p, key, now).1 is Some {
            let q = p.remove(k);
            let i = choose|i: int|
                0 <= i < q.len() && (#[trigger] q[i]).key == key && Some(q[i].stream) == taken(
                    p,
                    key,
                    now,
                ).1 && !expired(q[i].inserted, now);
            let j = if i < k {
                i
            } else {
                i + 1
            };
            assert(q[i] == p[j]);
        }
    }
}

/// Idle connections to upstreams, the one that is idle for the longest time first.
pub struct IdlePool<T> {
    idle: Vec<IdleUpstream<T>>,
}

/// The views of the connections.
pub open spec fn idle_views<T>(v: Seq<IdleUpstream<T>>) -> Seq<IdleView<T>> {
    Seq::new(v.len(), |i: int| v[i]@)
}

impl<T> View for IdlePool<T> {
    type V = Seq<IdleView<T>>;

    closed spec fn view(&self) -> Seq<IdleView<T>> {
        idle_views(self.idle@)
    }
}

impl<T> IdlePool<T> {
    pub fn new() -> (r: Self)
        ensures
            r@ == Seq::<IdleView<T>>::empty(),
    {
        let r = IdlePool { idle: Vec::new() };
        assert(r@ =~= Seq::<IdleView<T>>::empty());
        r
    }

    fn find(&self, key: &Vec<char>) -> (k: usize)
        ensures
            k == first_with(self@, key@, 0),
            k <= self@.len(),
    {
        let mut i: usize = 0;
        let n: usize = self.idle.len();
        while i < n
            invariant
                n == self.idle@.len(),
                i <= n,
                first_with(self@, key@, 0) == first_with(self@, key@, i as int),
            decreases n - i,
        {
            assert(self@[i as int].key == self.idle@[i as int].key@);
            if same(&chars_of(self.idle[i].key.as_str()), key) {
                return i;
            }
            i = i + 1;
        }
        n
    }

    /// Takes an idle connection with that key.
    pub fn take_pooled(&mut self, key: &str, now: u64) -> (r: Option<T>)
        ensures
            (final(self)@, r) == taken(old(self)@, key@, now),
    {
        let k = chars_of(key);
        let ghost start = self@;
        loop
            invariant
                k@ == key@,
                taken(self@, key@, now) == taken(start, key@, now),
                start == old(self)@,
            decreases self.idle@.len(),
        {
            let ghost before = self@;
            let i: usize = self.find(&k);
            if i >= self.idle.len() {
                return None;
            }
            let x = self.idle.remove(i);
            assert(self@ =~= before.remove(i as int));
            assert(before[i as int] == x@);
            let age: u64 = if now >= x.inserted {
                now - x.inserted
            } else {
                0
            };
            if age <= IDLE_UPSTREAM_TTL {
                return Some(x.stream);
            }
        }
    }

    fn drop_expired(&mut self, now: u64)
        ensures
            final(self)@ == fresh(old(self)@, now),
    {
        let ghost p = self@;
        let mut rest: Vec<IdleUpstream<T>> = Vec::new();
        std::mem::swap(&mut rest, &mut self.idle);
        let mut i: usize = 0;
        let n: usize = rest.len();
        assert(p.subrange(0, 0) =~= Seq::<IdleView<T>>::empty());
        assert(self@ =~= Seq::<IdleView<T>>::empty());
        assert(idle_views(rest@) =~= p.subrange(0, n as int));
        while i < n
            invariant
                n == p.len(),
                i <= n,
                idle_views(rest@) == p.subrange(i as int, n as int),
                self@ == fresh(p.subrange(0, i as int), now),
            decreases n - i,
        {
            assert(idle_views(rest@).len() == n - i);
            assert(p.subrange(0, i + 1).drop_last() =~= p.subrange(0, i as int));
            assert(p[i as int] == idle_views(rest@)[0]);
            let ghost q = idle_views(rest@);
            let x = rest.remove(0);
            assert(idle_views(rest@) =~= q.remove(0));
            assert(q.remove(0) =~= p.subrange(i + 1, n as int));
            let age: u64 = if now >= x.inserted {
                now - x.inserted
            } else {
                0
            };
            if age <= IDLE_UPSTREAM_TTL {
                let ghost prev = self@;
                self.idle.push(x);
                assert(self@ =~= prev.push(x@));
            }
            i = i + 1;
        }
        assert(p.subrange(0, n as int) =~= p);
    }

    fn count(&self, key: &Vec<char>) -> (c: usize)
        ensures
            c == with_key(self@, key@),
    {
        let ghost p = self@;
        let mut i: usize = 0;
        let mut c: usize = 0;
        assert(p.subrange(0, 0) =~= Seq::<IdleView<T>>::empty());
        while i < self.idle.len()
            invariant
                p == self@,
                i <= self.idle@.len(),
                c <= i,
                c == with_key(p.subrange(0, i as int), key@),
            decreases self.idle@.len() - i,
        {
            assert(p.subrange(0, i + 1).drop_last() =~= p.subrange(0, i as int));
            assert(p.subrange(0, i + 1).last() == self.idle@[i as int]@);
            if same(&chars_of(self.idle[i].key.as_str()), key) {
                c = c + 1;
            }
            i = i + 1;
        }
        assert(p.subrange(0, p.len() as int) =~= p);
        c
    }

    /// Gives a connection back.
    pub fn return_pooled(&mut self, key: &str, stream: T, now: u64)
        ensures
            final(self)@ == given_back(old(self)@, key@, stream, now),
    {
        self.drop_expired(now);
        let k = chars_of(key);
        let ghost f = self@;
        if self.idle.len() >= MAX_TOTAL_IDLE_UPSTREAMS || self.count(&k) >= MAX_IDLE_UPSTREAMS {
            return;
        }
        self.idle.push(IdleUpstream { key: string_of(&k), stream, inserted: now });
        assert(self@ =~= f.push(IdleView { key: key@, stream, inserted: now }));
    }

    /// The number of idle connections.
    pub fn len(&self) -> (n: usize)
        ensures
            n == self@.len(),
    {
        self.idle.len()
    }

    /// Throws all connections away.
    pub fn shutdown_pool(&mut self)
        ensures
            final(self)@ == Seq::<IdleView<T>>::empty(),
    {
        self.idle = Vec::new();
        assert(self@ =~= Seq::<IdleView<T>>::empty());
    }
}

/// How many connections to upstreams are in use.
#[derive(Debug)]
pub struct UpstreamBudget {
    active: usize,
}

impl UpstreamBudget {
    /// The number of connections in use.
    pub closed spec fn active(&self) -> usize {
        self.active
    }

    pub fn new() -> (r: Self)
        ensures
            r.active() == 0,
    {
        UpstreamBudget { active: 0 }
    }

    /// Takes a permit for one more connection, while there are any.
    pub fn acquire_upstream_permit(&mut self) -> (r: Result<(), Fault>)
        ensures
            match r {
                Ok(_) => old(self).active() < MAX_ACTIVE_UPSTREAMS && final(self).active() == old(
                    self,
                ).active() + 1,
                Err(f) => old(self).active() >= MAX_ACTIVE_UPSTREAMS && final(self).active()
                    == old(self).active() && f@ == fault(
                    FaultKind::WouldBlock,
                    "upstream connection limit reached"@,
                ),
            },
    {
        if self.active >= MAX_ACTIVE_UPSTREAMS {
            return Err(
                Fault { kind: FaultKind::WouldBlock, message: "upstream connection limit reached" },
            );
        }
        self.active = self.active + 1;
        Ok(())
    }

    /// How many connections are in use.
    pub fn in_use(&self) -> (n: usize)
        ensures
            n == self.active(),
    {
        self.active
    }

    /// Gives a permit back.
    pub fn release(&mut self)
        requires
            old(self).active() > 0,
        ensures
            final(self).active() == old(self).active() - 1,
    {
        self.active = self.active - 1;
    }
}

} // verus!
