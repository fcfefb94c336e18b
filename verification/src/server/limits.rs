//! How many requests and connections an address may make.

use crate::config::ip::IpAddr;
use crate::server::health::elapsed;
use vstd::prelude::*;

verus! {

/// The most addresses that are remembered.
pub const MAX_ENTRIES: usize = 4096;

/// How long an idle address is remembered, in nanoseconds.
pub const FORGET_IDLE: u64 = 60_000_000_000;

/// How long an address with connections is remembered, in nanoseconds.
pub const FORGET_CONNECTED: u64 = 300_000_000_000;

/// What is remembered of an address; times are in nanoseconds.
#[derive(Debug, Clone, Copy, PartialEq, Eq, Structural)]
pub struct Bucket {
    pub ip: IpAddr,
    /// The bits of the number of tokens, which is a floating-point number.
    pub tokens: u64,
    pub updated: u64,
    pub connections: usize,
    pub last_seen: u64,
}

/// An address is remembered.
pub open spec fn stays(b: Bucket, now: u64) -> bool {
    (b.connections > 0 && elapsed(b.last_seen, now) < FORGET_CONNECTED) || elapsed(
        b.last_seen,
        now,
    ) < FORGET_IDLE
}

/// The addresses that are remembered.
pub open spec fn staying(b: Seq<Bucket>, now: u64) -> Seq<Bucket>
    decreases b.len(),
{
    if b.len() == 0 {
        b
    } else if stays(b.last(), now) {
        staying(b.drop_last(), now).push(b.last())
    } else {
        staying(b.drop_last(), now)
    }
}

/// The position of an address, at or after another, or the length.
pub open spec fn bucket_at(b: Seq<Bucket>, ip: IpAddr, from: int) -> int
    decreases b.len() - from,
{
    if from >= b.len() {
        b.len() as int
    } else if b[from].ip == ip {
        from
    } else {
        bucket_at(b, ip, from + 1)
    }
}

pub open spec fn known(b: Seq<Bucket>, ip: IpAddr) -> bool {
    bucket_at(b, ip, 0) < b.len()
}

/// There is no room for an address.
pub open spec fn no_room(b: Seq<Bucket>, ip: IpAddr) -> bool {
    b.len() >= MAX_ENTRIES && !known(b, ip)
}

/// What is remembered of an address after `bucket` was.
pub open spec fn put(b: Seq<Bucket>, bucket: Bucket) -> Seq<Bucket> {
    let k = bucket_at(b, bucket.ip, 0);
    if 0 <= k < b.len() {
        b.update(k, bucket)
    } else {
        b.push(bucket)
    }
}

/// The addresses after one has opened a connection, and whether it may. An address
/// that is new gets no tokens.
pub open spec fn connected(b: Seq<Bucket>, ip: IpAddr, max: usize, now: u64) -> (Seq<Bucket>, bool) {
    if max == 0 {
        (b, true)
    } else {
        let s = staying(b, now);
        let k = bucket_at(s, ip, 0);
        if no_room(s, ip) {
            (s, false)
        } else if !known(s, ip) {
            (
                s.push(
                    Bucket { ip, tokens: 0, updated: now, connections: 1, last_seen: now },
                ),
                true,
            )
        } else if s[k].connections >= max {
            (s, false)
        } else {
            (
                s.update(
                    k,
                    Bucket {
                        connections: (s[k].connections + 1) as usize,
                        last_seen: now,
                        ..s[k]
                    },
                ),
                true,
            )
        }
    }
}

/// The addresses after one has closed a connection.
pub open spec fn disconnected(b: Seq<Bucket>, ip: IpAddr, now: u64) -> Seq<Bucket> {
    let k = bucket_at(b, ip, 0);
    if 0 <= k < b.len() {
        b.update(
            k,
            Bucket {
                connections: if b[k].connections == 0 {
                    0
                } else {
                    (b[k].connections - 1) as usize
                },
                last_seen: now,
                ..b[k]
            },
        )
    } else {
        b
    }
}

/// What decides about a request.
#[derive(Debug, Clone, Copy, PartialEq, Eq, Structural)]
pub enum Admission {
    /// There is no limit.
    Unlimited,
    /// There is no room for the address.
    Refused,
    /// The address is new and has all the tokens it can have.
    Full,
    /// The address had so many tokens, in bits, so many nanoseconds ago.
    Level { tokens: u64, ago: u64 },
}

/// What decides about a request.
pub open spec fn admission(b: Seq<Bucket>, ip: IpAddr, rate: u32, burst: u32, now: u64) -> Admission {
    let s = staying(b, now);
    let k = bucket_at(s, ip, 0);
    if rate == 0 || burst == 0 {
        Admission::Unlimited
    } else if no_room(s, ip) {
        Admission::Refused
    } else if !known(s, ip) {
        Admission::Full
    } else {
        Admission::Level { tokens: s[k].tokens, ago: elapsed(s[k].updated, now) as u64 }
    }
}

/// The addresses after a request of one was decided about, which has so many tokens
/// left, in bits.
pub open spec fn settled(b: Seq<Bucket>, ip: IpAddr, tokens: u64, now: u64) -> Seq<Bucket> {
    let k = bucket_at(b, ip, 0);
    put(
        b,
        Bucket {
            ip,
            tokens,
            updated: now,
            connections: if known(b, ip) {
                b[k].connections
            } else {
                0
            },
            last_seen: now,
        },
    )
}

proof fn lemma_bucket_at(b: Seq<Bucket>, ip: IpAddr, from: int)
    requires
        0 <= from <= b.len(),
    ensures
        from <= bucket_at(b, ip, from) <= b.len(),
        bucket_at(b, ip, from) < b.len() ==> b[bucket_at(b, ip, from)].ip == ip,
    decreases b.len() - from,
{
    if from < b.len() && b[from].ip != ip {
        lemma_bucket_at(b, ip, from + 1);
    }
}

proof fn lemma_staying(b: Seq<Bucket>, now: u64)
    ensures
        staying(b, now).len() <= b.len(),
    decreases b.len(),
{
    if b.len() > 0 {
        lemma_staying(b.drop_last(), now);
    }
}

/// However many addresses come, no more than so many are remembered.
pub proof fn law_addresses_are_bounded(
    b: Seq<Bucket>,
    ip: IpAddr,
    max: usize,
    tokens: u64,
    now: u64,
)
    requires
        b.len() <= MAX_ENTRIES,
    ensures
        connected(b, ip, max, now).0.len() <= MAX_ENTRIES,
        disconnected(b, ip, now).len() <= MAX_ENTRIES,
        !no_room(staying(b, now), ip) ==> settled(staying(b, now), ip, tokens, now).len()
            <= MAX_ENTRIES,
{
    lemma_staying(b, now);
    lemma_bucket_at(staying(b, now), ip, 0);
}

/// No address is remembered twice.
pub open spec fn distinct_addresses(b: Seq<Bucket>) -> bool {
    forall|i: int, j: int|
        0 <= i < b.len() && 0 <= j < b.len() && (#[trigger] b[i]).ip == (#[trigger] b[j]).ip
            ==> i == j
}

proof fn lemma_not_known(b: Seq<Bucket>, ip: IpAddr, from: int, i: int)
    requires
        0 <= from <= i < bucket_at(b, ip, from),
        i < b.len(),
    ensures
        b[i].ip != ip,
    decreases b.len() - from,
{
    if b[from].ip != ip && from < i {
        lemma_not_known(b, ip, from + 1, i);
    }
}

proof fn lemma_staying_distinct(b: Seq<Bucket>, now: u64)
    requires
        distinct_addresses(b),
    ensures
        distinct_addresses(staying(b, now)),
        forall|i: int| 0 <= i < staying(b, now).len() ==> b.contains(#[trigger] staying(b, now)[i]),
    decreases b.len(),
{
    if b.len() > 0 {
        let q = b.drop_last();
        assert forall|i: int, j: int|
            0 <= i < q.len() && 0 <= j < q.len() && (#[trigger] q[i]).ip == (
            #[trigger] q[j]).ip implies i == j by {
            assert(b[i] == q[i] && b[j] == q[j]);
        }
        lemma_staying_distinct(q, now);
        let s = staying(q, now);
        let r = staying(b, now);
        assert(b[b.len() - 1] == b.last());
        assert forall|i: int| 0 <= i < s.len() implies b.contains(#[trigger] s[i]) && s[i].ip
            != b.last().ip by {
            let j = choose|j: int| 0 <= j < q.len() && q[j] == s[i];
            assert(b[j] == s[i]);
        }
        assert forall|i: int| 0 <= i < r.len() implies b.contains(#[trigger] r[i]) by {
            if i < s.len() {
                assert(r[i] == s[i]);
            }
        }
    }
}

/// Each address has one entry, whatever happens: forgetting, connecting, closing a
/// connection and settling a request keep it so.
pub proof fn law_addresses_are_told_apart(
    b: Seq<Bucket>,
    ip: IpAddr,
    max: usize,
    tokens: u64,
    now: u64,
)
    requires
        distinct_addresses(b),
    ensures
        distinct_addresses(staying(b, now)),
        distinct_addresses(connected(b, ip, max, now).0),
        distinct_addresses(disconnected(b, ip, now)),
        distinct_addresses(settled(b, ip, tokens, now)),
{
    lemma_staying_distinct(b, now);
    let s = staying(b, now);
    lemma_bucket_at(b, ip, 0);
    lemma_bucket_at(s, ip, 0);
    if !known(s, ip) {
        assert forall|i: int| 0 <= i < s.len() implies (#[trigger] s[i]).ip != ip by {
            lemma_not_known(s, ip, 0, i);
        }
    }
    if !known(b, ip) {
        assert forall|i: int| 0 <= i < b.len() implies (#[trigger] b[i]).ip != ip by {
            lemma_not_known(b, ip, 0, i);
        }
    }
}

/// An address with as many connections as it may have gets no more.
pub proof fn law_connections_are_bounded(b: Seq<Bucket>, ip: IpAddr, max: usize, now: u64)
    requires
        max > 0,
        known(staying(b, now), ip),
    ensures
        ({
            let s = staying(b, now);
            let k = bucket_at(s, ip, 0);
            connected(b, ip, max, now).1 <==> s[k].connections < max
        }),
{
}

/// The addresses that are remembered.
#[derive(Debug)]
pub struct AdmissionLimiter {
    buckets: Vec<Bucket>,
}

impl View for AdmissionLimiter {
    type V = Seq<Bucket>;

    closed spec fn view(&self) -> Seq<Bucket> {
        self.buckets@
    }
}

impl Default for AdmissionLimiter {
    fn default() -> (r: Self)
        ensures
            r@ == Seq::<Bucket>::empty(),
            distinct_addresses(r@),
    {
        AdmissionLimiter { buckets: Vec::new() }
    }
}

impl AdmissionLimiter {
    fn evict_old(&mut self, now: u64)
        ensures
            final(self)@ == staying(old(self)@, now),
    {
        let ghost b = self@;
        let mut kept: Vec<Bucket> = Vec::new();
        let mut i: usize = 0;
        assert(b.subrange(0, 0) =~= Seq::<Bucket>::empty());
        while i < self.buckets.len()
            invariant
                b == self.buckets@,
                i <= self.buckets@.len(),
                kept@ == staying(b.subrange(0, i as int), now),
            decreases self.buckets@.len() - i,
        {
            assert(b.subrange(0, i + 1).drop_last() =~= b.subrange(0, i as int));
            let x = self.buckets[i];
            let age: u64 = if now >= x.last_seen {
                now - x.last_seen
            } else {
                0
            };
            if (x.connections > 0 && age < FORGET_CONNECTED) || age < FORGET_IDLE {
                kept.push(x);
            }
            i = i + 1;
        }
        assert(b.subrange(0, b.len() as int) =~= b);
        self.buckets = kept;
    }

    fn find(&self, ip: IpAddr) -> (k: usize)
        ensures
            k == bucket_at(self@, ip, 0),
            k <= self@.len(),
    {
        let mut i: usize = 0;
        let n: usize = self.buckets.len();
        while i < n
            invariant
                n == self.buckets@.len(),
                i <= n,
                bucket_at(self@, ip, 0) == bucket_at(self@, ip, i as int),
            decreases n - i,
        {
            if self.buckets[i].ip == ip {
                return i;
            }
            i = i + 1;
        }
        n
    }

    /// Opens a connection of an address, which may have `max` of them; zero stands
    /// for any number.
    pub fn try_connection(&mut self, ip: IpAddr, max: usize, now: u64) -> (b: bool)
        ensures
            (final(self)@, b) == connected(old(self)@, ip, max, now),
            distinct_addresses(old(self)@) ==> distinct_addresses(final(self)@),
    {
        proof {
            if distinct_addresses(self@) {
                law_addresses_are_told_apart(self@, ip, max, 0, now);
            }
        }
        if max == 0 {
            return true;
        }
        self.evict_old(now);
        let k: usize = self.find(ip);
        let n: usize = self.buckets.len();
        if k >= n {
            if n >= MAX_ENTRIES {
                return false;
            }
            self.buckets.push(
                Bucket { ip, tokens: 0, updated: now, connections: 1, last_seen: now },
            );
            return true;
        }
        let x = self.buckets[k];
        if x.connections >= max {
            return false;
        }
        self.buckets.set(
            k,
            Bucket { connections: x.connections + 1, last_seen: now, ..x },
        );
        true
    }

    /// Closes a connection of an address.
    pub fn release_connection(&mut self, ip: IpAddr, now: u64)
        ensures
            final(self)@ == disconnected(old(self)@, ip, now),
            distinct_addresses(old(self)@) ==> distinct_addresses(final(self)@),
    {
        proof {
            if distinct_addresses(self@) {
                law_addresses_are_told_apart(self@, ip, 0, 0, now);
            }
        }
        let k: usize = self.find(ip);
        if k < self.buckets.len() {
            let x = self.buckets[k];
            let left: usize = if x.connections == 0 {
                0
            } else {
                x.connections - 1
            };
            self.buckets.set(k, Bucket { connections: left, last_seen: now, ..x });
        }
    }

    /// What decides about a request. Where it is a level, the tokens that are left
    /// are settled afterwards.
    pub fn allow_request(&mut self, ip: IpAddr, rate: u32, burst: u32, now: u64) -> (r: Admission)
        ensures
            r == admission(old(self)@, ip, rate, burst, now),
            final(self)@ == (if rate == 0 || burst == 0 {
                old(self)@
            } else {
                staying(old(self)@, now)
            }),
            distinct_addresses(old(self)@) ==> distinct_addresses(final(self)@),
    {
        proof {
            if distinct_addresses(self@) {
                law_addresses_are_told_apart(self@, ip, 0, 0, now);
            }
        }
        if rate == 0 || burst == 0 {
            return Admission::Unlimited;
        }
        self.evict_old(now);
        let k: usize = self.find(ip);
        let n: usize = self.buckets.len();
        if k >= n {
            if n >= MAX_ENTRIES {
                return Admission::Refused;
            }
            return Admission::Full;
        }
        let x = self.buckets[k];
        let ago: u64 = if now >= x.updated {
            now - x.updated
        } else {
            0
        };
        Admission::Level { tokens: x.tokens, ago }
    }

    /// Settles how many tokens, in bits, an address has left.
    pub fn settle(&mut self, ip: IpAddr, tokens: u64, now: u64)
        ensures
            final(self)@ == settled(old(self)@, ip, tokens, now),
            distinct_addresses(old(self)@) ==> distinct_addresses(final(self)@),
    {
        proof {
            if distinct_addresses(self@) {
                law_addresses_are_told_apart(self@, ip, 0, tokens, now);
            }
        }
        let k: usize = self.find(ip);
        if k < self.buckets.len() {
            let x = self.buckets[k];
            self.buckets.set(
                k,
                Bucket { ip, tokens, updated: now, connections: x.connections, last_seen: now },
            );
        } else {
            self.buckets.push(
                Bucket { ip, tokens, updated: now, connections: 0, last_seen: now },
            );
        }
    }
}

} // verus!
