//! WebSocket upgrades and the relay that follows them.

use crate::bytes::{
    blank, blank_line, bytes_of, find_bytes, part_bytes, push_bytes, sub_find, utf8_text,
};
use crate::config::types::pairs;
use crate::server::health::elapsed;
use crate::server::http::{header_value, HttpRequest, RequestView};
use crate::server::proxy::MAX_UPSTREAM_HEADERS;
use crate::server::record::text_or_nothing;
use crate::server::upstream::{header_block, header_ok, hop_by_hop, is_hop_by_hop, valid_header};
use crate::text::{
    after, before, chars_of, find_of, has_char, is_name, is_text, part, push_str, push_text, same,
    same_name, split_crlf, split_crlf_of, starts_with, starts_with_str, string_of, texts, trim,
    trim_of,
};
use base64::Engine;
use sha1::Digest;
use vstd::prelude::*;
use vstd::utf8::{decode_utf8, encode_utf8, valid_utf8};

verus! {

/// What is put behind the key of an upgrade before it is hashed.
pub const ACCEPT_SUFFIX: &'static str = "258EAFA5-E914-47DA-95CA-C5AB0DC85B11";

/// The number of bytes that the key of an upgrade stands for.
pub const KEY_BYTES: usize = 16;

/// The padded standard base64 form of some bytes.
pub uninterp spec fn base64_encoded(b: Seq<u8>) -> Seq<char>;

/// The bytes that a padded standard base64 form stands for.
pub uninterp spec fn base64_decoded(b: Seq<u8>) -> Option<Seq<u8>>;

/// The SHA-1 digest of some bytes.
pub uninterp spec fn sha1_digest(b: Seq<u8>) -> Seq<u8>;

/// `encode` of the engine `STANDARD` of `base64`: a function of the bytes. Nothing is
/// said of what the form is.
#[verifier::external_body]
pub(crate) fn base64_encode(b: &[u8]) -> (r: String)
    ensures
        r@ == base64_encoded(b@),
{
    base64::engine::general_purpose::STANDARD.encode(b)
}

/// `decode` of the engine `STANDARD` of `base64`: a function of the bytes, none where
/// they are no such form. Nothing is said of what the result is.
#[verifier::external_body]
pub(crate) fn base64_decode(b: &[u8]) -> (r: Option<Vec<u8>>)
    ensures
        match r {
            Some(v) => base64_decoded(b@) == Some(v@),
            None => base64_decoded(b@) is None,
        },
{
    base64::engine::general_purpose::STANDARD.decode(b).ok()
}

/// `Sha1::digest` of `sha1`: a function of the bytes, of twenty bytes. Nothing is said
/// of what the digest is.
#[verifier::external_body]
pub(crate) fn sha1_of(b: &[u8]) -> (r: Vec<u8>)
    ensures
        r@ == sha1_digest(b@),
        r@.len() == 20,
{
    sha1::Sha1::digest(b).to_vec()
}

/// What the server of a WebSocket answers to a key.
pub open spec fn accept_for(key: Seq<char>) -> Seq<char> {
    base64_encoded(sha1_digest(encode_utf8(key) + encode_utf8(ACCEPT_SUFFIX@)))
}

/// What the server of a WebSocket answers to a key.
pub fn websocket_accept(key: &str) -> (r: String)
    ensures
        r@ == accept_for(key@),
{
    let mut b = bytes_of(key);
    let suffix = bytes_of(ACCEPT_SUFFIX);
    push_bytes(&mut b, suffix.as_slice());
    let d = sha1_of(b.as_slice());
    base64_encode(d.as_slice())
}

/// An upgrade is in order when its key stands for so many bytes and it names that
/// version.
pub fn upgrade_in_order(key_bytes: usize, version: Option<&str>) -> (b: bool)
    ensures
        b == (key_bytes == KEY_BYTES && (version matches Some(v) && v@ == "13"@)),
{
    match version {
        Some(v) => key_bytes == KEY_BYTES && is_text(&chars_of(v), "13"),
        None => false,
    }
}

/// The key of an upgrade, empty where there is none.
pub open spec fn upgrade_key(req: RequestView) -> Seq<char> {
    text_or_nothing(header_value(req.headers, "Sec-WebSocket-Key"@))
}

/// The upgrade that a request asks for is in order.
pub open spec fn asks_in_order(req: RequestView) -> bool {
    (base64_decoded(encode_utf8(upgrade_key(req))) matches Some(d) && d.len() == KEY_BYTES) && (
    header_value(req.headers, "Sec-WebSocket-Version"@) matches Some(v) && v == "13"@)
}

fn key_text(req: &HttpRequest) -> (r: String)
    ensures
        r@ == upgrade_key(req@),
{
    match req.get_header("Sec-WebSocket-Key") {
        Some(k) => string_of(&chars_of(k)),
        None => {
            let none: Vec<char> = Vec::new();
            assert(none@ =~= Seq::<char>::empty());
            string_of(&none)
        },
    }
}

/// Whether the upgrade that a request asks for is in order.
pub fn valid_upgrade(req: &HttpRequest) -> (b: bool)
    ensures
        b == asks_in_order(req@),
{
    let key = key_text(req);
    let bytes = bytes_of(key.as_str());
    let n: usize = match base64_decode(bytes.as_slice()) {
        Some(d) => d.len(),
        None => 0,
    };
    upgrade_in_order(n, req.get_header("Sec-WebSocket-Version"))
}

/// A header of an upgrade that the upstream gets.
pub open spec fn goes_along(p: (Seq<char>, Seq<char>)) -> bool {
    !is_hop_by_hop(p.0) && header_ok(p.0, p.1)
}

/// The headers of an upgrade that the upstream gets.
pub open spec fn going_along(h: Seq<(Seq<char>, Seq<char>)>) -> Seq<(Seq<char>, Seq<char>)>
    decreases h.len(),
{
    if h.len() == 0 {
        h
    } else if goes_along(h.last()) {
        going_along(h.drop_last()).push(h.last())
    } else {
        going_along(h.drop_last())
    }
}

/// The upgrade that the upstream is asked for.
pub open spec fn upgrade_request(req: RequestView) -> Seq<char> {
    "GET "@ + req.uri + " HTTP/1.1\r\n"@ + header_block(going_along(req.headers))
        + "Connection: Upgrade\r\nUpgrade: websocket\r\n\r\n"@
}

fn push_going_along(out: &mut Vec<char>, h: &Vec<(String, String)>)
    ensures
        final(out)@ == old(out)@ + header_block(going_along(pairs(h@))),
{
    let ghost start = out@;
    let ghost p = pairs(h@);
    let mut i: usize = 0;
    assert(p.subrange(0, 0) =~= Seq::<(Seq<char>, Seq<char>)>::empty());
    assert(start + Seq::<char>::empty() =~= start);
    while i < h.len()
        invariant
            p == pairs(h@),
            i <= h@.len(),
            out@ == start + header_block(going_along(p.subrange(0, i as int))),
        decreases h@.len() - i,
    {
        let ghost f = going_along(p.subrange(0, i as int));
        let ghost x = p[i as int];
        assert(p.subrange(0, i + 1).drop_last() =~= p.subrange(0, i as int));
        assert(x == (h@[i as int].0@, h@[i as int].1@));
        let name = chars_of(h[i].0.as_str());
        let value = chars_of(h[i].1.as_str());
        if !hop_by_hop(&name) && valid_header(&name, &value) {
            push_text(out, &name);
            push_str(out, ": ");
            push_text(out, &value);
            push_str(out, "\r\n");
            assert(f.push(x).drop_last() =~= f);
            assert(out@ =~= start + (header_block(f) + x.0 + ": "@ + x.1 + "\r\n"@));
        }
        i = i + 1;
    }
    assert(p.subrange(0, p.len() as int) =~= p);
}

/// The upgrade that the upstream is asked for.
pub fn upgrade_head(req: &HttpRequest) -> (r: String)
    ensures
        r@ == upgrade_request(req@),
{
    let mut out = chars_of("GET ");
    push_str(&mut out, req.uri.as_str());
    push_str(&mut out, " HTTP/1.1\r\n");
    push_going_along(&mut out, &req.headers);
    push_str(&mut out, "Connection: Upgrade\r\nUpgrade: websocket\r\n\r\n");
    string_of(&out)
}

/// How far the upstream's answer to an upgrade has come.
#[derive(Debug, Clone, Copy, PartialEq, Eq, Structural)]
pub enum UpgradeProgress {
    More,
    /// The answer is too long; the connection is closed.
    GiveUp,
    Complete,
}

/// How far the upstream's answer to an upgrade has come.
pub fn upgrade_progress(response: &[u8]) -> (r: UpgradeProgress)
    ensures
        r == (if response@.len() > MAX_UPSTREAM_HEADERS {
            UpgradeProgress::GiveUp
        } else if sub_find(response@, blank_line(), 0) < response@.len() {
            UpgradeProgress::Complete
        } else {
            UpgradeProgress::More
        }),
{
    if response.len() > MAX_UPSTREAM_HEADERS {
        return UpgradeProgress::GiveUp;
    }
    let needle = blank();
    match find_bytes(response, needle.as_slice()) {
        Some(_) => UpgradeProgress::Complete,
        None => UpgradeProgress::More,
    }
}

/// The position of the first line with that name before its first colon, at or after
/// another, or the number of lines.
pub open spec fn line_named(l: Seq<Seq<char>>, name: Seq<char>, from: int) -> int
    decreases l.len() - from,
{
    if from >= l.len() {
        l.len() as int
    } else if has_char(l[from], ':') && same_name(before(l[from], ':'), name) {
        from
    } else {
        line_named(l, name, from + 1)
    }
}

/// The value behind the first line with that name.
pub open spec fn named_value(text: Seq<char>, name: Seq<char>) -> Option<Seq<char>> {
    let l = split_crlf(text);
    let k = line_named(l, name, 0);
    if 0 <= k < l.len() {
        Some(trim(after(l[k], ':')))
    } else {
        None
    }
}

/// What the client is told about the upstream's answer to an upgrade; nothing where
/// the upgrade is made.
pub open spec fn upgrade_objection(response: Seq<u8>, expected: Seq<char>) -> Option<Seq<char>> {
    let text = if valid_utf8(response) {
        decode_utf8(response)
    } else {
        Seq::empty()
    };
    if !starts_with(text, "HTTP/1.1 101 "@) {
        Some("upstream rejected WebSocket upgrade"@)
    } else if named_value(text, "Sec-WebSocket-Accept"@) != Some(expected) {
        Some("upstream WebSocket accept mismatch"@)
    } else {
        None
    }
}

fn named_value_of(text: &Vec<char>, name: &str) -> (r: Option<Vec<char>>)
    ensures
        match r {
            Some(v) => named_value(text@, name@) == Some(v@),
            None => named_value(text@, name@) is None,
        },
{
    let all = split_crlf_of(text);
    let ghost l = split_crlf(text@);
    let mut i: usize = 0;
    while i < all.len()
        invariant
            l == texts(all@),
            l == split_crlf(text@),
            i <= all@.len(),
            line_named(l, name@, 0) == line_named(l, name@, i as int),
        decreases all@.len() - i,
    {
        assert(l[i as int] == all@[i as int]@);
        let k: usize = find_of(&all[i], ':');
        proof {
            crate::text::lemma_find(l[i as int], ':');
        }
        if k < all[i].len() && is_name(&part(&all[i], 0, k), name) {
            return Some(trim_of(&part(&all[i], k + 1, all[i].len())));
        }
        i = i + 1;
    }
    None
}

/// What the client is told about the upstream's answer to an upgrade, where
/// `expected` is what the key asks for.
pub fn judge_upgrade(response: &[u8], expected: &str) -> (r: Option<&'static str>)
    ensures
        match r {
            Some(m) => upgrade_objection(response@, expected@) == Some(m@),
            None => upgrade_objection(response@, expected@) is None,
        },
{
    let text = match utf8_text(response) {
        Some(t) => chars_of(t.as_str()),
        None => {
            let none: Vec<char> = Vec::new();
            assert(none@ =~= Seq::<char>::empty());
            none
        },
    };
    if !starts_with_str(&text, "HTTP/1.1 101 ") {
        return Some("upstream rejected WebSocket upgrade");
    }
    match named_value_of(&text, "Sec-WebSocket-Accept") {
        Some(v) => {
            if same(&v, &chars_of(expected)) {
                return None;
            }
        },
        None => {},
    }
    Some("upstream WebSocket accept mismatch")
}

/// What the client is told about the upstream's answer to its upgrade.
pub fn check_upgrade(req: &HttpRequest, response: &[u8]) -> (r: Option<&'static str>)
    ensures
        match r {
            Some(m) => upgrade_objection(response@, accept_for(upgrade_key(req@))) == Some(m@),
            None => upgrade_objection(response@, accept_for(upgrade_key(req@))) is None,
        },
{
    let key = key_text(req);
    let expected = websocket_accept(key.as_str());
    judge_upgrade(response, expected.as_str())
}

/// What came of a read or a write.
#[derive(Debug, PartialEq, Eq)]
pub enum IoEvent {
    /// Bytes were read.
    Data(Vec<u8>),
    /// So many bytes were written.
    Wrote(usize),
    /// The other side closed.
    Closed,
    /// Nothing can be read or written just now.
    Idle,
}


/// A relay between a client and an upstream.
#[derive(Debug)]
pub struct RelayState {
    to_upstream: Vec<u8>,
    to_client: Vec<u8>,
    client_closed: bool,
    upstream_closed: bool,
    last: u64,
    progressed: bool,
}

#[verifier::ext_equal]
pub struct RelayView {
    /// What the client sent and the upstream did not get yet.
    pub to_upstream: Seq<u8>,
    /// What the upstream sent and the client did not get yet.
    pub to_client: Seq<u8>,
    pub client_closed: bool,
    pub upstream_closed: bool,
    /// When bytes were last moved, in milliseconds.
    pub last: u64,
    /// Bytes were moved in this round.
    pub progressed: bool,
}

impl View for RelayState {
    type V = RelayView;

    closed spec fn view(&self) -> RelayView {
        RelayView {
            to_upstream: self.to_upstream@,
            to_client: self.to_client@,
            client_closed: self.client_closed,
            upstream_closed: self.upstream_closed,
            last: self.last,
            progressed: self.progressed,
        }
    }
}

/// The bytes that are left after some were written.
pub open spec fn unwritten(pending: Seq<u8>, n: nat) -> Seq<u8> {
    if n <= pending.len() {
        pending.subrange(n as int, pending.len() as int)
    } else {
        Seq::empty()
    }
}

/// A read from the client is due.
pub open spec fn reads_client(r: RelayView) -> bool {
    !r.client_closed && r.to_upstream.len() == 0
}

/// A read from the upstream is due.
pub open spec fn reads_upstream(r: RelayView) -> bool {
    !r.upstream_closed && r.to_client.len() == 0
}

/// The relay is over: the upstream closed and all that it sent was delivered, or
/// nothing moved for too long.
pub open spec fn relay_over(r: RelayView, now: u64, timeout: u64) -> bool {
    (r.upstream_closed && r.to_client.len() == 0) || elapsed(r.last, now) >= timeout
}

impl RelayState {
    pub fn new(now: u64) -> (r: Self)
        ensures
            r@ == (RelayView {
                to_upstream: Seq::empty(),
                to_client: Seq::empty(),
                client_closed: false,
                upstream_closed: false,
                last: now,
                progressed: false,
            }),
    {
        let r = RelayState {
            to_upstream: Vec::new(),
            to_client: Vec::new(),
            client_closed: false,
            upstream_closed: false,
            last: now,
            progressed: false,
        };
        assert(r@.to_upstream =~= Seq::<u8>::empty());
        assert(r@.to_client =~= Seq::<u8>::empty());
        r
    }

    /// Begins a round.
    pub fn begin_round(&mut self)
        ensures
            final(self)@ == (RelayView { progressed: false, ..old(self)@ }),
    {
        self.progressed = false;
    }

    pub fn wants_client(&self) -> (b: bool)
        ensures
            b == reads_client(self@),
    {
        !self.client_closed && self.to_upstream.len() == 0
    }

    pub fn wants_upstream(&self) -> (b: bool)
        ensures
            b == reads_upstream(self@),
    {
        !self.upstream_closed && self.to_client.len() == 0
    }

    /// Takes what a read from the client gave.
    pub fn client_read(&mut self, event: &IoEvent, now: u64)
        ensures
            final(self)@ == (match *event {
                IoEvent::Data(d) => RelayView {
                    to_upstream: old(self)@.to_upstream + d@,
                    last: now,
                    progressed: true,
                    ..old(self)@
                },
                IoEvent::Closed => RelayView { client_closed: true, ..old(self)@ },
                _ => old(self)@,
            }),
    {
        match event {
            IoEvent::Data(d) => {
                push_bytes(&mut self.to_upstream, d.as_slice());
                self.last = now;
                self.progressed = true;
            },
            IoEvent::Closed => {
                self.client_closed = true;
            },
            _ => {},
        }
    }

    /// Takes what a read from the upstream gave.
    pub fn upstream_read(&mut self, event: &IoEvent, now: u64)
        ensures
            final(self)@ == (match *event {
                IoEvent::Data(d) => RelayView {
                    to_client: old(self)@.to_client + d@,
                    last: now,
                    progressed: true,
                    ..old(self)@
                },
                IoEvent::Closed => RelayView { upstream_closed: true, ..old(self)@ },
                _ => old(self)@,
            }),
    {
        match event {
            IoEvent::Data(d) => {
                push_bytes(&mut self.to_client, d.as_slice());
                self.last = now;
                self.progressed = true;
            },
            IoEvent::Closed => {
                self.upstream_closed = true;
            },
            _ => {},
        }
    }

    /// What is to be written to the upstream.
    pub fn for_upstream(&self) -> (r: &[u8])
        ensures
            r@ == self@.to_upstream,
    {
        self.to_upstream.as_slice()
    }

    /// What is to be written to the client.
    pub fn for_client(&self) -> (r: &[u8])
        ensures
            r@ == self@.to_client,
    {
        self.to_client.as_slice()
    }

    /// Takes what came of a write to the upstream.
    pub fn upstream_written(&mut self, event: &IoEvent, now: u64)
        ensures
            final(self)@ == (match *event {
                IoEvent::Wrote(n) => RelayView {
                    to_upstream: unwritten(old(self)@.to_upstream, n as nat),
                    last: now,
                    progressed: true,
                    ..old(self)@
                },
                IoEvent::Closed => RelayView { upstream_closed: true, ..old(self)@ },
                _ => old(self)@,
            }),
    {
        match event {
            IoEvent::Wrote(n) => {
                let rest = rest_after(&self.to_upstream, *n);
                self.to_upstream = rest;
                self.last = now;
                self.progressed = true;
            },
            IoEvent::Closed => {
                self.upstream_closed = true;
            },
            _ => {},
        }
    }

    /// Takes what came of a write to the client.
    pub fn client_written(&mut self, event: &IoEvent, now: u64)
        ensures
            final(self)@ == (match *event {
                IoEvent::Wrote(n) => RelayView {
                    to_client: unwritten(old(self)@.to_client, n as nat),
                    last: now,
                    progressed: true,
                    ..old(self)@
                },
                IoEvent::Closed => RelayView { client_closed: true, ..old(self)@ },
                _ => old(self)@,
            }),
    {
        match event {
            IoEvent::Wrote(n) => {
                let rest = rest_after(&self.to_client, *n);
                self.to_client = rest;
                self.last = now;
                self.progressed = true;
            },
            IoEvent::Closed => {
                self.client_closed = true;
            },
            _ => {},
        }
    }

    /// Whether the relay is over.
    pub fn over(&self, now: u64, timeout: u64) -> (b: bool)
        ensures
            b == relay_over(self@, now, timeout),
    {
        let idle: u64 = if now >= self.last {
            now - self.last
        } else {
            0
        };
        (self.upstream_closed && self.to_client.len() == 0) || idle >= timeout
    }

    /// Whether nothing was moved in this round.
    pub fn stalled(&self) -> (b: bool)
        ensures
            b == !self@.progressed,
    {
        !self.progressed
    }
}

fn rest_after(pending: &Vec<u8>, n: usize) -> (r: Vec<u8>)
    ensures
        r@ == unwritten(pending@, n as nat),
{
    if n <= pending.len() {
        part_bytes(pending.as_slice(), n, pending.len())
    } else {
        let r: Vec<u8> = Vec::new();
        assert(r@ =~= Seq::<u8>::empty());
        r
    }
}

/// A step of one direction: bytes are read, or some that were read are written.
pub enum LaneStep {
    Read(Seq<u8>),
    Written(nat),
}

/// What was read, what was written and what is pending after some steps.
pub open spec fn lane_after(steps: Seq<LaneStep>) -> (Seq<u8>, Seq<u8>, Seq<u8>)
    decreases steps.len(),
{
    if steps.len() == 0 {
        (Seq::empty(), Seq::empty(), Seq::empty())
    } else {
        let (read, written, pending) = lane_after(steps.drop_last());
        match steps.last() {
            LaneStep::Read(d) => (read + d, written, pending + d),
            LaneStep::Written(n) => {
                let k = if n <= pending.len() {
                    n as int
                } else {
                    pending.len() as int
                };
                (read, written + pending.subrange(0, k), unwritten(pending, n))
            },
        }
    }
}

/// A relay loses nothing and keeps the order: what was written, and then what is
/// pending, is what was read.
pub proof fn law_relays_keep_every_byte_in_order(steps: Seq<LaneStep>)
    ensures
        ({
            let (read, written, pending) = lane_after(steps);
            read == written + pending
        }),
    decreases steps.len(),
{
    let (read, written, pending) = lane_after(steps);
    if steps.len() == 0 {
        assert(read =~= written + pending);
    } else {
        law_relays_keep_every_byte_in_order(steps.drop_last());
        let (r0, w0, p0) = lane_after(steps.drop_last());
        match steps.last() {
            LaneStep::Read(d) => {
                assert(read =~= written + pending);
            },
            LaneStep::Written(n) => {
                if n <= p0.len() {
                    assert(p0 =~= p0.subrange(0, n as int) + p0.subrange(
                        n as int,
                        p0.len() as int,
                    ));
                } else {
                    assert(p0.subrange(0, p0.len() as int) =~= p0);
                }
                assert(read =~= written + pending);
            },
        }
    }
}

/// A client that has closed its side still gets what the upstream sends: the relay
/// goes on while the upstream is open and bytes move.
pub proof fn law_half_closed_clients_are_served(r: RelayView, now: u64, timeout: u64)
    requires
        r.client_closed,
        !r.upstream_closed || r.to_client.len() > 0,
        elapsed(r.last, now) < timeout,
    ensures
        !relay_over(r, now, timeout),
{
}

} // verus!
