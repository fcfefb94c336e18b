//! Where upstreams and responders listen, and how a connection with them is judged.

use crate::bytes::{sub_at, sub_find};
use crate::laws::texts::{
    lemma_decimal_is_digits, lemma_one_word, lemma_split_more, lemma_uncut, lemma_words_more,
    unspaced,
};
use crate::router::path::components;
use crate::server::cgi_request::{cgi_refusal, endpoint_of, EndpointView};
use crate::server::connect::authority_of;
use crate::server::fastcgi::lies_below;
use crate::server::fault::{status_for, FaultKind, FaultView};
use crate::server::health::{answers_well, next_turn, probe_line, turn_of};
use crate::server::http::{answer_to, HttpParseError, MethodView, RequestView};
use crate::server::pool::{first_with, fresh, given_back, taken, with_key, IdleView};
use crate::server::proxy::{candidates, nonempty};
use crate::server::websocket::{
    asks_in_order, base64_decoded, reads_client, reads_upstream, upgrade_key, RelayView,
};
use crate::text::{
    decimal, has_char, law_decimal_reads_back, same_name, split, starts_with, trim, words,
};
use vstd::prelude::*;
use vstd::utf8::encode_utf8;

verus! {

/// An upstream is reached at the address behind its scheme, and no other scheme is taken.
pub proof fn law_upstreams_are_named_by_their_address(a: Seq<char>)
    ensures
        authority_of("http://"@ + a) == Ok::<_, FaultView>(a),
        !starts_with(a, "http://"@) ==> authority_of(a) is Err,
{
    reveal_strlit("http://");
    let s = "http://"@ + a;
    assert(s.subrange(0, "http://"@.len() as int) =~= "http://"@);
    assert(s.skip("http://"@.len() as int) =~= a);
}

/// A responder listens at the socket or at the address behind its scheme, and no other
/// scheme is taken.
pub proof fn law_responders_are_named_by_their_address(a: Seq<char>)
    ensures
        endpoint_of("unix:"@ + a) == Ok::<_, FaultView>(EndpointView::Unix(a)),
        endpoint_of("tcp://"@ + a) == Ok::<_, FaultView>(EndpointView::Tcp(a)),
        !starts_with(a, "unix:"@) && !starts_with(a, "tcp://"@) ==> endpoint_of(a) is Err,
{
    reveal_strlit("unix:");
    reveal_strlit("tcp://");
    let s = "unix:"@ + a;
    let t = "tcp://"@ + a;
    assert(s.subrange(0, "unix:"@.len() as int) =~= "unix:"@);
    assert(s.skip("unix:"@.len() as int) =~= a);
    assert(t.subrange(0, "tcp://"@.len() as int) =~= "tcp://"@);
    assert(t.skip("tcp://"@.len() as int) =~= a);
    assert(t[0] == 't');
    if starts_with(t, "unix:"@) {
        assert(t.subrange(0, "unix:"@.len() as int)[0] == 't');
    }
}

/// A route lists its upstreams between commas: one that is put behind the list comes after
/// all others, and blanks around it do not count.
pub proof fn law_routes_list_their_upstreams(l: Seq<char>, u: Seq<char>)
    requires
        !has_char(u, ','),
    ensures
        candidates(l + seq![','] + u) == (if trim(u).len() > 0 {
            candidates(l).push(trim(u))
        } else {
            candidates(l)
        }),
        candidates(u) == (if trim(u).len() > 0 {
            seq![trim(u)]
        } else {
            Seq::empty()
        }),
{
    lemma_split_more(l, ',', u);
    lemma_uncut(u, ',');
    let s = split(l, ',');
    assert(s.push(u).drop_last() =~= s);
    assert(seq![u].drop_last() =~= Seq::<Seq<char>>::empty());
    assert(nonempty(Seq::<Seq<char>>::empty()) =~= Seq::<Seq<char>>::empty());
}

/// Each request to an upstream list has its turn, and the turns are counted up.
pub proof fn law_turns_count_up(m: Map<Seq<char>, usize>, key: Seq<char>, other: Seq<char>)
    ensures
        !m.contains_key(key) ==> turn_of(m, key) == 0,
        turn_of(m, key) < usize::MAX ==> turn_of(m.insert(key, next_turn(turn_of(m, key))), key)
            == turn_of(m, key) + 1,
        other != key ==> turn_of(m.insert(key, next_turn(turn_of(m, key))), other) == turn_of(
            m,
            other,
        ),
{
}

proof fn lemma_first_newline(a: Seq<u8>, rest: Seq<u8>, i: int)
    requires
        0 <= i <= a.len(),
        forall|j: int| 0 <= j < a.len() ==> #[trigger] a[j] != 10,
    ensures
        sub_find(a + seq![10u8] + rest, seq![10u8], i) == a.len(),
    decreases a.len() - i,
{
    let b = a + seq![10u8] + rest;
    if i < a.len() {
        assert(b[i] == a[i]);
        assert(!sub_at(b, seq![10u8], i)) by {
            if sub_at(b, seq![10u8], i) {
                assert(b.subrange(i, i + 1)[0] == a[i]);
            }
        }
        lemma_first_newline(a, rest, i + 1);
    } else {
        assert(b.subrange(i, i + 1) =~= seq![10u8]);
        assert(sub_at(b, seq![10u8], i));
    }
}

/// An upstream works where it answers a probe with a status from 200 to 499, whatever else
/// it says.
pub proof fn law_probes_are_judged_by_their_status(
    version: Seq<char>,
    status: u16,
    line: Seq<u8>,
    rest: Seq<u8>,
)
    requires
        unspaced(version),
        version.len() > 0,
        line == encode_utf8(version + seq![' '] + decimal(status as nat)),
        forall|j: int| 0 <= j < line.len() ==> #[trigger] line[j] != 10,
    ensures
        answers_well(line + seq![10u8] + rest) <==> 200 <= status <= 499,
{
    let b = line + seq![10u8] + rest;
    let t = version + seq![' '] + decimal(status as nat);
    lemma_first_newline(line, rest, 0);
    assert(probe_line(b) =~= line);
    vstd::utf8::encode_utf8_valid_utf8(t);
    vstd::utf8::encode_utf8_decode_utf8(t);
    lemma_decimal_is_digits(status as nat);
    lemma_one_word(version);
    lemma_words_more(version, decimal(status as nat));
    assert(words(t)[1] == decimal(status as nat));
    law_decimal_reads_back(status as nat, 65535);
}

/// A request that could not be read is answered with the status that says why.
pub proof fn law_unreadable_requests_are_told_why(e: HttpParseError)
    ensures
        answer_to(HttpParseError::UnsupportedVersion).number() == 505,
        answer_to(HttpParseError::ChunkedEncodingNotImplemented).number() == 501,
        answer_to(HttpParseError::OversizedRequestLine).number() == 414,
        answer_to(HttpParseError::OversizedHeader).number() == 431,
        answer_to(HttpParseError::OversizedHeaderLine).number() == 431,
        answer_to(HttpParseError::TooManyHeaders).number() == 431,
        answer_to(HttpParseError::OversizedBody).number() == 413,
        answer_to(HttpParseError::Timeout).number() == 408,
        !(e is UnsupportedVersion) && !(e is ChunkedEncodingNotImplemented) && !(
        e is OversizedRequestLine) && !(e is OversizedHeader) && !(e is OversizedHeaderLine) && !(
        e is TooManyHeaders) && !(e is OversizedBody) && !(e is Timeout) ==> answer_to(e).number()
            == 400,
{
}

/// A body that came too late or not in full is the client's fault; any other failure is one
/// of the way to the upstream.
pub proof fn law_failed_bodies_are_told_apart(kind: FaultKind)
    ensures
        status_for(kind).number() == (if kind == FaultKind::TimedOut || kind
            == FaultKind::UnexpectedEof {
            408int
        } else {
            502int
        }),
{
}

/// Scripts lie below a directory exactly where its names begin theirs.
pub proof fn law_scripts_lie_below_their_directory(dir: Seq<char>, path: Seq<char>, rest: Seq<Seq<char>>)
    ensures
        components(path) == components(dir) + rest ==> lies_below(dir, path),
        lies_below(dir, path) ==> exists|r: Seq<Seq<char>>|
            components(path) == #[trigger] (components(dir) + r),
{
    let d = components(dir);
    let p = components(path);
    if p == d + rest {
        assert(p.subrange(0, d.len() as int) =~= d);
    }
    if lies_below(dir, path) {
        let r = p.subrange(d.len() as int, p.len() as int);
        assert(p =~= d + r);
    }
}

/// No responder is asked about an unknown method or about scripts outside of the root; any
/// other request goes to one.
pub proof fn law_responders_are_asked_about_their_scripts(
    m: MethodView,
    root: Seq<char>,
    scripts: Seq<char>,
)
    ensures
        m is Other ==> (cgi_refusal(m, root, scripts) matches Some(r) && r.status.number() == 405
            && r.close_connection),
        !(m is Other) && !lies_below(root, scripts) ==> (cgi_refusal(m, root, scripts) matches Some(
            r,
        ) && r.status.number() == 502 && r.close_connection),
        !(m is Other) && lies_below(root, scripts) ==> cgi_refusal(m, root, scripts) is None,
{
}

/// A relay reads no more from a side while what it read there is not passed on, or once that
/// side is closed; else it does.
pub proof fn law_relays_read_when_nothing_waits(r: RelayView)
    ensures
        r.client_closed || r.to_upstream.len() > 0 ==> !reads_client(r),
        !r.client_closed && r.to_upstream.len() == 0 ==> reads_client(r),
        r.upstream_closed || r.to_client.len() > 0 ==> !reads_upstream(r),
        !r.upstream_closed && r.to_client.len() == 0 ==> reads_upstream(r),
{
}

/// An upgrade is in order exactly where the request has the known version and a key of
/// sixteen bytes. `k` and `v` are the places of the two headers.
pub proof fn law_upgrades_need_a_key_and_a_version(req: RequestView, k: int, v: int)
    requires
        0 <= k < req.headers.len(),
        0 <= v < req.headers.len(),
        forall|i: int|
            0 <= i < req.headers.len() ==> (same_name(
                (#[trigger] req.headers[i]).0,
                "Sec-WebSocket-Key"@,
            ) <==> i == k),
        forall|i: int|
            0 <= i < req.headers.len() ==> (same_name(
                (#[trigger] req.headers[i]).0,
                "Sec-WebSocket-Version"@,
            ) <==> i == v),
    ensures
        upgrade_key(req) == req.headers[k].1,
        asks_in_order(req) <==> req.headers[v].1 == "13"@ && (base64_decoded(
            encode_utf8(req.headers[k].1),
        ) matches Some(d) && d.len() == 16),
{
    crate::laws::headers::law_the_first_header_counts(req.headers, "Sec-WebSocket-Key"@, k);
    crate::laws::headers::law_the_first_header_counts(req.headers, "Sec-WebSocket-Version"@, v);
}

proof fn lemma_none_with<T>(p: Seq<IdleView<T>>, key: Seq<char>, now: u64)
    requires
        forall|i: int| 0 <= i < p.len() ==> (#[trigger] p[i]).key != key,
    ensures
        forall|i: int| 0 <= i < fresh(p, now).len() ==> (#[trigger] fresh(p, now)[i]).key != key,
        fresh(p, now).len() <= p.len(),
        with_key(p, key) == 0,
    decreases p.len(),
{
    if p.len() > 0 {
        let l = p.drop_last();
        assert(p.last() == p[p.len() - 1]);
        assert forall|i: int| 0 <= i < l.len() implies (#[trigger] l[i]).key != key by {
            assert(l[i] == p[i]);
        }
        lemma_none_with(l, key, now);
    }
}

proof fn lemma_first_is_behind<T>(p: Seq<IdleView<T>>, key: Seq<char>, i: int, k: int)
    requires
        0 <= i <= k <= p.len(),
        forall|j: int| i <= j < k ==> (#[trigger] p[j]).key != key,
        k < p.len() ==> p[k].key == key,
    ensures
        first_with(p, key, i) == k,
    decreases k - i,
{
    if i < k {
        lemma_first_is_behind(p, key, i + 1, k);
    }
}

/// A connection that was given back is given out again to the next request for the same
/// upstream, until it was idle for too long; a request for another one does not get it.
pub proof fn law_connections_are_given_out_again<T>(
    p: Seq<IdleView<T>>,
    key: Seq<char>,
    other: Seq<char>,
    stream: T,
    now: u64,
    later: u64,
)
    requires
        now <= later,
        p.len() < 256,
        forall|i: int| 0 <= i < p.len() ==> (#[trigger] p[i]).key != key && p[i].key != other,
    ensures
        taken(given_back(p, key, stream, now), key, later).1 == (if later - now <= 30000 {
            Some(stream)
        } else {
            None
        }),
        other != key ==> taken(given_back(p, key, stream, now), other, later).1 is None,
{
    let f = fresh(p, now);
    lemma_none_with(p, key, now);
    lemma_none_with(p, other, now);
    lemma_none_with(f, key, now);
    let x = IdleView { key, stream, inserted: now };
    let g = f.push(x);
    assert(given_back(p, key, stream, now) == g);
    assert forall|j: int| 0 <= j < f.len() implies (#[trigger] g[j]).key != key && g[j].key
        != other by {
        assert(g[j] == f[j]);
    }
    lemma_first_is_behind(g, key, 0, f.len() as int);
    assert(g.remove(f.len() as int) =~= f);
    lemma_first_is_behind(f, key, 0, f.len() as int);
    assert(taken(f, key, later).1 is None);
    if other != key {
        lemma_first_is_behind(g, other, 0, g.len() as int);
    }
}

} // verus!
