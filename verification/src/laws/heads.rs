//! Heads of HTTP/1.1 requests: those that clients send and those that upstreams get.

use crate::bytes::blank_line;
use crate::config::scan::{header_name_ok, header_value_ok, is_token_char};
use crate::config::types::ServerView;
use crate::config::veysrule::no_breaks;
use crate::laws::headers::law_names_are_compared_without_case;
use crate::laws::texts::{
    lemma_cut, lemma_decimal_is_digits, lemma_split_more, lemma_trim_is, lemma_trim_unspaced,
    lemma_uncut, one_line,
};
use crate::laws::wire::{law_blocks_read_back, lemma_crlf_bytes, lemma_encode_joins};
use crate::server::http::{
    all_letters, body_length, header_scan, header_value, method_named, method_text, no_controls,
    request_head, request_line, values_named, HeadView, HttpParseError, RequestView,
};
use crate::server::proxy::{
    forwarded, is_forwarded, law_forwarded_headers_are_safe, upstream_request, upstream_target,
};
use crate::server::record::text_or_nothing;
use crate::server::upstream::{header_block, header_ok, joined_lines};
use crate::text::{
    after, before, decimal, has_char, is_space, law_decimal_reads_back, same_name, split, trim,
    trim_end, trim_start, upper,
};
use vstd::prelude::*;
use vstd::utf8::encode_utf8;

verus! {

/// A header as a line.
pub open spec fn line_of(p: (Seq<char>, Seq<char>)) -> Seq<char> {
    p.0 + ": "@ + p.1
}

pub open spec fn lines_for(h: Seq<(Seq<char>, Seq<char>)>) -> Seq<Seq<char>> {
    Seq::new(h.len(), |i: int| line_of(h[i]))
}

pub open spec fn trimmed(h: Seq<(Seq<char>, Seq<char>)>) -> Seq<(Seq<char>, Seq<char>)> {
    Seq::new(h.len(), |i: int| (h[i].0, trim(h[i].1)))
}

/// The head of a request with these headers.
pub open spec fn written_head(
    method: Seq<char>,
    target: Seq<char>,
    h: Seq<(Seq<char>, Seq<char>)>,
) -> Seq<char> {
    method + " "@ + target + " HTTP/1.1"@ + "\r\n"@ + header_block(h) + "\r\n"@
}

pub proof fn lemma_block_lines(first: Seq<char>, h: Seq<(Seq<char>, Seq<char>)>)
    ensures
        first + "\r\n"@ + header_block(h) == joined_lines(seq![first] + lines_for(h)) + "\r\n"@,
    decreases h.len(),
{
    let l = seq![first] + lines_for(h);
    if h.len() == 0 {
        assert(l =~= seq![first]);
        assert(first + "\r\n"@ + header_block(h) =~= first + "\r\n"@);
    } else {
        let t = h.drop_last();
        lemma_block_lines(first, t);
        assert(l.drop_last() =~= seq![first] + lines_for(t));
        assert(l.last() == line_of(h.last()));
        let a = first + "\r\n"@;
        assert(a + header_block(h) =~= a + header_block(t) + line_of(h.last()) + "\r\n"@);
    }
}

proof fn lemma_trim_part(s: Seq<char>)
    requires
        no_breaks(s),
    ensures
        no_breaks(trim_start(s)),
        no_breaks(trim_end(s)),
    decreases s.len(),
{
    if s.len() > 0 {
        let a = s.subrange(1, s.len() as int);
        let b = s.drop_last();
        assert forall|i: int| 0 <= i < a.len() implies #[trigger] a[i] != '\r' && a[i] != '\n' by {
            assert(a[i] == s[i + 1]);
        }
        assert forall|i: int| 0 <= i < b.len() implies #[trigger] b[i] != '\r' && b[i] != '\n' by {
            assert(b[i] == s[i]);
        }
        lemma_trim_part(a);
        lemma_trim_part(b);
    }
}

proof fn lemma_trim_end_nonempty(s: Seq<char>)
    requires
        s.len() > 0,
        !is_space(s[0]),
    ensures
        trim_end(s).len() > 0,
    decreases s.len(),
{
    if is_space(s.last()) {
        assert(s.len() > 1);
        lemma_trim_end_nonempty(s.drop_last());
    }
}

proof fn lemma_trim_starts(s: Seq<char>)
    ensures
        trim_start(s).len() > 0 ==> !is_space(trim_start(s)[0]),
    decreases s.len(),
{
    if s.len() > 0 && is_space(s[0]) {
        lemma_trim_starts(s.subrange(1, s.len() as int));
    }
}

proof fn lemma_trim_ends(s: Seq<char>)
    ensures
        trim_end(s).len() > 0 ==> !is_space(trim_end(s).last()) && trim_end(s)[0] == s[0],
    decreases s.len(),
{
    if s.len() > 0 && is_space(s.last()) {
        lemma_trim_ends(s.drop_last());
    }
}

/// What was trimmed stays as it is.
pub proof fn lemma_trim_twice(s: Seq<char>)
    ensures
        trim(trim(s)) == trim(s),
{
    lemma_trim_starts(s);
    lemma_trim_ends(trim_start(s));
    lemma_trim_is(trim(s));
}

proof fn lemma_token_char(c: char)
    requires
        is_token_char(c),
    ensures
        c != ':',
        c != '\r',
        c != '\n',
        !is_space(c),
{
}

/// A header line is read as its name and its value.
pub proof fn lemma_header_line(p: (Seq<char>, Seq<char>))
    requires
        header_ok(p.0, p.1),
    ensures
        before(line_of(p), ':') == p.0,
        trim(after(line_of(p), ':')) == trim(p.1),
        has_char(line_of(p), ':'),
        trim(line_of(p)).len() > 0,
        no_breaks(trim(p.1)),
        line_of(p).len() > 0,
        one_line(line_of(p)),
{
    reveal_strlit(": ");
    assert(": "@ =~= seq![':', ' ']);
    let l = line_of(p);
    let v = seq![' '] + p.1;
    assert forall|i: int| 0 <= i < p.0.len() implies p.0[i] != ':' && !is_space(p.0[i]) && p.0[i]
        != '\r' && p.0[i] != '\n' by {
        lemma_token_char(p.0[i]);
    }
    assert(l =~= p.0 + seq![':'] + v);
    lemma_cut(p.0, ':', v);
    assert(is_space(' '));
    assert(v.subrange(1, v.len() as int) =~= p.1);
    assert(trim_start(v) == trim_start(p.1));
    assert(l[0] == p.0[0]);
    assert(!is_space(p.0[0]));
    lemma_trim_end_nonempty(l);
    assert(trim_start(l) == l);
    assert(no_breaks(p.1));
    lemma_trim_part(p.1);
    lemma_trim_part(trim_start(p.1));
    assert forall|i: int| 0 <= i < l.len() implies #[trigger] l[i] != '\r' && l[i] != '\n' by {
        if i < p.0.len() {
            assert(l[i] == p.0[i]);
        } else if i >= p.0.len() + 2 {
            assert(l[i] == p.1[i - p.0.len() - 2]);
        }
    }
}

proof fn lemma_scan(h: Seq<(Seq<char>, Seq<char>)>, c: ServerView)
    requires
        h.len() <= c.max_headers,
        forall|i: int|
            0 <= i < h.len() ==> header_ok((#[trigger] h[i]).0, h[i].1) && !same_name(
                h[i].0,
                "Transfer-Encoding"@,
            ) && encode_utf8(line_of(h[i])).len() <= c.max_header_line,
    ensures
        header_scan(lines_for(h), c) == Ok::<_, HttpParseError>(trimmed(h)),
    decreases h.len(),
{
    let l = lines_for(h);
    if h.len() == 0 {
        assert(trimmed(h) =~= Seq::<(Seq<char>, Seq<char>)>::empty());
    } else {
        let t = h.drop_last();
        assert forall|i: int| 0 <= i < t.len() implies header_ok((#[trigger] t[i]).0, t[i].1)
            && !same_name(t[i].0, "Transfer-Encoding"@) && encode_utf8(line_of(t[i])).len()
            <= c.max_header_line by {
            assert(t[i] == h[i]);
        }
        lemma_scan(t, c);
        assert(l.drop_last() =~= lines_for(t));
        let p = h[h.len() - 1];
        lemma_header_line(p);
        assert(l.last() == line_of(p));
        assert(trimmed(t).push((p.0, trim(p.1))) =~= trimmed(h));
    }
}

proof fn lemma_lines_are_short(l: Seq<Seq<char>>, i: int)
    requires
        0 <= i < l.len(),
    ensures
        encode_utf8(l[i]).len() <= encode_utf8(joined_lines(l)).len(),
    decreases l.len(),
{
    if l.len() > 1 {
        let j = joined_lines(l.drop_last());
        lemma_encode_joins(j + "\r\n"@, l.last());
        lemma_encode_joins(j, "\r\n"@);
        if i < l.len() - 1 {
            lemma_lines_are_short(l.drop_last(), i);
            assert(l.drop_last()[i] == l[i]);
        }
    }
}

proof fn lemma_request_line(method: Seq<char>, target: Seq<char>, c: ServerView)
    requires
        method.len() > 0,
        all_letters(method),
        target.len() > 0,
        no_controls(target),
        !has_char(target, ' '),
        encode_utf8(method + " "@ + target + " HTTP/1.1"@).len() <= c.max_header_line,
        encode_utf8(target).len() <= c.max_uri_length,
    ensures
        request_line(method + " "@ + target + " HTTP/1.1"@, c) == Ok::<_, HttpParseError>(
            (method_named(upper(method)), target),
        ),
        one_line(method + " "@ + target + " HTTP/1.1"@),
{
    reveal_strlit(" ");
    reveal_strlit(" HTTP/1.1");
    reveal_strlit("HTTP/1.1");
    assert(" "@ =~= seq![' ']);
    assert(" HTTP/1.1"@ =~= seq![' '] + "HTTP/1.1"@);
    let line = method + " "@ + target + " HTTP/1.1"@;
    let v = "HTTP/1.1"@;
    assert forall|i: int| 0 <= i < v.len() implies v[i] != ' ' && v[i] != '\t' && v[i] != '\r'
        && v[i] != '\n' by {
        assert(v[0] == 'H' && v[1] == 'T' && v[2] == 'T' && v[3] == 'P' && v[4] == '/' && v[5]
            == '1' && v[6] == '.' && v[7] == '1');
    }
    assert(!has_char(method, ' ')) by {
        assert forall|i: int| 0 <= i < method.len() implies method[i] != ' ' by {
            assert(crate::text::is_upper(method[i]) || crate::text::is_lower(method[i]));
        }
    }
    lemma_uncut(method, ' ');
    lemma_split_more(method, ' ', target);
    lemma_split_more(method + seq![' '] + target, ' ', v);
    assert(line =~= method + seq![' '] + target + seq![' '] + v);
    assert(split(line, ' ') =~= seq![method, target, v]);
    assert forall|i: int| 0 <= i < line.len() implies #[trigger] line[i] != '\t' && line[i] != '\r'
        && line[i] != '\n' by {
        if i < method.len() {
            assert(line[i] == method[i]);
        } else if i == method.len() {
        } else if i < method.len() + 1 + target.len() {
            assert(line[i] == target[i - method.len() - 1]);
            assert(line[i] as u32 > 31);
        } else if i > method.len() + 1 + target.len() {
            assert(line[i] == v[i - method.len() - target.len() - 2]);
        }
    }
}

/// The parts of a request head that can be written as they are.
pub open spec fn writable(
    method: Seq<char>,
    target: Seq<char>,
    h: Seq<(Seq<char>, Seq<char>)>,
) -> bool {
    &&& method.len() > 0
    &&& all_letters(method)
    &&& target.len() > 0
    &&& no_controls(target)
    &&& !has_char(target, ' ')
    &&& forall|i: int|
        0 <= i < h.len() ==> header_ok((#[trigger] h[i]).0, h[i].1) && !same_name(
            h[i].0,
            "Transfer-Encoding"@,
        )
}

/// The limits of a server leave room for a head.
pub open spec fn has_room(c: ServerView, head: Seq<char>, headers: nat) -> bool {
    let n = encode_utf8(head).len();
    n <= c.max_header_size && n <= c.max_header_line && n <= c.max_uri_length && headers
        <= c.max_headers
}

pub proof fn lemma_written_head(
    method: Seq<char>,
    target: Seq<char>,
    h: Seq<(Seq<char>, Seq<char>)>,
    more: Seq<u8>,
    c: ServerView,
)
    requires
        writable(method, target, h),
        has_room(c, written_head(method, target, h), h.len()),
    ensures
        ({
            let first = method + " "@ + target + " HTTP/1.1"@;
            let b = encode_utf8(written_head(method, target, h));
            let hosts = values_named(trimmed(h), "Host"@);
            &&& hosts.len() == 1 && trim(hosts[0]).len() > 0 ==> request_head(b + more, c) == match body_length(
                trimmed(h),
                c,
            ) {
                Ok(n) => Ok::<_, HttpParseError>(
                    Some(
                        HeadView {
                            method: method_named(upper(method)),
                            uri: target,
                            version: "HTTP/1.1"@,
                            headers: trimmed(h),
                            content_length: n,
                            header_len: b.len() as usize,
                        },
                    ),
                ),
                Err(e) => Err::<Option<HeadView>, _>(e),
            }
        }),
{
    let first = method + " "@ + target + " HTTP/1.1"@;
    let l = seq![first] + lines_for(h);
    let head = written_head(method, target, h);
    let b = encode_utf8(head);
    lemma_block_lines(first, h);
    lemma_crlf_bytes();
    let j = joined_lines(l);
    assert(head =~= first + "\r\n"@ + header_block(h) + "\r\n"@);
    lemma_encode_joins(j + "\r\n"@, "\r\n"@);
    lemma_encode_joins(j, "\r\n"@);
    let block = encode_utf8(j);
    assert(b =~= block + blank_line());
    assert(b + more =~= block + blank_line() + more);
    lemma_lines_are_short(l, 0);
    assert(l[0] == first);
    lemma_encode_joins(method + " "@ + target, " HTTP/1.1"@);
    lemma_encode_joins(method + " "@, target);
    lemma_request_line(method, target, c);
    assert forall|i: int| 0 <= i < h.len() implies header_ok((#[trigger] h[i]).0, h[i].1)
        && !same_name(h[i].0, "Transfer-Encoding"@) && encode_utf8(line_of(h[i])).len()
        <= c.max_header_line by {
        lemma_lines_are_short(l, i + 1);
        assert(l[i + 1] == line_of(h[i]));
    }
    assert forall|i: int| 0 <= i < l.len() implies (#[trigger] l[i]).len() > 0 && one_line(
        l[i],
    ) by {
        if i > 0 {
            assert(l[i] == line_of(h[i - 1]));
            lemma_header_line(h[i - 1]);
        }
    }
    law_blocks_read_back(l, more);
    lemma_scan(h, c);
    assert(l.subrange(1, l.len() as int) =~= lines_for(h));
    assert(b.len() == block.len() + 4);
}

pub proof fn lemma_no_values(h: Seq<(Seq<char>, Seq<char>)>, name: Seq<char>)
    requires
        forall|i: int| 0 <= i < h.len() ==> !same_name((#[trigger] h[i]).0, name),
    ensures
        values_named(h, name) == Seq::<Seq<char>>::empty(),
    decreases h.len(),
{
    if h.len() > 0 {
        let t = h.drop_last();
        assert forall|i: int| 0 <= i < t.len() implies !same_name((#[trigger] t[i]).0, name) by {
            assert(t[i] == h[i]);
        }
        lemma_no_values(t, name);
        assert(!same_name(h[h.len() - 1].0, name));
    }
}

pub proof fn lemma_one_value(h: Seq<(Seq<char>, Seq<char>)>, name: Seq<char>, k: int)
    requires
        0 <= k < h.len(),
        same_name(h[k].0, name),
        forall|i: int| 0 <= i < h.len() && i != k ==> !same_name((#[trigger] h[i]).0, name),
    ensures
        values_named(h, name) == seq![h[k].1],
    decreases h.len(),
{
    let t = h.drop_last();
    if k == h.len() - 1 {
        assert forall|i: int| 0 <= i < t.len() implies !same_name((#[trigger] t[i]).0, name) by {
            assert(t[i] == h[i]);
        }
        lemma_no_values(t, name);
        assert(values_named(h, name) =~= seq![h[k].1]);
    } else {
        assert forall|i: int| 0 <= i < t.len() && i != k implies !same_name(
            (#[trigger] t[i]).0,
            name,
        ) by {
            assert(t[i] == h[i]);
        }
        lemma_one_value(t, name, k);
        assert(!same_name(h[h.len() - 1].0, name));
    }
}

/// A head that a client writes is read back as it was written: its method in capitals, its
/// target, its headers in their order, its length and, where it announces one, the length
/// of the body behind it. `host` and `length` are the places of those two headers; no
/// length is announced where `length` is the number of headers.
pub proof fn law_heads_read_back(
    method: Seq<char>,
    target: Seq<char>,
    h: Seq<(Seq<char>, Seq<char>)>,
    host: int,
    length: int,
    n: nat,
    more: Seq<u8>,
    c: ServerView,
)
    requires
        writable(method, target, h),
        has_room(c, written_head(method, target, h), h.len()),
        forall|i: int| 0 <= i < h.len() ==> trim((#[trigger] h[i]).1) == h[i].1,
        0 <= host < h.len(),
        forall|i: int| 0 <= i < h.len() ==> (same_name((#[trigger] h[i]).0, "Host"@) <==> i == host),
        h[host].1.len() > 0,
        0 <= length <= h.len(),
        forall|i: int|
            0 <= i < h.len() ==> (same_name((#[trigger] h[i]).0, "Content-Length"@) <==> i
                == length),
        length < h.len() ==> h[length].1 == decimal(n),
        length == h.len() ==> n == 0,
        n <= usize::MAX,
    ensures
        ({
            let b = encode_utf8(written_head(method, target, h));
            let r = request_head(b + more, c);
            if n <= c.max_request_size {
                &&& r matches Ok(Some(q))
                &&& method_text(q.method) == upper(method)
                &&& q.uri == target
                &&& q.version == "HTTP/1.1"@
                &&& q.headers == h
                &&& q.content_length == n
                &&& q.header_len == b.len()
            } else {
                r == Err::<Option<HeadView>, _>(HttpParseError::OversizedBody)
            }
        }),
{
    lemma_written_head(method, target, h, more, c);
    assert(trimmed(h) =~= h);
    lemma_one_value(h, "Host"@, host);
    if length < h.len() {
        lemma_one_value(h, "Content-Length"@, length);
        law_decimal_reads_back(n, usize::MAX as nat);
    } else {
        lemma_no_values(h, "Content-Length"@);
    }
    crate::laws::h2_requests::law_methods_keep_their_names(upper(method));
    lemma_head_fits(method, target, h, c);
}

pub proof fn lemma_head_fits(
    method: Seq<char>,
    target: Seq<char>,
    h: Seq<(Seq<char>, Seq<char>)>,
    c: ServerView,
)
    requires
        has_room(c, written_head(method, target, h), h.len()),
    ensures
        encode_utf8(written_head(method, target, h)).len() <= usize::MAX,
{
}

proof fn lemma_forwarded(h: Seq<(Seq<char>, Seq<char>)>)
    ensures
        forall|i: int| 0 <= i < forwarded(h).len() ==> is_forwarded(#[trigger] forwarded(h)[i]),
        forall|i: int|
            0 <= i < h.len() && is_forwarded(#[trigger] h[i]) ==> forwarded(h).contains(h[i]),
        forwarded(h).len() <= h.len(),
    decreases h.len(),
{
    assert forall|i: int| 0 <= i < forwarded(h).len() implies is_forwarded(
        #[trigger] forwarded(h)[i],
    ) by {
        law_forwarded_headers_are_safe(h, i);
    }
    if h.len() > 0 {
        let t = h.drop_last();
        lemma_forwarded(t);
        let f = forwarded(t);
        assert forall|i: int| 0 <= i < h.len() && is_forwarded(#[trigger] h[i]) implies forwarded(
            h,
        ).contains(h[i]) by {
            if i < t.len() {
                assert(t[i] == h[i]);
                let j = choose|j: int| 0 <= j < f.len() && f[j] == h[i];
                assert(forwarded(h)[j] == h[i]);
            } else {
                assert(forwarded(h)[f.len() as int] == h[i]);
            }
        }
    }
}

/// The target that an upstream gets is what follows the prefix of the route, or the root
/// where nothing does.
pub proof fn law_prefixes_are_taken_off(prefix: Seq<char>, rest: Seq<char>)
    ensures
        rest.len() > 0 ==> upstream_target(prefix + rest, prefix) == rest,
        upstream_target(prefix, prefix) == "/"@,
{
    let u = prefix + rest;
    assert(u.subrange(0, prefix.len() as int) =~= prefix);
    assert(u.subrange(prefix.len() as int, u.len() as int) =~= rest);
    assert(prefix.subrange(0, prefix.len() as int) =~= prefix);
}

/// The headers that an upstream gets of a request: those that are passed on, and those that
/// say whom the request is from.
pub open spec fn upstream_headers(
    req: RequestView,
    peer: Seq<char>,
    secure: bool,
    keep: bool,
    length: nat,
) -> Seq<(Seq<char>, Seq<char>)> {
    let host = text_or_nothing(header_value(req.headers, "Host"@));
    forwarded(req.headers) + seq![
        ("Host"@, host),
        ("X-Forwarded-For"@, peer),
        (
            "X-Forwarded-Proto"@,
            if secure {
                "https"@
            } else {
                "http"@
            },
        ),
        ("X-Forwarded-Host"@, host),
        (
            "Connection"@,
            if keep {
                "keep-alive"@
            } else {
                "close"@
            },
        ),
        ("Content-Length"@, decimal(length)),
    ]
}

proof fn lemma_block_joins(a: Seq<(Seq<char>, Seq<char>)>, b: Seq<(Seq<char>, Seq<char>)>)
    ensures
        header_block(a + b) == header_block(a) + header_block(b),
    decreases b.len(),
{
    if b.len() == 0 {
        assert(a + b =~= a);
        assert(header_block(a) + header_block(b) =~= header_block(a));
    } else {
        let t = b.drop_last();
        lemma_block_joins(a, t);
        assert((a + b).drop_last() =~= a + t);
        assert((a + b).last() == b.last());
        assert(header_block(a + b) =~= header_block(a) + header_block(b));
    }
}

pub proof fn lemma_one_header(h: Seq<(Seq<char>, Seq<char>)>, p: (Seq<char>, Seq<char>))
    ensures
        header_block(h.push(p)) == header_block(h) + line_of(p) + "\r\n"@,
{
    assert(h.push(p).drop_last() =~= h);
    assert(header_block(h.push(p)) =~= header_block(h) + line_of(p) + "\r\n"@);
}

pub proof fn lemma_next_header(
    start: Seq<char>,
    h: Seq<(Seq<char>, Seq<char>)>,
    text: Seq<char>,
    opening: Seq<char>,
    name: Seq<char>,
    value: Seq<char>,
)
    requires
        text + "\r\n"@ == start + header_block(h),
        opening == "\r\n"@ + name + ": "@,
    ensures
        text + opening + value + "\r\n"@ == start + header_block(h.push((name, value))),
{
    lemma_one_header(h, (name, value));
    let l = line_of((name, value));
    assert(text + opening + value =~= (text + "\r\n"@) + l);
    assert((start + header_block(h)) + l + "\r\n"@ =~= start + (header_block(h) + l + "\r\n"@));
}

proof fn lemma_openings()
    ensures
        " HTTP/1.1\r\n"@ == " HTTP/1.1"@ + "\r\n"@,
        "Host: "@ == "Host"@ + ": "@,
        "\r\nX-Forwarded-For: "@ == "\r\n"@ + "X-Forwarded-For"@ + ": "@,
        "\r\nX-Forwarded-Proto: "@ == "\r\n"@ + "X-Forwarded-Proto"@ + ": "@,
        "\r\nX-Forwarded-Host: "@ == "\r\n"@ + "X-Forwarded-Host"@ + ": "@,
        "\r\nConnection: "@ == "\r\n"@ + "Connection"@ + ": "@,
        "\r\nContent-Length: "@ == "\r\n"@ + "Content-Length"@ + ": "@,
        "\r\n\r\n"@ == "\r\n"@ + "\r\n"@,
{
    reveal_strlit(" HTTP/1.1\r\n");
    reveal_strlit(" HTTP/1.1");
    reveal_strlit("\r\n");
    reveal_strlit("Host: ");
    reveal_strlit("Host");
    reveal_strlit(": ");
    reveal_strlit("\r\nX-Forwarded-For: ");
    reveal_strlit("X-Forwarded-For");
    reveal_strlit("\r\nX-Forwarded-Proto: ");
    reveal_strlit("X-Forwarded-Proto");
    reveal_strlit("\r\nX-Forwarded-Host: ");
    reveal_strlit("X-Forwarded-Host");
    reveal_strlit("\r\nConnection: ");
    reveal_strlit("Connection");
    reveal_strlit("\r\nContent-Length: ");
    reveal_strlit("Content-Length");
    reveal_strlit("\r\n\r\n");
    assert(" HTTP/1.1\r\n"@ =~= " HTTP/1.1"@ + "\r\n"@);
    assert("Host: "@ =~= "Host"@ + ": "@);
    assert("\r\nX-Forwarded-For: "@ =~= "\r\n"@ + "X-Forwarded-For"@ + ": "@);
    assert("\r\nX-Forwarded-Proto: "@ =~= "\r\n"@ + "X-Forwarded-Proto"@ + ": "@);
    assert("\r\nX-Forwarded-Host: "@ =~= "\r\n"@ + "X-Forwarded-Host"@ + ": "@);
    assert("\r\nConnection: "@ =~= "\r\n"@ + "Connection"@ + ": "@);
    assert("\r\nContent-Length: "@ =~= "\r\n"@ + "Content-Length"@ + ": "@);
    assert("\r\n\r\n"@ =~= "\r\n"@ + "\r\n"@);
}

proof fn lemma_upstream_request(
    req: RequestView,
    prefix: Seq<char>,
    peer: Seq<char>,
    secure: bool,
    keep: bool,
    length: nat,
)
    ensures
        upstream_request(req, prefix, peer, secure, keep, length) == written_head(
            method_text(req.method),
            upstream_target(req.uri, prefix),
            upstream_headers(req, peer, secure, keep, length),
        ),
{
    lemma_openings();
    let h = upstream_headers(req, peer, secure, keep, length);
    let f = forwarded(req.headers);
    let host = text_or_nothing(header_value(req.headers, "Host"@));
    let proto = if secure {
        "https"@
    } else {
        "http"@
    };
    let connection = if keep {
        "keep-alive"@
    } else {
        "close"@
    };
    let n = f.len() as int;
    let h1 = f.push(("Host"@, host));
    let h2 = h1.push(("X-Forwarded-For"@, peer));
    let h3 = h2.push(("X-Forwarded-Proto"@, proto));
    let h4 = h3.push(("X-Forwarded-Host"@, host));
    let h5 = h4.push(("Connection"@, connection));
    let h6 = h5.push(("Content-Length"@, decimal(length)));
    assert(h =~= h6);
    let line = method_text(req.method) + " "@ + upstream_target(req.uri, prefix);
    let start = line + " HTTP/1.1\r\n"@;
    assert(start =~= line + " HTTP/1.1"@ + "\r\n"@);
    lemma_one_header(f, ("Host"@, host));
    let t1 = start + header_block(f) + "Host: "@ + host;
    assert(t1 + "\r\n"@ =~= start + header_block(h1));
    lemma_next_header(start, h1, t1, "\r\nX-Forwarded-For: "@, "X-Forwarded-For"@, peer);
    let t2 = t1 + "\r\nX-Forwarded-For: "@ + peer;
    lemma_next_header(start, h2, t2, "\r\nX-Forwarded-Proto: "@, "X-Forwarded-Proto"@, proto);
    let t3 = t2 + "\r\nX-Forwarded-Proto: "@ + proto;
    lemma_next_header(start, h3, t3, "\r\nX-Forwarded-Host: "@, "X-Forwarded-Host"@, host);
    let t4 = t3 + "\r\nX-Forwarded-Host: "@ + host;
    lemma_next_header(start, h4, t4, "\r\nConnection: "@, "Connection"@, connection);
    let t5 = t4 + "\r\nConnection: "@ + connection;
    lemma_next_header(
        start,
        h5,
        t5,
        "\r\nContent-Length: "@,
        "Content-Length"@,
        decimal(length),
    );
    let t6 = t5 + "\r\nContent-Length: "@ + decimal(length);
    assert(t6 + "\r\n\r\n"@ =~= (t6 + "\r\n"@) + "\r\n"@);
}

proof fn lemma_names_differ(a: Seq<char>, b: Seq<char>)
    requires
        a.len() != b.len(),
    ensures
        !same_name(a, b),
{
    law_names_are_compared_without_case(a, b);
}

proof fn lemma_own_headers(
    req: RequestView,
    peer: Seq<char>,
    secure: bool,
    keep: bool,
    length: nat,
)
    requires
        header_value_ok(peer),
        header_value_ok(text_or_nothing(header_value(req.headers, "Host"@))),
    ensures
        ({
            let h = upstream_headers(req, peer, secure, keep, length);
            let n = forwarded(req.headers).len() as int;
            &&& forall|i: int|
                0 <= i < h.len() ==> header_ok((#[trigger] h[i]).0, h[i].1) && !same_name(
                    h[i].0,
                    "Transfer-Encoding"@,
                )
            &&& forall|i: int|
                0 <= i < h.len() ==> (same_name((#[trigger] h[i]).0, "Host"@) <==> i == n)
            &&& forall|i: int|
                0 <= i < h.len() ==> (same_name((#[trigger] h[i]).0, "Content-Length"@) <==> i == n
                    + 5)
        }),
{
    reveal_strlit("Host");
    reveal_strlit("X-Forwarded-For");
    reveal_strlit("X-Forwarded-Proto");
    reveal_strlit("X-Forwarded-Host");
    reveal_strlit("Connection");
    reveal_strlit("Content-Length");
    reveal_strlit("Transfer-Encoding");
    reveal_strlit("transfer-encoding");
    reveal_strlit("https");
    reveal_strlit("http");
    reveal_strlit("keep-alive");
    reveal_strlit("close");
    lemma_decimal_is_digits(length);
    let h = upstream_headers(req, peer, secure, keep, length);
    let f = forwarded(req.headers);
    let n = f.len() as int;
    law_names_are_compared_without_case("Transfer-Encoding"@, "transfer-encoding"@);
    assert(same_name("Transfer-Encoding"@, "transfer-encoding"@));
    law_names_are_compared_without_case("X-Forwarded-Proto"@, "Transfer-Encoding"@);
    assert("X-Forwarded-Proto"@[0] == 'X' && "Transfer-Encoding"@[0] == 'T');
    assert("Host"@.len() == 4 && "X-Forwarded-For"@.len() == 15 && "X-Forwarded-Proto"@.len() == 17
        && "X-Forwarded-Host"@.len() == 16 && "Connection"@.len() == 10 && "Content-Length"@.len()
        == 14 && "Transfer-Encoding"@.len() == 17);
    lemma_forwarded(req.headers);
    assert forall|i: int| 0 <= i < h.len() implies header_ok((#[trigger] h[i]).0, h[i].1)
        && !same_name(h[i].0, "Transfer-Encoding"@) by {
        if i < n {
            assert(h[i] == f[i]);
            assert(is_forwarded(f[i]));
        } else {
            if h[i].0.len() != 17 {
                lemma_names_differ(h[i].0, "Transfer-Encoding"@);
            }
            assert(header_name_ok(h[i].0));
            assert(header_value_ok(h[i].1));
        }
    }
    assert forall|i: int| 0 <= i < h.len() implies (same_name((#[trigger] h[i]).0, "Host"@) <==> i
        == n) by {
        if i < n {
            assert(h[i] == f[i]);
            assert(is_forwarded(f[i]));
        } else if i > n {
            lemma_names_differ(h[i].0, "Host"@);
        }
    }
    assert forall|i: int| 0 <= i < h.len() implies (same_name(
        (#[trigger] h[i]).0,
        "Content-Length"@,
    ) <==> i == n + 5) by {
        if i < n {
            assert(h[i] == f[i]);
            assert(is_forwarded(f[i]));
        } else if i < n + 5 {
            lemma_names_differ(h[i].0, "Content-Length"@);
        }
    }
}

/// An upstream reads the request that the client sent: its method, what follows the prefix
/// of the route, every header that may be passed on, the host, from whom and how the
/// request came, and as the only announced length that of the body which follows the head.
pub proof fn law_upstreams_read_the_request(
    req: RequestView,
    prefix: Seq<char>,
    peer: Seq<char>,
    secure: bool,
    keep: bool,
    length: nat,
    body: Seq<u8>,
    c: ServerView,
)
    requires
        all_letters(method_text(req.method)),
        method_text(req.method).len() > 0,
        upstream_target(req.uri, prefix).len() > 0,
        no_controls(upstream_target(req.uri, prefix)),
        !has_char(upstream_target(req.uri, prefix), ' '),
        header_value_ok(peer),
        header_value(req.headers, "Host"@) matches Some(v) && header_value_ok(v) && trim(v).len()
            > 0,
        length <= c.max_request_size,
        has_room(
            c,
            upstream_request(req, prefix, peer, secure, keep, length),
            forwarded(req.headers).len() + 6,
        ),
    ensures
        ({
            let b = encode_utf8(upstream_request(req, prefix, peer, secure, keep, length));
            let host = header_value(req.headers, "Host"@)->Some_0;
            &&& request_head(b + body, c) matches Ok(Some(q))
            &&& method_text(q.method) == upper(method_text(req.method))
            &&& q.uri == upstream_target(req.uri, prefix)
            &&& q.header_len == b.len()
            &&& q.content_length == length
            &&& values_named(q.headers, "Content-Length"@) == seq![decimal(length)]
            &&& values_named(q.headers, "Host"@) == seq![trim(host)]
            &&& q.headers.contains(("X-Forwarded-For"@, trim(peer)))
            &&& q.headers.contains(("X-Forwarded-Host"@, trim(host)))
            &&& secure ==> q.headers.contains(("X-Forwarded-Proto"@, "https"@))
            &&& !secure ==> q.headers.contains(("X-Forwarded-Proto"@, "http"@))
            &&& keep ==> q.headers.contains(("Connection"@, "keep-alive"@))
            &&& !keep ==> q.headers.contains(("Connection"@, "close"@))
            &&& forall|i: int|
                0 <= i < req.headers.len() && is_forwarded(#[trigger] req.headers[i])
                    ==> q.headers.contains((req.headers[i].0, trim(req.headers[i].1)))
        }),
{
    let method = method_text(req.method);
    let target = upstream_target(req.uri, prefix);
    let h = upstream_headers(req, peer, secure, keep, length);
    let f = forwarded(req.headers);
    let n = f.len() as int;
    let t = trimmed(h);
    lemma_upstream_request(req, prefix, peer, secure, keep, length);
    lemma_own_headers(req, peer, secure, keep, length);
    lemma_written_head(method, target, h, body, c);
    lemma_decimal_is_digits(length);
    lemma_trim_unspaced(decimal(length));
    lemma_trim_twice(text_or_nothing(header_value(req.headers, "Host"@)));
    assert forall|i: int| 0 <= i < t.len() && i != n implies !same_name(
        (#[trigger] t[i]).0,
        "Host"@,
    ) by {
        assert(h[i].0 == t[i].0);
    }
    assert(same_name(h[n].0, "Host"@));
    lemma_one_value(t, "Host"@, n);
    assert forall|i: int| 0 <= i < t.len() && i != n + 5 implies !same_name(
        (#[trigger] t[i]).0,
        "Content-Length"@,
    ) by {
        assert(h[i].0 == t[i].0);
    }
    assert(same_name(h[n + 5].0, "Content-Length"@));
    lemma_one_value(t, "Content-Length"@, n + 5);
    law_decimal_reads_back(length, usize::MAX as nat);
    crate::laws::h2_requests::law_methods_keep_their_names(upper(method));
    lemma_forwarded(req.headers);
    assert forall|i: int|
        0 <= i < req.headers.len() && is_forwarded(#[trigger] req.headers[i]) implies t.contains(
        (req.headers[i].0, trim(req.headers[i].1)),
    ) by {
        let j = choose|j: int| 0 <= j < f.len() && f[j] == req.headers[i];
        assert(h[j] == f[j]);
        assert(t[j] == (req.headers[i].0, trim(req.headers[i].1)));
    }
    reveal_strlit("https");
    reveal_strlit("http");
    reveal_strlit("keep-alive");
    reveal_strlit("close");
    lemma_trim_is("https"@);
    lemma_trim_is("http"@);
    lemma_trim_is("keep-alive"@);
    lemma_trim_is("close"@);
    assert(t[n + 1] == ("X-Forwarded-For"@, trim(peer)));
    assert(t[n + 2].0 == "X-Forwarded-Proto"@);
    assert(t[n + 3].0 == "X-Forwarded-Host"@);
    assert(t[n + 4].0 == "Connection"@);
    assert(t[n + 5].0 == "Content-Length"@);
    lemma_head_fits(method, target, h, c);
}

/// Whatever the request: heads for bodies of different lengths differ, and each ends with
/// the length that was handed in.
pub proof fn law_lengths_tell_heads_apart(
    req: RequestView,
    prefix: Seq<char>,
    peer: Seq<char>,
    secure: bool,
    keep: bool,
    length: nat,
    other: nat,
)
    requires
        upstream_request(req, prefix, peer, secure, keep, length) == upstream_request(
            req,
            prefix,
            peer,
            secure,
            keep,
            other,
        ),
    ensures
        length == other,
{
    lemma_upstream_request(req, prefix, peer, secure, keep, length);
    lemma_upstream_request(req, prefix, peer, secure, keep, other);
    lemma_openings();
    let h = upstream_headers(req, peer, secure, keep, length);
    let g = upstream_headers(req, peer, secure, keep, other);
    let k = h.drop_last();
    assert(k =~= g.drop_last());
    assert(h =~= k.push(h.last()) && g =~= k.push(g.last()));
    lemma_one_header(k, h.last());
    lemma_one_header(k, g.last());
    let start = method_text(req.method) + " "@ + upstream_target(req.uri, prefix) + " HTTP/1.1"@
        + "\r\n"@;
    let a = start + header_block(k) + "Content-Length"@ + ": "@;
    let x = upstream_request(req, prefix, peer, secure, keep, length);
    let y = upstream_request(req, prefix, peer, secure, keep, other);
    assert(x =~= a + decimal(length) + "\r\n\r\n"@);
    assert(y =~= a + decimal(other) + "\r\n\r\n"@);
    assert(x.subrange(a.len() as int, x.len() - 4) =~= decimal(length)) by {
        reveal_strlit("\r\n\r\n");
    }
    assert(y.subrange(a.len() as int, y.len() - 4) =~= decimal(other)) by {
        reveal_strlit("\r\n\r\n");
    }
    crate::laws::texts::law_decimals_differ(length, other);
}

} // verus!
