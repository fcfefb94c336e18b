//! What a FastCGI responder is told of a request.

use crate::laws::texts::lemma_cut;
use crate::server::cgi_request::{opening_bytes, request_bytes};
use crate::server::http::{header_value, method_text, RequestView};
use crate::server::record::{
    begin_bytes, first_record, header_param, header_params, law_lengths_read_back,
    law_records_read_back, length_bytes, param_bytes, params_bytes, query, read_length,
    record_bytes, records_bytes, request_params, underscored, MAX_RECORD, PARAMS, STDIN,
};
use crate::text::{decimal, has_char, law_decimal_reads_back, parse_uint, same_name, upper};
use vstd::prelude::*;
use vstd::utf8::encode_utf8;

verus! {

/// A list of parameters gives a name that value, and no other.
pub open spec fn tells(p: Seq<(Seq<char>, Seq<char>)>, name: Seq<char>, value: Seq<char>) -> bool {
    p.contains((name, value)) && forall|i: int|
        0 <= i < p.len() && (#[trigger] p[i]).0 == name ==> p[i].1 == value
}

proof fn lemma_header_params(h: Seq<(Seq<char>, Seq<char>)>)
    ensures
        forall|i: int|
            0 <= i < header_params(h).len() ==> (#[trigger] header_params(h)[i]).0.len() >= 5
                && header_params(h)[i].0.subrange(0, 5) == "HTTP_"@,
        forall|i: int|
            0 <= i < h.len() && !same_name((#[trigger] h[i]).0, "Content-Type"@) && !same_name(
                h[i].0,
                "Content-Length"@,
            ) ==> header_params(h).contains((header_param(h[i].0), h[i].1)),
    decreases h.len(),
{
    reveal_strlit("HTTP_");
    if h.len() > 0 {
        let t = h.drop_last();
        let r = header_params(t);
        let p = header_params(h);
        lemma_header_params(t);
        let x = header_param(h.last().0);
        assert(x.subrange(0, 5) =~= "HTTP_"@);
        assert forall|i: int| 0 <= i < p.len() implies (#[trigger] p[i]).0.len() >= 5
            && p[i].0.subrange(0, 5) == "HTTP_"@ by {
            if i < r.len() {
                assert(p[i] == r[i]);
            }
        }
        assert forall|i: int|
            0 <= i < h.len() && !same_name((#[trigger] h[i]).0, "Content-Type"@) && !same_name(
                h[i].0,
                "Content-Length"@,
            ) implies p.contains((header_param(h[i].0), h[i].1)) by {
            if i < t.len() {
                assert(t[i] == h[i]);
                let q = (header_param(h[i].0), h[i].1);
                let j = choose|j: int| 0 <= j < r.len() && r[j] == q;
                assert(p[j] == q);
            } else {
                assert(p[r.len() as int] == (x, h[i].1));
            }
        }
    }
}

proof fn lemma_tells(
    p: Seq<(Seq<char>, Seq<char>)>,
    fixed: Seq<(Seq<char>, Seq<char>)>,
    k: int,
)
    requires
        0 <= k < fixed.len() <= p.len(),
        forall|i: int| 0 <= i < fixed.len() ==> p[i] == #[trigger] fixed[i],
        forall|i: int| 0 <= i < fixed.len() && i != k ==> (#[trigger] fixed[i]).0 != fixed[k].0,
        forall|i: int|
            fixed.len() <= i < p.len() ==> (#[trigger] p[i]).0.len() >= 5 && p[i].0.subrange(0, 5)
                == "HTTP_"@,
        fixed[k].0.len() < 5 || fixed[k].0.subrange(0, 5) != "HTTP_"@,
    ensures
        tells(p, fixed[k].0, fixed[k].1),
{
    assert(p[k] == fixed[k]);
    assert forall|i: int| 0 <= i < p.len() && (#[trigger] p[i]).0 == fixed[k].0 implies p[i].1
        == fixed[k].1 by {
        if i < fixed.len() {
            assert(p[i] == fixed[i]);
        }
    }
}

/// A responder is told the method, the target, the type and the length of a request as the
/// client gave them, which script serves it and below which root, the host, the protocol
/// and the address of the client, each once, and whether the connection is secure.
#[verifier::rlimit(40)]
pub proof fn law_responders_are_told_the_request(
    req: RequestView,
    name: Seq<char>,
    root: Seq<char>,
    script: Seq<char>,
    secure: bool,
    peer: Seq<char>,
    length: nat,
)
    ensures
        ({
            let p = request_params(req, name, root, script, secure, peer, length);
            &&& tells(p, "REQUEST_METHOD"@, method_text(req.method))
            &&& tells(p, "REQUEST_URI"@, req.uri)
            &&& tells(p, "SERVER_PROTOCOL"@, req.version)
            &&& tells(p, "REMOTE_ADDR"@, peer)
            &&& tells(p, "SCRIPT_FILENAME"@, script)
            &&& tells(p, "SCRIPT_NAME"@, name)
            &&& tells(p, "DOCUMENT_URI"@, name)
            &&& tells(p, "DOCUMENT_ROOT"@, root)
            &&& tells(p, "QUERY_STRING"@, query(req.uri))
            &&& secure ==> tells(p, "HTTPS"@, "on"@) && tells(p, "SERVER_PORT"@, "443"@)
            &&& !secure ==> tells(p, "HTTPS"@, "off"@) && tells(p, "SERVER_PORT"@, "80"@)
            &&& header_value(req.headers, "Content-Type"@) matches Some(v) ==> tells(
                p,
                "CONTENT_TYPE"@,
                v,
            )
            &&& header_value(req.headers, "Host"@) matches Some(v) ==> tells(p, "SERVER_NAME"@, v)
            &&& tells(p, "CONTENT_LENGTH"@, decimal(length))
            &&& parse_uint(decimal(length), length) == Some(length)
        }),
{
    reveal_strlit("REQUEST_METHOD");
    reveal_strlit("QUERY_STRING");
    reveal_strlit("CONTENT_TYPE");
    reveal_strlit("CONTENT_LENGTH");
    reveal_strlit("SCRIPT_FILENAME");
    reveal_strlit("SCRIPT_NAME");
    reveal_strlit("REQUEST_URI");
    reveal_strlit("DOCUMENT_URI");
    reveal_strlit("DOCUMENT_ROOT");
    reveal_strlit("SERVER_NAME");
    reveal_strlit("SERVER_PORT");
    reveal_strlit("SERVER_PROTOCOL");
    reveal_strlit("REMOTE_ADDR");
    reveal_strlit("HTTPS");
    reveal_strlit("HTTP_");
    let p = request_params(req, name, root, script, secure, peer, length);
    let fixed = p.subrange(0, 14);
    lemma_header_params(req.headers);
    law_decimal_reads_back(length, length);
    assert forall|i: int| 14 <= i < p.len() implies (#[trigger] p[i]).0.len() >= 5
        && p[i].0.subrange(0, 5) == "HTTP_"@ by {
        assert(p[i] == header_params(req.headers)[i - 14]);
    }
    assert forall|i: int| 0 <= i < 14 implies p[i] == #[trigger] fixed[i] by {}
    // The names differ in their lengths or in one of these characters.
    assert("REQUEST_METHOD"@.len() == 14 && "CONTENT_LENGTH"@.len() == 14);
    assert("REQUEST_METHOD"@[0] == 'R' && "CONTENT_LENGTH"@[0] == 'C');
    assert("QUERY_STRING"@.len() == 12 && "CONTENT_TYPE"@.len() == 12 && "DOCUMENT_URI"@.len()
        == 12);
    assert("QUERY_STRING"@[0] == 'Q' && "CONTENT_TYPE"@[0] == 'C' && "DOCUMENT_URI"@[0] == 'D');
    assert("SCRIPT_FILENAME"@.len() == 15 && "SERVER_PROTOCOL"@.len() == 15);
    assert("SCRIPT_FILENAME"@[1] == 'C' && "SERVER_PROTOCOL"@[1] == 'E');
    assert("SCRIPT_NAME"@.len() == 11 && "REQUEST_URI"@.len() == 11 && "SERVER_NAME"@.len() == 11
        && "SERVER_PORT"@.len() == 11 && "REMOTE_ADDR"@.len() == 11);
    assert("SCRIPT_NAME"@[1] == 'C' && "REQUEST_URI"@[2] == 'Q' && "SERVER_NAME"@[7] == 'N'
        && "SERVER_PORT"@[7] == 'P' && "REMOTE_ADDR"@[2] == 'M');
    assert("SERVER_NAME"@[2] == 'R' && "SERVER_PORT"@[2] == 'R' && "SCRIPT_NAME"@[2] == 'R'
        && "SERVER_NAME"@[1] == 'E' && "SERVER_PORT"@[1] == 'E' && "REQUEST_URI"@[0] == 'R');
    assert("DOCUMENT_ROOT"@.len() == 13 && "HTTPS"@.len() == 5 && "HTTPS"@[4] == 'S');
    assert forall|k: int| 0 <= k < 14 implies #[trigger] fixed[k].0.len() < 5
        || fixed[k].0.subrange(0, 5) != "HTTP_"@ by {
        let x = fixed[k].0.subrange(0, 5);
        if fixed[k].0.len() >= 5 && x == "HTTP_"@ {
            assert(x[0] == fixed[k].0[0] && x[4] == fixed[k].0[4]);
        }
    }
    lemma_tells(p, fixed, 0);
    lemma_tells(p, fixed, 1);
    lemma_tells(p, fixed, 2);
    lemma_tells(p, fixed, 3);
    lemma_tells(p, fixed, 4);
    lemma_tells(p, fixed, 5);
    lemma_tells(p, fixed, 6);
    lemma_tells(p, fixed, 7);
    lemma_tells(p, fixed, 8);
    lemma_tells(p, fixed, 9);
    lemma_tells(p, fixed, 10);
    lemma_tells(p, fixed, 11);
    lemma_tells(p, fixed, 12);
    lemma_tells(p, fixed, 13);
}

/// The query is what stands behind the first question mark of a target.
pub proof fn law_queries_follow_the_path(path: Seq<char>, rest: Seq<char>)
    requires
        !has_char(path, '?'),
    ensures
        query(path + seq!['?'] + rest) == rest,
        query(path) == Seq::<char>::empty(),
{
    lemma_cut(path, '?', rest);
}

/// Every header of a request reaches the responder under its name in capitals, with
/// underscores for hyphens; those that describe the body have parameters of their own.
pub proof fn law_responders_get_the_headers(
    req: RequestView,
    name: Seq<char>,
    root: Seq<char>,
    script: Seq<char>,
    secure: bool,
    peer: Seq<char>,
    length: nat,
    i: int,
)
    requires
        0 <= i < req.headers.len(),
        !same_name(req.headers[i].0, "Content-Type"@),
        !same_name(req.headers[i].0, "Content-Length"@),
    ensures
        exists|n: Seq<char>|
            request_params(req, name, root, script, secure, peer, length).contains(
                ("HTTP_"@ + n, req.headers[i].1),
            ) && #[trigger] n.len() == req.headers[i].0.len() && forall|j: int|
                0 <= j < n.len() ==> #[trigger] n[j] as u32 == (if req.headers[i].0[j] == '-' {
                    '_' as u32 as int
                } else if 97 <= req.headers[i].0[j] as u32 <= 122 {
                    req.headers[i].0[j] as u32 - 32
                } else {
                    req.headers[i].0[j] as u32 as int
                }),
{
    let x = req.headers[i];
    let p = request_params(req, name, root, script, secure, peer, length);
    let h = header_params(req.headers);
    lemma_header_params(req.headers);
    let q = (header_param(x.0), x.1);
    let k = choose|k: int| 0 <= k < h.len() && h[k] == q;
    assert(p[14 + k] == q);
    let n = upper(underscored(x.0));
    assert(q.0 == "HTTP_"@ + n);
    assert(n.len() == x.0.len());
}

/// The parameters that a responder reads from the wire.
pub open spec fn read_params(b: Seq<u8>) -> Seq<(Seq<u8>, Seq<u8>)>
    decreases b.len(),
{
    let name_width = if b[0] < 128 {
        1int
    } else {
        4
    };
    let c = b.subrange(name_width, b.len() as int);
    let value_width = if c[0] < 128 {
        1int
    } else {
        4
    };
    let start = name_width + value_width;
    let name_end = start + read_length(b);
    let end = name_end + read_length(c);
    if b.len() < 2 || b.len() < start || b.len() < end || end <= 0 {
        Seq::empty()
    } else {
        seq![(b.subrange(start, name_end), b.subrange(name_end, end))] + read_params(
            b.subrange(end, b.len() as int),
        )
    }
}

proof fn lemma_length_bytes(n: nat)
    requires
        n < 0x8000_0000,
    ensures
        length_bytes(n).len() == (if length_bytes(n)[0] < 128 {
            1int
        } else {
            4
        }),
{
}

proof fn lemma_first_param(name: Seq<u8>, value: Seq<u8>, more: Seq<u8>)
    requires
        name.len() < 0x8000_0000,
        value.len() < 0x8000_0000,
    ensures
        read_params(param_bytes(name, value) + more) == seq![(name, value)] + read_params(more),
{
    let b = param_bytes(name, value) + more;
    let x = length_bytes(name.len());
    let y = length_bytes(value.len());
    lemma_length_bytes(name.len());
    lemma_length_bytes(value.len());
    assert(b =~= x + (y + name + value + more));
    law_lengths_read_back(name.len(), y + name + value + more);
    let c = b.subrange(x.len() as int, b.len() as int);
    assert(c =~= y + (name + value + more));
    law_lengths_read_back(value.len(), name + value + more);
    assert(b[0] == x[0]);
    assert(c[0] == y[0]);
    let start = x.len() + y.len();
    let end = start + name.len() + value.len();
    assert(b.subrange(start as int, (start + name.len()) as int) =~= name);
    assert(b.subrange((start + name.len()) as int, end as int) =~= value);
    assert(b.subrange(end as int, b.len() as int) =~= more);
}

proof fn lemma_params_append(l: Seq<(Seq<char>, Seq<char>)>, more: Seq<u8>)
    requires
        forall|i: int|
            0 <= i < l.len() ==> encode_utf8((#[trigger] l[i]).0).len() < 0x8000_0000
                && encode_utf8(l[i].1).len() < 0x8000_0000,
    ensures
        read_params(params_bytes(l) + more) == Seq::new(
            l.len(),
            |i: int| (encode_utf8(l[i].0), encode_utf8(l[i].1)),
        ) + read_params(more),
    decreases l.len(),
{
    let all = Seq::new(l.len(), |i: int| (encode_utf8(l[i].0), encode_utf8(l[i].1)));
    if l.len() == 0 {
        assert(params_bytes(l) + more =~= more);
        assert(all + read_params(more) =~= read_params(more));
    } else {
        let t = l.drop_last();
        let x = encode_utf8(l.last().0);
        let y = encode_utf8(l.last().1);
        assert(l.last() == l[l.len() - 1]);
        assert forall|i: int| 0 <= i < t.len() implies encode_utf8((#[trigger] t[i]).0).len()
            < 0x8000_0000 && encode_utf8(t[i].1).len() < 0x8000_0000 by {
            assert(t[i] == l[i]);
        }
        lemma_params_append(t, param_bytes(x, y) + more);
        lemma_first_param(x, y, more);
        assert(params_bytes(l) + more =~= params_bytes(t) + (param_bytes(x, y) + more));
        let some = Seq::new(t.len(), |i: int| (encode_utf8(t[i].0), encode_utf8(t[i].1)));
        assert(all =~= some.push((x, y)));
        assert(some + (seq![(x, y)] + read_params(more)) =~= all + read_params(more));
    }
}

/// A responder reads the parameters that were written, in their order.
pub proof fn law_parameters_read_back(l: Seq<(Seq<char>, Seq<char>)>)
    requires
        forall|i: int|
            0 <= i < l.len() ==> encode_utf8((#[trigger] l[i]).0).len() < 0x8000_0000
                && encode_utf8(l[i].1).len() < 0x8000_0000,
    ensures
        read_params(params_bytes(l)) == Seq::new(
            l.len(),
            |i: int| (encode_utf8(l[i].0), encode_utf8(l[i].1)),
        ),
{
    let e = Seq::<u8>::empty();
    lemma_params_append(l, e);
    assert(params_bytes(l) + e =~= params_bytes(l));
    assert(read_params(e) =~= Seq::<(Seq<u8>, Seq<u8>)>::empty());
    assert(Seq::new(l.len(), |i: int| (encode_utf8(l[i].0), encode_utf8(l[i].1))) + read_params(e)
        =~= Seq::new(l.len(), |i: int| (encode_utf8(l[i].0), encode_utf8(l[i].1))));
}

/// What a responder reads of a stream up to the empty record that ends it, and the bytes
/// behind that record.
pub open spec fn read_stream(kind: u8, b: Seq<u8>) -> Option<(Seq<u8>, Seq<u8>)>
    decreases b.len(),
{
    match first_record(b) {
        Ok(Some((k, data, total))) => if k != kind || total <= 0 || total > b.len() {
            None
        } else if data.len() == 0 {
            Some((Seq::empty(), b.subrange(total, b.len() as int)))
        } else {
            match read_stream(kind, b.subrange(total, b.len() as int)) {
                Some((rest, more)) => Some((data + rest, more)),
                None => None,
            }
        },
        _ => None,
    }
}

/// A responder reads the data that was cut into records, whole and in order, and what
/// follows the empty record is left to it.
pub proof fn law_streams_read_back(kind: u8, data: Seq<u8>, more: Seq<u8>)
    ensures
        read_stream(
            kind,
            records_bytes(kind, data) + record_bytes(kind, Seq::empty()) + more,
        ) == Some((data, more)),
    decreases data.len(),
{
    let e = Seq::<u8>::empty();
    let last = record_bytes(kind, e);
    if data.len() == 0 {
        assert(records_bytes(kind, data) + last + more =~= last + more);
        law_records_read_back(kind, e, more);
        assert((last + more).subrange(last.len() as int, (last + more).len() as int) =~= more);
        assert(data =~= e);
    } else {
        let n = if data.len() < MAX_RECORD {
            data.len() as int
        } else {
            MAX_RECORD as int
        };
        let a = data.subrange(0, n);
        let b = data.subrange(n, data.len() as int);
        law_streams_read_back(kind, b, more);
        let rest = records_bytes(kind, b) + last + more;
        let first = record_bytes(kind, a);
        law_records_read_back(kind, a, rest);
        let w = records_bytes(kind, data) + last + more;
        assert(w =~= first + rest);
        assert(w.subrange(first.len() as int, w.len() as int) =~= rest);
        assert(a + b =~= data);
    }
}

/// A request to a responder opens with a record that asks for one answer from a responder
/// and for the connection to be closed behind it, then come the parameters and the body.
pub proof fn law_requests_reach_the_responder(params: Seq<u8>, body: Seq<u8>)
    ensures
        ({
            let b = request_bytes(params, body);
            let open = opening_bytes(params);
            &&& b.subrange(0, 16) == seq![
                1u8,
                1u8,
                0u8,
                1u8,
                0u8,
                8u8,
                0u8,
                0u8,
                0u8,
                1u8,
                0u8,
                0u8,
                0u8,
                0u8,
                0u8,
                0u8,
            ]
            &&& read_stream(4, b.subrange(16, b.len() as int)) matches Some((p, more)) && p
                == params && read_stream(5, more) == Some((body, Seq::<u8>::empty()))
            &&& open.len() <= b.len() && b.subrange(0, open.len() as int) == open
            &&& read_stream(4, open.subrange(16, open.len() as int)) == Some(
                (params, Seq::<u8>::empty()),
            )
        }),
{
    let e = Seq::<u8>::empty();
    let b = request_bytes(params, body);
    let open = opening_bytes(params);
    let begin = begin_bytes();
    assert(begin.len() == 16);
    let tail = records_bytes(STDIN, body) + record_bytes(STDIN, e);
    assert(tail + e =~= tail);
    law_streams_read_back(STDIN, body, e);
    law_streams_read_back(PARAMS, params, tail);
    law_streams_read_back(PARAMS, params, e);
    assert(b.subrange(0, 16) =~= begin);
    assert(begin =~= seq![
        1u8,
        1u8,
        0u8,
        1u8,
        0u8,
        8u8,
        0u8,
        0u8,
        0u8,
        1u8,
        0u8,
        0u8,
        0u8,
        0u8,
        0u8,
        0u8,
    ]);
    let mid = records_bytes(PARAMS, params) + record_bytes(PARAMS, e);
    assert(b.subrange(16, b.len() as int) =~= mid + tail);
    assert(b.subrange(0, open.len() as int) =~= open);
    assert(open.subrange(16, open.len() as int) =~= mid + e);
}

} // verus!
