//! What proxy and FastCGI responses have in common.

use crate::config::scan::{
    header_name_ok, header_value_ok, valid_header_name, valid_header_value,
};
use crate::config::types::pairs;
use crate::text::{
    before, chars_of, contains_str, contains_text, copy, ends_with, find_of, is_name, is_text,
    lines, lines_of, lower, lower_of, part, push_str, push_text, same_name, starts_with,
    starts_with_str, texts, trim, trim_of,
};
use vstd::prelude::*;

verus! {

/// A header that may be passed on.
pub open spec fn header_ok(name: Seq<char>, value: Seq<char>) -> bool {
    header_name_ok(name) && header_value_ok(value)
}

/// Whether a header may be passed on.
pub fn valid_header(name: &Vec<char>, value: &Vec<char>) -> (b: bool)
    ensures
        b == header_ok(name@, value@),
{
    valid_header_name(name) && valid_header_value(value)
}

/// A header that concerns one connection only.
pub open spec fn is_hop_by_hop(name: Seq<char>) -> bool {
    same_name(name, "connection"@) || same_name(name, "keep-alive"@) || same_name(
        name,
        "proxy-connection"@,
    ) || same_name(name, "te"@) || same_name(name, "trailer"@) || same_name(
        name,
        "transfer-encoding"@,
    ) || same_name(name, "upgrade"@)
}

/// Whether a header concerns one connection only.
pub fn hop_by_hop(name: &Vec<char>) -> (b: bool)
    ensures
        b == is_hop_by_hop(name@),
{
    is_name(name, "connection") || is_name(name, "keep-alive") || is_name(
        name,
        "proxy-connection",
    ) || is_name(name, "te") || is_name(name, "trailer") || is_name(name, "transfer-encoding")
        || is_name(name, "upgrade")
}

/// The value of the last header of that name.
pub open spec fn last_named(h: Seq<(Seq<char>, Seq<char>)>, name: Seq<char>) -> Option<Seq<char>>
    decreases h.len(),
{
    if h.len() == 0 {
        None
    } else if same_name(h.last().0, name) {
        Some(h.last().1)
    } else {
        last_named(h.drop_last(), name)
    }
}

/// Some header forbids a change of the body.
pub open spec fn forbids_transform(h: Seq<(Seq<char>, Seq<char>)>) -> bool {
    exists|i: int| 0 <= i < h.len() && fixes_body(#[trigger] h[i])
}

/// The header says that the body is encoded or must stay as it is.
pub open spec fn fixes_body(p: (Seq<char>, Seq<char>)) -> bool {
    same_name(p.0, "Content-Encoding"@) || (same_name(p.0, "Cache-Control"@) && contains_text(
        lower(p.1),
        "no-transform"@,
    ))
}

/// A media type, in lower case, that is worth compressing.
pub open spec fn text_like(m: Seq<char>) -> bool {
    starts_with(m, "text/"@) || m == "application/json"@ || m == "application/javascript"@ || m
        == "application/xml"@ || m == "image/svg+xml"@
}

/// Whether the body of an upstream's response is compressed.
pub open spec fn compresses(
    h: Seq<(Seq<char>, Seq<char>)>,
    status: u16,
    head: bool,
    accepts: bool,
) -> bool {
    accepts && !head && 200 <= status <= 299 && status != 204 && !forbids_transform(h)
        && (last_named(h, "Content-Type"@) matches Some(v) && text_like(
        trim(before(lower(v), ';')),
    ))
}

/// Whether the body of an upstream's response is compressed.
pub fn should_compress(h: &Vec<(String, String)>, status: u16, head: bool, accepts: bool) -> (b:
    bool)
    ensures
        b == compresses(pairs(h@), status, head, accepts),
{
    if !accepts || head || status < 200 || status > 299 || status == 204 {
        return false;
    }
    if is_fixed(h) {
        return false;
    }
    match last_named_of(h, "Content-Type") {
        Some(v) => {
            let l = lower_of(&v);
            is_text_like(&trim_of(&part(&l, 0, find_of(&l, ';'))))
        },
        None => false,
    }
}

/// Whether a media type is worth compressing.
pub fn is_text_like(m: &Vec<char>) -> (b: bool)
    ensures
        b == text_like(m@),
{
    starts_with_str(m, "text/") || is_text(m, "application/json") || is_text(
        m,
        "application/javascript",
    ) || is_text(m, "application/xml") || is_text(m, "image/svg+xml")
}

/// Whether some header forbids a change of the body.
pub fn is_fixed(h: &Vec<(String, String)>) -> (b: bool)
    ensures
        b == forbids_transform(pairs(h@)),
{
    let ghost p = pairs(h@);
    let mut i: usize = 0;
    while i < h.len()
        invariant
            p == pairs(h@),
            i <= h@.len(),
            forall|j: int| 0 <= j < i ==> !fixes_body(#[trigger] p[j]),
        decreases h@.len() - i,
    {
        assert(p[i as int] == (h@[i as int].0@, h@[i as int].1@));
        let name = chars_of(h[i].0.as_str());
        if is_name(&name, "Content-Encoding") || (is_name(&name, "Cache-Control") && contains_str(
            &lower_of(&chars_of(h[i].1.as_str())),
            "no-transform",
        )) {
            assert(fixes_body(p[i as int]));
            return true;
        }
        i = i + 1;
    }
    false
}

fn last_named_of(h: &Vec<(String, String)>, name: &str) -> (r: Option<Vec<char>>)
    ensures
        match r {
            Some(v) => last_named(pairs(h@), name@) == Some(v@),
            None => last_named(pairs(h@), name@) is None,
        },
{
    let ghost p = pairs(h@);
    let mut n: usize = h.len();
    assert(p.subrange(0, n as int) =~= p);
    while n > 0
        invariant
            p == pairs(h@),
            n <= h@.len(),
            last_named(p.subrange(0, n as int), name@) == last_named(p, name@),
        decreases n,
    {
        assert(p.subrange(0, n as int).drop_last() =~= p.subrange(0, n - 1));
        assert(p.subrange(0, n as int).last() == (h@[n - 1].0@, h@[n - 1].1@));
        if is_name(&chars_of(h[n - 1].0.as_str()), name) {
            return Some(chars_of(h[n - 1].1.as_str()));
        }
        n = n - 1;
    }
    None
}

/// The lines of a list of headers.
pub open spec fn header_block(h: Seq<(Seq<char>, Seq<char>)>) -> Seq<char>
    decreases h.len(),
{
    if h.len() == 0 {
        Seq::empty()
    } else {
        header_block(h.drop_last()) + h.last().0 + ": "@ + h.last().1 + "\r\n"@
    }
}

/// Adds the lines of a list of headers to a text.
pub fn push_header_block(out: &mut Vec<char>, h: &Vec<(String, String)>)
    ensures
        final(out)@ == old(out)@ + header_block(pairs(h@)),
{
    let ghost start = out@;
    let ghost p = pairs(h@);
    let mut i: usize = 0;
    assert(p.subrange(0, 0) =~= Seq::<(Seq<char>, Seq<char>)>::empty());
    assert(start + Seq::<char>::empty() =~= start);
    while i < h.len()
        invariant
            p == pairs(h@),
            i <= h@.len(),
            out@ == start + header_block(p.subrange(0, i as int)),
        decreases h@.len() - i,
    {
        let ghost before = header_block(p.subrange(0, i as int));
        assert(p.subrange(0, i + 1).drop_last() =~= p.subrange(0, i as int));
        assert(p.subrange(0, i + 1).last() == (h@[i as int].0@, h@[i as int].1@));
        push_str(out, h[i].0.as_str());
        push_str(out, ": ");
        push_str(out, h[i].1.as_str());
        push_str(out, "\r\n");
        assert(out@ =~= start + (before + p[i as int].0 + ": "@ + p[i as int].1 + "\r\n"@));
        i = i + 1;
    }
    assert(p.subrange(0, p.len() as int) =~= p);
}

/// The lines but those that announce a length, with line breaks between them.
pub open spec fn without_length(l: Seq<Seq<char>>) -> Seq<Seq<char>>
    decreases l.len(),
{
    if l.len() == 0 {
        l
    } else {
        let r = without_length(l.drop_last());
        if starts_with(lower(l.last()), "content-length:"@) {
            r
        } else {
            r.push(l.last())
        }
    }
}

pub open spec fn joined_lines(l: Seq<Seq<char>>) -> Seq<char>
    decreases l.len(),
{
    if l.len() == 0 {
        Seq::empty()
    } else if l.len() == 1 {
        l[0]
    } else {
        joined_lines(l.drop_last()) + "\r\n"@ + l.last()
    }
}

/// The lines of the head of a response whose body is compressed, each with its end.
pub open spec fn compressed_head(text: Seq<char>) -> Seq<char> {
    joined_lines(without_length(lines(text)))
        + "\r\nContent-Encoding: gzip\r\nVary: Accept-Encoding\r\n"@
}

/// The lines of the head of a response whose body is compressed, each with its end.
pub fn compress_head(text: &Vec<char>) -> (r: Vec<char>)
    ensures
        r@ == compressed_head(text@),
{
    let all = lines_of(text);
    let ghost l = lines(text@);
    let mut kept: Vec<Vec<char>> = Vec::new();
    let mut i: usize = 0;
    assert(l.subrange(0, 0) =~= Seq::<Seq<char>>::empty());
    assert(texts(kept@) =~= Seq::<Seq<char>>::empty());
    while i < all.len()
        invariant
            l == texts(all@),
            i <= all@.len(),
            texts(kept@) == without_length(l.subrange(0, i as int)),
        decreases all@.len() - i,
    {
        assert(l.subrange(0, i + 1).drop_last() =~= l.subrange(0, i as int));
        assert(l.subrange(0, i + 1).last() == all@[i as int]@);
        if !starts_with_str(&lower_of(&all[i]), "content-length:") {
            let ghost prev = texts(kept@);
            kept.push(copy(&all[i]));
            assert(texts(kept@) =~= prev.push(all@[i as int]@));
        }
        i = i + 1;
    }
    assert(l.subrange(0, l.len() as int) =~= l);
    let ghost k = texts(kept@);
    let mut r: Vec<char> = Vec::new();
    let mut j: usize = 0;
    assert(k.subrange(0, 0) =~= Seq::<Seq<char>>::empty());
    while j < kept.len()
        invariant
            k == texts(kept@),
            j <= kept@.len(),
            r@ == joined_lines(k.subrange(0, j as int)),
        decreases kept@.len() - j,
    {
        let ghost u = k.subrange(0, j + 1);
        assert(u.drop_last() =~= k.subrange(0, j as int));
        assert(u.last() == kept@[j as int]@);
        if j > 0 {
            push_str(&mut r, "\r\n");
        }
        push_text(&mut r, &kept[j]);
        assert(j == 0 ==> r@ =~= u[0]);
        j = j + 1;
    }
    assert(k.subrange(0, k.len() as int) =~= k);
    push_str(&mut r, "\r\nContent-Encoding: gzip\r\nVary: Accept-Encoding\r\n");
    r
}

/// A compressed response says so in lines of their own: what follows its head begins a
/// line.
pub proof fn law_compressed_heads_end_their_lines(text: Seq<char>, next: Seq<char>)
    ensures
        ends_with(
            compressed_head(text) + next,
            "\r\n"@ + "Content-Encoding: gzip"@ + "\r\n"@ + "Vary: Accept-Encoding"@ + "\r\n"@
                + next,
        ),
{
    reveal_strlit("\r\nContent-Encoding: gzip\r\nVary: Accept-Encoding\r\n");
    reveal_strlit("\r\n");
    reveal_strlit("Content-Encoding: gzip");
    reveal_strlit("Vary: Accept-Encoding");
    let l = joined_lines(without_length(lines(text)));
    let tail = "\r\nContent-Encoding: gzip\r\nVary: Accept-Encoding\r\n"@;
    let parts = "\r\n"@ + "Content-Encoding: gzip"@ + "\r\n"@ + "Vary: Accept-Encoding"@
        + "\r\n"@;
    assert(tail =~= parts);
    let whole = compressed_head(text) + next;
    assert(whole.subrange(whole.len() - (parts + next).len(), whole.len() as int) =~= parts
        + next);
}

/// The number of bytes of the UTF-8 form of a text.
pub open spec fn byte_length(s: Seq<char>) -> nat {
    vstd::utf8::encode_utf8(s).len()
}

} // verus!
