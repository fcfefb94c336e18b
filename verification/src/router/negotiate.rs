//! Changes that rules, security settings and compression make to the headers of a
//! response.

use crate::config::merge::{drop_all_named, find_pair, pair_at, remove_named};
use crate::config::types::{opt_text, pairs, DirView, DirectoryConfig, ServerConfig, ServerView};
use crate::config::veysrule::without_breaks;
use crate::server::http::{get_pair, header_value};
use crate::server::response::{
    add_header, contains_header, has_header, push_header, HttpResponse, ResponseView,
};
use crate::text::{
    before, chars_of, ends_with, ends_with_str, find_of, is_name, is_text, lower, lower_of, part,
    push_str, same_name, split, split_of, starts_with, starts_with_of, starts_with_str, string_of,
    strings, texts, trim, trim_of,
};
use vstd::prelude::*;

verus! {

/// A comma-separated list names a header.
pub open spec fn names_header(v: Seq<char>, name: Seq<char>) -> bool {
    some_item_is(split(v, ','), name)
}

pub open spec fn some_item_is(p: Seq<Seq<char>>, name: Seq<char>) -> bool {
    exists|i: int| 0 <= i < p.len() && same_name(trim(#[trigger] p[i]), name)
}

/// The headers with the accepted encodings among what the answer varies with.
pub open spec fn with_vary(h: Seq<(Seq<char>, Seq<char>)>) -> Seq<(Seq<char>, Seq<char>)> {
    let k = pair_at(h, "Vary"@);
    if k >= h.len() {
        h.push(("Vary"@, "Accept-Encoding"@))
    } else if names_header(h[k].1, "Accept-Encoding"@) {
        h
    } else {
        h.update(k, (h[k].0, h[k].1 + ", Accept-Encoding"@))
    }
}

/// The entity tag of an encoded form.
pub open spec fn encoded_tag(tag: Seq<char>, encoding: Seq<char>) -> Seq<char> {
    if ends_with(tag, "\""@) {
        tag.subrange(0, tag.len() - 1) + "-"@ + encoding + "\""@
    } else {
        tag + "-"@ + encoding
    }
}

/// The headers with the entity tag of the encoded form.
pub open spec fn with_encoded_tag(h: Seq<(Seq<char>, Seq<char>)>, encoding: Seq<char>) -> Seq<
    (Seq<char>, Seq<char>),
> {
    let k = pair_at(h, "ETag"@);
    if k >= h.len() {
        h
    } else {
        h.update(k, (h[k].0, encoded_tag(h[k].1, encoding)))
    }
}

/// The media type of a response, without parameters and in lower case.
pub open spec fn bare_type(v: Seq<char>) -> Seq<char> {
    lower(trim(before(v, ';')))
}

pub open spec fn some_prefix(m: Seq<char>, allow: Seq<Seq<char>>) -> bool {
    exists|i: int| 0 <= i < allow.len() && starts_with(m, lower(#[trigger] allow[i]))
}

/// A media type that is worth compressing.
pub open spec fn compressible(h: Seq<(Seq<char>, Seq<char>)>, allow: Seq<Seq<char>>) -> bool {
    match header_value(h, "Content-Type"@) {
        None => false,
        Some(v) => {
            let m = bare_type(v);
            starts_with(m, "text/"@) || m == "application/json"@ || m
                == "application/javascript"@ || m == "application/xml"@ || m == "image/svg+xml"@
                || some_prefix(m, allow)
        },
    }
}

/// The response with a list of headers added, line breaks dropped.
pub open spec fn with_headers(r: ResponseView, l: Seq<(Seq<char>, Seq<char>)>) -> ResponseView
    decreases l.len(),
{
    if l.len() == 0 {
        r
    } else {
        add_header(
            with_headers(r, l.drop_last()),
            without_breaks(l.last().0),
            without_breaks(l.last().1),
        )
    }
}

/// The response as the rules of a directory shape its headers.
pub open spec fn ruled(r: ResponseView, d: DirView) -> ResponseView {
    let added = with_headers(with_headers(r, d.headers), d.add_headers);
    ResponseView { headers: drop_all_named(added.headers, d.remove_headers), ..added }
}

/// The headers with a default one where there is none of that name.
pub open spec fn with_default(
    h: Seq<(Seq<char>, Seq<char>)>,
    name: Seq<char>,
    value: Option<Seq<char>>,
) -> Seq<(Seq<char>, Seq<char>)> {
    match value {
        Some(v) => if has_header(h, name) {
            h
        } else {
            h.push((name, v))
        },
        None => h,
    }
}

/// The headers with the security settings of the server, which give way to what is
/// already there.
pub open spec fn secured(h: Seq<(Seq<char>, Seq<char>)>, c: ServerView) -> Seq<
    (Seq<char>, Seq<char>),
> {
    let a = with_default(h, "X-Content-Type-Options"@, c.security_x_content_type_options);
    let b = with_default(a, "Referrer-Policy"@, c.security_referrer_policy);
    let d = with_default(b, "X-Frame-Options"@, c.security_x_frame_options);
    with_default(d, "Content-Security-Policy"@, c.security_content_security_policy)
}

/// Security settings add headers and change none that is there.
pub proof fn law_security_headers_override_nothing(
    h: Seq<(Seq<char>, Seq<char>)>,
    c: ServerView,
)
    ensures
        secured(h, c).len() >= h.len(),
        forall|i: int| 0 <= i < h.len() ==> secured(h, c)[i] == h[i],
        c.security_x_content_type_options is Some ==> has_header(
            secured(h, c),
            "X-Content-Type-Options"@,
        ),
        c.security_referrer_policy is Some ==> has_header(secured(h, c), "Referrer-Policy"@),
        c.security_x_frame_options is Some ==> has_header(secured(h, c), "X-Frame-Options"@),
        c.security_content_security_policy is Some ==> has_header(
            secured(h, c),
            "Content-Security-Policy"@,
        ),
{
    let a = with_default(h, "X-Content-Type-Options"@, c.security_x_content_type_options);
    let b = with_default(a, "Referrer-Policy"@, c.security_referrer_policy);
    let d = with_default(b, "X-Frame-Options"@, c.security_x_frame_options);
    lemma_default_kept(h, "X-Content-Type-Options"@, c.security_x_content_type_options);
    lemma_default_kept(a, "Referrer-Policy"@, c.security_referrer_policy);
    lemma_default_kept(b, "X-Frame-Options"@, c.security_x_frame_options);
    lemma_default_kept(d, "Content-Security-Policy"@, c.security_content_security_policy);
    assert(forall|i: int| 0 <= i < h.len() ==> a[i] == h[i]);
    assert(forall|i: int| 0 <= i < a.len() ==> b[i] == a[i]);
    assert(forall|i: int| 0 <= i < b.len() ==> d[i] == b[i]);
    assert(forall|i: int| 0 <= i < d.len() ==> secured(h, c)[i] == d[i]);
    if c.security_x_content_type_options is Some {
        let i = choose|i: int|
            0 <= i < a.len() && same_name((#[trigger] a[i]).0, "X-Content-Type-Options"@);
        assert(secured(h, c)[i] == a[i]);
    }
    if c.security_referrer_policy is Some {
        let i = choose|i: int|
            0 <= i < b.len() && same_name((#[trigger] b[i]).0, "Referrer-Policy"@);
        assert(secured(h, c)[i] == b[i]);
    }
    if c.security_x_frame_options is Some {
        let i = choose|i: int|
            0 <= i < d.len() && same_name((#[trigger] d[i]).0, "X-Frame-Options"@);
        assert(secured(h, c)[i] == d[i]);
    }
}

proof fn lemma_default_kept(
    h: Seq<(Seq<char>, Seq<char>)>,
    name: Seq<char>,
    value: Option<Seq<char>>,
)
    ensures
        with_default(h, name, value).len() >= h.len(),
        forall|i: int| 0 <= i < h.len() ==> with_default(h, name, value)[i] == h[i],
        value is Some ==> has_header(with_default(h, name, value), name),
{
    let r = with_default(h, name, value);
    if value is Some && !has_header(h, name) {
        assert(same_name(r[h.len() as int].0, name));
    }
}

/// Names the accepted encodings among what the answer varies with.
pub fn ensure_vary_accept_encoding(headers: &mut Vec<(String, String)>)
    ensures
        pairs(final(headers)@) == with_vary(pairs(old(headers)@)),
{
    let ghost h = pairs(headers@);
    let k: usize = find_pair(headers, "Vary");
    if k >= headers.len() {
        push_header(headers, "Vary", "Accept-Encoding");
        return;
    }
    assert(h[k as int] == (headers@[k as int].0@, headers@[k as int].1@));
    let mut value = chars_of(headers[k].1.as_str());
    let p = split_of(&value, ',');
    let ghost t = split(value@, ',');
    let mut i: usize = 0;
    while i < p.len()
        invariant
            t == texts(p@),
            t == split(value@, ','),
            h == pairs(headers@),
            h == pairs(old(headers)@),
            k < headers@.len(),
            k == pair_at(h, "Vary"@),
            h[k as int] == (headers@[k as int].0@, value@),
            i <= p@.len(),
            forall|j: int|
                0 <= j < i ==> !same_name(trim(#[trigger] t[j]), "Accept-Encoding"@),
        decreases p@.len() - i,
    {
        assert(t[i as int] == p@[i as int]@);
        if is_name(&trim_of(&p[i]), "Accept-Encoding") {
            assert(same_name(trim(t[i as int]), "Accept-Encoding"@));
            return;
        }
        i = i + 1;
    }
    assert(!names_header(value@, "Accept-Encoding"@));
    push_str(&mut value, ", Accept-Encoding");
    let name = headers[k].0.clone();
    let text = string_of(&value);
    headers.set(k, (name, text));
    assert(pairs(headers@) =~= with_vary(h));
}

/// Gives the entity tag of the encoded form.
pub fn vary_etag_for_encoding(headers: &mut Vec<(String, String)>, encoding: &str)
    ensures
        pairs(final(headers)@) == with_encoded_tag(pairs(old(headers)@), encoding@),
{
    let ghost h = pairs(headers@);
    let k: usize = find_pair(headers, "ETag");
    if k >= headers.len() {
        return;
    }
    assert(h[k as int] == (headers@[k as int].0@, headers@[k as int].1@));
    let value = chars_of(headers[k].1.as_str());
    let quoted = ends_with_str(&value, "\"");
    proof {
        reveal_strlit("\"");
    }
    let mut out: Vec<char> = if quoted {
        part(&value, 0, value.len() - 1)
    } else {
        crate::text::copy(&value)
    };
    push_str(&mut out, "-");
    push_str(&mut out, encoding);
    if quoted {
        push_str(&mut out, "\"");
    }
    let name = headers[k].0.clone();
    let text = string_of(&out);
    headers.set(k, (name, text));
    assert(pairs(headers@) =~= with_encoded_tag(h, encoding@));
}

fn some_prefix_of(m: &Vec<char>, allow: &Vec<String>) -> (b: bool)
    ensures
        b == some_prefix(m@, strings(allow@)),
{
    let ghost a = strings(allow@);
    let mut i: usize = 0;
    while i < allow.len()
        invariant
            a == strings(allow@),
            i <= allow@.len(),
            forall|j: int| 0 <= j < i ==> !starts_with(m@, lower(#[trigger] a[j])),
        decreases allow@.len() - i,
    {
        assert(a[i as int] == allow@[i as int]@);
        if starts_with_of(m, &lower_of(&chars_of(allow[i].as_str()))) {
            assert(starts_with(m@, lower(a[i as int])));
            return true;
        }
        i = i + 1;
    }
    false
}

/// Whether the media type of a response is worth compressing.
pub fn response_mime_is_compressible(headers: &Vec<(String, String)>, allowlist: &Vec<String>) -> (b:
    bool)
    ensures
        b == compressible(pairs(headers@), strings(allowlist@)),
{
    match get_pair(headers, "Content-Type") {
        None => false,
        Some(v) => {
            let value = chars_of(v);
            let m = lower_of(&trim_of(&part(&value, 0, find_of(&value, ';'))));
            starts_with_str(&m, "text/") || is_text(&m, "application/json") || is_text(
                &m,
                "application/javascript",
            ) || is_text(&m, "application/xml") || is_text(&m, "image/svg+xml") || some_prefix_of(
                &m,
                allowlist,
            )
        },
    }
}

/// Adds a list of headers.
pub fn apply_custom_headers(resp: HttpResponse, headers: &Vec<(String, String)>) -> (r:
    HttpResponse)
    ensures
        r@ == with_headers(resp@, pairs(headers@)),
{
    let ghost l = pairs(headers@);
    let ghost start = resp@;
    let mut r = resp;
    let mut i: usize = 0;
    assert(l.subrange(0, 0) =~= Seq::<(Seq<char>, Seq<char>)>::empty());
    while i < headers.len()
        invariant
            l == pairs(headers@),
            i <= headers@.len(),
            r@ == with_headers(start, l.subrange(0, i as int)),
        decreases headers@.len() - i,
    {
        assert(l.subrange(0, i + 1).drop_last() =~= l.subrange(0, i as int));
        assert(l.subrange(0, i + 1).last() == (headers@[i as int].0@, headers@[i as int].1@));
        r = r.with_header(headers[i].0.as_str(), headers[i].1.as_str());
        i = i + 1;
    }
    assert(l.subrange(0, l.len() as int) =~= l);
    r
}

/// Shapes the headers of a response as the rules of a directory say.
pub fn apply_rules(resp: HttpResponse, rules: &DirectoryConfig) -> (r: HttpResponse)
    ensures
        r@ == ruled(resp@, rules@),
{
    let mut r = apply_custom_headers(resp, &rules.headers);
    r = apply_custom_headers(r, &rules.add_headers);
    let ghost start = r@;
    let ghost names = strings(rules.remove_headers@);
    let mut i: usize = 0;
    assert(names.subrange(0, 0) =~= Seq::<Seq<char>>::empty());
    while i < rules.remove_headers.len()
        invariant
            names == strings(rules.remove_headers@),
            i <= names.len(),
            r@ == (ResponseView {
                headers: drop_all_named(start.headers, names.subrange(0, i as int)),
                ..start
            }),
        decreases names.len() - i,
    {
        assert(names.subrange(0, i + 1).drop_last() =~= names.subrange(0, i as int));
        assert(names.subrange(0, i + 1).last() == rules.remove_headers@[i as int]@);
        remove_named(&mut r.headers, rules.remove_headers[i].as_str());
        i = i + 1;
    }
    assert(names.subrange(0, names.len() as int) =~= names);
    r
}

fn default_header(headers: &mut Vec<(String, String)>, name: &str, value: &Option<String>)
    ensures
        pairs(final(headers)@) == with_default(pairs(old(headers)@), name@, opt_text(*value)),
{
    match value {
        Some(v) => {
            if !contains_header(headers, name) {
                push_header(headers, name, v.as_str());
            }
        },
        None => {},
    }
}

/// Adds the security settings of the server to the headers of a response.
pub fn apply_security_headers(headers: &mut Vec<(String, String)>, config: &ServerConfig)
    ensures
        pairs(final(headers)@) == secured(pairs(old(headers)@), config@),
{
    default_header(headers, "X-Content-Type-Options", &config.security_x_content_type_options);
    default_header(headers, "Referrer-Policy", &config.security_referrer_policy);
    default_header(headers, "X-Frame-Options", &config.security_x_frame_options);
    default_header(headers, "Content-Security-Policy", &config.security_content_security_policy);
}

} // verus!
