//! Directives in the native notation: a name and its arguments, separated by
//! white space.

use crate::config::ip::{cidr, parse_cidr};
use crate::config::scan::{
    duration, has_char_of, header_name_ok, header_value_ok, parse_duration, parse_status,
    pattern_ok, plain_component, status, tokenize_rule_line, tokens, valid_header_name,
    valid_header_value, validate_rewrite_pattern,
};
use crate::config::types::{
    pages, pairs, views, DirView, DirectoryConfig, RedirectRule, RedirectView, RewriteRule,
    RewriteView, MAX_REWRITE_RULES,
};
use crate::text::{
    byte_len, chars_of, contains_str, contains_text, copy, digit, has_char, is_digit, is_text,
    is_upper, lower, lower_of, push_str, string_of, strings, texts,
};
use vstd::prelude::*;
use vstd::utf8::encode_utf8;

verus! {

/// What a directive leaves behind: the changed rules, or the untouched rules and a
/// complaint.
pub open spec fn outcome(
    r: Result<(), Vec<char>>,
    after: DirView,
    before: DirView,
    want: Result<DirView, Seq<char>>,
) -> bool {
    match want {
        Ok(v) => r is Ok && after == v,
        Err(m) => after == before && (r matches Err(e) && e@ == m),
    }
}

pub open spec fn header_rule(t: Seq<Seq<char>>, d: DirView) -> Result<DirView, Seq<char>> {
    if t.len() != 3 {
        Err(t[0] + " requires <name> <value>"@)
    } else if !header_name_ok(t[1]) {
        Err("invalid header name"@)
    } else if !header_value_ok(t[2]) {
        Err("header value contains forbidden control characters"@)
    } else if t[0] == "header"@ {
        Ok(DirView { headers: d.headers.push((t[1], t[2])), ..d })
    } else {
        Ok(DirView { add_headers: d.add_headers.push((t[1], t[2])), ..d })
    }
}

pub open spec fn remove_header_rule(t: Seq<Seq<char>>, d: DirView) -> Result<DirView, Seq<char>> {
    if t.len() != 2 || !header_name_ok(t[1]) {
        Err("remove_header requires a valid header name"@)
    } else {
        Ok(DirView { remove_headers: d.remove_headers.push(t[1]), ..d })
    }
}

pub open spec fn redirect_rule(t: Seq<Seq<char>>, d: DirView) -> Result<DirView, Seq<char>> {
    if t.len() != 4 {
        Err("redirect requires <source> <target> <status>"@)
    } else {
        match status(t[3]) {
            Err(m) => Err(m),
            Ok(code) => if !(300 <= code <= 399) {
                Err("redirect status must be between 300 and 399"@)
            } else if !header_value_ok(t[1]) || !header_value_ok(t[2]) {
                Err("redirect paths contain forbidden control characters"@)
            } else {
                Ok(
                    DirView {
                        redirect: Some(RedirectView { source: t[1], target: t[2], status: code }),
                        ..d
                    },
                )
            },
        }
    }
}

pub open spec fn rewrite_status(t: Seq<Seq<char>>) -> Result<Option<u16>, Seq<char>> {
    if t.len() == 4 {
        match status(t[3]) {
            Ok(code) => Ok(Some(code)),
            Err(m) => Err(m),
        }
    } else {
        Ok(None)
    }
}

pub open spec fn rewrite_rule(t: Seq<Seq<char>>, d: DirView) -> Result<DirView, Seq<char>> {
    if t.len() < 3 || t.len() > 4 {
        Err("rewrite requires <pattern> <replacement> [status]"@)
    } else if encode_utf8(t[1]).len() > 4096 || encode_utf8(t[2]).len() > 4096 || has_char(
        t[1],
        '\0',
    ) {
        Err("rewrite pattern or replacement is too large or contains NUL"@)
    } else if !pattern_ok(t[1]) {
        Err("unbalanced rewrite pattern"@)
    } else if !header_value_ok(t[2]) {
        Err("rewrite replacement contains forbidden control characters"@)
    } else {
        match rewrite_status(t) {
            Err(m) => Err(m),
            Ok(code) => if d.rewrites.len() >= MAX_REWRITE_RULES {
                Err("at most 128 rewrite directives are allowed"@)
            } else {
                Ok(
                    DirView {
                        rewrites: d.rewrites.push(
                            RewriteView { pattern: t[1], replacement: t[2], status: code },
                        ),
                        ..d
                    },
                )
            },
        }
    }
}

pub open spec fn access_rule(t: Seq<Seq<char>>, d: DirView) -> Result<DirView, Seq<char>> {
    if t.len() != 3 || t[1] != "ip"@ {
        Err(t[0] + " requires ip <CIDR>"@)
    } else {
        match cidr(t[2]) {
            Err(m) => Err(m),
            Ok(network) => if t[0] == "allow"@ {
                Ok(DirView { allow_networks: d.allow_networks.push(network), ..d })
            } else {
                Ok(DirView { deny_networks: d.deny_networks.push(network), ..d })
            },
        }
    }
}

pub open spec fn method_ok(m: Seq<char>) -> bool {
    forall|i: int|
        0 <= i < m.len() ==> is_upper(#[trigger] m[i]) || is_digit(m[i]) || m[i] == '-'
}

/// The elements in order of first appearance.
pub open spec fn distinct(s: Seq<Seq<char>>) -> Seq<Seq<char>>
    decreases s.len(),
{
    if s.len() == 0 {
        s
    } else {
        let r = distinct(s.drop_last());
        if r.contains(s.last()) {
            r
        } else {
            r.push(s.last())
        }
    }
}

pub open spec fn arguments(t: Seq<Seq<char>>) -> Seq<Seq<char>> {
    t.subrange(1, t.len() as int)
}

pub open spec fn too_few(t: Seq<Seq<char>>) -> Seq<char> {
    t[0] + " requires at least 1 arguments"@
}

pub open spec fn methods_rule(t: Seq<Seq<char>>, d: DirView) -> Result<DirView, Seq<char>> {
    if t.len() < 2 {
        Err(too_few(t))
    } else if !(forall|i: int| 1 <= i < t.len() ==> method_ok(#[trigger] t[i])) {
        Err("methods must be uppercase HTTP tokens"@)
    } else {
        Ok(DirView { methods: Some(distinct(arguments(t))), ..d })
    }
}

/// A file name without directory parts.
pub open spec fn simple_name(f: Seq<char>) -> bool {
    plain_component(f) && !has_char(f, '/')
}

pub open spec fn index_rule(t: Seq<Seq<char>>, d: DirView) -> Result<DirView, Seq<char>> {
    if t.len() < 2 {
        Err(too_few(t))
    } else if !(forall|i: int| 1 <= i < t.len() ==> simple_name(#[trigger] t[i])) {
        Err("index names must be simple file names"@)
    } else {
        Ok(DirView { index_files: Some(arguments(t)), ..d })
    }
}

pub open spec fn switch_rule(t: Seq<Seq<char>>, d: DirView) -> Result<DirView, Seq<char>> {
    if t.len() != 2 {
        Err(t[0] + " requires on or off"@)
    } else if t[1] != "on"@ && t[1] != "off"@ {
        Err("value must be on or off"@)
    } else if t[0] == "autoindex"@ {
        Ok(DirView { autoindex: Some(t[1] == "on"@), ..d })
    } else {
        Ok(DirView { cache: Some(t[1] == "on"@), ..d })
    }
}

pub open spec fn expires_rule(t: Seq<Seq<char>>, d: DirView) -> Result<DirView, Seq<char>> {
    if t.len() != 2 {
        Err("expires requires a duration"@)
    } else {
        match duration(t[1]) {
            Ok(n) => Ok(DirView { expires: Some(n), ..d }),
            Err(m) => Err(m),
        }
    }
}

pub open spec fn mime_rule(t: Seq<Seq<char>>, d: DirView) -> Result<DirView, Seq<char>> {
    if t.len() != 3 || t[1].len() < 2 || t[1][0] != '.' || !header_value_ok(t[2]) {
        Err("mime requires <.extension> <mime-type>"@)
    } else if !has_char(t[2], '/') {
        Err("invalid MIME type"@)
    } else {
        Ok(DirView { mime_types: d.mime_types.push((lower(t[1]), t[2])), ..d })
    }
}

pub open spec fn error_page_rule(t: Seq<Seq<char>>, d: DirView) -> Result<DirView, Seq<char>> {
    if t.len() != 3 {
        Err("error_page requires <status> <path>"@)
    } else {
        match status(t[1]) {
            Err(m) => Err(m),
            Ok(code) => if t[2].len() == 0 || t[2][0] != '/' || contains_text(t[2], ".."@) {
                Err("error page path must be an absolute URL path without traversal"@)
            } else {
                Ok(DirView { error_pages: d.error_pages.push((code, t[2])), ..d })
            },
        }
    }
}

/// The effect of one directive.
pub open spec fn native_rule(t: Seq<Seq<char>>, d: DirView) -> Result<DirView, Seq<char>> {
    let k = t[0];
    if k == "header"@ || k == "add_header"@ {
        header_rule(t, d)
    } else if k == "remove_header"@ {
        remove_header_rule(t, d)
    } else if k == "redirect"@ {
        redirect_rule(t, d)
    } else if k == "rewrite"@ {
        rewrite_rule(t, d)
    } else if k == "allow"@ || k == "deny"@ {
        access_rule(t, d)
    } else if k == "methods"@ {
        methods_rule(t, d)
    } else if k == "index"@ {
        index_rule(t, d)
    } else if k == "autoindex"@ || k == "cache"@ {
        switch_rule(t, d)
    } else if k == "expires"@ {
        expires_rule(t, d)
    } else if k == "mime"@ {
        mime_rule(t, d)
    } else if k == "error_page"@ {
        error_page_rule(t, d)
    } else {
        Err("unknown directive '"@ + k + "'"@)
    }
}

/// The effect of one line in the native notation.
pub open spec fn native_line(line: Seq<char>, d: DirView) -> Result<DirView, Seq<char>> {
    match tokens(line) {
        Err(m) => Err(m),
        Ok(t) => if t.len() == 0 {
            Ok(d)
        } else {
            native_rule(t, d)
        },
    }
}

pub fn push_pair(v: &mut Vec<(String, String)>, a: &Vec<char>, b: &Vec<char>)
    ensures
        pairs(final(v)@) == pairs(old(v)@).push((a@, b@)),
{
    let ghost prev = pairs(v@);
    v.push((string_of(a), string_of(b)));
    assert(pairs(v@) =~= prev.push((a@, b@)));
}

pub fn push_string(v: &mut Vec<String>, a: &Vec<char>)
    ensures
        strings(final(v)@) == strings(old(v)@).push(a@),
{
    let ghost prev = strings(v@);
    v.push(string_of(a));
    assert(strings(v@) =~= prev.push(a@));
}

/// The message made of a text and a literal.
pub fn joined(a: &Vec<char>, s: &str) -> (r: Vec<char>)
    ensures
        r@ == a@ + s@,
{
    let mut m = copy(a);
    push_str(&mut m, s);
    m
}

fn apply_header(t: &Vec<Vec<char>>, d: &mut DirectoryConfig) -> (r: Result<(), Vec<char>>)
    requires
        t@.len() > 0,
    ensures
        outcome(r, final(d)@, old(d)@, header_rule(texts(t@), old(d)@)),
{
    if t.len() != 3 {
        return Err(joined(&t[0], " requires <name> <value>"));
    }
    if !valid_header_name(&t[1]) {
        return Err(chars_of("invalid header name"));
    }
    if !valid_header_value(&t[2]) {
        return Err(chars_of("header value contains forbidden control characters"));
    }
    if is_text(&t[0], "header") {
        push_pair(&mut d.headers, &t[1], &t[2]);
    } else {
        push_pair(&mut d.add_headers, &t[1], &t[2]);
    }
    Ok(())
}

fn apply_remove_header(t: &Vec<Vec<char>>, d: &mut DirectoryConfig) -> (r: Result<(), Vec<char>>)
    requires
        t@.len() > 0,
    ensures
        outcome(r, final(d)@, old(d)@, remove_header_rule(texts(t@), old(d)@)),
{
    if t.len() != 2 || !valid_header_name(&t[1]) {
        return Err(chars_of("remove_header requires a valid header name"));
    }
    push_string(&mut d.remove_headers, &t[1]);
    Ok(())
}

fn apply_redirect(t: &Vec<Vec<char>>, d: &mut DirectoryConfig) -> (r: Result<(), Vec<char>>)
    requires
        t@.len() > 0,
    ensures
        outcome(r, final(d)@, old(d)@, redirect_rule(texts(t@), old(d)@)),
{
    if t.len() != 4 {
        return Err(chars_of("redirect requires <source> <target> <status>"));
    }
    let code: u16 = match parse_status(&t[3]) {
        Ok(c) => c,
        Err(m) => {
            return Err(m);
        },
    };
    if code < 300 || code > 399 {
        return Err(chars_of("redirect status must be between 300 and 399"));
    }
    if !valid_header_value(&t[1]) || !valid_header_value(&t[2]) {
        return Err(chars_of("redirect paths contain forbidden control characters"));
    }
    d.redirect = Some(
        RedirectRule { source: string_of(&t[1]), target: string_of(&t[2]), status: code },
    );
    Ok(())
}

fn apply_rewrite(t: &Vec<Vec<char>>, d: &mut DirectoryConfig) -> (r: Result<(), Vec<char>>)
    requires
        t@.len() > 0,
    ensures
        outcome(r, final(d)@, old(d)@, rewrite_rule(texts(t@), old(d)@)),
{
    if t.len() < 3 || t.len() > 4 {
        return Err(chars_of("rewrite requires <pattern> <replacement> [status]"));
    }
    if byte_len(&t[1]) > 4096 || byte_len(&t[2]) > 4096 || has_char_of(&t[1], '\0') {
        return Err(chars_of("rewrite pattern or replacement is too large or contains NUL"));
    }
    if !validate_rewrite_pattern(&t[1]) {
        return Err(chars_of("unbalanced rewrite pattern"));
    }
    if !valid_header_value(&t[2]) {
        return Err(chars_of("rewrite replacement contains forbidden control characters"));
    }
    let code: Option<u16> = if t.len() == 4 {
        match parse_status(&t[3]) {
            Ok(c) => Some(c),
            Err(m) => {
                return Err(m);
            },
        }
    } else {
        None
    };
    if d.rewrites.len() >= MAX_REWRITE_RULES {
        return Err(chars_of("at most 128 rewrite directives are allowed"));
    }
    let ghost prev = views(d.rewrites@);
    d.rewrites.push(
        RewriteRule { pattern: string_of(&t[1]), replacement: string_of(&t[2]), status: code },
    );
    assert(views(d.rewrites@) =~= prev.push(
        RewriteView { pattern: t@[1]@, replacement: t@[2]@, status: code },
    ));
    Ok(())
}

fn apply_access(t: &Vec<Vec<char>>, d: &mut DirectoryConfig) -> (r: Result<(), Vec<char>>)
    requires
        t@.len() > 0,
    ensures
        outcome(r, final(d)@, old(d)@, access_rule(texts(t@), old(d)@)),
{
    if t.len() != 3 || !is_text(&t[1], "ip") {
        return Err(joined(&t[0], " requires ip <CIDR>"));
    }
    let network = match parse_cidr(&t[2]) {
        Ok(n) => n,
        Err(m) => {
            return Err(m);
        },
    };
    if is_text(&t[0], "allow") {
        d.allow_networks.push(network);
    } else {
        d.deny_networks.push(network);
    }
    Ok(())
}

fn valid_method(m: &Vec<char>) -> (b: bool)
    ensures
        b == method_ok(m@),
{
    let mut i: usize = 0;
    while i < m.len()
        invariant
            i <= m@.len(),
            forall|j: int|
                0 <= j < i ==> is_upper(#[trigger] m@[j]) || is_digit(m@[j]) || m@[j] == '-',
        decreases m@.len() - i,
    {
        let c: u32 = m[i] as u32;
        if !((65 <= c && c <= 90) || digit(m[i]) || m[i] == '-') {
            assert(!is_upper(m@[i as int]));
            return false;
        }
        i = i + 1;
    }
    true
}

fn listed(v: &Vec<String>, m: &Vec<char>) -> (b: bool)
    ensures
        b == strings(v@).contains(m@),
{
    let mut i: usize = 0;
    while i < v.len()
        invariant
            i <= v@.len(),
            forall|j: int| 0 <= j < i ==> #[trigger] v@[j]@ != m@,
        decreases v@.len() - i,
    {
        if is_text(m, v[i].as_str()) {
            assert(strings(v@)[i as int] == m@);
            return true;
        }
        i = i + 1;
    }
    assert forall|j: int| 0 <= j < strings(v@).len() implies strings(v@)[j] != m@ by {
        assert(v@[j]@ != m@);
    }
    false
}

fn apply_methods(t: &Vec<Vec<char>>, d: &mut DirectoryConfig) -> (r: Result<(), Vec<char>>)
    requires
        t@.len() > 0,
    ensures
        outcome(r, final(d)@, old(d)@, methods_rule(texts(t@), old(d)@)),
{
    if t.len() < 2 {
        return Err(joined(&t[0], " requires at least 1 arguments"));
    }
    let ghost w = texts(t@);
    let mut methods: Vec<String> = Vec::new();
    let mut i: usize = 1;
    assert(strings(methods@) =~= Seq::<Seq<char>>::empty());
    assert(w.subrange(1, 1) =~= Seq::<Seq<char>>::empty());
    while i < t.len()
        invariant
            w == texts(t@),
            *d == *old(d),
            t@.len() >= 2,
            1 <= i,
            i <= t@.len(),
            forall|j: int| 1 <= j < i ==> method_ok(#[trigger] w[j]),
            strings(methods@) == distinct(w.subrange(1, i as int)),
        decreases t@.len() - i,
    {
        assert(w[i as int] == t@[i as int]@);
        assert(w.subrange(1, i + 1).drop_last() =~= w.subrange(1, i as int));
        if !valid_method(&t[i]) {
            return Err(chars_of("methods must be uppercase HTTP tokens"));
        }
        if !listed(&methods, &t[i]) {
            push_string(&mut methods, &t[i]);
        }
        i = i + 1;
    }
    assert(w.subrange(1, t@.len() as int) == arguments(w));
    d.methods = Some(methods);
    Ok(())
}

fn apply_index(t: &Vec<Vec<char>>, d: &mut DirectoryConfig) -> (r: Result<(), Vec<char>>)
    requires
        t@.len() > 0,
    ensures
        outcome(r, final(d)@, old(d)@, index_rule(texts(t@), old(d)@)),
{
    if t.len() < 2 {
        return Err(joined(&t[0], " requires at least 1 arguments"));
    }
    let ghost w = texts(t@);
    let mut names: Vec<String> = Vec::new();
    let mut i: usize = 1;
    assert(strings(names@) =~= w.subrange(1, 1));
    while i < t.len()
        invariant
            w == texts(t@),
            *d == *old(d),
            t@.len() >= 2,
            1 <= i,
            i <= t@.len(),
            forall|j: int| 1 <= j < i ==> simple_name(#[trigger] w[j]),
            strings(names@) == w.subrange(1, i as int),
        decreases t@.len() - i,
    {
        assert(w[i as int] == t@[i as int]@);
        if t[i].len() == 0 || has_char_of(&t[i], '/') || is_text(&t[i], ".") || is_text(
            &t[i],
            "..",
        ) {
            assert(!simple_name(w[i as int]));
            return Err(chars_of("index names must be simple file names"));
        }
        push_string(&mut names, &t[i]);
        i = i + 1;
        assert(w.subrange(1, i as int) =~= w.subrange(1, i - 1).push(w[i - 1]));
    }
    assert(w.subrange(1, t@.len() as int) == arguments(w));
    d.index_files = Some(names);
    Ok(())
}

fn apply_switch(t: &Vec<Vec<char>>, d: &mut DirectoryConfig) -> (r: Result<(), Vec<char>>)
    requires
        t@.len() > 0,
    ensures
        outcome(r, final(d)@, old(d)@, switch_rule(texts(t@), old(d)@)),
{
    if t.len() != 2 {
        return Err(joined(&t[0], " requires on or off"));
    }
    let on = is_text(&t[1], "on");
    if !on && !is_text(&t[1], "off") {
        return Err(chars_of("value must be on or off"));
    }
    if is_text(&t[0], "autoindex") {
        d.autoindex = Some(on);
    } else {
        d.cache = Some(on);
    }
    Ok(())
}

fn apply_expires(t: &Vec<Vec<char>>, d: &mut DirectoryConfig) -> (r: Result<(), Vec<char>>)
    requires
        t@.len() > 0,
    ensures
        outcome(r, final(d)@, old(d)@, expires_rule(texts(t@), old(d)@)),
{
    if t.len() != 2 {
        return Err(chars_of("expires requires a duration"));
    }
    match parse_duration(&t[1]) {
        Ok(n) => {
            d.expires = Some(n);
            Ok(())
        },
        Err(m) => Err(m),
    }
}

fn apply_mime(t: &Vec<Vec<char>>, d: &mut DirectoryConfig) -> (r: Result<(), Vec<char>>)
    requires
        t@.len() > 0,
    ensures
        outcome(r, final(d)@, old(d)@, mime_rule(texts(t@), old(d)@)),
{
    if t.len() != 3 || t[1].len() < 2 || t[1][0] != '.' || !valid_header_value(&t[2]) {
        return Err(chars_of("mime requires <.extension> <mime-type>"));
    }
    if !has_char_of(&t[2], '/') {
        return Err(chars_of("invalid MIME type"));
    }
    push_pair(&mut d.mime_types, &lower_of(&t[1]), &t[2]);
    Ok(())
}

fn apply_error_page(t: &Vec<Vec<char>>, d: &mut DirectoryConfig) -> (r: Result<(), Vec<char>>)
    requires
        t@.len() > 0,
    ensures
        outcome(r, final(d)@, old(d)@, error_page_rule(texts(t@), old(d)@)),
{
    if t.len() != 3 {
        return Err(chars_of("error_page requires <status> <path>"));
    }
    let code: u16 = match parse_status(&t[1]) {
        Ok(c) => c,
        Err(m) => {
            return Err(m);
        },
    };
    if t[2].len() == 0 || t[2][0] != '/' || contains_str(&t[2], "..") {
        return Err(chars_of("error page path must be an absolute URL path without traversal"));
    }
    let ghost prev = pages(d.error_pages@);
    d.error_pages.push((code, string_of(&t[2])));
    assert(pages(d.error_pages@) =~= prev.push((code, t@[2]@)));
    Ok(())
}

/// Applies one line in the native notation to the rules of a directory.
pub fn parse_native_directive(line: &Vec<char>, d: &mut DirectoryConfig) -> (r: Result<
    (),
    Vec<char>,
>)
    ensures
        outcome(r, final(d)@, old(d)@, native_line(line@, old(d)@)),
{
    let t = match tokenize_rule_line(line) {
        Ok(t) => t,
        Err(m) => {
            return Err(m);
        },
    };
    if t.len() == 0 {
        return Ok(());
    }
    let k = &t[0];
    if is_text(k, "header") || is_text(k, "add_header") {
        apply_header(&t, d)
    } else if is_text(k, "remove_header") {
        apply_remove_header(&t, d)
    } else if is_text(k, "redirect") {
        apply_redirect(&t, d)
    } else if is_text(k, "rewrite") {
        apply_rewrite(&t, d)
    } else if is_text(k, "allow") || is_text(k, "deny") {
        apply_access(&t, d)
    } else if is_text(k, "methods") {
        apply_methods(&t, d)
    } else if is_text(k, "index") {
        apply_index(&t, d)
    } else if is_text(k, "autoindex") || is_text(k, "cache") {
        apply_switch(&t, d)
    } else if is_text(k, "expires") {
        apply_expires(&t, d)
    } else if is_text(k, "mime") {
        apply_mime(&t, d)
    } else if is_text(k, "error_page") {
        apply_error_page(&t, d)
    } else {
        let mut m = chars_of("unknown directive '");
        crate::text::push_text(&mut m, k);
        push_str(&mut m, "'");
        Err(m)
    }
}

} // verus!
