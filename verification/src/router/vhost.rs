//! Virtual hosts: which one a request is for and the settings that apply to it.

use crate::config::scan::{rfind, rfind_of};
use crate::config::types::{copy_opt, views, ServerConfig, ServerView, VhostConfig, VhostView};
use crate::server::http::{header_value, HttpRequest, RequestView};
use crate::text::{
    chars_of, find, find_of, has_char, is_text, lower, lower_of, parse_uint, part, push_str,
    read_u16, string_of, trim, trim_of,
};
use vstd::prelude::*;

verus! {

pub open spec fn port_ok(p: Seq<char>) -> bool {
    parse_uint(p, u16::MAX as nat) is Some
}

/// A character that no host may hold.
pub open spec fn breaks_host(s: Seq<char>) -> bool {
    exists|i: int| 0 <= i < s.len() && (#[trigger] s[i] as u32 <= 0x20 || s[i] as u32 == 0x7f)
}

/// The name in a `Host` header: lower case, without the port.
pub open spec fn host_name(value: Seq<char>) -> Option<Seq<char>> {
    let v = lower(trim(value));
    if v.len() == 0 || breaks_host(v) {
        None
    } else if v[0] == '[' {
        let inner = v.subrange(1, v.len() as int);
        let k = find(inner, ']');
        let rest = inner.subrange(k + 1, inner.len() as int);
        if k >= inner.len() {
            None
        } else if rest.len() == 0 || (rest[0] == ':' && port_ok(
            rest.subrange(1, rest.len() as int),
        )) {
            Some(inner.subrange(0, k))
        } else {
            None
        }
    } else if has_char(v, ':') {
        let k = rfind(v, ':');
        let name = v.subrange(0, k);
        if has_char(name, ':') || !port_ok(v.subrange(k + 1, v.len() as int)) {
            None
        } else {
            Some(name)
        }
    } else {
        Some(v)
    }
}

/// The first virtual host of that name from `i` on.
pub open spec fn vhost_named(l: Seq<VhostView>, name: Seq<char>, i: int) -> int
    decreases l.len() - i,
{
    if i < 0 || i >= l.len() || l[i].host == name {
        i
    } else {
        vhost_named(l, name, i + 1)
    }
}

/// The first default virtual host from `i` on.
pub open spec fn default_vhost(l: Seq<VhostView>, i: int) -> int
    decreases l.len() - i,
{
    if i < 0 || i >= l.len() || l[i].host == "*"@ || l[i].host == "_"@ {
        i
    } else {
        default_vhost(l, i + 1)
    }
}

/// The virtual host that a request is for: the one it names, else the default one.
pub open spec fn vhost_for(l: Seq<VhostView>, req: RequestView) -> Option<int> {
    match header_value(req.headers, "Host"@) {
        None => None,
        Some(h) => match host_name(h) {
            None => None,
            Some(name) => {
                let k = vhost_named(l, name, 0);
                let d = default_vhost(l, 0);
                if k < l.len() {
                    Some(k)
                } else if d < l.len() {
                    Some(d)
                } else {
                    None
                }
            },
        },
    }
}

/// A relative path behind a directory.
pub open spec fn path_below(dir: Seq<char>, name: Seq<char>) -> Seq<char> {
    if dir.len() == 0 {
        name
    } else if dir.last() == '/' {
        dir + name
    } else {
        dir + "/"@ + name
    }
}

/// The settings that apply to a request.
pub open spec fn settings_for(c: ServerView, req: RequestView) -> ServerView {
    match vhost_for(c.vhosts, req) {
        Some(i) => ServerView {
            root_dir: c.vhosts[i].root_dir,
            config_file: path_below(c.vhosts[i].root_dir, ".veysrule"@),
            tls_certificate: c.vhosts[i].tls_certificate,
            tls_private_key: c.vhosts[i].tls_private_key,
            ..c
        },
        None => c,
    }
}

/// The rules of a virtual host are those of its own document root.
pub proof fn law_vhosts_read_their_own_rules(c: ServerView, req: RequestView)
    ensures
        vhost_for(c.vhosts, req) matches Some(i) ==> settings_for(c, req).root_dir
            == c.vhosts[i].root_dir && settings_for(c, req).config_file == path_below(
            settings_for(c, req).root_dir,
            ".veysrule"@,
        ),
        vhost_for(c.vhosts, req) is None ==> settings_for(c, req) == c,
{
}

/// The host is that of a default virtual host.
pub open spec fn is_default(host: Seq<char>) -> bool {
    host == "*"@ || host == "_"@
}

proof fn lemma_vhost_named(l: Seq<VhostView>, name: Seq<char>, i: int)
    requires
        0 <= i <= l.len(),
    ensures
        i <= vhost_named(l, name, i) <= l.len(),
        vhost_named(l, name, i) < l.len() ==> l[vhost_named(l, name, i)].host == name,
        forall|j: int| i <= j < vhost_named(l, name, i) ==> (#[trigger] l[j]).host != name,
    decreases l.len() - i,
{
    if i < l.len() && l[i].host != name {
        lemma_vhost_named(l, name, i + 1);
    }
}

proof fn lemma_default_vhost(l: Seq<VhostView>, i: int)
    requires
        0 <= i <= l.len(),
    ensures
        i <= default_vhost(l, i) <= l.len(),
        default_vhost(l, i) < l.len() ==> is_default(l[default_vhost(l, i)].host),
        forall|j: int| i <= j < default_vhost(l, i) ==> !is_default((#[trigger] l[j]).host),
    decreases l.len() - i,
{
    if i < l.len() && !is_default(l[i].host) {
        lemma_default_vhost(l, i + 1);
    }
}

/// A request goes to the virtual host that it names, where there is one, else to a
/// default one, where there is one, and else to the document root of the server.
pub proof fn law_named_vhosts_come_first(l: Seq<VhostView>, req: RequestView, value: Seq<char>)
    requires
        header_value(req.headers, "Host"@) == Some(value),
        host_name(value) is Some,
    ensures
        ({
            let name = host_name(value)->Some_0;
            let named = exists|j: int| 0 <= j < l.len() && (#[trigger] l[j]).host == name;
            let default = exists|j: int| 0 <= j < l.len() && is_default((#[trigger] l[j]).host);
            match vhost_for(l, req) {
                Some(i) => 0 <= i < l.len() && (l[i].host == name || (!named && is_default(
                    l[i].host,
                ))),
                None => !named && !default,
            }
        }),
{
    lemma_vhost_named(l, host_name(value)->Some_0, 0);
    lemma_default_vhost(l, 0);
}

/// The name in a `Host` header.
pub fn normalize_host(value: &str) -> (r: Option<String>)
    ensures
        match r {
            Some(n) => host_name(value@) == Some(n@),
            None => host_name(value@) is None,
        },
{
    let v = lower_of(&trim_of(&chars_of(value)));
    if v.len() == 0 {
        return None;
    }
    let mut i: usize = 0;
    while i < v.len()
        invariant
            v@ == lower(trim(value@)),
            i <= v@.len(),
            forall|j: int| 0 <= j < i ==> #[trigger] v@[j] as u32 > 0x20 && v@[j] as u32 != 0x7f,
        decreases v@.len() - i,
    {
        let c: u32 = v[i] as u32;
        if c <= 0x20 || c == 0x7f {
            assert(v@[i as int] as u32 == c);
            assert(breaks_host(v@));
            return None;
        }
        i = i + 1;
    }
    assert(!breaks_host(v@));
    if v[0] == '[' {
        let inner = part(&v, 1, v.len());
        let k: usize = find_of(&inner, ']');
        if k >= inner.len() {
            return None;
        }
        let rest = part(&inner, k + 1, inner.len());
        if rest.len() == 0 || (rest[0] == ':' && read_u16(&part(&rest, 1, rest.len())).is_some()) {
            return Some(string_of(&part(&inner, 0, k)));
        }
        return None;
    }
    if find_of(&v, ':') < v.len() {
        let k: usize = rfind_of(&v, ':');
        proof {
            lemma_rfind_found(v@, ':');
        }
        let name = part(&v, 0, k - 1);
        if find_of(&name, ':') < name.len() || read_u16(&part(&v, k, v.len())).is_none() {
            return None;
        }
        return Some(string_of(&name));
    }
    Some(string_of(&v))
}

proof fn lemma_rfind_found(s: Seq<char>, c: char)
    ensures
        has_char(s, c) ==> 0 <= rfind(s, c) < s.len(),
    decreases s.len(),
{
    if s.len() > 0 && s.last() != c {
        lemma_rfind_found(s.drop_last(), c);
        if has_char(s, c) {
            let k = choose|k: int| 0 <= k < s.len() && s[k] == c;
            assert(s.drop_last()[k] == c);
        }
    }
}

/// The virtual host that a request is for.
pub fn select_vhost<'a>(config: &'a ServerConfig, req: &HttpRequest) -> (r: Option<&'a VhostConfig>)
    ensures
        match r {
            Some(v) => vhost_for(config@.vhosts, req@) matches Some(i) && 0 <= i
                < config@.vhosts.len() && v@ == config@.vhosts[i],
            None => vhost_for(config@.vhosts, req@) is None,
        },
{
    let ghost l = config@.vhosts;
    let host = match req.get_header("Host") {
        Some(h) => h,
        None => {
            return None;
        },
    };
    let name = match normalize_host(host) {
        Some(n) => chars_of(n.as_str()),
        None => {
            return None;
        },
    };
    let n: usize = config.vhosts.len();
    let mut i: usize = 0;
    while i < n
        invariant
            n == config.vhosts@.len(),
            l == views(config.vhosts@),
            l == config@.vhosts,
            header_value(req@.headers, "Host"@) matches Some(h) && host_name(h) == Some(name@),
            i <= n,
            vhost_named(l, name@, i as int) == vhost_named(l, name@, 0),
        decreases n - i,
    {
        assert(l[i as int] == config.vhosts@[i as int]@);
        if is_text(&name, config.vhosts[i].host.as_str()) {
            return Some(&config.vhosts[i]);
        }
        i = i + 1;
    }
    let mut j: usize = 0;
    while j < n
        invariant
            n == config.vhosts@.len(),
            l == views(config.vhosts@),
            l == config@.vhosts,
            header_value(req@.headers, "Host"@) matches Some(h) && host_name(h) == Some(name@),
            j <= n,
            vhost_named(l, name@, 0) == n,
            default_vhost(l, j as int) == default_vhost(l, 0),
        decreases n - j,
    {
        assert(l[j as int] == config.vhosts@[j as int]@);
        let h = chars_of(config.vhosts[j].host.as_str());
        if is_text(&h, "*") || is_text(&h, "_") {
            return Some(&config.vhosts[j]);
        }
        j = j + 1;
    }
    None
}

/// A relative path behind a directory.
pub fn join_below(dir: &str, name: &str) -> (r: String)
    ensures
        r@ == path_below(dir@, name@),
{
    let mut out = chars_of(dir);
    let n: usize = out.len();
    if n > 0 && out[n - 1] != '/' {
        push_str(&mut out, "/");
    }
    push_str(&mut out, name);
    assert(n == 0 ==> out@ =~= name@);
    string_of(&out)
}

/// The settings that apply to a request.
pub fn effective_config(config: &ServerConfig, req: &HttpRequest) -> (r: ServerConfig)
    ensures
        r@ == settings_for(config@, req@),
{
    let mut effective = config.clone();
    match select_vhost(config, req) {
        Some(v) => {
            effective.root_dir = v.root_dir.clone();
            effective.config_file = join_below(v.root_dir.as_str(), ".veysrule");
            effective.tls_certificate = copy_opt(&v.tls_certificate);
            effective.tls_private_key = copy_opt(&v.tls_private_key);
        },
        None => {},
    }
    assert(effective@ =~= settings_for(config@, req@));
    effective
}

} // verus!
