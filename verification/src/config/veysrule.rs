//! Whole rule files: settings in the form `KEY = VALUE` and lines in the native
//! notation.

use crate::config::ip::{ip, read_ip};
use crate::config::native::{joined, native_line, parse_native_directive, push_pair, push_string};
use crate::config::scan::{
    endpoint_ok, front_controller_ok, has_bare, has_char_of, has_unquoted_equals, header_value_ok,
    route_prefix_ok, strip_comment, strip_rule_comment, upstream_ok, valid_fastcgi_endpoint,
    valid_front_controller_path, valid_header_value, valid_route_prefix, valid_upstream,
};
use crate::config::types::{
    default_server, no_rules, opt_text, views, ConfigParseError, DirView, DirectoryConfig,
    ErrorView, FastCgiRoute, FastCgiView, ProxyRoute, ProxyView, ServerConfig, ServerView,
    VhostConfig, VhostView, MAX_REWRITE_RULES, MAX_RULE_FILE_BYTES,
};
use crate::text::{
    after, before, byte_len, chars_of, find_of, has_char, is_text, lines, lines_of, lower, lower_of,
    parse_uint, part, push_text, read_u16, read_u32, read_u64, read_usize, string_of, texts, trim,
    trim_of, words, words_of,
};
use vstd::prelude::*;
use vstd::utf8::encode_utf8;

verus! {

pub open spec fn invalid(key: Seq<char>) -> Seq<char> {
    "invalid "@ + key
}

/// Settings that hold a size or a count.
pub open spec fn size_key(k: Seq<char>) -> bool {
    k == "MAX_REQUEST_SIZE"@ || k == "MAX_HEADER_SIZE"@ || k == "MAX_HEADERS"@ || k
        == "MAX_HEADER_LINE"@ || k == "MAX_URI_LENGTH"@ || k == "MAX_CONNECTIONS"@ || k
        == "MAX_REQUESTS_PER_CONNECTION"@ || k == "MAX_CONNECTIONS_PER_IP"@ || k == "WORKERS"@
}

pub open spec fn with_size(k: Seq<char>, n: usize, s: ServerView) -> ServerView {
    if k == "MAX_REQUEST_SIZE"@ {
        ServerView { max_request_size: n, ..s }
    } else if k == "MAX_HEADER_SIZE"@ {
        ServerView { max_header_size: n, ..s }
    } else if k == "MAX_HEADERS"@ {
        ServerView { max_headers: n, ..s }
    } else if k == "MAX_HEADER_LINE"@ {
        ServerView { max_header_line: n, ..s }
    } else if k == "MAX_URI_LENGTH"@ {
        ServerView { max_uri_length: n, ..s }
    } else if k == "MAX_CONNECTIONS"@ {
        ServerView { max_connections: n, ..s }
    } else if k == "MAX_REQUESTS_PER_CONNECTION"@ {
        ServerView { max_requests_per_connection: n, ..s }
    } else if k == "MAX_CONNECTIONS_PER_IP"@ {
        ServerView { max_connections_per_ip: n, ..s }
    } else {
        ServerView { workers: n, ..s }
    }
}

/// Settings that hold seconds or bytes.
pub open spec fn long_key(k: Seq<char>) -> bool {
    k == "READ_TIMEOUT"@ || k == "WRITE_TIMEOUT"@ || k == "KEEP_ALIVE_TIMEOUT"@ || k
        == "COMPRESSION_MIN_SIZE"@
}

pub open spec fn with_long(k: Seq<char>, n: u64, s: ServerView) -> ServerView {
    if k == "READ_TIMEOUT"@ {
        ServerView { read_timeout: n, ..s }
    } else if k == "WRITE_TIMEOUT"@ {
        ServerView { write_timeout: n, ..s }
    } else if k == "KEEP_ALIVE_TIMEOUT"@ {
        ServerView { keep_alive_timeout: n, ..s }
    } else {
        ServerView { compression_min_size: n, ..s }
    }
}

pub open spec fn rate_key(k: Seq<char>) -> bool {
    k == "RATE_LIMIT_PER_SECOND"@ || k == "RATE_LIMIT_BURST"@
}

pub open spec fn health_key(k: Seq<char>) -> bool {
    k == "UPSTREAM_HEALTH_INTERVAL"@ || k == "UPSTREAM_HEALTH_TIMEOUT"@ || k
        == "UPSTREAM_HEALTH_FAILURES"@ || k == "UPSTREAM_HEALTH_RECOVERY"@
}

pub open spec fn at_most(n: nat, bound: nat) -> nat {
    if n <= bound {
        n
    } else {
        bound
    }
}

/// Health settings are held below their bounds.
pub open spec fn with_health(k: Seq<char>, n: nat, s: ServerView) -> ServerView {
    if k == "UPSTREAM_HEALTH_INTERVAL"@ {
        ServerView { upstream_health_interval: at_most(n, 86400) as u64, ..s }
    } else if k == "UPSTREAM_HEALTH_TIMEOUT"@ {
        ServerView { upstream_health_timeout: at_most(n, 300) as u64, ..s }
    } else if k == "UPSTREAM_HEALTH_FAILURES"@ {
        ServerView { upstream_health_failures: at_most(n, u32::MAX as nat) as u32, ..s }
    } else {
        ServerView { upstream_health_recovery: at_most(n, u32::MAX as nat) as u32, ..s }
    }
}

pub open spec fn security_key(k: Seq<char>) -> bool {
    k == "SECURITY_X_CONTENT_TYPE_OPTIONS"@ || k == "SECURITY_REFERRER_POLICY"@ || k
        == "SECURITY_X_FRAME_OPTIONS"@ || k == "SECURITY_CONTENT_SECURITY_POLICY"@
}

pub open spec fn with_security(k: Seq<char>, v: Seq<char>, s: ServerView) -> ServerView {
    if k == "SECURITY_X_CONTENT_TYPE_OPTIONS"@ {
        ServerView { security_x_content_type_options: Some(v), ..s }
    } else if k == "SECURITY_REFERRER_POLICY"@ {
        ServerView { security_referrer_policy: Some(v), ..s }
    } else if k == "SECURITY_X_FRAME_OPTIONS"@ {
        ServerView { security_x_frame_options: Some(v), ..s }
    } else {
        ServerView { security_content_security_policy: Some(v), ..s }
    }
}

/// A numeric setting.
pub open spec fn number_rule(k: Seq<char>, v: Seq<char>, s: ServerView) -> Result<
    ServerView,
    Seq<char>,
> {
    if k == "PORT"@ {
        match parse_uint(v, u16::MAX as nat) {
            Some(n) => if n > 0 {
                Ok(ServerView { port: n as u16, ..s })
            } else {
                Err("PORT must be between 1 and 65535"@)
            },
            None => Err("PORT must be between 1 and 65535"@),
        }
    } else if size_key(k) {
        match parse_uint(v, usize::MAX as nat) {
            Some(n) => Ok(with_size(k, n as usize, s)),
            None => Err(invalid(k)),
        }
    } else if long_key(k) {
        match parse_uint(v, u64::MAX as nat) {
            Some(n) => Ok(with_long(k, n as u64, s)),
            None => Err(invalid(k)),
        }
    } else if k == "COMPRESSION_LEVEL"@ {
        match parse_uint(v, u32::MAX as nat) {
            Some(n) => if n <= 9 {
                Ok(ServerView { compression_level: n as u32, ..s })
            } else {
                Err("COMPRESSION_LEVEL must be 0..9"@)
            },
            None => Err(invalid(k)),
        }
    } else if health_key(k) {
        match parse_uint(v, u64::MAX as nat) {
            Some(n) => if n == 0 {
                Err(k + " must be greater than zero"@)
            } else {
                Ok(with_health(k, n, s))
            },
            None => Err(invalid(k)),
        }
    } else {
        match parse_uint(v, u32::MAX as nat) {
            Some(n) => if k == "RATE_LIMIT_PER_SECOND"@ {
                Ok(ServerView { rate_limit_per_second: n as u32, ..s })
            } else {
                Ok(ServerView { rate_limit_burst: n as u32, ..s })
            },
            None => Err(invalid(k)),
        }
    }
}

pub open spec fn number_key(k: Seq<char>) -> bool {
    k == "PORT"@ || size_key(k) || long_key(k) || k == "COMPRESSION_LEVEL"@ || health_key(k)
        || rate_key(k)
}

/// A boolean setting: the words for yes and for no, in any case.
pub open spec fn truth(v: Seq<char>) -> Option<bool> {
    let w = lower(v);
    if w == "true"@ || w == "1"@ || w == "yes"@ {
        Some(true)
    } else if w == "false"@ || w == "0"@ || w == "no"@ {
        Some(false)
    } else {
        None
    }
}

pub open spec fn on_off(v: Seq<char>) -> Option<bool> {
    let w = lower(v);
    if w == "on"@ || w == "true"@ {
        Some(true)
    } else if w == "off"@ || w == "false"@ {
        Some(false)
    } else {
        None
    }
}

/// A place for log lines: a standard stream or an absolute path.
pub open spec fn log_destination_ok(v: Seq<char>) -> bool {
    v == "stdout"@ || v == "stderr"@ || (v.len() > 0 && v[0] == '/' && encode_utf8(v).len() <= 4096)
}

pub open spec fn text_key(k: Seq<char>) -> bool {
    k == "ROOT_DIR"@ || k == "LOG_FORMAT"@ || k == "ACCESS_LOG"@ || k == "ERROR_LOG"@ || k
        == "COMPRESSION_ENABLED"@ || k == "COMPRESSION_MIME"@ || security_key(k) || k
        == "TLS_ENABLED"@ || k == "TLS_CERTIFICATE"@ || k == "TLS_PRIVATE_KEY"@ || k
        == "FRONT_CONTROLLER"@
}

/// A setting that holds text or a choice.
pub open spec fn text_rule(k: Seq<char>, v: Seq<char>, s: ServerView) -> Result<
    ServerView,
    Seq<char>,
> {
    if k == "ROOT_DIR"@ {
        if v.len() == 0 {
            Err(k + " cannot be empty"@)
        } else {
            Ok(ServerView { root_dir: v, ..s })
        }
    } else if k == "LOG_FORMAT"@ {
        if lower(v) == "text"@ || lower(v) == "json"@ {
            Ok(ServerView { log_format: lower(v), ..s })
        } else {
            Err("LOG_FORMAT must be text or json"@)
        }
    } else if k == "ACCESS_LOG"@ || k == "ERROR_LOG"@ {
        if !log_destination_ok(v) {
            Err(invalid(k) + " destination"@)
        } else if k == "ACCESS_LOG"@ {
            Ok(ServerView { access_log: v, ..s })
        } else {
            Ok(ServerView { error_log: v, ..s })
        }
    } else if k == "COMPRESSION_ENABLED"@ {
        match on_off(v) {
            Some(b) => Ok(ServerView { compression_enabled: b, ..s }),
            None => Err("COMPRESSION_ENABLED must be on or off"@),
        }
    } else if k == "COMPRESSION_MIME"@ {
        if has_char(v, '/') && header_value_ok(v) {
            Ok(ServerView { compression_mime_types: s.compression_mime_types.push(lower(v)), ..s })
        } else {
            Err(invalid(k))
        }
    } else if security_key(k) {
        if !header_value_ok(v) {
            Err(invalid(k) + " value"@)
        } else {
            Ok(with_security(k, v, s))
        }
    } else if k == "TLS_ENABLED"@ {
        match truth(v) {
            Some(b) => Ok(ServerView { tls_enabled: b, ..s }),
            None => Err("TLS_ENABLED must be boolean (true/false)"@),
        }
    } else if k == "TLS_CERTIFICATE"@ {
        if v.len() == 0 {
            Err(k + " cannot be empty"@)
        } else {
            Ok(ServerView { tls_certificate: Some(v), ..s })
        }
    } else if k == "TLS_PRIVATE_KEY"@ {
        if v.len() == 0 {
            Err(k + " cannot be empty"@)
        } else {
            Ok(ServerView { tls_private_key: Some(v), ..s })
        }
    } else {
        if !front_controller_ok(v) {
            Err("FRONT_CONTROLLER must be a safe absolute URL path"@)
        } else {
            Ok(ServerView { front_controller: Some(v), ..s })
        }
    }
}

pub open spec fn route_key(k: Seq<char>) -> bool {
    k == "VHOST"@ || k == "PROXY"@ || k == "FASTCGI"@
}

pub open spec fn field(f: Seq<Seq<char>>, i: int) -> Option<Seq<char>> {
    if i < f.len() {
        Some(f[i])
    } else {
        None
    }
}

/// A setting that adds a virtual host or a route.
pub open spec fn route_rule(k: Seq<char>, v: Seq<char>, s: ServerView) -> Result<
    ServerView,
    Seq<char>,
> {
    let f = words(v);
    if k == "VHOST"@ {
        if f.len() < 2 || f.len() > 5 || has_char(f[0], '/') || has_char(f[0], ':') {
            Err("VHOST expects host root [rule-file]"@)
        } else {
            Ok(
                ServerView {
                    vhosts: s.vhosts.push(
                        VhostView {
                            host: lower(f[0]),
                            root_dir: f[1],
                            config_file: field(f, 2),
                            tls_certificate: field(f, 3),
                            tls_private_key: field(f, 4),
                        },
                    ),
                    ..s
                },
            )
        }
    } else if k == "PROXY"@ {
        if f.len() != 3 || !route_prefix_ok(f[1]) || !upstream_ok(f[2]) {
            Err("PROXY expects host prefix http://host:port"@)
        } else {
            Ok(
                ServerView {
                    proxy_routes: s.proxy_routes.push(
                        ProxyView { host: lower(f[0]), prefix: f[1], upstream: f[2] },
                    ),
                    ..s
                },
            )
        }
    } else {
        if f.len() != 4 || !route_prefix_ok(f[1]) || !endpoint_ok(f[2]) {
            Err("FASTCGI expects host prefix unix:/path|tcp://host:port document-root"@)
        } else {
            Ok(
                ServerView {
                    fastcgi_routes: s.fastcgi_routes.push(
                        FastCgiView {
                            host: lower(f[0]),
                            prefix: f[1],
                            endpoint: f[2],
                            document_root: f[3],
                        },
                    ),
                    ..s
                },
            )
        }
    }
}

/// Settings that only the root rule file may hold.
pub open spec fn root_key(k: Seq<char>) -> bool {
    number_key(k) || text_key(k) || route_key(k)
}

pub open spec fn root_rule(k: Seq<char>, v: Seq<char>, s: ServerView) -> Result<
    ServerView,
    Seq<char>,
> {
    if number_key(k) {
        number_rule(k, v, s)
    } else if text_key(k) {
        text_rule(k, v, s)
    } else {
        route_rule(k, v, s)
    }
}

/// The text without its carriage returns and line feeds.
pub open spec fn without_breaks(s: Seq<char>) -> Seq<char>
    decreases s.len(),
{
    if s.len() == 0 {
        s
    } else {
        let r = without_breaks(s.drop_last());
        if s.last() == '\r' || s.last() == '\n' {
            r
        } else {
            r.push(s.last())
        }
    }
}

/// Server settings, directory rules and the complaint of one line.
#[verifier::ext_equal]
pub struct LineEffect {
    pub server: ServerView,
    pub dir: DirView,
    pub complaint: Option<Seq<char>>,
}

/// A setting that a directory may hold too.
pub open spec fn dir_rule(k: Seq<char>, v: Seq<char>, is_root: bool, s: ServerView, d: DirView) ->
    LineEffect {
    let same = LineEffect { server: s, dir: d, complaint: None };
    if k == "DENY_HIDDEN_FILES"@ {
        match truth(v) {
            Some(b) => LineEffect {
                server: if is_root {
                    ServerView { deny_hidden_files: b, ..s }
                } else {
                    s
                },
                dir: DirView { deny_hidden_files: Some(b), ..d },
                complaint: None,
            },
            None => LineEffect {
                complaint: Some("DENY_HIDDEN_FILES must be boolean (true/false)"@),
                ..same
            },
        }
    } else if k == "DENY_IP"@ {
        match ip(v) {
            Some(a) => LineEffect { dir: DirView { deny_ips: d.deny_ips.push(a), ..d }, ..same },
            None => LineEffect { complaint: Some("invalid IP address"@), ..same },
        }
    } else if k == "HEADER"@ {
        if !has_char(v, ':') || trim(before(v, ':')).len() == 0 {
            LineEffect {
                complaint: Some("invalid HEADER format, expected Name: Value"@),
                ..same
            }
        } else {
            LineEffect {
                dir: DirView {
                    headers: d.headers.push(
                        (trim(before(v, ':')), without_breaks(trim(after(v, ':')))),
                    ),
                    ..d
                },
                ..same
            }
        }
    } else if k == "REDIRECT_404"@ {
        if v.len() == 0 {
            LineEffect { complaint: Some("REDIRECT_404 path cannot be empty"@), ..same }
        } else {
            LineEffect { dir: DirView { redirect_404: Some(v), ..d }, ..same }
        }
    } else {
        LineEffect { complaint: Some("unknown directive '"@ + k + "'"@), ..same }
    }
}

/// The effect of `KEY = VALUE`.
pub open spec fn setting(k: Seq<char>, v: Seq<char>, is_root: bool, s: ServerView, d: DirView) ->
    LineEffect {
    if root_key(k) {
        if !is_root {
            LineEffect { server: s, dir: d, complaint: Some(k + " is a root-only directive"@) }
        } else {
            match root_rule(k, v, s) {
                Ok(t) => LineEffect { server: t, dir: d, complaint: None },
                Err(m) => LineEffect { server: s, dir: d, complaint: Some(m) },
            }
        }
    } else {
        dir_rule(k, v, is_root, s, d)
    }
}

/// The effect of one line.
#[verifier::opaque]
pub open spec fn rule_line(line: Seq<char>, is_root: bool, s: ServerView, d: DirView) -> LineEffect {
    let t = trim(strip_comment(line));
    if t.len() == 0 {
        LineEffect { server: s, dir: d, complaint: None }
    } else if !has_bare(t, '=') {
        match native_line(t, d) {
            Ok(e) => LineEffect { server: s, dir: e, complaint: None },
            Err(m) => LineEffect { server: s, dir: d, complaint: Some(m) },
        }
    } else {
        setting(trim(before(t, '=')), trim(after(t, '=')), is_root, s, d)
    }
}

/// What a rule file amounts to.
#[verifier::ext_equal]
pub struct Rules {
    pub server: ServerView,
    pub dir: DirView,
    pub complaints: Seq<(usize, Seq<char>)>,
}

/// The lines take effect one after the other; each may add one complaint under its
/// number.
pub open spec fn rules(l: Seq<Seq<char>>, is_root: bool) -> Rules
    decreases l.len(),
{
    if l.len() == 0 {
        Rules { server: default_server(), dir: no_rules(), complaints: Seq::empty() }
    } else {
        let r = rules(l.drop_last(), is_root);
        let e = rule_line(l.last(), is_root, r.server, r.dir);
        Rules {
            server: e.server,
            dir: e.dir,
            complaints: match e.complaint {
                Some(m) => r.complaints.push((l.len() as usize, m)),
                None => r.complaints,
            },
        }
    }
}

/// The complaints of a file, as they are reported.
pub open spec fn reports(file: Seq<char>, c: Seq<(usize, Seq<char>)>) -> Seq<ErrorView> {
    Seq::new(
        c.len(),
        |i: int| ErrorView { file_name: file, line_number: c[i].0, message: c[i].1 },
    )
}

/// The rules of a file that may be missing or too long.
pub open spec fn file_rules(content: Option<Seq<char>>, is_root: bool) -> Rules {
    let none = Rules { server: default_server(), dir: no_rules(), complaints: Seq::empty() };
    match content {
        None => none,
        Some(c) => if encode_utf8(c).len() > MAX_RULE_FILE_BYTES {
            Rules { complaints: seq![(1usize, "rule file exceeds 262144 bytes"@)], ..none }
        } else {
            rules(lines(c), is_root)
        },
    }
}

/// A rule file below the root leaves the settings of the server alone: no route,
/// limit, certificate or log can come from a directory.
pub proof fn law_child_rules_leave_server_settings(l: Seq<Seq<char>>)
    ensures
        rules(l, false).server == default_server(),
    decreases l.len(),
{
    reveal(rule_line);
    if l.len() > 0 {
        law_child_rules_leave_server_settings(l.drop_last());
    }
}

/// The networks of directory rules have prefixes that fit their addresses.
pub open spec fn networks_wf(d: DirView) -> bool {
    &&& forall|i: int| 0 <= i < d.allow_networks.len() ==> (#[trigger] d.allow_networks[i]).wf()
    &&& forall|i: int| 0 <= i < d.deny_networks.len() ==> (#[trigger] d.deny_networks[i]).wf()
}

/// Directory rules as any rule file leaves them.
pub open spec fn dir_wf(d: DirView) -> bool {
    &&& d.rewrites.len() <= MAX_REWRITE_RULES
    &&& forall|i: int| 0 <= i < d.allow_networks.len() ==> (#[trigger] d.allow_networks[i]).wf()
    &&& forall|i: int| 0 <= i < d.deny_networks.len() ==> (#[trigger] d.deny_networks[i]).wf()
    &&& d.redirect matches Some(r) ==> 300 <= r.status <= 399
    &&& forall|i: int|
        0 <= i < d.error_pages.len() ==> 100 <= (#[trigger] d.error_pages[i]).0 <= 599
    &&& forall|i: int| 0 <= i < d.headers.len() ==> no_breaks((#[trigger] d.headers[i]).1)
    &&& forall|i: int| 0 <= i < d.add_headers.len() ==> no_breaks((#[trigger] d.add_headers[i]).1)
}

pub open spec fn no_breaks(s: Seq<char>) -> bool {
    forall|i: int| 0 <= i < s.len() ==> #[trigger] s[i] != '\r' && s[i] != '\n'
}

proof fn lemma_without_breaks(s: Seq<char>)
    ensures
        no_breaks(without_breaks(s)),
    decreases s.len(),
{
    if s.len() > 0 {
        lemma_without_breaks(s.drop_last());
    }
}

proof fn lemma_line_keeps_wf(line: Seq<char>, is_root: bool, s: ServerView, d: DirView)
    requires
        dir_wf(d),
    ensures
        dir_wf(rule_line(line, is_root, s, d).dir),
{
    reveal(rule_line);
    let t = trim(strip_comment(line));
    if t.len() > 0 {
        if has_bare(t, '=') {
            let k = trim(before(t, '='));
            if !root_key(k) {
                lemma_dir_rule_keeps_wf(k, trim(after(t, '=')), is_root, s, d);
            }
        } else {
            lemma_native_keeps_wf(t, d);
        }
    }
}

#[verifier::spinoff_prover]
proof fn lemma_dir_rule_keeps_wf(
    k: Seq<char>,
    v: Seq<char>,
    is_root: bool,
    s: ServerView,
    d: DirView,
)
    requires
        dir_wf(d),
    ensures
        dir_wf(dir_rule(k, v, is_root, s, d).dir),
{
    lemma_without_breaks(trim(after(v, ':')));
}

#[verifier::spinoff_prover]
proof fn lemma_native_keeps_wf(t: Seq<char>, d: DirView)
    requires
        dir_wf(d),
    ensures
        native_line(t, d) matches Ok(e) ==> dir_wf(e),
{
}

/// Whatever a rule file says: at most 128 rewrites, networks with valid prefixes,
/// redirects with a redirect status, error pages for a status, and header values
/// without line breaks.
pub proof fn law_rules_are_well_formed(l: Seq<Seq<char>>, is_root: bool)
    ensures
        dir_wf(rules(l, is_root).dir),
    decreases l.len(),
{
    if l.len() > 0 {
        law_rules_are_well_formed(l.drop_last(), is_root);
        let r = rules(l.drop_last(), is_root);
        lemma_line_keeps_wf(l.last(), is_root, r.server, r.dir);
    }
}

/// Server settings as any root rule file leaves them.
pub open spec fn server_wf(s: ServerView) -> bool {
    &&& s.port > 0
    &&& s.compression_level <= 9
    &&& s.upstream_health_interval <= 86400
    &&& 1 <= s.upstream_health_timeout <= 300
    &&& s.upstream_health_failures >= 1
    &&& s.upstream_health_recovery >= 1
    &&& forall|i: int|
        0 <= i < s.proxy_routes.len() ==> route_prefix_ok((#[trigger] s.proxy_routes[i]).prefix)
            && upstream_ok(s.proxy_routes[i].upstream)
    &&& forall|i: int|
        0 <= i < s.fastcgi_routes.len() ==> route_prefix_ok((#[trigger] s.fastcgi_routes[i]).prefix)
            && endpoint_ok(s.fastcgi_routes[i].endpoint)
    &&& s.front_controller matches Some(p) ==> front_controller_ok(p)
}

/// Whatever a rule file says: a usable port, bounded compression and health
/// settings, and routes with valid prefixes and destinations.
pub proof fn law_server_settings_are_bounded(l: Seq<Seq<char>>, is_root: bool)
    ensures
        server_wf(rules(l, is_root).server),
    decreases l.len(),
{
    reveal(rule_line);
    if l.len() > 0 {
        law_server_settings_are_bounded(l.drop_last(), is_root);
    }
}

/// A line leads to at most one complaint, so there are no more than lines.
pub proof fn law_one_complaint_per_line(l: Seq<Seq<char>>, is_root: bool)
    ensures
        rules(l, is_root).complaints.len() <= l.len(),
    decreases l.len(),
{
    if l.len() > 0 {
        law_one_complaint_per_line(l.drop_last(), is_root);
    }
}

/// A line that is complained about changes nothing: the rules are those of the lines
/// before it, and the complaint comes under its number.
pub proof fn law_rejected_lines_have_no_effect(l: Seq<Seq<char>>, line: Seq<char>, is_root: bool)
    requires
        rule_line(line, is_root, rules(l, is_root).server, rules(l, is_root).dir).complaint is Some,
    ensures
        rules(l.push(line), is_root).server == rules(l, is_root).server,
        rules(l.push(line), is_root).dir == rules(l, is_root).dir,
        rules(l.push(line), is_root).complaints == rules(l, is_root).complaints.push(
            (
                (l.len() + 1) as usize,
                rule_line(
                    line,
                    is_root,
                    rules(l, is_root).server,
                    rules(l, is_root).dir,
                ).complaint.unwrap(),
            ),
        ),
{
    reveal(rule_line);
    assert(l.push(line).drop_last() =~= l);
    assert(l.push(line).last() == line);
}

/// Complaints come in the order of their lines, no two about the same line.
pub proof fn law_complaints_follow_the_lines(l: Seq<Seq<char>>, is_root: bool)
    requires
        l.len() <= usize::MAX,
    ensures
        ({
            let c = rules(l, is_root).complaints;
            &&& forall|i: int| 0 <= i < c.len() ==> 1 <= (#[trigger] c[i]).0 <= l.len()
            &&& forall|i: int, j: int|
                0 <= i < j < c.len() ==> (#[trigger] c[i]).0 < (#[trigger] c[j]).0
        }),
    decreases l.len(),
{
    if l.len() > 0 {
        law_complaints_follow_the_lines(l.drop_last(), is_root);
    }
}

fn is_size_key(k: &Vec<char>) -> (b: bool)
    ensures
        b == size_key(k@),
{
    is_text(k, "MAX_REQUEST_SIZE") || is_text(k, "MAX_HEADER_SIZE") || is_text(k, "MAX_HEADERS")
        || is_text(k, "MAX_HEADER_LINE") || is_text(k, "MAX_URI_LENGTH") || is_text(
        k,
        "MAX_CONNECTIONS",
    ) || is_text(k, "MAX_REQUESTS_PER_CONNECTION") || is_text(k, "MAX_CONNECTIONS_PER_IP")
        || is_text(k, "WORKERS")
}

fn set_size(k: &Vec<char>, n: usize, s: &mut ServerConfig)
    ensures
        final(s)@ == with_size(k@, n, old(s)@),
{
    if is_text(k, "MAX_REQUEST_SIZE") {
        s.max_request_size = n;
    } else if is_text(k, "MAX_HEADER_SIZE") {
        s.max_header_size = n;
    } else if is_text(k, "MAX_HEADERS") {
        s.max_headers = n;
    } else if is_text(k, "MAX_HEADER_LINE") {
        s.max_header_line = n;
    } else if is_text(k, "MAX_URI_LENGTH") {
        s.max_uri_length = n;
    } else if is_text(k, "MAX_CONNECTIONS") {
        s.max_connections = n;
    } else if is_text(k, "MAX_REQUESTS_PER_CONNECTION") {
        s.max_requests_per_connection = n;
    } else if is_text(k, "MAX_CONNECTIONS_PER_IP") {
        s.max_connections_per_ip = n;
    } else {
        s.workers = n;
    }
}

fn is_long_key(k: &Vec<char>) -> (b: bool)
    ensures
        b == long_key(k@),
{
    is_text(k, "READ_TIMEOUT") || is_text(k, "WRITE_TIMEOUT") || is_text(k, "KEEP_ALIVE_TIMEOUT")
        || is_text(k, "COMPRESSION_MIN_SIZE")
}

fn set_long(k: &Vec<char>, n: u64, s: &mut ServerConfig)
    ensures
        final(s)@ == with_long(k@, n, old(s)@),
{
    if is_text(k, "READ_TIMEOUT") {
        s.read_timeout = n;
    } else if is_text(k, "WRITE_TIMEOUT") {
        s.write_timeout = n;
    } else if is_text(k, "KEEP_ALIVE_TIMEOUT") {
        s.keep_alive_timeout = n;
    } else {
        s.compression_min_size = n;
    }
}

fn is_rate_key(k: &Vec<char>) -> (b: bool)
    ensures
        b == rate_key(k@),
{
    is_text(k, "RATE_LIMIT_PER_SECOND") || is_text(k, "RATE_LIMIT_BURST")
}

fn is_health_key(k: &Vec<char>) -> (b: bool)
    ensures
        b == health_key(k@),
{
    is_text(k, "UPSTREAM_HEALTH_INTERVAL") || is_text(k, "UPSTREAM_HEALTH_TIMEOUT") || is_text(
        k,
        "UPSTREAM_HEALTH_FAILURES",
    ) || is_text(k, "UPSTREAM_HEALTH_RECOVERY")
}

fn bounded(n: u64, bound: u64) -> (r: u64)
    ensures
        r == at_most(n as nat, bound as nat),
{
    if n <= bound {
        n
    } else {
        bound
    }
}

fn set_health(k: &Vec<char>, n: u64, s: &mut ServerConfig)
    ensures
        final(s)@ == with_health(k@, n as nat, old(s)@),
{
    if is_text(k, "UPSTREAM_HEALTH_INTERVAL") {
        s.upstream_health_interval = bounded(n, 86400);
    } else if is_text(k, "UPSTREAM_HEALTH_TIMEOUT") {
        s.upstream_health_timeout = bounded(n, 300);
    } else if is_text(k, "UPSTREAM_HEALTH_FAILURES") {
        s.upstream_health_failures = bounded(n, 0xffff_ffff) as u32;
    } else {
        s.upstream_health_recovery = bounded(n, 0xffff_ffff) as u32;
    }
}

fn is_security_key(k: &Vec<char>) -> (b: bool)
    ensures
        b == security_key(k@),
{
    is_text(k, "SECURITY_X_CONTENT_TYPE_OPTIONS") || is_text(k, "SECURITY_REFERRER_POLICY")
        || is_text(k, "SECURITY_X_FRAME_OPTIONS") || is_text(k, "SECURITY_CONTENT_SECURITY_POLICY")
}

fn set_security(k: &Vec<char>, v: &Vec<char>, s: &mut ServerConfig)
    ensures
        final(s)@ == with_security(k@, v@, old(s)@),
{
    if is_text(k, "SECURITY_X_CONTENT_TYPE_OPTIONS") {
        s.security_x_content_type_options = Some(string_of(v));
    } else if is_text(k, "SECURITY_REFERRER_POLICY") {
        s.security_referrer_policy = Some(string_of(v));
    } else if is_text(k, "SECURITY_X_FRAME_OPTIONS") {
        s.security_x_frame_options = Some(string_of(v));
    } else {
        s.security_content_security_policy = Some(string_of(v));
    }
}

/// What a root setting leaves behind.
pub open spec fn root_outcome(
    r: Result<(), Vec<char>>,
    after: ServerView,
    before: ServerView,
    want: Result<ServerView, Seq<char>>,
) -> bool {
    match want {
        Ok(v) => r is Ok && after == v,
        Err(m) => after == before && (r matches Err(e) && e@ == m),
    }
}

fn message(s: &str, k: &Vec<char>) -> (r: Vec<char>)
    ensures
        r@ == s@ + k@,
{
    let mut m = chars_of(s);
    push_text(&mut m, k);
    m
}

fn apply_number(k: &Vec<char>, v: &Vec<char>, s: &mut ServerConfig) -> (r: Result<(), Vec<char>>)
    requires
        number_key(k@),
    ensures
        root_outcome(r, final(s)@, old(s)@, number_rule(k@, v@, old(s)@)),
{
    if is_text(k, "PORT") {
        match read_u16(v) {
            Some(n) => if n > 0 {
                s.port = n;
                Ok(())
            } else {
                Err(chars_of("PORT must be between 1 and 65535"))
            },
            None => Err(chars_of("PORT must be between 1 and 65535")),
        }
    } else if is_size_key(k) {
        match read_usize(v) {
            Some(n) => {
                set_size(k, n, s);
                Ok(())
            },
            None => Err(message("invalid ", k)),
        }
    } else if is_long_key(k) {
        match read_u64(v) {
            Some(n) => {
                set_long(k, n, s);
                Ok(())
            },
            None => Err(message("invalid ", k)),
        }
    } else if is_text(k, "COMPRESSION_LEVEL") {
        match read_u32(v) {
            Some(n) => if n <= 9 {
                s.compression_level = n;
                Ok(())
            } else {
                Err(chars_of("COMPRESSION_LEVEL must be 0..9"))
            },
            None => Err(message("invalid ", k)),
        }
    } else if is_health_key(k) {
        match read_u64(v) {
            Some(n) => if n == 0 {
                Err(joined(k, " must be greater than zero"))
            } else {
                set_health(k, n, s);
                Ok(())
            },
            None => Err(message("invalid ", k)),
        }
    } else {
        match read_u32(v) {
            Some(n) => {
                if is_text(k, "RATE_LIMIT_PER_SECOND") {
                    s.rate_limit_per_second = n;
                } else {
                    s.rate_limit_burst = n;
                }
                Ok(())
            },
            None => Err(message("invalid ", k)),
        }
    }
}

fn read_truth(v: &Vec<char>) -> (r: Option<bool>)
    ensures
        r == truth(v@),
{
    let w = lower_of(v);
    if is_text(&w, "true") || is_text(&w, "1") || is_text(&w, "yes") {
        Some(true)
    } else if is_text(&w, "false") || is_text(&w, "0") || is_text(&w, "no") {
        Some(false)
    } else {
        None
    }
}

fn read_on_off(v: &Vec<char>) -> (r: Option<bool>)
    ensures
        r == on_off(v@),
{
    let w = lower_of(v);
    if is_text(&w, "on") || is_text(&w, "true") {
        Some(true)
    } else if is_text(&w, "off") || is_text(&w, "false") {
        Some(false)
    } else {
        None
    }
}

fn valid_log_destination(v: &Vec<char>) -> (b: bool)
    ensures
        b == log_destination_ok(v@),
{
    is_text(v, "stdout") || is_text(v, "stderr") || (v.len() > 0 && v[0] == '/' && byte_len(v)
        <= 4096)
}

fn apply_text(k: &Vec<char>, v: &Vec<char>, s: &mut ServerConfig) -> (r: Result<(), Vec<char>>)
    requires
        text_key(k@),
    ensures
        root_outcome(r, final(s)@, old(s)@, text_rule(k@, v@, old(s)@)),
{
    if is_text(k, "ROOT_DIR") {
        if v.len() == 0 {
            return Err(joined(k, " cannot be empty"));
        }
        s.root_dir = string_of(v);
    } else if is_text(k, "LOG_FORMAT") {
        let w = lower_of(v);
        if !is_text(&w, "text") && !is_text(&w, "json") {
            return Err(chars_of("LOG_FORMAT must be text or json"));
        }
        s.log_format = string_of(&w);
    } else if is_text(k, "ACCESS_LOG") || is_text(k, "ERROR_LOG") {
        if !valid_log_destination(v) {
            return Err(joined(&message("invalid ", k), " destination"));
        }
        if is_text(k, "ACCESS_LOG") {
            s.access_log = string_of(v);
        } else {
            s.error_log = string_of(v);
        }
    } else if is_text(k, "COMPRESSION_ENABLED") {
        match read_on_off(v) {
            Some(b) => {
                s.compression_enabled = b;
            },
            None => {
                return Err(chars_of("COMPRESSION_ENABLED must be on or off"));
            },
        }
    } else if is_text(k, "COMPRESSION_MIME") {
        if !has_char_of(v, '/') || !valid_header_value(v) {
            return Err(message("invalid ", k));
        }
        push_string(&mut s.compression_mime_types, &lower_of(v));
    } else if is_security_key(k) {
        if !valid_header_value(v) {
            return Err(joined(&message("invalid ", k), " value"));
        }
        set_security(k, v, s);
    } else if is_text(k, "TLS_ENABLED") {
        match read_truth(v) {
            Some(b) => {
                s.tls_enabled = b;
            },
            None => {
                return Err(chars_of("TLS_ENABLED must be boolean (true/false)"));
            },
        }
    } else if is_text(k, "TLS_CERTIFICATE") {
        if v.len() == 0 {
            return Err(joined(k, " cannot be empty"));
        }
        s.tls_certificate = Some(string_of(v));
    } else if is_text(k, "TLS_PRIVATE_KEY") {
        if v.len() == 0 {
            return Err(joined(k, " cannot be empty"));
        }
        s.tls_private_key = Some(string_of(v));
    } else {
        if !valid_front_controller_path(v) {
            return Err(chars_of("FRONT_CONTROLLER must be a safe absolute URL path"));
        }
        s.front_controller = Some(string_of(v));
    }
    Ok(())
}

fn field_of(f: &Vec<Vec<char>>, i: usize) -> (r: Option<String>)
    ensures
        opt_text(r) == field(texts(f@), i as int),
{
    if i < f.len() {
        Some(string_of(&f[i]))
    } else {
        None
    }
}

fn apply_route(k: &Vec<char>, v: &Vec<char>, s: &mut ServerConfig) -> (r: Result<(), Vec<char>>)
    requires
        route_key(k@),
    ensures
        root_outcome(r, final(s)@, old(s)@, route_rule(k@, v@, old(s)@)),
{
    let f = words_of(v);
    let ghost w = words(v@);
    assert(w.len() == f@.len());
    assert(forall|i: int| 0 <= i < w.len() ==> w[i] == f@[i]@);
    if is_text(k, "VHOST") {
        if f.len() < 2 || f.len() > 5 || has_char_of(&f[0], '/') || has_char_of(&f[0], ':') {
            return Err(chars_of("VHOST expects host root [rule-file]"));
        }
        let ghost prev = views(s.vhosts@);
        let vhost = VhostConfig {
            host: string_of(&lower_of(&f[0])),
            root_dir: string_of(&f[1]),
            config_file: field_of(&f, 2),
            tls_certificate: field_of(&f, 3),
            tls_private_key: field_of(&f, 4),
        };
        let ghost added = vhost@;
        s.vhosts.push(vhost);
        assert(views(s.vhosts@) =~= prev.push(added));
    } else if is_text(k, "PROXY") {
        if f.len() != 3 || !valid_route_prefix(&f[1]) || !valid_upstream(&f[2]) {
            return Err(chars_of("PROXY expects host prefix http://host:port"));
        }
        let ghost prev = views(s.proxy_routes@);
        let route = ProxyRoute {
            host: string_of(&lower_of(&f[0])),
            prefix: string_of(&f[1]),
            upstream: string_of(&f[2]),
        };
        let ghost added = route@;
        s.proxy_routes.push(route);
        assert(views(s.proxy_routes@) =~= prev.push(added));
    } else {
        if f.len() != 4 || !valid_route_prefix(&f[1]) || !valid_fastcgi_endpoint(&f[2]) {
            return Err(
                chars_of("FASTCGI expects host prefix unix:/path|tcp://host:port document-root"),
            );
        }
        let ghost prev = views(s.fastcgi_routes@);
        let route = FastCgiRoute {
            host: string_of(&lower_of(&f[0])),
            prefix: string_of(&f[1]),
            endpoint: string_of(&f[2]),
            document_root: string_of(&f[3]),
        };
        let ghost added = route@;
        s.fastcgi_routes.push(route);
        assert(views(s.fastcgi_routes@) =~= prev.push(added));
    }
    Ok(())
}

fn is_number_key(k: &Vec<char>) -> (b: bool)
    ensures
        b == number_key(k@),
{
    is_text(k, "PORT") || is_size_key(k) || is_long_key(k) || is_text(k, "COMPRESSION_LEVEL")
        || is_health_key(k) || is_rate_key(k)
}

fn is_text_key(k: &Vec<char>) -> (b: bool)
    ensures
        b == text_key(k@),
{
    is_text(k, "ROOT_DIR") || is_text(k, "LOG_FORMAT") || is_text(k, "ACCESS_LOG") || is_text(
        k,
        "ERROR_LOG",
    ) || is_text(k, "COMPRESSION_ENABLED") || is_text(k, "COMPRESSION_MIME") || is_security_key(k)
        || is_text(k, "TLS_ENABLED") || is_text(k, "TLS_CERTIFICATE") || is_text(
        k,
        "TLS_PRIVATE_KEY",
    ) || is_text(k, "FRONT_CONTROLLER")
}

fn is_route_key(k: &Vec<char>) -> (b: bool)
    ensures
        b == route_key(k@),
{
    is_text(k, "VHOST") || is_text(k, "PROXY") || is_text(k, "FASTCGI")
}

pub fn drop_breaks(v: &Vec<char>) -> (r: Vec<char>)
    ensures
        r@ == without_breaks(v@),
{
    let mut r: Vec<char> = Vec::new();
    let mut i: usize = 0;
    assert(v@.subrange(0, 0) =~= Seq::<char>::empty());
    while i < v.len()
        invariant
            i <= v@.len(),
            r@ == without_breaks(v@.subrange(0, i as int)),
        decreases v@.len() - i,
    {
        assert(v@.subrange(0, i + 1).drop_last() =~= v@.subrange(0, i as int));
        if v[i] != '\r' && v[i] != '\n' {
            r.push(v[i]);
        }
        i = i + 1;
    }
    assert(v@.subrange(0, v@.len() as int) =~= v@);
    r
}

/// The line effect and what the code made of it agree.
pub open spec fn effect_is(
    c: Option<Vec<char>>,
    s: ServerView,
    d: DirView,
    want: LineEffect,
) -> bool {
    s == want.server && d == want.dir && match want.complaint {
        Some(m) => c matches Some(x) && x@ == m,
        None => c is None,
    }
}

fn apply_dir(
    k: &Vec<char>,
    v: &Vec<char>,
    is_root: bool,
    s: &mut ServerConfig,
    d: &mut DirectoryConfig,
) -> (c: Option<Vec<char>>)
    ensures
        effect_is(c, final(s)@, final(d)@, dir_rule(k@, v@, is_root, old(s)@, old(d)@)),
{
    if is_text(k, "DENY_HIDDEN_FILES") {
        match read_truth(v) {
            Some(b) => {
                d.deny_hidden_files = Some(b);
                if is_root {
                    s.deny_hidden_files = b;
                }
                None
            },
            None => Some(chars_of("DENY_HIDDEN_FILES must be boolean (true/false)")),
        }
    } else if is_text(k, "DENY_IP") {
        match read_ip(v) {
            Some(a) => {
                d.deny_ips.push(a);
                None
            },
            None => Some(chars_of("invalid IP address")),
        }
    } else if is_text(k, "HEADER") {
        let at: usize = find_of(v, ':');
        if at == v.len() {
            return Some(chars_of("invalid HEADER format, expected Name: Value"));
        }
        let name = trim_of(&part(v, 0, at));
        if name.len() == 0 {
            return Some(chars_of("invalid HEADER format, expected Name: Value"));
        }
        let value = drop_breaks(&trim_of(&part(v, at + 1, v.len())));
        push_pair(&mut d.headers, &name, &value);
        None
    } else if is_text(k, "REDIRECT_404") {
        if v.len() == 0 {
            return Some(chars_of("REDIRECT_404 path cannot be empty"));
        }
        d.redirect_404 = Some(string_of(v));
        None
    } else {
        Some(joined(&message("unknown directive '", k), "'"))
    }
}

fn apply_setting(
    k: &Vec<char>,
    v: &Vec<char>,
    is_root: bool,
    s: &mut ServerConfig,
    d: &mut DirectoryConfig,
) -> (c: Option<Vec<char>>)
    ensures
        effect_is(c, final(s)@, final(d)@, setting(k@, v@, is_root, old(s)@, old(d)@)),
{
    let number = is_number_key(k);
    let text = is_text_key(k);
    if !number && !text && !is_route_key(k) {
        return apply_dir(k, v, is_root, s, d);
    }
    if !is_root {
        return Some(joined(k, " is a root-only directive"));
    }
    let r = if number {
        apply_number(k, v, s)
    } else if text {
        apply_text(k, v, s)
    } else {
        apply_route(k, v, s)
    };
    match r {
        Ok(_) => None,
        Err(m) => Some(m),
    }
}

/// Applies one line to the settings collected so far.
pub fn apply_line(line: &Vec<char>, is_root: bool, s: &mut ServerConfig, d: &mut DirectoryConfig) -> (c:
    Option<Vec<char>>)
    ensures
        effect_is(c, final(s)@, final(d)@, rule_line(line@, is_root, old(s)@, old(d)@)),
{
    proof {
        reveal(rule_line);
    }
    let t = trim_of(&strip_rule_comment(line));
    if t.len() == 0 {
        return None;
    }
    if !has_unquoted_equals(&t) {
        return match parse_native_directive(&t, d) {
            Ok(_) => None,
            Err(m) => Some(m),
        };
    }
    let at: usize = find_of(&t, '=');
    proof {
        let i = choose|i: int| crate::config::scan::bare_at(t@, '=', i);
        assert(t@[i] == '=');
        assert(has_char(t@, '='));
    }
    let k = trim_of(&part(&t, 0, at));
    let v = trim_of(&part(&t, at + 1, t.len()));
    apply_setting(&k, &v, is_root, s, d)
}

/// Reads a rule file: the server settings, the directory rules and the complaints.
pub fn parse_veysrule_content(content: &str, file_name: &str, is_root: bool) -> (r: (
    ServerConfig,
    DirectoryConfig,
    Vec<ConfigParseError>,
))
    ensures
        r.0@ == rules(lines(content@), is_root).server,
        r.1@ == rules(lines(content@), is_root).dir,
        views(r.2@) == reports(file_name@, rules(lines(content@), is_root).complaints),
{
    let mut server = ServerConfig::default();
    let mut dir = DirectoryConfig::default();
    let mut errors: Vec<ConfigParseError> = Vec::new();
    let all = lines_of(&chars_of(content));
    let count: usize = all.len();
    let ghost l = lines(content@);
    let mut i: usize = 0;
    assert(l.subrange(0, 0) =~= Seq::<Seq<char>>::empty());
    assert(views(errors@) =~= Seq::<ErrorView>::empty());
    assert(reports(file_name@, Seq::empty()) =~= Seq::<ErrorView>::empty());
    while i < all.len()
        invariant
            l == texts(all@),
            i <= all@.len(),
            count == all@.len(),
            server@ == rules(l.subrange(0, i as int), is_root).server,
            dir@ == rules(l.subrange(0, i as int), is_root).dir,
            views(errors@) == reports(
                file_name@,
                rules(l.subrange(0, i as int), is_root).complaints,
            ),
        decreases all@.len() - i,
    {
        let ghost upto = l.subrange(0, i + 1);
        assert(upto.drop_last() =~= l.subrange(0, i as int));
        assert(upto.last() == all@[i as int]@);
        let ghost prev = rules(l.subrange(0, i as int), is_root).complaints;
        match apply_line(&all[i], is_root, &mut server, &mut dir) {
            Some(m) => {
                let ghost reported = views(errors@);
                let e = ConfigParseError {
                    file_name: file_name.to_owned(),
                    line_number: i + 1,
                    message: string_of(&m),
                };
                let ghost added = e@;
                errors.push(e);
                assert(views(errors@) =~= reported.push(added));
                assert(reports(file_name@, prev.push(((i + 1) as usize, m@)))
                    =~= reported.push(added));
            },
            None => {},
        }
        i = i + 1;
    }
    assert(l.subrange(0, all@.len() as int) =~= l);
    (server, dir, errors)
}

/// The rules of a file whose text, if it could be read, is given.
pub fn parse_veysrule_file(content: Option<&str>, file_name: &str, is_root: bool) -> (r: (
    ServerConfig,
    DirectoryConfig,
    Vec<ConfigParseError>,
))
    ensures
        ({
            let c = match content {
                Some(s) => Some(s@),
                None => None,
            };
            let want = file_rules(c, is_root);
            r.0@ == want.server && r.1@ == want.dir && views(r.2@) == reports(
                file_name@,
                want.complaints,
            )
        }),
{
    match content {
        None => {
            let none: Vec<ConfigParseError> = Vec::new();
            assert(views(none@) =~= reports(file_name@, Seq::empty()));
            (ServerConfig::default(), DirectoryConfig::default(), none)
        },
        Some(text) => {
            if text.as_bytes().len() > MAX_RULE_FILE_BYTES {
                let mut errors: Vec<ConfigParseError> = Vec::new();
                errors.push(
                    ConfigParseError {
                        file_name: file_name.to_owned(),
                        line_number: 1,
                        message: "rule file exceeds 262144 bytes".to_owned(),
                    },
                );
                assert(views(errors@) =~= reports(
                    file_name@,
                    seq![(1usize, "rule file exceeds 262144 bytes"@)],
                ));
                return (ServerConfig::default(), DirectoryConfig::default(), errors);
            }
            parse_veysrule_content(text, file_name, is_root)
        },
    }
}

} // verus!
