//! What the settings of a rule file do.

use crate::config::ip::ip;
use crate::config::scan::{
    endpoint_ok, front_controller_ok, header_value_ok, route_prefix_ok, upstream_ok,
};
use crate::config::types::{DirView, FastCgiView, ProxyView, ServerView, VhostView};
use crate::config::veysrule::{rules, setting, Rules};
use crate::laws::directives::{refused, taken};
use crate::laws::headers::lemma_unbroken;
use crate::laws::rule_lines::{
    lemma_one_more_line, lemma_setting_line, lemma_spaced, plain_word, plain_words, spaced,
    unmarked,
};
use crate::laws::texts::{
    lemma_cut, lemma_decimal_is_digits, lemma_trim_blank_before, lemma_trim_is, one_line,
};
use crate::text::{decimal, has_char, is_space, law_decimal_reads_back, lower};
use vstd::prelude::*;
use vstd::utf8::encode_utf8;

verus! {

proof fn lemma_max_request_size()
    ensures
        plain_word("MAX_REQUEST_SIZE"@),
        "MAX_REQUEST_SIZE"@.len() == 16,
        "MAX_REQUEST_SIZE"@[0] == 'M',
{
    reveal_strlit("MAX_REQUEST_SIZE");
}

proof fn lemma_max_header_size()
    ensures
        plain_word("MAX_HEADER_SIZE"@),
        "MAX_HEADER_SIZE"@.len() == 15,
        "MAX_HEADER_SIZE"@[11] == 'S',
{
    reveal_strlit("MAX_HEADER_SIZE");
}

proof fn lemma_max_headers()
    ensures
        plain_word("MAX_HEADERS"@),
        "MAX_HEADERS"@.len() == 11,
        "MAX_HEADERS"@[0] == 'M',
{
    reveal_strlit("MAX_HEADERS");
}

proof fn lemma_max_header_line()
    ensures
        plain_word("MAX_HEADER_LINE"@),
        "MAX_HEADER_LINE"@.len() == 15,
        "MAX_HEADER_LINE"@[11] == 'L',
{
    reveal_strlit("MAX_HEADER_LINE");
}

proof fn lemma_max_uri_length()
    ensures
        plain_word("MAX_URI_LENGTH"@),
        "MAX_URI_LENGTH"@.len() == 14,
{
    reveal_strlit("MAX_URI_LENGTH");
}

proof fn lemma_max_connections()
    ensures
        plain_word("MAX_CONNECTIONS"@),
        "MAX_CONNECTIONS"@.len() == 15,
        "MAX_CONNECTIONS"@[11] == 'I',
{
    reveal_strlit("MAX_CONNECTIONS");
}

proof fn lemma_max_requests_per_connection()
    ensures
        plain_word("MAX_REQUESTS_PER_CONNECTION"@),
        "MAX_REQUESTS_PER_CONNECTION"@.len() == 27,
{
    reveal_strlit("MAX_REQUESTS_PER_CONNECTION");
}

proof fn lemma_max_connections_per_ip()
    ensures
        plain_word("MAX_CONNECTIONS_PER_IP"@),
        "MAX_CONNECTIONS_PER_IP"@.len() == 22,
{
    reveal_strlit("MAX_CONNECTIONS_PER_IP");
}

proof fn lemma_workers()
    ensures
        plain_word("WORKERS"@),
        "WORKERS"@.len() == 7,
        "WORKERS"@[0] == 'W',
{
    reveal_strlit("WORKERS");
}

proof fn lemma_read_timeout()
    ensures
        plain_word("READ_TIMEOUT"@),
        "READ_TIMEOUT"@.len() == 12,
        "READ_TIMEOUT"@[2] == 'A',
{
    reveal_strlit("READ_TIMEOUT");
}

proof fn lemma_write_timeout()
    ensures
        plain_word("WRITE_TIMEOUT"@),
        "WRITE_TIMEOUT"@.len() == 13,
{
    reveal_strlit("WRITE_TIMEOUT");
}

proof fn lemma_keep_alive_timeout()
    ensures
        plain_word("KEEP_ALIVE_TIMEOUT"@),
        "KEEP_ALIVE_TIMEOUT"@.len() == 18,
{
    reveal_strlit("KEEP_ALIVE_TIMEOUT");
}

proof fn lemma_compression_min_size()
    ensures
        plain_word("COMPRESSION_MIN_SIZE"@),
        "COMPRESSION_MIN_SIZE"@.len() == 20,
{
    reveal_strlit("COMPRESSION_MIN_SIZE");
}

proof fn lemma_upstream_health_interval()
    ensures
        plain_word("UPSTREAM_HEALTH_INTERVAL"@),
        "UPSTREAM_HEALTH_INTERVAL"@.len() == 24,
        "UPSTREAM_HEALTH_INTERVAL"@[0] == 'U',
        "UPSTREAM_HEALTH_INTERVAL"@[16] == 'I',
{
    reveal_strlit("UPSTREAM_HEALTH_INTERVAL");
}

proof fn lemma_upstream_health_timeout()
    ensures
        plain_word("UPSTREAM_HEALTH_TIMEOUT"@),
        "UPSTREAM_HEALTH_TIMEOUT"@.len() == 23,
{
    reveal_strlit("UPSTREAM_HEALTH_TIMEOUT");
}

proof fn lemma_upstream_health_failures()
    ensures
        plain_word("UPSTREAM_HEALTH_FAILURES"@),
        "UPSTREAM_HEALTH_FAILURES"@.len() == 24,
        "UPSTREAM_HEALTH_FAILURES"@[0] == 'U',
        "UPSTREAM_HEALTH_FAILURES"@[16] == 'F',
{
    reveal_strlit("UPSTREAM_HEALTH_FAILURES");
}

proof fn lemma_upstream_health_recovery()
    ensures
        plain_word("UPSTREAM_HEALTH_RECOVERY"@),
        "UPSTREAM_HEALTH_RECOVERY"@.len() == 24,
        "UPSTREAM_HEALTH_RECOVERY"@[0] == 'U',
        "UPSTREAM_HEALTH_RECOVERY"@[16] == 'R',
{
    reveal_strlit("UPSTREAM_HEALTH_RECOVERY");
}

proof fn lemma_rate_limit_per_second()
    ensures
        plain_word("RATE_LIMIT_PER_SECOND"@),
        "RATE_LIMIT_PER_SECOND"@.len() == 21,
{
    reveal_strlit("RATE_LIMIT_PER_SECOND");
}

proof fn lemma_rate_limit_burst()
    ensures
        plain_word("RATE_LIMIT_BURST"@),
        "RATE_LIMIT_BURST"@.len() == 16,
        "RATE_LIMIT_BURST"@[0] == 'R',
{
    reveal_strlit("RATE_LIMIT_BURST");
}

proof fn lemma_security_x_content_type_options()
    ensures
        plain_word("SECURITY_X_CONTENT_TYPE_OPTIONS"@),
        "SECURITY_X_CONTENT_TYPE_OPTIONS"@.len() == 31,
{
    reveal_strlit("SECURITY_X_CONTENT_TYPE_OPTIONS");
}

proof fn lemma_security_referrer_policy()
    ensures
        plain_word("SECURITY_REFERRER_POLICY"@),
        "SECURITY_REFERRER_POLICY"@.len() == 24,
        "SECURITY_REFERRER_POLICY"@[0] == 'S',
        "SECURITY_REFERRER_POLICY"@[16] == 'R',
{
    reveal_strlit("SECURITY_REFERRER_POLICY");
}

proof fn lemma_security_x_frame_options()
    ensures
        plain_word("SECURITY_X_FRAME_OPTIONS"@),
        "SECURITY_X_FRAME_OPTIONS"@.len() == 24,
        "SECURITY_X_FRAME_OPTIONS"@[0] == 'S',
        "SECURITY_X_FRAME_OPTIONS"@[16] == '_',
{
    reveal_strlit("SECURITY_X_FRAME_OPTIONS");
}

proof fn lemma_security_content_security_policy()
    ensures
        plain_word("SECURITY_CONTENT_SECURITY_POLICY"@),
        "SECURITY_CONTENT_SECURITY_POLICY"@.len() == 32,
{
    reveal_strlit("SECURITY_CONTENT_SECURITY_POLICY");
}

proof fn lemma_port()
    ensures
        plain_word("PORT"@),
        "PORT"@.len() == 4,
{
    reveal_strlit("PORT");
}

proof fn lemma_compression_level()
    ensures
        plain_word("COMPRESSION_LEVEL"@),
        "COMPRESSION_LEVEL"@.len() == 17,
        "COMPRESSION_LEVEL"@[0] == 'C',
{
    reveal_strlit("COMPRESSION_LEVEL");
}

proof fn lemma_root_dir()
    ensures
        plain_word("ROOT_DIR"@),
        "ROOT_DIR"@.len() == 8,
{
    reveal_strlit("ROOT_DIR");
}

proof fn lemma_log_format()
    ensures
        plain_word("LOG_FORMAT"@),
        "LOG_FORMAT"@.len() == 10,
        "LOG_FORMAT"@[0] == 'L',
{
    reveal_strlit("LOG_FORMAT");
}

proof fn lemma_access_log()
    ensures
        plain_word("ACCESS_LOG"@),
        "ACCESS_LOG"@.len() == 10,
        "ACCESS_LOG"@[0] == 'A',
{
    reveal_strlit("ACCESS_LOG");
}

proof fn lemma_error_log()
    ensures
        plain_word("ERROR_LOG"@),
        "ERROR_LOG"@.len() == 9,
{
    reveal_strlit("ERROR_LOG");
}

proof fn lemma_compression_enabled()
    ensures
        plain_word("COMPRESSION_ENABLED"@),
        "COMPRESSION_ENABLED"@.len() == 19,
{
    reveal_strlit("COMPRESSION_ENABLED");
}

proof fn lemma_compression_mime()
    ensures
        plain_word("COMPRESSION_MIME"@),
        "COMPRESSION_MIME"@.len() == 16,
        "COMPRESSION_MIME"@[0] == 'C',
{
    reveal_strlit("COMPRESSION_MIME");
}

proof fn lemma_tls_enabled()
    ensures
        plain_word("TLS_ENABLED"@),
        "TLS_ENABLED"@.len() == 11,
        "TLS_ENABLED"@[0] == 'T',
{
    reveal_strlit("TLS_ENABLED");
}

proof fn lemma_tls_certificate()
    ensures
        plain_word("TLS_CERTIFICATE"@),
        "TLS_CERTIFICATE"@.len() == 15,
        "TLS_CERTIFICATE"@[11] == 'C',
{
    reveal_strlit("TLS_CERTIFICATE");
}

proof fn lemma_tls_private_key()
    ensures
        plain_word("TLS_PRIVATE_KEY"@),
        "TLS_PRIVATE_KEY"@.len() == 15,
        "TLS_PRIVATE_KEY"@[11] == '_',
{
    reveal_strlit("TLS_PRIVATE_KEY");
}

proof fn lemma_front_controller()
    ensures
        plain_word("FRONT_CONTROLLER"@),
        "FRONT_CONTROLLER"@.len() == 16,
        "FRONT_CONTROLLER"@[0] == 'F',
{
    reveal_strlit("FRONT_CONTROLLER");
}

proof fn lemma_vhost()
    ensures
        plain_word("VHOST"@),
        "VHOST"@.len() == 5,
        "VHOST"@[0] == 'V',
{
    reveal_strlit("VHOST");
}

proof fn lemma_proxy()
    ensures
        plain_word("PROXY"@),
        "PROXY"@.len() == 5,
        "PROXY"@[0] == 'P',
{
    reveal_strlit("PROXY");
}

proof fn lemma_fastcgi()
    ensures
        plain_word("FASTCGI"@),
        "FASTCGI"@.len() == 7,
        "FASTCGI"@[0] == 'F',
{
    reveal_strlit("FASTCGI");
}

proof fn lemma_deny_hidden_files()
    ensures
        plain_word("DENY_HIDDEN_FILES"@),
        "DENY_HIDDEN_FILES"@.len() == 17,
        "DENY_HIDDEN_FILES"@[0] == 'D',
{
    reveal_strlit("DENY_HIDDEN_FILES");
}

proof fn lemma_deny_ip()
    ensures
        plain_word("DENY_IP"@),
        "DENY_IP"@.len() == 7,
        "DENY_IP"@[0] == 'D',
{
    reveal_strlit("DENY_IP");
}

proof fn lemma_header()
    ensures
        plain_word("HEADER"@),
        "HEADER"@.len() == 6,
{
    reveal_strlit("HEADER");
}

proof fn lemma_redirect_404()
    ensures
        plain_word("REDIRECT_404"@),
        "REDIRECT_404"@.len() == 12,
        "REDIRECT_404"@[2] == 'D',
{
    reveal_strlit("REDIRECT_404");
}

proof fn lemma_names()
    ensures
        plain_word("MAX_REQUEST_SIZE"@),
        "MAX_REQUEST_SIZE"@.len() == 16,
        "MAX_REQUEST_SIZE"@[0] == 'M',
        plain_word("MAX_HEADER_SIZE"@),
        "MAX_HEADER_SIZE"@.len() == 15,
        "MAX_HEADER_SIZE"@[11] == 'S',
        plain_word("MAX_HEADERS"@),
        "MAX_HEADERS"@.len() == 11,
        "MAX_HEADERS"@[0] == 'M',
        plain_word("MAX_HEADER_LINE"@),
        "MAX_HEADER_LINE"@.len() == 15,
        "MAX_HEADER_LINE"@[11] == 'L',
        plain_word("MAX_URI_LENGTH"@),
        "MAX_URI_LENGTH"@.len() == 14,
        plain_word("MAX_CONNECTIONS"@),
        "MAX_CONNECTIONS"@.len() == 15,
        "MAX_CONNECTIONS"@[11] == 'I',
        plain_word("MAX_REQUESTS_PER_CONNECTION"@),
        "MAX_REQUESTS_PER_CONNECTION"@.len() == 27,
        plain_word("MAX_CONNECTIONS_PER_IP"@),
        "MAX_CONNECTIONS_PER_IP"@.len() == 22,
        plain_word("WORKERS"@),
        "WORKERS"@.len() == 7,
        "WORKERS"@[0] == 'W',
        plain_word("READ_TIMEOUT"@),
        "READ_TIMEOUT"@.len() == 12,
        "READ_TIMEOUT"@[2] == 'A',
        plain_word("WRITE_TIMEOUT"@),
        "WRITE_TIMEOUT"@.len() == 13,
        plain_word("KEEP_ALIVE_TIMEOUT"@),
        "KEEP_ALIVE_TIMEOUT"@.len() == 18,
        plain_word("COMPRESSION_MIN_SIZE"@),
        "COMPRESSION_MIN_SIZE"@.len() == 20,
        plain_word("UPSTREAM_HEALTH_INTERVAL"@),
        "UPSTREAM_HEALTH_INTERVAL"@.len() == 24,
        "UPSTREAM_HEALTH_INTERVAL"@[0] == 'U',
        "UPSTREAM_HEALTH_INTERVAL"@[16] == 'I',
        plain_word("UPSTREAM_HEALTH_TIMEOUT"@),
        "UPSTREAM_HEALTH_TIMEOUT"@.len() == 23,
        plain_word("UPSTREAM_HEALTH_FAILURES"@),
        "UPSTREAM_HEALTH_FAILURES"@.len() == 24,
        "UPSTREAM_HEALTH_FAILURES"@[0] == 'U',
        "UPSTREAM_HEALTH_FAILURES"@[16] == 'F',
        plain_word("UPSTREAM_HEALTH_RECOVERY"@),
        "UPSTREAM_HEALTH_RECOVERY"@.len() == 24,
        "UPSTREAM_HEALTH_RECOVERY"@[0] == 'U',
        "UPSTREAM_HEALTH_RECOVERY"@[16] == 'R',
        plain_word("RATE_LIMIT_PER_SECOND"@),
        "RATE_LIMIT_PER_SECOND"@.len() == 21,
        plain_word("RATE_LIMIT_BURST"@),
        "RATE_LIMIT_BURST"@.len() == 16,
        "RATE_LIMIT_BURST"@[0] == 'R',
        plain_word("SECURITY_X_CONTENT_TYPE_OPTIONS"@),
        "SECURITY_X_CONTENT_TYPE_OPTIONS"@.len() == 31,
        plain_word("SECURITY_REFERRER_POLICY"@),
        "SECURITY_REFERRER_POLICY"@.len() == 24,
        "SECURITY_REFERRER_POLICY"@[0] == 'S',
        "SECURITY_REFERRER_POLICY"@[16] == 'R',
        plain_word("SECURITY_X_FRAME_OPTIONS"@),
        "SECURITY_X_FRAME_OPTIONS"@.len() == 24,
        "SECURITY_X_FRAME_OPTIONS"@[0] == 'S',
        "SECURITY_X_FRAME_OPTIONS"@[16] == '_',
        plain_word("SECURITY_CONTENT_SECURITY_POLICY"@),
        "SECURITY_CONTENT_SECURITY_POLICY"@.len() == 32,
        plain_word("PORT"@),
        "PORT"@.len() == 4,
        plain_word("COMPRESSION_LEVEL"@),
        "COMPRESSION_LEVEL"@.len() == 17,
        "COMPRESSION_LEVEL"@[0] == 'C',
        plain_word("ROOT_DIR"@),
        "ROOT_DIR"@.len() == 8,
        plain_word("LOG_FORMAT"@),
        "LOG_FORMAT"@.len() == 10,
        "LOG_FORMAT"@[0] == 'L',
        plain_word("ACCESS_LOG"@),
        "ACCESS_LOG"@.len() == 10,
        "ACCESS_LOG"@[0] == 'A',
        plain_word("ERROR_LOG"@),
        "ERROR_LOG"@.len() == 9,
        plain_word("COMPRESSION_ENABLED"@),
        "COMPRESSION_ENABLED"@.len() == 19,
        plain_word("COMPRESSION_MIME"@),
        "COMPRESSION_MIME"@.len() == 16,
        "COMPRESSION_MIME"@[0] == 'C',
        plain_word("TLS_ENABLED"@),
        "TLS_ENABLED"@.len() == 11,
        "TLS_ENABLED"@[0] == 'T',
        plain_word("TLS_CERTIFICATE"@),
        "TLS_CERTIFICATE"@.len() == 15,
        "TLS_CERTIFICATE"@[11] == 'C',
        plain_word("TLS_PRIVATE_KEY"@),
        "TLS_PRIVATE_KEY"@.len() == 15,
        "TLS_PRIVATE_KEY"@[11] == '_',
        plain_word("FRONT_CONTROLLER"@),
        "FRONT_CONTROLLER"@.len() == 16,
        "FRONT_CONTROLLER"@[0] == 'F',
        plain_word("VHOST"@),
        "VHOST"@.len() == 5,
        "VHOST"@[0] == 'V',
        plain_word("PROXY"@),
        "PROXY"@.len() == 5,
        "PROXY"@[0] == 'P',
        plain_word("FASTCGI"@),
        "FASTCGI"@.len() == 7,
        "FASTCGI"@[0] == 'F',
        plain_word("DENY_HIDDEN_FILES"@),
        "DENY_HIDDEN_FILES"@.len() == 17,
        "DENY_HIDDEN_FILES"@[0] == 'D',
        plain_word("DENY_IP"@),
        "DENY_IP"@.len() == 7,
        "DENY_IP"@[0] == 'D',
        plain_word("HEADER"@),
        "HEADER"@.len() == 6,
        plain_word("REDIRECT_404"@),
        "REDIRECT_404"@.len() == 12,
        "REDIRECT_404"@[2] == 'D',
{
    lemma_max_request_size();
    lemma_max_header_size();
    lemma_max_headers();
    lemma_max_header_line();
    lemma_max_uri_length();
    lemma_max_connections();
    lemma_max_requests_per_connection();
    lemma_max_connections_per_ip();
    lemma_workers();
    lemma_read_timeout();
    lemma_write_timeout();
    lemma_keep_alive_timeout();
    lemma_compression_min_size();
    lemma_upstream_health_interval();
    lemma_upstream_health_timeout();
    lemma_upstream_health_failures();
    lemma_upstream_health_recovery();
    lemma_rate_limit_per_second();
    lemma_rate_limit_burst();
    lemma_security_x_content_type_options();
    lemma_security_referrer_policy();
    lemma_security_x_frame_options();
    lemma_security_content_security_policy();
    lemma_port();
    lemma_compression_level();
    lemma_root_dir();
    lemma_log_format();
    lemma_access_log();
    lemma_error_log();
    lemma_compression_enabled();
    lemma_compression_mime();
    lemma_tls_enabled();
    lemma_tls_certificate();
    lemma_tls_private_key();
    lemma_front_controller();
    lemma_vhost();
    lemma_proxy();
    lemma_fastcgi();
    lemma_deny_hidden_files();
    lemma_deny_ip();
    lemma_header();
    lemma_redirect_404();
}

/// The rules after one more setting.
pub open spec fn with_setting(
    l: Seq<Seq<char>>,
    name: Seq<char>,
    value: Seq<char>,
    is_root: bool,
) -> Rules {
    rules(l.push(name + " = "@ + value), is_root)
}

/// A value that a setting may have: it neither begins nor ends with white space and holds
/// no quote and no comment mark.
pub open spec fn plain_value(v: Seq<char>) -> bool {
    v.len() > 0 && unmarked(v) && !is_space(v[0]) && !is_space(v.last())
}

/// A setting was taken: the settings of the server are these, and nothing else is new.
pub open spec fn adjusted(before: Rules, after: Rules, server: ServerView) -> bool {
    after.server == server && after.dir == before.dir && after.complaints == before.complaints
}

proof fn lemma_setting(l: Seq<Seq<char>>, k: Seq<char>, v: Seq<char>, is_root: bool)
    requires
        plain_word(k),
        plain_value(v),
    ensures
        ({
            let r = rules(l, is_root);
            let n = with_setting(l, k, v, is_root);
            let e = setting(k, v, is_root, r.server, r.dir);
            &&& n.server == e.server
            &&& n.dir == e.dir
            &&& match e.complaint {
                Some(m) => n.complaints == r.complaints.push(((l.len() + 1) as usize, m)),
                None => n.complaints == r.complaints,
            }
        }),
{
    let r = rules(l, is_root);
    lemma_setting_line(k, v, is_root, r.server, r.dir);
    lemma_one_more_line(l, k + " = "@ + v, is_root);
}

proof fn lemma_number_value(n: nat)
    ensures
        plain_value(decimal(n)),
{
    lemma_decimal_is_digits(n);
    let d = decimal(n);
    assert(!is_space(d[0]) && !is_space(d[d.len() - 1]));
}

/// The numeric settings: each sets its own field to the number that is given, and no other.
pub proof fn law_port_setting(l: Seq<Seq<char>>, n: u16)
    ensures
        ({
            let r = rules(l, true);
            let a = with_setting(l, "PORT"@, decimal(n as nat), true);
            if n > 0 {
                adjusted(r, a, ServerView { port: n, ..r.server })
            } else {
                refused(r, a)
            }
        }),
{
    lemma_names();
    lemma_number_value(n as nat);
    law_decimal_reads_back(n as nat, u16::MAX as nat);
    lemma_setting(l, "PORT"@, decimal(n as nat), true);
}

/// A size or a count is set by its own name.
pub proof fn law_size_settings(l: Seq<Seq<char>>, n: usize)
    ensures
        ({
            let r = rules(l, true);
            let d = decimal(n as nat);
            &&& adjusted(r, with_setting(l, "MAX_REQUEST_SIZE"@, d, true), ServerView { max_request_size: n, ..r.server })
            &&& adjusted(r, with_setting(l, "MAX_HEADER_SIZE"@, d, true), ServerView { max_header_size: n, ..r.server })
            &&& adjusted(r, with_setting(l, "MAX_HEADERS"@, d, true), ServerView { max_headers: n, ..r.server })
            &&& adjusted(r, with_setting(l, "MAX_HEADER_LINE"@, d, true), ServerView { max_header_line: n, ..r.server })
            &&& adjusted(r, with_setting(l, "MAX_URI_LENGTH"@, d, true), ServerView { max_uri_length: n, ..r.server })
        }),
{
    let d = decimal(n as nat);
    lemma_names();
    lemma_number_value(n as nat);
    law_decimal_reads_back(n as nat, usize::MAX as nat);
    lemma_setting(l, "MAX_REQUEST_SIZE"@, d, true);
    lemma_setting(l, "MAX_HEADER_SIZE"@, d, true);
    lemma_setting(l, "MAX_HEADERS"@, d, true);
    lemma_setting(l, "MAX_HEADER_LINE"@, d, true);
    lemma_setting(l, "MAX_URI_LENGTH"@, d, true);
}

/// A count of connections or workers is set by its own name.
pub proof fn law_count_settings(l: Seq<Seq<char>>, n: usize)
    ensures
        ({
            let r = rules(l, true);
            let d = decimal(n as nat);
            &&& adjusted(r, with_setting(l, "MAX_CONNECTIONS"@, d, true), ServerView { max_connections: n, ..r.server })
            &&& adjusted(r, with_setting(l, "MAX_REQUESTS_PER_CONNECTION"@, d, true), ServerView { max_requests_per_connection: n, ..r.server })
            &&& adjusted(r, with_setting(l, "MAX_CONNECTIONS_PER_IP"@, d, true), ServerView { max_connections_per_ip: n, ..r.server })
            &&& adjusted(r, with_setting(l, "WORKERS"@, d, true), ServerView { workers: n, ..r.server })
        }),
{
    let d = decimal(n as nat);
    lemma_names();
    lemma_number_value(n as nat);
    law_decimal_reads_back(n as nat, usize::MAX as nat);
    lemma_setting(l, "MAX_CONNECTIONS"@, d, true);
    lemma_setting(l, "MAX_REQUESTS_PER_CONNECTION"@, d, true);
    lemma_setting(l, "MAX_CONNECTIONS_PER_IP"@, d, true);
    lemma_setting(l, "WORKERS"@, d, true);
}

/// A timeout, and the size from which bodies are compressed, is set by its own name.
pub proof fn law_time_settings(l: Seq<Seq<char>>, n: u64)
    ensures
        ({
            let r = rules(l, true);
            let d = decimal(n as nat);
            &&& adjusted(r, with_setting(l, "READ_TIMEOUT"@, d, true), ServerView { read_timeout: n, ..r.server })
            &&& adjusted(r, with_setting(l, "WRITE_TIMEOUT"@, d, true), ServerView { write_timeout: n, ..r.server })
            &&& adjusted(r, with_setting(l, "KEEP_ALIVE_TIMEOUT"@, d, true), ServerView { keep_alive_timeout: n, ..r.server })
            &&& adjusted(r, with_setting(l, "COMPRESSION_MIN_SIZE"@, d, true), ServerView { compression_min_size: n, ..r.server })
        }),
{
    let d = decimal(n as nat);
    lemma_names();
    lemma_number_value(n as nat);
    law_decimal_reads_back(n as nat, u64::MAX as nat);
    lemma_setting(l, "READ_TIMEOUT"@, d, true);
    lemma_setting(l, "WRITE_TIMEOUT"@, d, true);
    lemma_setting(l, "KEEP_ALIVE_TIMEOUT"@, d, true);
    lemma_setting(l, "COMPRESSION_MIN_SIZE"@, d, true);
}

/// The rate of requests and its burst are set by their own names.
pub proof fn law_rate_settings(l: Seq<Seq<char>>, n: u32)
    ensures
        ({
            let r = rules(l, true);
            let d = decimal(n as nat);
            &&& adjusted(r, with_setting(l, "RATE_LIMIT_PER_SECOND"@, d, true), ServerView { rate_limit_per_second: n, ..r.server })
            &&& adjusted(r, with_setting(l, "RATE_LIMIT_BURST"@, d, true), ServerView { rate_limit_burst: n, ..r.server })
        }),
{
    let d = decimal(n as nat);
    lemma_names();
    lemma_number_value(n as nat);
    law_decimal_reads_back(n as nat, u32::MAX as nat);
    lemma_setting(l, "RATE_LIMIT_PER_SECOND"@, d, true);
    lemma_setting(l, "RATE_LIMIT_BURST"@, d, true);
}

/// The settings of the health checks are positive and held to their bounds.
pub proof fn law_health_settings(l: Seq<Seq<char>>, n: u64)
    ensures
        ({
            let r = rules(l, true);
            let d = decimal(n as nat);
            &&& if n == 0 {
                refused(r, with_setting(l, "UPSTREAM_HEALTH_INTERVAL"@, d, true))
            } else {
                adjusted(
                    r,
                    with_setting(l, "UPSTREAM_HEALTH_INTERVAL"@, d, true),
                    ServerView {
                        upstream_health_interval: if n <= 86400 {
                            n as u64
                        } else {
                            86400
                        },
                        ..r.server
                    },
                )
            }
            &&& if n == 0 {
                refused(r, with_setting(l, "UPSTREAM_HEALTH_TIMEOUT"@, d, true))
            } else {
                adjusted(
                    r,
                    with_setting(l, "UPSTREAM_HEALTH_TIMEOUT"@, d, true),
                    ServerView {
                        upstream_health_timeout: if n <= 300 {
                            n as u64
                        } else {
                            300
                        },
                        ..r.server
                    },
                )
            }
            &&& if n == 0 {
                refused(r, with_setting(l, "UPSTREAM_HEALTH_FAILURES"@, d, true))
            } else {
                adjusted(
                    r,
                    with_setting(l, "UPSTREAM_HEALTH_FAILURES"@, d, true),
                    ServerView {
                        upstream_health_failures: if n <= 4294967295 {
                            n as u32
                        } else {
                            4294967295
                        },
                        ..r.server
                    },
                )
            }
            &&& if n == 0 {
                refused(r, with_setting(l, "UPSTREAM_HEALTH_RECOVERY"@, d, true))
            } else {
                adjusted(
                    r,
                    with_setting(l, "UPSTREAM_HEALTH_RECOVERY"@, d, true),
                    ServerView {
                        upstream_health_recovery: if n <= 4294967295 {
                            n as u32
                        } else {
                            4294967295
                        },
                        ..r.server
                    },
                )
            }
        }),
{
    let d = decimal(n as nat);
    lemma_names();
    lemma_number_value(n as nat);
    law_decimal_reads_back(n as nat, u64::MAX as nat);
    lemma_setting(l, "UPSTREAM_HEALTH_INTERVAL"@, d, true);
    lemma_setting(l, "UPSTREAM_HEALTH_TIMEOUT"@, d, true);
    lemma_setting(l, "UPSTREAM_HEALTH_FAILURES"@, d, true);
    lemma_setting(l, "UPSTREAM_HEALTH_RECOVERY"@, d, true);
}

/// The level of compression goes from zero to nine.
pub proof fn law_level_setting(l: Seq<Seq<char>>, n: u32)
    ensures
        ({
            let r = rules(l, true);
            let a = with_setting(l, "COMPRESSION_LEVEL"@, decimal(n as nat), true);
            if n <= 9 {
                adjusted(r, a, ServerView { compression_level: n, ..r.server })
            } else {
                refused(r, a)
            }
        }),
{
    lemma_names();
    lemma_number_value(n as nat);
    law_decimal_reads_back(n as nat, u32::MAX as nat);
    lemma_setting(l, "COMPRESSION_LEVEL"@, decimal(n as nat), true);
}

/// The settings that hold a text: each sets its own field to it.
pub proof fn law_text_settings(l: Seq<Seq<char>>, v: Seq<char>)
    requires
        plain_value(v),
    ensures
        ({
            let r = rules(l, true);
            &&& adjusted(
                r,
                with_setting(l, "ROOT_DIR"@, v, true),
                ServerView { root_dir: v, ..r.server },
            )
            &&& adjusted(
                r,
                with_setting(l, "TLS_CERTIFICATE"@, v, true),
                ServerView { tls_certificate: Some(v), ..r.server },
            )
            &&& adjusted(
                r,
                with_setting(l, "TLS_PRIVATE_KEY"@, v, true),
                ServerView { tls_private_key: Some(v), ..r.server },
            )
            &&& front_controller_ok(v) ==> adjusted(
                r,
                with_setting(l, "FRONT_CONTROLLER"@, v, true),
                ServerView { front_controller: Some(v), ..r.server },
            )
            &&& !front_controller_ok(v) ==> refused(
                r,
                with_setting(l, "FRONT_CONTROLLER"@, v, true),
            )
        }),
{
    lemma_names();
    lemma_setting(l, "ROOT_DIR"@, v, true);
    lemma_setting(l, "TLS_CERTIFICATE"@, v, true);
    lemma_setting(l, "TLS_PRIVATE_KEY"@, v, true);
    lemma_setting(l, "FRONT_CONTROLLER"@, v, true);
}

/// Logs go to a standard stream or to an absolute path.
pub proof fn law_log_settings(l: Seq<Seq<char>>, v: Seq<char>)
    requires
        plain_value(v),
        v == "stdout"@ || v == "stderr"@ || (v[0] == '/' && encode_utf8(v).len() <= 4096),
    ensures
        ({
            let r = rules(l, true);
            &&& adjusted(
                r,
                with_setting(l, "ACCESS_LOG"@, v, true),
                ServerView { access_log: v, ..r.server },
            )
            &&& adjusted(
                r,
                with_setting(l, "ERROR_LOG"@, v, true),
                ServerView { error_log: v, ..r.server },
            )
        }),
{
    lemma_names();
    lemma_setting(l, "ACCESS_LOG"@, v, true);
    lemma_setting(l, "ERROR_LOG"@, v, true);
}

proof fn lemma_words_of_truth()
    ensures
        plain_value("true"@) && lower("true"@) == "true"@,
        plain_value("false"@) && lower("false"@) == "false"@,
        plain_value("on"@) && lower("on"@) == "on"@,
        plain_value("off"@) && lower("off"@) == "off"@,
        plain_value("text"@) && lower("text"@) == "text"@,
        plain_value("json"@) && lower("json"@) == "json"@,
        "true"@.len() == 4,
        "false"@.len() == 5,
        "yes"@.len() == 3,
        "no"@.len() == 2,
        "no"@[0] == 'n',
        "1"@.len() == 1,
        "0"@.len() == 1,
        "on"@.len() == 2,
        "on"@[0] == 'o',
        "off"@.len() == 3,
        "off"@[0] == 'o',
        "yes"@[0] == 'y',
        "text"@[1] == 'e',
        "json"@[1] == 's',
{
    reveal_strlit("true");
    reveal_strlit("false");
    reveal_strlit("on");
    reveal_strlit("off");
    reveal_strlit("text");
    reveal_strlit("json");
    reveal_strlit("yes");
    reveal_strlit("no");
    reveal_strlit("1");
    reveal_strlit("0");
    assert(lower("true"@) =~= "true"@);
    assert(lower("false"@) =~= "false"@);
    assert(lower("on"@) =~= "on"@);
    assert(lower("off"@) =~= "off"@);
    assert(lower("text"@) =~= "text"@);
    assert(lower("json"@) =~= "json"@);
}

/// The settings that choose between two things.
pub proof fn law_choice_settings(l: Seq<Seq<char>>, yes: bool)
    ensures
        ({
            let r = rules(l, true);
            let truth = if yes {
                "true"@
            } else {
                "false"@
            };
            let switch = if yes {
                "on"@
            } else {
                "off"@
            };
            let format = if yes {
                "json"@
            } else {
                "text"@
            };
            &&& adjusted(
                r,
                with_setting(l, "TLS_ENABLED"@, truth, true),
                ServerView { tls_enabled: yes, ..r.server },
            )
            &&& adjusted(
                r,
                with_setting(l, "COMPRESSION_ENABLED"@, switch, true),
                ServerView { compression_enabled: yes, ..r.server },
            )
            &&& adjusted(
                r,
                with_setting(l, "LOG_FORMAT"@, format, true),
                ServerView { log_format: format, ..r.server },
            )
            &&& with_setting(l, "DENY_HIDDEN_FILES"@, truth, true).server == (ServerView {
                deny_hidden_files: yes,
                ..r.server
            })
            &&& with_setting(l, "DENY_HIDDEN_FILES"@, truth, true).dir == (DirView {
                deny_hidden_files: Some(yes),
                ..r.dir
            })
            &&& taken(
                rules(l, false),
                with_setting(l, "DENY_HIDDEN_FILES"@, truth, false),
                DirView { deny_hidden_files: Some(yes), ..rules(l, false).dir },
            )
        }),
{
    let truth = if yes {
        "true"@
    } else {
        "false"@
    };
    let switch = if yes {
        "on"@
    } else {
        "off"@
    };
    let format = if yes {
        "json"@
    } else {
        "text"@
    };
    lemma_names();
    lemma_words_of_truth();
    lemma_setting(l, "TLS_ENABLED"@, truth, true);
    lemma_setting(l, "COMPRESSION_ENABLED"@, switch, true);
    lemma_setting(l, "LOG_FORMAT"@, format, true);
    lemma_setting(l, "DENY_HIDDEN_FILES"@, truth, true);
    lemma_setting(l, "DENY_HIDDEN_FILES"@, truth, false);
}

/// The security headers take their values from their own settings.
pub proof fn law_security_settings(l: Seq<Seq<char>>, v: Seq<char>)
    requires
        plain_value(v),
        header_value_ok(v),
    ensures
        ({
            let r = rules(l, true);
            &&& adjusted(
                r,
                with_setting(l, "SECURITY_X_CONTENT_TYPE_OPTIONS"@, v, true),
                ServerView { security_x_content_type_options: Some(v), ..r.server },
            )
            &&& adjusted(
                r,
                with_setting(l, "SECURITY_REFERRER_POLICY"@, v, true),
                ServerView { security_referrer_policy: Some(v), ..r.server },
            )
            &&& adjusted(
                r,
                with_setting(l, "SECURITY_X_FRAME_OPTIONS"@, v, true),
                ServerView { security_x_frame_options: Some(v), ..r.server },
            )
            &&& adjusted(
                r,
                with_setting(l, "SECURITY_CONTENT_SECURITY_POLICY"@, v, true),
                ServerView { security_content_security_policy: Some(v), ..r.server },
            )
        }),
{
    lemma_names();
    lemma_setting(l, "SECURITY_X_CONTENT_TYPE_OPTIONS"@, v, true);
    lemma_setting(l, "SECURITY_REFERRER_POLICY"@, v, true);
    lemma_setting(l, "SECURITY_X_FRAME_OPTIONS"@, v, true);
    lemma_setting(l, "SECURITY_CONTENT_SECURITY_POLICY"@, v, true);
}

/// `VHOST` adds a virtual host: its name, its root, and as far as they are there its rule
/// file, its certificate and its key.
pub proof fn law_vhost_setting(l: Seq<Seq<char>>, f: Seq<Seq<char>>)
    requires
        2 <= f.len() <= 5,
        plain_words(f),
        !has_char(f[0], '/'),
        !has_char(f[0], ':'),
    ensures
        ({
            let r = rules(l, true);
            adjusted(
                r,
                with_setting(l, "VHOST"@, spaced(f), true),
                ServerView {
                    vhosts: r.server.vhosts.push(
                        VhostView {
                            host: lower(f[0]),
                            root_dir: f[1],
                            config_file: if f.len() > 2 {
                                Some(f[2])
                            } else {
                                None
                            },
                            tls_certificate: if f.len() > 3 {
                                Some(f[3])
                            } else {
                                None
                            },
                            tls_private_key: if f.len() > 4 {
                                Some(f[4])
                            } else {
                                None
                            },
                        },
                    ),
                    ..r.server
                },
            )
        }),
{
    lemma_names();
    lemma_spaced(f);
    assert(plain_word(f[0]) && plain_word(f[f.len() - 1]));
    lemma_setting(l, "VHOST"@, spaced(f), true);
}

/// `PROXY` adds a route to an upstream: the host, the prefix and the upstream.
pub proof fn law_proxy_setting(
    l: Seq<Seq<char>>,
    host: Seq<char>,
    prefix: Seq<char>,
    upstream: Seq<char>,
)
    requires
        plain_word(host),
        plain_word(prefix),
        plain_word(upstream),
    ensures
        ({
            let r = rules(l, true);
            let a = with_setting(l, "PROXY"@, spaced(seq![host, prefix, upstream]), true);
            if route_prefix_ok(prefix) && upstream_ok(upstream) {
                adjusted(
                    r,
                    a,
                    ServerView {
                        proxy_routes: r.server.proxy_routes.push(
                            ProxyView { host: lower(host), prefix, upstream },
                        ),
                        ..r.server
                    },
                )
            } else {
                refused(r, a)
            }
        }),
{
    let f = seq![host, prefix, upstream];
    lemma_names();
    lemma_spaced(f);
    assert(plain_word(f[0]) && plain_word(f[f.len() - 1]));
    lemma_setting(l, "PROXY"@, spaced(f), true);
}

/// `FASTCGI` adds a route to a responder: the host, the prefix, where it listens and the
/// root of its scripts.
pub proof fn law_fastcgi_setting(
    l: Seq<Seq<char>>,
    host: Seq<char>,
    prefix: Seq<char>,
    endpoint: Seq<char>,
    root: Seq<char>,
)
    requires
        plain_word(host),
        plain_word(prefix),
        plain_word(endpoint),
        plain_word(root),
    ensures
        ({
            let r = rules(l, true);
            let a = with_setting(l, "FASTCGI"@, spaced(seq![host, prefix, endpoint, root]), true);
            if route_prefix_ok(prefix) && endpoint_ok(endpoint) {
                adjusted(
                    r,
                    a,
                    ServerView {
                        fastcgi_routes: r.server.fastcgi_routes.push(
                            FastCgiView { host: lower(host), prefix, endpoint, document_root: root },
                        ),
                        ..r.server
                    },
                )
            } else {
                refused(r, a)
            }
        }),
{
    let f = seq![host, prefix, endpoint, root];
    lemma_names();
    lemma_spaced(f);
    assert(plain_word(f[0]) && plain_word(f[f.len() - 1]));
    lemma_setting(l, "FASTCGI"@, spaced(f), true);
}

/// The settings of a directory: an address that is turned away, a header that is set and
/// the page for what is missing.
pub proof fn law_directory_settings(
    l: Seq<Seq<char>>,
    v: Seq<char>,
    name: Seq<char>,
    value: Seq<char>,
    is_root: bool,
)
    requires
        plain_value(v),
        plain_word(name),
        !has_char(name, ':'),
        plain_value(value),
        one_line(value),
    ensures
        ({
            let r = rules(l, is_root);
            &&& match ip(v) {
                Some(a) => taken(
                    r,
                    with_setting(l, "DENY_IP"@, v, is_root),
                    DirView { deny_ips: r.dir.deny_ips.push(a), ..r.dir },
                ),
                None => refused(r, with_setting(l, "DENY_IP"@, v, is_root)),
            }
            &&& taken(
                r,
                with_setting(l, "REDIRECT_404"@, v, is_root),
                DirView { redirect_404: Some(v), ..r.dir },
            )
            &&& taken(
                r,
                with_setting(l, "HEADER"@, name + ": "@ + value, is_root),
                DirView { headers: r.dir.headers.push((name, value)), ..r.dir },
            )
        }),
{
    reveal_strlit(": ");
    lemma_names();
    lemma_setting(l, "DENY_IP"@, v, is_root);
    lemma_setting(l, "REDIRECT_404"@, v, is_root);
    let h = name + ": "@ + value;
    assert(h =~= name + seq![':'] + (seq![' '] + value));
    lemma_cut(name, ':', seq![' '] + value);
    lemma_trim_blank_before(value);
    assert(!is_space(name[0]) && !is_space(name[name.len() - 1]));
    lemma_trim_is(name);
    lemma_unbroken(value);
    assert(h[0] == name[0] && h.last() == value.last());
    assert forall|i: int| 0 <= i < h.len() implies #[trigger] h[i] != '"' && h[i] != '#' by {
        if i < name.len() {
            assert(h[i] == name[i]);
        } else if i >= name.len() + 2 {
            assert(h[i] == value[i - name.len() - 2]);
        }
    }
    lemma_setting(l, "HEADER"@, h, is_root);
}

} // verus!
