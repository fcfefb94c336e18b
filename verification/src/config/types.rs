//! The settings that rule files produce, with their mathematical views.

use crate::config::ip::{Cidr, IpAddr};
use crate::text::{decimal, decimal_of, push_str, string_of, strings};
use vstd::prelude::*;

verus! {

/// The largest rule file that is read, in bytes.
pub const MAX_RULE_FILE_BYTES: usize = 262144;

/// The largest number of rewrite rules that apply to a directory.
pub const MAX_REWRITE_RULES: usize = 128;

#[derive(Debug, PartialEq, Eq)]
pub struct RedirectRule {
    pub source: String,
    pub target: String,
    pub status: u16,
}

#[verifier::ext_equal]
pub struct RedirectView {
    pub source: Seq<char>,
    pub target: Seq<char>,
    pub status: u16,
}

impl View for RedirectRule {
    type V = RedirectView;

    open spec fn view(&self) -> RedirectView {
        RedirectView { source: self.source@, target: self.target@, status: self.status }
    }
}

impl Clone for RedirectRule {
    fn clone(&self) -> (r: Self)
        ensures
            r@ == self@,
    {
        RedirectRule {
            source: self.source.clone(),
            target: self.target.clone(),
            status: self.status,
        }
    }
}

#[derive(Debug, PartialEq, Eq)]
pub struct RewriteRule {
    pub pattern: String,
    pub replacement: String,
    pub status: Option<u16>,
}

#[verifier::ext_equal]
pub struct RewriteView {
    pub pattern: Seq<char>,
    pub replacement: Seq<char>,
    pub status: Option<u16>,
}

impl View for RewriteRule {
    type V = RewriteView;

    open spec fn view(&self) -> RewriteView {
        RewriteView {
            pattern: self.pattern@,
            replacement: self.replacement@,
            status: self.status,
        }
    }
}

impl Clone for RewriteRule {
    fn clone(&self) -> (r: Self)
        ensures
            r@ == self@,
    {
        RewriteRule {
            pattern: self.pattern.clone(),
            replacement: self.replacement.clone(),
            status: self.status,
        }
    }
}

/// A route to an HTTP upstream; only the root rule file can make one.
#[derive(Debug, PartialEq, Eq)]
pub struct ProxyRoute {
    pub host: String,
    pub prefix: String,
    pub upstream: String,
}

#[verifier::ext_equal]
pub struct ProxyView {
    pub host: Seq<char>,
    pub prefix: Seq<char>,
    pub upstream: Seq<char>,
}

impl View for ProxyRoute {
    type V = ProxyView;

    open spec fn view(&self) -> ProxyView {
        ProxyView { host: self.host@, prefix: self.prefix@, upstream: self.upstream@ }
    }
}

impl Clone for ProxyRoute {
    fn clone(&self) -> (r: Self)
        ensures
            r@ == self@,
    {
        ProxyRoute {
            host: self.host.clone(),
            prefix: self.prefix.clone(),
            upstream: self.upstream.clone(),
        }
    }
}

/// A route to a FastCGI responder; only the root rule file can make one.
#[derive(Debug, PartialEq, Eq)]
pub struct FastCgiRoute {
    pub host: String,
    pub prefix: String,
    pub endpoint: String,
    pub document_root: String,
}

#[verifier::ext_equal]
pub struct FastCgiView {
    pub host: Seq<char>,
    pub prefix: Seq<char>,
    pub endpoint: Seq<char>,
    pub document_root: Seq<char>,
}

impl View for FastCgiRoute {
    type V = FastCgiView;

    open spec fn view(&self) -> FastCgiView {
        FastCgiView {
            host: self.host@,
            prefix: self.prefix@,
            endpoint: self.endpoint@,
            document_root: self.document_root@,
        }
    }
}

impl Clone for FastCgiRoute {
    fn clone(&self) -> (r: Self)
        ensures
            r@ == self@,
    {
        FastCgiRoute {
            host: self.host.clone(),
            prefix: self.prefix.clone(),
            endpoint: self.endpoint.clone(),
            document_root: self.document_root.clone(),
        }
    }
}

/// A virtual host with its own document root.
#[derive(Debug, PartialEq, Eq)]
pub struct VhostConfig {
    pub host: String,
    pub root_dir: String,
    pub config_file: Option<String>,
    pub tls_certificate: Option<String>,
    pub tls_private_key: Option<String>,
}

#[verifier::ext_equal]
pub struct VhostView {
    pub host: Seq<char>,
    pub root_dir: Seq<char>,
    pub config_file: Option<Seq<char>>,
    pub tls_certificate: Option<Seq<char>>,
    pub tls_private_key: Option<Seq<char>>,
}

impl View for VhostConfig {
    type V = VhostView;

    open spec fn view(&self) -> VhostView {
        VhostView {
            host: self.host@,
            root_dir: self.root_dir@,
            config_file: opt_text(self.config_file),
            tls_certificate: opt_text(self.tls_certificate),
            tls_private_key: opt_text(self.tls_private_key),
        }
    }
}

impl Clone for VhostConfig {
    fn clone(&self) -> (r: Self)
        ensures
            r@ == self@,
    {
        VhostConfig {
            host: self.host.clone(),
            root_dir: self.root_dir.clone(),
            config_file: copy_opt(&self.config_file),
            tls_certificate: copy_opt(&self.tls_certificate),
            tls_private_key: copy_opt(&self.tls_private_key),
        }
    }
}

pub open spec fn opt_text(o: Option<String>) -> Option<Seq<char>> {
    match o {
        Some(s) => Some(s@),
        None => None,
    }
}

pub open spec fn opt_list(o: Option<Vec<String>>) -> Option<Seq<Seq<char>>> {
    match o {
        Some(v) => Some(strings(v@)),
        None => None,
    }
}

/// The views of a list of name and value pairs.
pub open spec fn pairs(v: Seq<(String, String)>) -> Seq<(Seq<char>, Seq<char>)> {
    Seq::new(v.len(), |i: int| (v[i].0@, v[i].1@))
}

pub open spec fn pages(v: Seq<(u16, String)>) -> Seq<(u16, Seq<char>)> {
    Seq::new(v.len(), |i: int| (v[i].0, v[i].1@))
}

/// The views of the elements.
pub open spec fn views<T: View>(v: Seq<T>) -> Seq<T::V> {
    Seq::new(v.len(), |i: int| v[i].view())
}

pub fn copy_opt(o: &Option<String>) -> (r: Option<String>)
    ensures
        opt_text(r) == opt_text(*o),
{
    match o {
        Some(s) => Some(s.clone()),
        None => None,
    }
}

pub fn copy_strings(v: &Vec<String>) -> (r: Vec<String>)
    ensures
        strings(r@) == strings(v@),
{
    let mut r: Vec<String> = Vec::new();
    let mut i: usize = 0;
    while i < v.len()
        invariant
            i <= v@.len(),
            r@.len() == i,
            forall|j: int| 0 <= j < i ==> #[trigger] r@[j]@ == v@[j]@,
        decreases v@.len() - i,
    {
        r.push(v[i].clone());
        i = i + 1;
    }
    assert(strings(r@) =~= strings(v@));
    r
}

pub fn copy_pairs(v: &Vec<(String, String)>) -> (r: Vec<(String, String)>)
    ensures
        pairs(r@) == pairs(v@),
{
    let mut r: Vec<(String, String)> = Vec::new();
    let mut i: usize = 0;
    while i < v.len()
        invariant
            i <= v@.len(),
            r@.len() == i,
            forall|j: int|
                0 <= j < i ==> (#[trigger] r@[j]).0@ == v@[j].0@ && r@[j].1@ == v@[j].1@,
        decreases v@.len() - i,
    {
        r.push((v[i].0.clone(), v[i].1.clone()));
        i = i + 1;
    }
    assert(pairs(r@) =~= pairs(v@));
    r
}

fn copy_pages(v: &Vec<(u16, String)>) -> (r: Vec<(u16, String)>)
    ensures
        pages(r@) == pages(v@),
{
    let mut r: Vec<(u16, String)> = Vec::new();
    let mut i: usize = 0;
    while i < v.len()
        invariant
            i <= v@.len(),
            r@.len() == i,
            forall|j: int|
                0 <= j < i ==> (#[trigger] r@[j]).0 == v@[j].0 && r@[j].1@ == v@[j].1@,
        decreases v@.len() - i,
    {
        r.push((v[i].0, v[i].1.clone()));
        i = i + 1;
    }
    assert(pages(r@) =~= pages(v@));
    r
}

fn copy_ips(v: &Vec<IpAddr>) -> (r: Vec<IpAddr>)
    ensures
        r@ == v@,
{
    let mut r: Vec<IpAddr> = Vec::new();
    let mut i: usize = 0;
    while i < v.len()
        invariant
            i <= v@.len(),
            r@ == v@.subrange(0, i as int),
        decreases v@.len() - i,
    {
        r.push(v[i]);
        i = i + 1;
        assert(v@.subrange(0, i as int) =~= v@.subrange(0, i - 1).push(v@[i - 1]));
    }
    assert(v@.subrange(0, v@.len() as int) =~= v@);
    r
}

fn copy_networks(v: &Vec<Cidr>) -> (r: Vec<Cidr>)
    ensures
        r@ == v@,
{
    let mut r: Vec<Cidr> = Vec::new();
    let mut i: usize = 0;
    while i < v.len()
        invariant
            i <= v@.len(),
            r@ == v@.subrange(0, i as int),
        decreases v@.len() - i,
    {
        r.push(v[i]);
        i = i + 1;
        assert(v@.subrange(0, i as int) =~= v@.subrange(0, i - 1).push(v@[i - 1]));
    }
    assert(v@.subrange(0, v@.len() as int) =~= v@);
    r
}

fn copy_rewrites(v: &Vec<RewriteRule>) -> (r: Vec<RewriteRule>)
    ensures
        views(r@) == views(v@),
{
    let mut r: Vec<RewriteRule> = Vec::new();
    let mut i: usize = 0;
    while i < v.len()
        invariant
            i <= v@.len(),
            r@.len() == i,
            forall|j: int| 0 <= j < i ==> (#[trigger] r@[j])@ == v@[j]@,
        decreases v@.len() - i,
    {
        r.push(v[i].clone());
        i = i + 1;
    }
    assert(views(r@) =~= views(v@));
    r
}

pub fn copy_vhosts(v: &Vec<VhostConfig>) -> (r: Vec<VhostConfig>)
    ensures
        views(r@) == views(v@),
{
    let mut r: Vec<VhostConfig> = Vec::new();
    let mut i: usize = 0;
    while i < v.len()
        invariant
            i <= v@.len(),
            r@.len() == i,
            forall|j: int| 0 <= j < i ==> (#[trigger] r@[j])@ == v@[j]@,
        decreases v@.len() - i,
    {
        r.push(v[i].clone());
        i = i + 1;
    }
    assert(views(r@) =~= views(v@));
    r
}

pub fn copy_proxy_routes(v: &Vec<ProxyRoute>) -> (r: Vec<ProxyRoute>)
    ensures
        views(r@) == views(v@),
{
    let mut r: Vec<ProxyRoute> = Vec::new();
    let mut i: usize = 0;
    while i < v.len()
        invariant
            i <= v@.len(),
            r@.len() == i,
            forall|j: int| 0 <= j < i ==> (#[trigger] r@[j])@ == v@[j]@,
        decreases v@.len() - i,
    {
        r.push(v[i].clone());
        i = i + 1;
    }
    assert(views(r@) =~= views(v@));
    r
}

pub fn copy_fastcgi_routes(v: &Vec<FastCgiRoute>) -> (r: Vec<FastCgiRoute>)
    ensures
        views(r@) == views(v@),
{
    let mut r: Vec<FastCgiRoute> = Vec::new();
    let mut i: usize = 0;
    while i < v.len()
        invariant
            i <= v@.len(),
            r@.len() == i,
            forall|j: int| 0 <= j < i ==> (#[trigger] r@[j])@ == v@[j]@,
        decreases v@.len() - i,
    {
        r.push(v[i].clone());
        i = i + 1;
    }
    assert(views(r@) =~= views(v@));
    r
}

/// The settings of the whole server.
#[derive(Debug)]
pub struct ServerConfig {
    pub host: String,
    pub port: u16,
    pub root_dir: String,
    pub config_file: String,
    pub workers: usize,
    pub dev_mode: bool,
    pub max_request_size: usize,
    pub max_header_size: usize,
    pub max_headers: usize,
    pub max_header_line: usize,
    pub max_uri_length: usize,
    pub read_timeout: u64,
    pub write_timeout: u64,
    pub keep_alive_timeout: u64,
    pub max_connections: usize,
    pub max_requests_per_connection: usize,
    pub deny_hidden_files: bool,
    pub http2_enabled: bool,
    pub http2_max_concurrent_streams: usize,
    pub http2_max_frame_size: u32,
    pub http2_max_header_block_size: usize,
    pub http2_initial_window_size: u32,
    pub tls_enabled: bool,
    pub tls_certificate: Option<String>,
    pub tls_private_key: Option<String>,
    pub vhosts: Vec<VhostConfig>,
    pub proxy_routes: Vec<ProxyRoute>,
    pub fastcgi_routes: Vec<FastCgiRoute>,
    pub front_controller: Option<String>,
    pub log_format: String,
    pub access_log: String,
    pub error_log: String,
    pub rate_limit_per_second: u32,
    pub rate_limit_burst: u32,
    pub max_connections_per_ip: usize,
    pub security_x_content_type_options: Option<String>,
    pub security_referrer_policy: Option<String>,
    pub security_x_frame_options: Option<String>,
    pub security_content_security_policy: Option<String>,
    pub compression_enabled: bool,
    pub compression_level: u32,
    pub compression_min_size: u64,
    pub compression_mime_types: Vec<String>,
    pub upstream_health_interval: u64,
    pub upstream_health_timeout: u64,
    pub upstream_health_failures: u32,
    pub upstream_health_recovery: u32,
}

#[verifier::ext_equal]
pub struct ServerView {
    pub host: Seq<char>,
    pub port: u16,
    pub root_dir: Seq<char>,
    pub config_file: Seq<char>,
    pub workers: usize,
    pub dev_mode: bool,
    pub max_request_size: usize,
    pub max_header_size: usize,
    pub max_headers: usize,
    pub max_header_line: usize,
    pub max_uri_length: usize,
    pub read_timeout: u64,
    pub write_timeout: u64,
    pub keep_alive_timeout: u64,
    pub max_connections: usize,
    pub max_requests_per_connection: usize,
    pub deny_hidden_files: bool,
    pub http2_enabled: bool,
    pub http2_max_concurrent_streams: usize,
    pub http2_max_frame_size: u32,
    pub http2_max_header_block_size: usize,
    pub http2_initial_window_size: u32,
    pub tls_enabled: bool,
    pub tls_certificate: Option<Seq<char>>,
    pub tls_private_key: Option<Seq<char>>,
    pub vhosts: Seq<VhostView>,
    pub proxy_routes: Seq<ProxyView>,
    pub fastcgi_routes: Seq<FastCgiView>,
    pub front_controller: Option<Seq<char>>,
    pub log_format: Seq<char>,
    pub access_log: Seq<char>,
    pub error_log: Seq<char>,
    pub rate_limit_per_second: u32,
    pub rate_limit_burst: u32,
    pub max_connections_per_ip: usize,
    pub security_x_content_type_options: Option<Seq<char>>,
    pub security_referrer_policy: Option<Seq<char>>,
    pub security_x_frame_options: Option<Seq<char>>,
    pub security_content_security_policy: Option<Seq<char>>,
    pub compression_enabled: bool,
    pub compression_level: u32,
    pub compression_min_size: u64,
    pub compression_mime_types: Seq<Seq<char>>,
    pub upstream_health_interval: u64,
    pub upstream_health_timeout: u64,
    pub upstream_health_failures: u32,
    pub upstream_health_recovery: u32,
}

impl View for ServerConfig {
    type V = ServerView;

    open spec fn view(&self) -> ServerView {
        ServerView {
            host: self.host@,
            port: self.port,
            root_dir: self.root_dir@,
            config_file: self.config_file@,
            workers: self.workers,
            dev_mode: self.dev_mode,
            max_request_size: self.max_request_size,
            max_header_size: self.max_header_size,
            max_headers: self.max_headers,
            max_header_line: self.max_header_line,
            max_uri_length: self.max_uri_length,
            read_timeout: self.read_timeout,
            write_timeout: self.write_timeout,
            keep_alive_timeout: self.keep_alive_timeout,
            max_connections: self.max_connections,
            max_requests_per_connection: self.max_requests_per_connection,
            deny_hidden_files: self.deny_hidden_files,
            http2_enabled: self.http2_enabled,
            http2_max_concurrent_streams: self.http2_max_concurrent_streams,
            http2_max_frame_size: self.http2_max_frame_size,
            http2_max_header_block_size: self.http2_max_header_block_size,
            http2_initial_window_size: self.http2_initial_window_size,
            tls_enabled: self.tls_enabled,
            tls_certificate: opt_text(self.tls_certificate),
            tls_private_key: opt_text(self.tls_private_key),
            vhosts: views(self.vhosts@),
            proxy_routes: views(self.proxy_routes@),
            fastcgi_routes: views(self.fastcgi_routes@),
            front_controller: opt_text(self.front_controller),
            log_format: self.log_format@,
            access_log: self.access_log@,
            error_log: self.error_log@,
            rate_limit_per_second: self.rate_limit_per_second,
            rate_limit_burst: self.rate_limit_burst,
            max_connections_per_ip: self.max_connections_per_ip,
            security_x_content_type_options: opt_text(self.security_x_content_type_options),
            security_referrer_policy: opt_text(self.security_referrer_policy),
            security_x_frame_options: opt_text(self.security_x_frame_options),
            security_content_security_policy: opt_text(self.security_content_security_policy),
            compression_enabled: self.compression_enabled,
            compression_level: self.compression_level,
            compression_min_size: self.compression_min_size,
            compression_mime_types: strings(self.compression_mime_types@),
            upstream_health_interval: self.upstream_health_interval,
            upstream_health_timeout: self.upstream_health_timeout,
            upstream_health_failures: self.upstream_health_failures,
            upstream_health_recovery: self.upstream_health_recovery,
        }
    }
}

impl Clone for ServerConfig {
    fn clone(&self) -> (r: Self)
        ensures
            r@ == self@,
    {
        ServerConfig {
            host: self.host.clone(),
            port: self.port,
            root_dir: self.root_dir.clone(),
            config_file: self.config_file.clone(),
            workers: self.workers,
            dev_mode: self.dev_mode,
            max_request_size: self.max_request_size,
            max_header_size: self.max_header_size,
            max_headers: self.max_headers,
            max_header_line: self.max_header_line,
            max_uri_length: self.max_uri_length,
            read_timeout: self.read_timeout,
            write_timeout: self.write_timeout,
            keep_alive_timeout: self.keep_alive_timeout,
            max_connections: self.max_connections,
            max_requests_per_connection: self.max_requests_per_connection,
            deny_hidden_files: self.deny_hidden_files,
            http2_enabled: self.http2_enabled,
            http2_max_concurrent_streams: self.http2_max_concurrent_streams,
            http2_max_frame_size: self.http2_max_frame_size,
            http2_max_header_block_size: self.http2_max_header_block_size,
            http2_initial_window_size: self.http2_initial_window_size,
            tls_enabled: self.tls_enabled,
            tls_certificate: copy_opt(&self.tls_certificate),
            tls_private_key: copy_opt(&self.tls_private_key),
            vhosts: copy_vhosts(&self.vhosts),
            proxy_routes: copy_proxy_routes(&self.proxy_routes),
            fastcgi_routes: copy_fastcgi_routes(&self.fastcgi_routes),
            front_controller: copy_opt(&self.front_controller),
            log_format: self.log_format.clone(),
            access_log: self.access_log.clone(),
            error_log: self.error_log.clone(),
            rate_limit_per_second: self.rate_limit_per_second,
            rate_limit_burst: self.rate_limit_burst,
            max_connections_per_ip: self.max_connections_per_ip,
            security_x_content_type_options: copy_opt(&self.security_x_content_type_options),
            security_referrer_policy: copy_opt(&self.security_referrer_policy),
            security_x_frame_options: copy_opt(&self.security_x_frame_options),
            security_content_security_policy: copy_opt(&self.security_content_security_policy),
            compression_enabled: self.compression_enabled,
            compression_level: self.compression_level,
            compression_min_size: self.compression_min_size,
            compression_mime_types: copy_strings(&self.compression_mime_types),
            upstream_health_interval: self.upstream_health_interval,
            upstream_health_timeout: self.upstream_health_timeout,
            upstream_health_failures: self.upstream_health_failures,
            upstream_health_recovery: self.upstream_health_recovery,
        }
    }
}

/// The settings where no rule says otherwise.
pub open spec fn default_server() -> ServerView {
    ServerView {
        host: "127.0.0.1"@,
        port: 8080,
        root_dir: "./public"@,
        config_file: "./.veysrule"@,
        workers: 4,
        dev_mode: false,
        max_request_size: 65536,
        max_header_size: 16384,
        max_headers: 64,
        max_header_line: 8192,
        max_uri_length: 8192,
        read_timeout: 10,
        write_timeout: 10,
        keep_alive_timeout: 10,
        max_connections: 1024,
        max_requests_per_connection: 100,
        deny_hidden_files: true,
        http2_enabled: true,
        http2_max_concurrent_streams: 100,
        http2_max_frame_size: 16384,
        http2_max_header_block_size: 65536,
        http2_initial_window_size: 65535,
        tls_enabled: false,
        tls_certificate: None,
        tls_private_key: None,
        vhosts: Seq::empty(),
        proxy_routes: Seq::empty(),
        fastcgi_routes: Seq::empty(),
        front_controller: None,
        log_format: "text"@,
        access_log: "stdout"@,
        error_log: "stderr"@,
        rate_limit_per_second: 0,
        rate_limit_burst: 0,
        max_connections_per_ip: 0,
        security_x_content_type_options: Some("nosniff"@),
        security_referrer_policy: Some("strict-origin-when-cross-origin"@),
        security_x_frame_options: None,
        security_content_security_policy: None,
        compression_enabled: true,
        compression_level: 6,
        compression_min_size: 1024,
        compression_mime_types: seq![
            "text/"@,
            "application/javascript"@,
            "application/json"@,
            "application/xml"@,
            "image/svg+xml"@,
        ],
        upstream_health_interval: 0,
        upstream_health_timeout: 2,
        upstream_health_failures: 3,
        upstream_health_recovery: 2,
    }
}

impl Default for ServerConfig {
    fn default() -> (r: Self)
        ensures
            r@ == default_server(),
    {
        let mut mime: Vec<String> = Vec::new();
        mime.push("text/".to_owned());
        mime.push("application/javascript".to_owned());
        mime.push("application/json".to_owned());
        mime.push("application/xml".to_owned());
        mime.push("image/svg+xml".to_owned());
        assert(strings(mime@) =~= default_server().compression_mime_types);
        let r = ServerConfig {
            host: "127.0.0.1".to_owned(),
            port: 8080,
            root_dir: "./public".to_owned(),
            config_file: "./.veysrule".to_owned(),
            workers: 4,
            dev_mode: false,
            max_request_size: 65536,
            max_header_size: 16384,
            max_headers: 64,
            max_header_line: 8192,
            max_uri_length: 8192,
            read_timeout: 10,
            write_timeout: 10,
            keep_alive_timeout: 10,
            max_connections: 1024,
            max_requests_per_connection: 100,
            deny_hidden_files: true,
            http2_enabled: true,
            http2_max_concurrent_streams: 100,
            http2_max_frame_size: 16384,
            http2_max_header_block_size: 65536,
            http2_initial_window_size: 65535,
            tls_enabled: false,
            tls_certificate: None,
            tls_private_key: None,
            vhosts: Vec::new(),
            proxy_routes: Vec::new(),
            fastcgi_routes: Vec::new(),
            front_controller: None,
            log_format: "text".to_owned(),
            access_log: "stdout".to_owned(),
            error_log: "stderr".to_owned(),
            rate_limit_per_second: 0,
            rate_limit_burst: 0,
            max_connections_per_ip: 0,
            security_x_content_type_options: Some("nosniff".to_owned()),
            security_referrer_policy: Some("strict-origin-when-cross-origin".to_owned()),
            security_x_frame_options: None,
            security_content_security_policy: None,
            compression_enabled: true,
            compression_level: 6,
            compression_min_size: 1024,
            compression_mime_types: mime,
            upstream_health_interval: 0,
            upstream_health_timeout: 2,
            upstream_health_failures: 3,
            upstream_health_recovery: 2,
        };
        assert(views(r.vhosts@) =~= Seq::<VhostView>::empty());
        assert(views(r.proxy_routes@) =~= Seq::<ProxyView>::empty());
        assert(views(r.fastcgi_routes@) =~= Seq::<FastCgiView>::empty());
        r
    }
}

/// The rules of one directory.
#[derive(Debug, PartialEq)]
pub struct DirectoryConfig {
    pub deny_ips: Vec<IpAddr>,
    pub allow_networks: Vec<Cidr>,
    pub deny_networks: Vec<Cidr>,
    pub headers: Vec<(String, String)>,
    pub add_headers: Vec<(String, String)>,
    pub remove_headers: Vec<String>,
    pub redirect_404: Option<String>,
    pub redirect: Option<RedirectRule>,
    pub rewrites: Vec<RewriteRule>,
    pub methods: Option<Vec<String>>,
    pub index_files: Option<Vec<String>>,
    pub autoindex: Option<bool>,
    pub cache: Option<bool>,
    pub expires: Option<u64>,
    pub mime_types: Vec<(String, String)>,
    pub error_pages: Vec<(u16, String)>,
    pub deny_hidden_files: Option<bool>,
}

#[verifier::ext_equal]
pub struct DirView {
    pub deny_ips: Seq<IpAddr>,
    pub allow_networks: Seq<Cidr>,
    pub deny_networks: Seq<Cidr>,
    pub headers: Seq<(Seq<char>, Seq<char>)>,
    pub add_headers: Seq<(Seq<char>, Seq<char>)>,
    pub remove_headers: Seq<Seq<char>>,
    pub redirect_404: Option<Seq<char>>,
    pub redirect: Option<RedirectView>,
    pub rewrites: Seq<RewriteView>,
    pub methods: Option<Seq<Seq<char>>>,
    pub index_files: Option<Seq<Seq<char>>>,
    pub autoindex: Option<bool>,
    pub cache: Option<bool>,
    pub expires: Option<u64>,
    pub mime_types: Seq<(Seq<char>, Seq<char>)>,
    pub error_pages: Seq<(u16, Seq<char>)>,
    pub deny_hidden_files: Option<bool>,
}

pub open spec fn opt_redirect(o: Option<RedirectRule>) -> Option<RedirectView> {
    match o {
        Some(r) => Some(r@),
        None => None,
    }
}

impl View for DirectoryConfig {
    type V = DirView;

    open spec fn view(&self) -> DirView {
        DirView {
            deny_ips: self.deny_ips@,
            allow_networks: self.allow_networks@,
            deny_networks: self.deny_networks@,
            headers: pairs(self.headers@),
            add_headers: pairs(self.add_headers@),
            remove_headers: strings(self.remove_headers@),
            redirect_404: opt_text(self.redirect_404),
            redirect: opt_redirect(self.redirect),
            rewrites: views(self.rewrites@),
            methods: opt_list(self.methods),
            index_files: opt_list(self.index_files),
            autoindex: self.autoindex,
            cache: self.cache,
            expires: self.expires,
            mime_types: pairs(self.mime_types@),
            error_pages: pages(self.error_pages@),
            deny_hidden_files: self.deny_hidden_files,
        }
    }
}

/// The rules of a directory that says nothing.
pub open spec fn no_rules() -> DirView {
    DirView {
        deny_ips: Seq::empty(),
        allow_networks: Seq::empty(),
        deny_networks: Seq::empty(),
        headers: Seq::empty(),
        add_headers: Seq::empty(),
        remove_headers: Seq::empty(),
        redirect_404: None,
        redirect: None,
        rewrites: Seq::empty(),
        methods: None,
        index_files: None,
        autoindex: None,
        cache: None,
        expires: None,
        mime_types: Seq::empty(),
        error_pages: Seq::empty(),
        deny_hidden_files: None,
    }
}

impl Default for DirectoryConfig {
    fn default() -> (r: Self)
        ensures
            r@ == no_rules(),
    {
        let r = DirectoryConfig {
            deny_ips: Vec::new(),
            allow_networks: Vec::new(),
            deny_networks: Vec::new(),
            headers: Vec::new(),
            add_headers: Vec::new(),
            remove_headers: Vec::new(),
            redirect_404: None,
            redirect: None,
            rewrites: Vec::new(),
            methods: None,
            index_files: None,
            autoindex: None,
            cache: None,
            expires: None,
            mime_types: Vec::new(),
            error_pages: Vec::new(),
            deny_hidden_files: None,
        };
        assert(r@ =~= no_rules());
        r
    }
}

fn copy_list(o: &Option<Vec<String>>) -> (r: Option<Vec<String>>)
    ensures
        opt_list(r) == opt_list(*o),
{
    match o {
        Some(v) => Some(copy_strings(v)),
        None => None,
    }
}

impl Clone for DirectoryConfig {
    fn clone(&self) -> (r: Self)
        ensures
            r@ == self@,
    {
        DirectoryConfig {
            deny_ips: copy_ips(&self.deny_ips),
            allow_networks: copy_networks(&self.allow_networks),
            deny_networks: copy_networks(&self.deny_networks),
            headers: copy_pairs(&self.headers),
            add_headers: copy_pairs(&self.add_headers),
            remove_headers: copy_strings(&self.remove_headers),
            redirect_404: copy_opt(&self.redirect_404),
            redirect: match &self.redirect {
                Some(r) => Some(r.clone()),
                None => None,
            },
            rewrites: copy_rewrites(&self.rewrites),
            methods: copy_list(&self.methods),
            index_files: copy_list(&self.index_files),
            autoindex: self.autoindex,
            cache: self.cache,
            expires: self.expires,
            mime_types: copy_pairs(&self.mime_types),
            error_pages: copy_pages(&self.error_pages),
            deny_hidden_files: self.deny_hidden_files,
        }
    }
}

/// A complaint about one line of a rule file.
#[derive(Debug, PartialEq)]
pub struct ConfigParseError {
    pub file_name: String,
    pub line_number: usize,
    pub message: String,
}

#[verifier::ext_equal]
pub struct ErrorView {
    pub file_name: Seq<char>,
    pub line_number: usize,
    pub message: Seq<char>,
}

impl View for ConfigParseError {
    type V = ErrorView;

    open spec fn view(&self) -> ErrorView {
        ErrorView {
            file_name: self.file_name@,
            line_number: self.line_number,
            message: self.message@,
        }
    }
}

impl Clone for ConfigParseError {
    fn clone(&self) -> (r: Self)
        ensures
            r@ == self@,
    {
        ConfigParseError {
            file_name: self.file_name.clone(),
            line_number: self.line_number,
            message: self.message.clone(),
        }
    }
}

impl ConfigParseError {
    /// File, line and message between colons.
    pub fn to_text(&self) -> (r: String)
        ensures
            r@ == self.file_name@ + ":"@ + decimal(self.line_number as nat) + ": "@ + self.message@,
    {
        let mut out: Vec<char> = Vec::new();
        push_str(&mut out, self.file_name.as_str());
        push_str(&mut out, ":");
        let n = decimal_of(self.line_number as u64);
        crate::text::push_text(&mut out, &n);
        push_str(&mut out, ": ");
        push_str(&mut out, self.message.as_str());
        assert(Seq::<char>::empty() + self.file_name@ =~= self.file_name@);
        string_of(&out)
    }
}

} // verus!
