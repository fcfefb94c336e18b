//! The static handler: from a request, the rules and what the file system holds to
//! the answer.

use crate::config::ip::IpAddr;
use crate::config::merge::{drop_named, remove_named};
use crate::config::types::{pages, pairs, DirView, DirectoryConfig, ServerConfig, ServerView};
use crate::config::veysrule::{networks_wf, without_breaks};
use crate::router::date::{format_http_date, http_date, parse_http_date, parsed_date};
use crate::router::negotiate::{
    apply_rules, apply_security_headers, compressible, ensure_vary_accept_encoding,
    response_mime_is_compressible, ruled, secured, vary_etag_for_encoding, with_encoded_tag,
    with_vary,
};
use crate::router::path::{
    clean_path, clean_path_of, decoded, extension, extension_of, get_mime_type,
    has_hidden_component, hidden, is_protected_rule_path, mime_type, normal_path,
    normalize_relative_path, percent_decode_recursive, protected,
};
use crate::router::range::{etag, generate_etag, parse_range_header, requested_range};
use crate::router::render::{
    json_escape, json_text, listed, listing, render_directory_listing,
};
use crate::router::vhost::{effective_config, settings_for};
use crate::server::http::{header_value, method_text, HttpRequest, RequestView, StatusCode};
use crate::server::quality::{accepts_gzip, gzip_for_files};
use crate::server::response::{
    add_body, add_header, bare_response, plain_answer, push_header, source_len, with_nothing,
    with_plain_text, BodySource, HttpResponse, ResponseView, SourceView,
};
use crate::text::{
    before, chars_of, contains_str, contains_text, decimal, decimal_of, ends_with, find_of,
    is_name, is_text, part, push_str, push_text, same_name, string_of, strings, trim, trim_of,
};
use vstd::prelude::*;

verus! {

/// The largest custom error page, in bytes.
pub const MAX_ERROR_PAGE_BYTES: usize = 1048576;

/// The answer of the metrics page.
pub open spec fn metrics_answer(text: Seq<char>) -> ResponseView {
    let kind = "text/plain; version=0.0.4"@;
    let body = vstd::utf8::encode_utf8(text);
    add_body(
        add_header(bare_response(StatusCode::Okay), "Content-Type"@, kind),
        body.len(),
        kind,
        SourceView::Bytes(body),
    )
}

/// What is decided before any rule is read: an answer, or the path as the client
/// wrote it and the path below the root.
pub open spec fn admission(req: RequestView, metrics: Seq<char>) -> Result<
    (Seq<char>, Seq<char>),
    ResponseView,
> {
    if before(req.uri, '?') == "/metrics"@ {
        Err(metrics_answer(metrics))
    } else if req.method is Post {
        Err(
            plain_answer(
                StatusCode::NotImplemented,
                "501 Not Implemented: POST method not supported"@,
            ),
        )
    } else if req.method is Other {
        Err(
            with_plain_text(
                add_header(
                    bare_response(StatusCode::MethodNotAllowed),
                    "Allow"@,
                    "GET, HEAD"@,
                ),
                "405 Method Not Allowed"@,
            ),
        )
    } else {
        match decoded(req.uri, 4) {
            None => Err(
                plain_answer(StatusCode::BadRequest, "400 Bad Request: Invalid URI encoding"@),
            ),
            Some(d) => match normal_path(clean_path(d)) {
                None => Err(
                    plain_answer(
                        StatusCode::Forbidden,
                        "403 Forbidden: Path traversal attempt denied"@,
                    ),
                ),
                Some(p) => if protected(p) {
                    Err(plain_answer(StatusCode::NotFound, "404 Not Found"@))
                } else {
                    Ok((clean_path(d), p))
                },
            },
        }
    }
}

/// The names with a comma between each two.
pub open spec fn comma_list(l: Seq<Seq<char>>) -> Seq<char>
    decreases l.len(),
{
    if l.len() == 0 {
        Seq::empty()
    } else if l.len() == 1 {
        l[0]
    } else {
        comma_list(l.drop_last()) + ", "@ + l.last()
    }
}

pub open spec fn method_listed(l: Seq<Seq<char>>, m: Seq<char>) -> bool {
    exists|i: int| 0 <= i < l.len() && same_name(#[trigger] l[i], m)
}

pub open spec fn some_network(l: Seq<crate::config::ip::Cidr>, ip: IpAddr) -> bool {
    exists|i: int| 0 <= i < l.len() && (#[trigger] l[i]).covers(ip)
}

/// An address that the rules turn away.
pub open spec fn denied(d: DirView, ip: IpAddr) -> bool {
    d.deny_ips.contains(ip) || some_network(d.deny_networks, ip) || (d.allow_networks.len() > 0
        && !some_network(d.allow_networks, ip))
}

/// Whether hidden files are denied in a directory.
pub open spec fn hides(d: DirView, server: bool) -> bool {
    match d.deny_hidden_files {
        Some(b) => b,
        None => server,
    }
}

/// What the rules of the directory decide before a file is opened.
pub open spec fn rule_answer(
    req: RequestView,
    peer: Option<IpAddr>,
    deny_hidden: bool,
    d: DirView,
    clean: Seq<char>,
    path: Seq<char>,
) -> Option<ResponseView> {
    if d.methods matches Some(l) && !method_listed(l, method_text(req.method)) {
        Some(
            with_plain_text(
                add_header(
                    bare_response(StatusCode::MethodNotAllowed),
                    "Allow"@,
                    without_breaks(comma_list(d.methods.unwrap())),
                ),
                "405 Method Not Allowed"@,
            ),
        )
    } else if hides(d, deny_hidden) && hidden(path) {
        Some(
            ruled(
                plain_answer(
                    StatusCode::Forbidden,
                    "403 Forbidden: Access to hidden files is restricted"@,
                ),
                d,
            ),
        )
    } else if peer matches Some(ip) && denied(d, ip) {
        Some(
            ruled(
                plain_answer(StatusCode::Forbidden, "403 Forbidden: Access denied by IP rule"@),
                d,
            ),
        )
    } else if d.redirect matches Some(r) && r.source == clean {
        let r = d.redirect.unwrap();
        let status = if r.status == 301 {
            StatusCode::MovedPermanently
        } else {
            StatusCode::Found
        };
        Some(
            ruled(
                with_nothing(
                    add_header(bare_response(status), "Location"@, without_breaks(r.target)),
                ),
                d,
            ),
        )
    } else {
        None
    }
}

/// A file that was opened for a request.
#[derive(Debug, PartialEq, Eq)]
pub struct OpenedFile {
    pub path: String,
    pub size: u64,
    /// Seconds since 1970.
    pub modified: u64,
}

/// A directory that a request names.
#[derive(Debug, PartialEq, Eq)]
pub struct OpenedDirectory {
    /// One of the index files is there.
    pub has_index: bool,
    /// The names in it and whether each is a directory.
    pub entries: Vec<(String, bool)>,
}

/// What the file system holds for a request.
#[derive(Debug, PartialEq, Eq)]
pub struct Facts {
    /// The document root is there.
    pub root_found: bool,
    pub directory: Option<OpenedDirectory>,
    pub file: Option<OpenedFile>,
    /// The beginning of the custom page for missing files, and its path.
    pub error_page: Option<(Vec<u8>, String)>,
    /// Seconds since 1970.
    pub now: u64,
}

#[verifier::ext_equal]
pub struct FileView {
    pub path: Seq<char>,
    pub size: u64,
    pub modified: u64,
}

#[verifier::ext_equal]
pub struct DirectoryView {
    pub has_index: bool,
    pub entries: Seq<(Seq<char>, bool)>,
}

#[verifier::ext_equal]
pub struct FactsView {
    pub root_found: bool,
    pub directory: Option<DirectoryView>,
    pub file: Option<FileView>,
    pub error_page: Option<(Seq<u8>, Seq<char>)>,
    pub now: u64,
}

impl View for OpenedFile {
    type V = FileView;

    open spec fn view(&self) -> FileView {
        FileView { path: self.path@, size: self.size, modified: self.modified }
    }
}

impl View for OpenedDirectory {
    type V = DirectoryView;

    open spec fn view(&self) -> DirectoryView {
        DirectoryView { has_index: self.has_index, entries: listed(self.entries@) }
    }
}

impl View for Facts {
    type V = FactsView;

    open spec fn view(&self) -> FactsView {
        FactsView {
            root_found: self.root_found,
            directory: match self.directory {
                Some(d) => Some(d@),
                None => None,
            },
            file: match self.file {
                Some(f) => Some(f@),
                None => None,
            },
            error_page: match self.error_page {
                Some(p) => Some((p.0@, p.1@)),
                None => None,
            },
            now: self.now,
        }
    }
}

/// The page that the rules give for a status, from `i` on.
pub open spec fn page_from(p: Seq<(u16, Seq<char>)>, status: u16, i: int) -> Option<Seq<char>>
    decreases p.len() - i,
{
    if i < 0 || i >= p.len() {
        None
    } else if p[i].0 == status {
        Some(p[i].1)
    } else {
        page_from(p, status, i + 1)
    }
}

/// The path of the custom page for missing files; it stays below the root and is no
/// rule file.
pub open spec fn missing_page(d: DirView) -> Option<Seq<char>> {
    let configured = match page_from(d.error_pages, 404, 0) {
        Some(p) => Some(p),
        None => d.redirect_404,
    };
    match configured {
        Some(p) => match normal_path(p) {
            Some(n) => if protected(n) {
                None
            } else {
                Some(n)
            },
            None => None,
        },
        None => None,
    }
}

/// The answer where there is no file.
pub open spec fn missing(d: DirView, page: Option<(Seq<u8>, Seq<char>)>) -> ResponseView {
    match page {
        Some((content, path)) => if missing_page(d) is Some && content.len()
            <= MAX_ERROR_PAGE_BYTES {
            add_body(
                bare_response(StatusCode::NotFound),
                content.len(),
                mime_type(path),
                SourceView::Bytes(content),
            )
        } else {
            plain_answer(StatusCode::NotFound, "404 Not Found"@)
        },
        None => plain_answer(StatusCode::NotFound, "404 Not Found"@),
    }
}

/// The media type that the rules give an extension, from `i` on.
pub open spec fn ruled_type(m: Seq<(Seq<char>, Seq<char>)>, ext: Seq<char>, i: int) -> Option<
    Seq<char>,
>
    decreases m.len() - i,
{
    if i < 0 || i >= m.len() {
        None
    } else if m[i].0 == ext {
        Some(m[i].1)
    } else {
        ruled_type(m, ext, i + 1)
    }
}

/// The media type of a file under the rules.
pub open spec fn type_of_file(d: DirView, path: Seq<char>) -> Seq<char> {
    match extension(path) {
        Some(e) => match ruled_type(d.mime_types, "."@ + e, 0) {
            Some(t) => t,
            None => mime_type(path),
        },
        None => mime_type(path),
    }
}

/// The client has the current form of the file.
pub open spec fn unchanged(req: RequestView, tag: Seq<char>, modified: u64) -> bool {
    match header_value(req.headers, "If-None-Match"@) {
        Some(v) => trim(v) == "*"@ || trim(v) == tag || contains_text(trim(v), tag),
        None => match header_value(req.headers, "If-Modified-Since"@) {
            Some(v) => parsed_date(trim(v)) matches Some(t) && modified <= t,
            None => false,
        },
    }
}

/// The response with the headers that every form of a file has.
pub open spec fn described(status: StatusCode, tag: Seq<char>, date: Seq<char>) -> ResponseView {
    add_header(add_header(bare_response(status), "ETag"@, tag), "Last-Modified"@, date)
}

pub open spec fn whole_file(tag: Seq<char>, date: Seq<char>, f: FileView, kind: Seq<char>) ->
    ResponseView {
    add_body(
        add_header(described(StatusCode::Okay, tag, date), "Accept-Ranges"@, "bytes"@),
        f.size as nat,
        kind,
        SourceView::File(f.size),
    )
}

/// The answer for a file, before rules and compression.
pub open spec fn file_answer(req: RequestView, f: FileView, kind: Seq<char>) -> ResponseView {
    let tag = etag(f.modified, f.size);
    let date = http_date(f.modified as int);
    if unchanged(req, tag, f.modified) {
        described(StatusCode::NotModified, tag, date)
    } else if req.method is Get && header_value(req.headers, "Range"@) is Some {
        match requested_range(trim(header_value(req.headers, "Range"@).unwrap()), f.size) {
            Ok(Some(r)) => add_body(
                add_header(
                    add_header(
                        described(StatusCode::PartialContent, tag, date),
                        "Content-Range"@,
                        "bytes "@ + decimal(r.start as nat) + "-"@ + decimal(r.end as nat) + "/"@
                            + decimal(f.size as nat),
                    ),
                    "Accept-Ranges"@,
                    "bytes"@,
                ),
                (r.end - r.start + 1) as nat,
                kind,
                SourceView::FileRange(r.start, (r.end - r.start + 1) as u64),
            ),
            Err(_) => with_plain_text(
                add_header(
                    bare_response(StatusCode::RangeNotSatisfiable),
                    "Content-Range"@,
                    "bytes */"@ + decimal(f.size as nat),
                ),
                "416 Range Not Satisfiable"@,
            ),
            Ok(None) => whole_file(tag, date, f, kind),
        }
    } else if req.method is Head {
        add_header(
            add_header(
                add_header(
                    add_header(
                        add_header(
                            bare_response(StatusCode::Okay),
                            "Content-Length"@,
                            decimal(f.size as nat),
                        ),
                        "Content-Type"@,
                        without_breaks(kind),
                    ),
                    "ETag"@,
                    tag,
                ),
                "Last-Modified"@,
                date,
            ),
            "Accept-Ranges"@,
            "bytes"@,
        )
    } else {
        whole_file(tag, date, f, kind)
    }
}

/// The response with what the rules say of caching.
pub open spec fn with_caching(r: ResponseView, d: DirView, now: u64) -> ResponseView {
    let a = match d.cache {
        Some(true) => add_header(r, "Cache-Control"@, "public"@),
        Some(false) => add_header(r, "Cache-Control"@, "no-store"@),
        None => r,
    };
    match d.expires {
        Some(s) => add_header(a, "Expires"@, http_date(now + s)),
        None => a,
    }
}

/// A response that may be compressed.
pub open spec fn negotiable(req: RequestView, r: ResponseView, c: ServerView) -> bool {
    req.method is Get && r.status == StatusCode::Okay && source_len(r.body_source)
        >= c.compression_min_size && compressible(r.headers, c.compression_mime_types)
}

/// The response as it is negotiated with the client.
pub open spec fn negotiated(req: RequestView, r: ResponseView, c: ServerView) -> ResponseView {
    let accept = header_value(req.headers, "Accept-Encoding"@);
    if !negotiable(req, r, c) {
        r
    } else {
        let v = if accept is Some {
            ResponseView { headers: with_vary(r.headers), ..r }
        } else {
            r
        };
        if c.compression_enabled && gzip_for_files(accept) && v.body_source is File {
            ResponseView {
                headers: with_encoded_tag(
                    drop_named(v.headers, "Content-Length"@),
                    "gzip"@,
                ).push(("Content-Encoding"@, "gzip"@)),
                body_source: SourceView::GzipFile(v.body_source->File_0, c.compression_level),
                ..v
            }
        } else {
            v
        }
    }
}

/// A response to `HEAD` has no body, whatever its status.
pub open spec fn head_only(req: RequestView, r: ResponseView) -> ResponseView {
    if req.method is Head {
        ResponseView { body_source: SourceView::Bytes(Seq::empty()), ..r }
    } else {
        r
    }
}

/// What is answered once the rules let the request pass.
pub open spec fn served(
    req: RequestView,
    c: ServerView,
    d: DirView,
    clean: Seq<char>,
    f: FactsView,
) -> ResponseView {
    if !f.root_found {
        plain_answer(StatusCode::InternalServerError, "500 Internal Server Error"@)
    } else if f.directory is Some && !ends_with(clean, "/"@) && clean.len() > 0 {
        ruled(
            with_nothing(
                add_header(
                    bare_response(StatusCode::MovedPermanently),
                    "Location"@,
                    without_breaks(clean + "/"@),
                ),
            ),
            d,
        )
    } else if f.directory matches Some(dir) && !dir.has_index && d.autoindex == Some(true) {
        let page = listing(f.directory.unwrap().entries, hides(d, c.deny_hidden_files));
        ruled(
            add_body(
                bare_response(StatusCode::Okay),
                page.len(),
                "text/html; charset=utf-8"@,
                SourceView::Bytes(page),
            ),
            d,
        )
    } else {
        match f.file {
            None => ruled(missing(d, f.error_page), d),
            Some(file) => {
                let r = file_answer(req, file, type_of_file(d, file.path));
                negotiated(req, with_caching(ruled(r, d), d, f.now), c)
            },
        }
    }
}

/// The answer to a request that was admitted.
pub open spec fn answered(
    req: RequestView,
    peer: Option<IpAddr>,
    c: ServerView,
    d: DirView,
    f: FactsView,
    metrics: Seq<char>,
) -> ResponseView {
    match admission(req, metrics) {
        Err(r) => r,
        Ok((clean, path)) => match rule_answer(req, peer, c.deny_hidden_files, d, clean, path) {
            Some(r) => r,
            None => served(req, c, d, clean, f),
        },
    }
}

/// The answer where the client asks too often.
pub open spec fn too_many() -> ResponseView {
    with_plain_text(
        add_header(bare_response(StatusCode::TooManyRequests), "Retry-After"@, "1"@),
        "429 Too Many Requests"@,
    )
}

/// The answer to a request: refused where the client asks too often, else by the
/// settings of its virtual host. The security settings are added in any case, and
/// `HEAD` gets the headers alone.
pub open spec fn handled(
    req: RequestView,
    peer: Option<IpAddr>,
    allowed: bool,
    c: ServerView,
    d: DirView,
    f: FactsView,
    metrics: Seq<char>,
) -> ResponseView {
    let r = if !allowed && peer is Some {
        too_many()
    } else {
        answered(req, peer, settings_for(c, req), d, f, metrics)
    };
    head_only(req, ResponseView { headers: secured(r.headers, c), ..r })
}

/// `HEAD` never gets a body, and its status and headers are those that it has
/// without that rule.
pub proof fn law_head_answers_have_no_body(
    req: RequestView,
    peer: Option<IpAddr>,
    allowed: bool,
    c: ServerView,
    d: DirView,
    f: FactsView,
    metrics: Seq<char>,
)
    requires
        req.method is Head,
    ensures
        ({
            let r = handled(req, peer, allowed, c, d, f, metrics);
            let a = answered(req, peer, settings_for(c, req), d, f, metrics);
            &&& r.body_source == SourceView::Bytes(Seq::empty())
            &&& allowed ==> r.status == a.status && r.headers == secured(a.headers, c)
            &&& !allowed && peer is Some ==> r.status == StatusCode::TooManyRequests
        }),
{
}

/// Rule files are never served: a request whose path names one is answered as if
/// there were no such file, whatever the rules and the file system hold.
pub proof fn law_rule_files_are_never_served(
    req: RequestView,
    peer: Option<IpAddr>,
    c: ServerView,
    d: DirView,
    f: FactsView,
    metrics: Seq<char>,
)
    requires
        req.method is Get || req.method is Head,
        before(req.uri, '?') != "/metrics"@,
        crate::router::path::request_path(req.uri) matches Some(p) && protected(p),
    ensures
        answered(req, peer, c, d, f, metrics) == plain_answer(
            StatusCode::NotFound,
            "404 Not Found"@,
        ),
{
}

/// A path that leaves the document root is refused before any rule or file is
/// looked at.
pub proof fn law_traversal_is_refused(
    req: RequestView,
    peer: Option<IpAddr>,
    c: ServerView,
    d: DirView,
    f: FactsView,
    metrics: Seq<char>,
)
    requires
        req.method is Get || req.method is Head,
        before(req.uri, '?') != "/metrics"@,
        decoded(req.uri, 4) matches Some(t) && normal_path(clean_path(t)) is None,
    ensures
        answered(req, peer, c, d, f, metrics).status == StatusCode::Forbidden,
{
}

/// Only `GET` and `HEAD` reach a file.
pub proof fn law_other_methods_are_refused(
    req: RequestView,
    peer: Option<IpAddr>,
    c: ServerView,
    d: DirView,
    f: FactsView,
    metrics: Seq<char>,
)
    requires
        before(req.uri, '?') != "/metrics"@,
    ensures
        req.method is Post ==> answered(req, peer, c, d, f, metrics).status
            == StatusCode::NotImplemented,
        req.method is Other ==> answered(req, peer, c, d, f, metrics).status
            == StatusCode::MethodNotAllowed,
{
}

proof fn lemma_ruled_keeps(r: ResponseView, d: DirView)
    ensures
        ruled(r, d).status == r.status,
        ruled(r, d).body_source == r.body_source,
{
    lemma_headers_keep(r, d.headers);
    lemma_headers_keep(
        crate::router::negotiate::with_headers(r, d.headers),
        d.add_headers,
    );
}

proof fn lemma_headers_keep(r: ResponseView, l: Seq<(Seq<char>, Seq<char>)>)
    ensures
        crate::router::negotiate::with_headers(r, l).status == r.status,
        crate::router::negotiate::with_headers(r, l).body_source == r.body_source,
    decreases l.len(),
{
    if l.len() > 0 {
        lemma_headers_keep(r, l.drop_last());
    }
}

/// A part of a file is never compressed, and no more of a file is sent than it
/// holds.
pub proof fn law_ranges_are_sent_as_they_are(
    req: RequestView,
    c: ServerView,
    d: DirView,
    clean: Seq<char>,
    f: FactsView,
)
    requires
        f.root_found,
        f.directory is None,
        f.file is Some,
    ensures
        ({
            let size = f.file.unwrap().size;
            match served(req, c, d, clean, f).body_source {
                SourceView::FileRange(start, length) => start + length <= size && served(
                    req,
                    c,
                    d,
                    clean,
                    f,
                ).status == StatusCode::PartialContent,
                SourceView::File(n) => n == size,
                SourceView::GzipFile(n, level) => n == size && level == c.compression_level
                    && c.compression_enabled,
                SourceView::Bytes(_) => true,
            }
        }),
{
    let file = f.file.unwrap();
    let r = file_answer(req, file, type_of_file(d, file.path));
    lemma_ruled_keeps(r, d);
}

/// A client that has the current form of a file is told so.
pub proof fn law_current_tags_are_not_sent_again(
    req: RequestView,
    c: ServerView,
    d: DirView,
    clean: Seq<char>,
    f: FactsView,
)
    requires
        f.root_found,
        f.directory is None,
        f.file matches Some(file) && header_value(req.headers, "If-None-Match"@) == Some(
            etag(file.modified, file.size),
        ),
    ensures
        served(req, c, d, clean, f).status == StatusCode::NotModified,
{
    let file = f.file.unwrap();
    let tag = etag(file.modified, file.size);
    reveal_strlit("\"");
    assert(tag[0] == '"' && tag.last() == '"');
    assert(trim(tag) == tag);
    let r = file_answer(req, file, type_of_file(d, file.path));
    lemma_ruled_keeps(r, d);
}

/// What is decided before any rule is read.
#[derive(Debug)]
pub enum Admission {
    Answer(HttpResponse),
    /// The path as the client wrote it and the path below the root.
    Serve(String, String),
}

/// Decides what can be decided before any rule is read.
pub fn screen(req: &HttpRequest, metrics: &str) -> (r: Admission)
    ensures
        match r {
            Admission::Answer(a) => admission(req@, metrics@) == Err::<
                (Seq<char>, Seq<char>),
                ResponseView,
            >(a@),
            Admission::Serve(clean, path) => admission(req@, metrics@) == Ok::<
                (Seq<char>, Seq<char>),
                ResponseView,
            >((clean@, path@)),
        },
{
    let uri = chars_of(req.uri.as_str());
    if is_text(&part(&uri, 0, find_of(&uri, '?')), "/metrics") {
        let kind = "text/plain; version=0.0.4";
        return Admission::Answer(
            HttpResponse::new(StatusCode::Okay).with_raw_header("Content-Type", kind).with_body(
                crate::bytes::bytes_of(metrics),
                kind,
            ),
        );
    }
    if req.method.is_post() {
        return Admission::Answer(
            HttpResponse::plain(
                StatusCode::NotImplemented,
                "501 Not Implemented: POST method not supported",
            ),
        );
    }
    if !req.method.is_get() && !req.method.is_head() {
        return Admission::Answer(
            HttpResponse::new(StatusCode::MethodNotAllowed).with_raw_header(
                "Allow",
                "GET, HEAD",
            ).with_text("405 Method Not Allowed"),
        );
    }
    let text = match percent_decode_recursive(req.uri.as_str()) {
        Some(t) => t,
        None => {
            return Admission::Answer(
                HttpResponse::plain(
                    StatusCode::BadRequest,
                    "400 Bad Request: Invalid URI encoding",
                ),
            );
        },
    };
    let clean = string_of(&clean_path_of(&chars_of(text.as_str())));
    let path = match normalize_relative_path(clean.as_str()) {
        Ok(p) => p,
        Err(_) => {
            return Admission::Answer(
                HttpResponse::plain(
                    StatusCode::Forbidden,
                    "403 Forbidden: Path traversal attempt denied",
                ),
            );
        },
    };
    if is_protected_rule_path(path.as_str()) {
        return Admission::Answer(HttpResponse::plain(StatusCode::NotFound, "404 Not Found"));
    }
    Admission::Serve(clean, path)
}

fn comma_list_of(l: &Vec<String>) -> (r: Vec<char>)
    ensures
        r@ == comma_list(strings(l@)),
{
    let ghost t = strings(l@);
    let mut r: Vec<char> = Vec::new();
    let mut i: usize = 0;
    assert(t.subrange(0, 0) =~= Seq::<Seq<char>>::empty());
    while i < l.len()
        invariant
            t == strings(l@),
            i <= l@.len(),
            r@ == comma_list(t.subrange(0, i as int)),
        decreases l@.len() - i,
    {
        let ghost u = t.subrange(0, i + 1);
        assert(u.drop_last() =~= t.subrange(0, i as int));
        assert(u.last() == l@[i as int]@);
        if i > 0 {
            push_str(&mut r, ", ");
        }
        push_str(&mut r, l[i].as_str());
        assert(i == 0 ==> r@ =~= u[0]);
        i = i + 1;
    }
    assert(t.subrange(0, t.len() as int) =~= t);
    r
}

fn is_method_listed(l: &Vec<String>, m: &str) -> (b: bool)
    ensures
        b == method_listed(strings(l@), m@),
{
    let ghost t = strings(l@);
    let mut i: usize = 0;
    while i < l.len()
        invariant
            t == strings(l@),
            i <= l@.len(),
            forall|j: int| 0 <= j < i ==> !same_name(#[trigger] t[j], m@),
        decreases l@.len() - i,
    {
        assert(t[i as int] == l@[i as int]@);
        if is_name(&chars_of(l[i].as_str()), m) {
            assert(same_name(t[i as int], m@));
            return true;
        }
        i = i + 1;
    }
    false
}

fn in_some_network(l: &Vec<crate::config::ip::Cidr>, ip: IpAddr) -> (b: bool)
    requires
        forall|i: int| 0 <= i < l@.len() ==> (#[trigger] l@[i]).wf(),
    ensures
        b == some_network(l@, ip),
{
    let mut i: usize = 0;
    while i < l.len()
        invariant
            forall|i: int| 0 <= i < l@.len() ==> (#[trigger] l@[i]).wf(),
            i <= l@.len(),
            forall|j: int| 0 <= j < i ==> !(#[trigger] l@[j]).covers(ip),
        decreases l@.len() - i,
    {
        if l[i].contains(ip) {
            return true;
        }
        i = i + 1;
    }
    false
}

fn is_denied(rules: &DirectoryConfig, ip: IpAddr) -> (b: bool)
    requires
        networks_wf(rules@),
    ensures
        b == denied(rules@, ip),
{
    let mut i: usize = 0;
    while i < rules.deny_ips.len()
        invariant
            i <= rules.deny_ips@.len(),
            forall|j: int| 0 <= j < i ==> rules.deny_ips@[j] != ip,
        decreases rules.deny_ips@.len() - i,
    {
        if rules.deny_ips[i] == ip {
            assert(rules@.deny_ips.contains(ip));
            return true;
        }
        i = i + 1;
    }
    proof {
        let d = rules@;
        assert(d.deny_networks == rules.deny_networks@);
        assert(d.allow_networks == rules.allow_networks@);
        assert forall|i: int| 0 <= i < rules.deny_networks@.len() implies (
        #[trigger] rules.deny_networks@[i]).wf() by {
            assert(d.deny_networks[i].wf());
        }
        assert forall|i: int| 0 <= i < rules.allow_networks@.len() implies (
        #[trigger] rules.allow_networks@[i]).wf() by {
            assert(d.allow_networks[i].wf());
        }
    }
    in_some_network(&rules.deny_networks, ip) || (rules.allow_networks.len() > 0
        && !in_some_network(&rules.allow_networks, ip))
}

fn denies_hidden(rules: &DirectoryConfig, server: bool) -> (b: bool)
    ensures
        b == hides(rules@, server),
{
    match rules.deny_hidden_files {
        Some(b) => b,
        None => server,
    }
}

/// Decides what the rules of the directory decide before a file is opened.
pub fn check_rules(
    req: &HttpRequest,
    peer: Option<IpAddr>,
    config: &ServerConfig,
    rules: &DirectoryConfig,
    clean: &str,
    path: &str,
) -> (r: Option<HttpResponse>)
    requires
        networks_wf(rules@),
    ensures
        match r {
            Some(a) => rule_answer(
                req@,
                peer,
                config@.deny_hidden_files,
                rules@,
                clean@,
                path@,
            ) == Some(a@),
            None => rule_answer(
                req@,
                peer,
                config@.deny_hidden_files,
                rules@,
                clean@,
                path@,
            ) is None,
        },
{
    match &rules.methods {
        Some(l) => {
            if !is_method_listed(l, req.method.to_text().as_str()) {
                let allow = string_of(
                    &crate::config::veysrule::drop_breaks(&comma_list_of(l)),
                );
                return Some(
                    HttpResponse::new(StatusCode::MethodNotAllowed).with_raw_header(
                        "Allow",
                        allow.as_str(),
                    ).with_text("405 Method Not Allowed"),
                );
            }
        },
        None => {},
    }
    if denies_hidden(rules, config.deny_hidden_files) && has_hidden_component(path) {
        let r = HttpResponse::plain(
            StatusCode::Forbidden,
            "403 Forbidden: Access to hidden files is restricted",
        );
        return Some(apply_rules(r, rules));
    }
    match peer {
        Some(ip) => {
            if is_denied(rules, ip) {
                let r = HttpResponse::plain(
                    StatusCode::Forbidden,
                    "403 Forbidden: Access denied by IP rule",
                );
                return Some(apply_rules(r, rules));
            }
        },
        None => {},
    }
    match &rules.redirect {
        Some(rule) => {
            if is_text(&chars_of(clean), rule.source.as_str()) {
                let status = if rule.status == 301 {
                    StatusCode::MovedPermanently
                } else {
                    StatusCode::Found
                };
                let target = string_of(
                    &crate::config::veysrule::drop_breaks(&chars_of(rule.target.as_str())),
                );
                let r = HttpResponse::new(status).with_raw_header(
                    "Location",
                    target.as_str(),
                ).with_no_text();
                return Some(apply_rules(r, rules));
            }
        },
        None => {},
    }
    None
}

/// The path of the custom page for missing files.
pub fn error_page_path(rules: &DirectoryConfig) -> (r: Option<String>)
    ensures
        match r {
            Some(p) => missing_page(rules@) == Some(p@),
            None => missing_page(rules@) is None,
        },
{
    let ghost p = pages(rules.error_pages@);
    let n: usize = rules.error_pages.len();
    let mut i: usize = 0;
    while i < n && rules.error_pages[i].0 != 404
        invariant
            n == rules.error_pages@.len(),
            p == pages(rules.error_pages@),
            i <= n,
            page_from(p, 404, i as int) == page_from(p, 404, 0),
        decreases n - i,
    {
        assert(p[i as int].0 == rules.error_pages@[i as int].0);
        i = i + 1;
    }
    let configured = if i < n {
        assert(p[i as int] == (404u16, rules.error_pages@[i as int].1@));
        rules.error_pages[i].1.clone()
    } else {
        match &rules.redirect_404 {
            Some(s) => s.clone(),
            None => {
                return None;
            },
        }
    };
    match normalize_relative_path(configured.as_str()) {
        Ok(path) => if is_protected_rule_path(path.as_str()) {
            None
        } else {
            Some(path)
        },
        Err(_) => None,
    }
}

/// The answer where there is no file, given the custom page.
pub fn handle_404(rules: &DirectoryConfig, page: &Option<(Vec<u8>, String)>) -> (r: HttpResponse)
    ensures
        r@ == missing(
            rules@,
            match *page {
                Some(p) => Some((p.0@, p.1@)),
                None => None,
            },
        ),
{
    match page {
        Some(p) => {
            if error_page_path(rules).is_some() && p.0.len() <= MAX_ERROR_PAGE_BYTES {
                return HttpResponse::new(StatusCode::NotFound).with_body(
                    crate::bytes::part_bytes_all(p.0.as_slice()),
                    get_mime_type(p.1.as_str()),
                );
            }
        },
        None => {},
    }
    HttpResponse::plain(StatusCode::NotFound, "404 Not Found")
}

/// The index files of a directory.
pub open spec fn index_names(d: DirView) -> Seq<Seq<char>> {
    match d.index_files {
        Some(l) => l,
        None => seq!["index.html"@],
    }
}

/// The file to open for a path: the first index file for the root.
pub open spec fn target(d: DirView, path: Seq<char>) -> Seq<char> {
    if path.len() > 0 {
        path
    } else {
        match d.index_files {
            Some(l) => if l.len() > 0 {
                l[0]
            } else {
                "index.html"@
            },
            None => "index.html"@,
        }
    }
}

/// The index files of a directory.
pub fn index_files(rules: &DirectoryConfig) -> (r: Vec<String>)
    ensures
        strings(r@) == index_names(rules@),
{
    match &rules.index_files {
        Some(l) => crate::config::types::copy_strings(l),
        None => {
            let mut r: Vec<String> = Vec::new();
            r.push("index.html".to_owned());
            assert(strings(r@) =~= seq!["index.html"@]);
            r
        },
    }
}

/// The file to open for a path.
pub fn file_to_open(rules: &DirectoryConfig, path: &str) -> (r: String)
    ensures
        r@ == target(rules@, path@),
{
    if chars_of(path).len() > 0 {
        return path.to_owned();
    }
    match &rules.index_files {
        Some(l) => if l.len() > 0 {
            assert(strings(l@)[0] == l@[0]@);
            l[0].clone()
        } else {
            "index.html".to_owned()
        },
        None => "index.html".to_owned(),
    }
}

fn file_type(rules: &DirectoryConfig, path: &str) -> (r: String)
    ensures
        r@ == type_of_file(rules@, path@),
{
    let e = match extension_of(path) {
        Some(e) => e,
        None => {
            return get_mime_type(path).to_owned();
        },
    };
    let ghost m = pairs(rules.mime_types@);
    let mut ext = chars_of(".");
    push_text(&mut ext, &e);
    let mut i: usize = 0;
    while i < rules.mime_types.len()
        invariant
            m == pairs(rules.mime_types@),
            extension(path@) == Some(e@),
            ext@ == "."@ + e@,
            i <= rules.mime_types@.len(),
            ruled_type(m, ext@, i as int) == ruled_type(m, ext@, 0),
        decreases rules.mime_types@.len() - i,
    {
        assert(m[i as int] == (rules.mime_types@[i as int].0@, rules.mime_types@[i as int].1@));
        if is_text(&ext, rules.mime_types[i].0.as_str()) {
            return rules.mime_types[i].1.clone();
        }
        i = i + 1;
    }
    get_mime_type(path).to_owned()
}

fn is_unchanged(req: &HttpRequest, tag: &str, modified: u64) -> (b: bool)
    ensures
        b == unchanged(req@, tag@, modified),
{
    match req.get_header("If-None-Match") {
        Some(v) => {
            let t = trim_of(&chars_of(v));
            is_text(&t, "*") || is_text(&t, tag) || contains_str(&t, tag)
        },
        None => match req.get_header("If-Modified-Since") {
            Some(v) => {
                let t = string_of(&trim_of(&chars_of(v)));
                match parse_http_date(t.as_str()) {
                    Some(n) => modified <= n,
                    None => false,
                }
            },
            None => false,
        },
    }
}

fn describe(status: StatusCode, tag: &str, date: &str) -> (r: HttpResponse)
    ensures
        r@ == described(status, tag@, date@),
{
    HttpResponse::new(status).with_raw_header("ETag", tag).with_raw_header("Last-Modified", date)
}

fn answer_whole(tag: &str, date: &str, file: &OpenedFile, kind: &str) -> (r: HttpResponse)
    ensures
        r@ == whole_file(tag@, date@, file@, kind@),
{
    describe(StatusCode::Okay, tag, date).with_raw_header("Accept-Ranges", "bytes").with_file(
        file.size,
        kind,
    )
}

fn answer_range(tag: &str, date: &str, file: &OpenedFile, kind: &str, asked: &str) -> (r:
    HttpResponse)
    ensures
        r@ == (match requested_range(asked@, file.size) {
            Ok(Some(g)) => add_body(
                add_header(
                    add_header(
                        described(StatusCode::PartialContent, tag@, date@),
                        "Content-Range"@,
                        "bytes "@ + decimal(g.start as nat) + "-"@ + decimal(g.end as nat) + "/"@
                            + decimal(file.size as nat),
                    ),
                    "Accept-Ranges"@,
                    "bytes"@,
                ),
                (g.end - g.start + 1) as nat,
                kind@,
                SourceView::FileRange(g.start, (g.end - g.start + 1) as u64),
            ),
            Err(_) => with_plain_text(
                add_header(
                    bare_response(StatusCode::RangeNotSatisfiable),
                    "Content-Range"@,
                    "bytes */"@ + decimal(file.size as nat),
                ),
                "416 Range Not Satisfiable"@,
            ),
            Ok(None) => whole_file(tag@, date@, file@, kind@),
        }),
{
    match parse_range_header(asked, file.size) {
        Ok(Some(g)) => {
            proof {
                crate::router::range::law_granted_ranges_lie_in_the_file(asked@, file.size);
            }
            let length: u64 = g.end - g.start + 1;
            let mut range = chars_of("bytes ");
            push_text(&mut range, &decimal_of(g.start));
            push_str(&mut range, "-");
            push_text(&mut range, &decimal_of(g.end));
            push_str(&mut range, "/");
            push_text(&mut range, &decimal_of(file.size));
            let text = string_of(&range);
            describe(StatusCode::PartialContent, tag, date).with_raw_header(
                "Content-Range",
                text.as_str(),
            ).with_raw_header("Accept-Ranges", "bytes").with_file_range(g.start, length, kind)
        },
        Err(_) => {
            let mut range = chars_of("bytes */");
            push_text(&mut range, &decimal_of(file.size));
            let text = string_of(&range);
            HttpResponse::new(StatusCode::RangeNotSatisfiable).with_raw_header(
                "Content-Range",
                text.as_str(),
            ).with_text("416 Range Not Satisfiable")
        },
        Ok(None) => answer_whole(tag, date, file, kind),
    }
}

/// The answer for a file, before rules and compression.
pub fn answer_file(req: &HttpRequest, file: &OpenedFile, kind: &str) -> (r: HttpResponse)
    ensures
        r@ == file_answer(req@, file@, kind@),
{
    let tag = generate_etag(file.modified, file.size);
    let date = format_http_date(file.modified);
    if is_unchanged(req, tag.as_str(), file.modified) {
        return describe(StatusCode::NotModified, tag.as_str(), date.as_str());
    }
    if req.method.is_get() {
        match req.get_header("Range") {
            Some(v) => {
                let asked = string_of(&trim_of(&chars_of(v)));
                return answer_range(tag.as_str(), date.as_str(), file, kind, asked.as_str());
            },
            None => {},
        }
    }
    if req.method.is_head() {
        let size = string_of(&decimal_of(file.size));
        let clean_kind = string_of(&crate::config::veysrule::drop_breaks(&chars_of(kind)));
        return HttpResponse::new(StatusCode::Okay).with_raw_header(
            "Content-Length",
            size.as_str(),
        ).with_raw_header("Content-Type", clean_kind.as_str()).with_raw_header(
            "ETag",
            tag.as_str(),
        ).with_raw_header("Last-Modified", date.as_str()).with_raw_header(
            "Accept-Ranges",
            "bytes",
        );
    }
    answer_whole(tag.as_str(), date.as_str(), file, kind)
}

/// The moment of expiry is one that the clock has.
pub open spec fn expiry_fits(d: DirView, now: u64) -> bool {
    d.expires matches Some(s) ==> now + s <= i64::MAX
}

fn add_caching(resp: HttpResponse, rules: &DirectoryConfig, now: u64) -> (r: HttpResponse)
    requires
        expiry_fits(rules@, now),
    ensures
        r@ == with_caching(resp@, rules@, now),
{
    let mut r = resp;
    match rules.cache {
        Some(true) => {
            r = r.with_raw_header("Cache-Control", "public");
        },
        Some(false) => {
            r = r.with_raw_header("Cache-Control", "no-store");
        },
        None => {},
    }
    match rules.expires {
        Some(s) => {
            let date = format_http_date(now + s);
            r = r.with_raw_header("Expires", date.as_str());
        },
        None => {},
    }
    r
}

fn negotiate(req: &HttpRequest, resp: HttpResponse, config: &ServerConfig) -> (r: HttpResponse)
    ensures
        r@ == negotiated(req@, resp@, config@),
{
    let mut r = resp;
    let may = req.method.is_get() && r.status == StatusCode::Okay && r.body_len()
        >= config.compression_min_size && response_mime_is_compressible(
        &r.headers,
        &config.compression_mime_types,
    );
    if !may {
        return r;
    }
    let accept = req.get_header("Accept-Encoding");
    if accept.is_some() {
        ensure_vary_accept_encoding(&mut r.headers);
    }
    if config.compression_enabled && accepts_gzip(accept) {
        let file = match &r.body_source {
            BodySource::File(n) => Some(*n),
            _ => None,
        };
        match file {
            Some(size) => {
                remove_named(&mut r.headers, "Content-Length");
                vary_etag_for_encoding(&mut r.headers, "gzip");
                push_header(&mut r.headers, "Content-Encoding", "gzip");
                r.body_source = BodySource::GzipFile(size, config.compression_level);
            },
            None => {},
        }
    }
    r
}

/// What is answered once the rules let the request pass.
pub fn serve(
    req: &HttpRequest,
    config: &ServerConfig,
    rules: &DirectoryConfig,
    clean: &str,
    facts: &Facts,
) -> (r: HttpResponse)
    requires
        expiry_fits(rules@, facts.now),
    ensures
        r@ == served(req@, config@, rules@, clean@, facts@),
{
    if !facts.root_found {
        return HttpResponse::plain(
            StatusCode::InternalServerError,
            "500 Internal Server Error",
        );
    }
    match &facts.directory {
        Some(dir) => {
            let mut place = chars_of(clean);
            if !crate::text::ends_with_str(&place, "/") && place.len() > 0 {
                push_str(&mut place, "/");
                let to = string_of(&crate::config::veysrule::drop_breaks(&place));
                let r = HttpResponse::new(StatusCode::MovedPermanently).with_raw_header(
                    "Location",
                    to.as_str(),
                ).with_no_text();
                return apply_rules(r, rules);
            }
            if !dir.has_index && rules.autoindex == Some(true) {
                let page = render_directory_listing(
                    &dir.entries,
                    denies_hidden(rules, config.deny_hidden_files),
                );
                let r = HttpResponse::new(StatusCode::Okay).with_body(
                    page,
                    "text/html; charset=utf-8",
                );
                return apply_rules(r, rules);
            }
        },
        None => {},
    }
    match &facts.file {
        None => apply_rules(handle_404(rules, &facts.error_page), rules),
        Some(file) => {
            let kind = file_type(rules, file.path.as_str());
            let mut r = answer_file(req, file, kind.as_str());
            r = apply_rules(r, rules);
            r = add_caching(r, rules, facts.now);
            negotiate(req, r, config)
        },
    }
}

fn strip_body(req: &HttpRequest, resp: HttpResponse) -> (r: HttpResponse)
    ensures
        r@ == head_only(req@, resp@),
{
    let mut r = resp;
    if req.method.is_head() {
        let none: Vec<u8> = Vec::new();
        assert(none@ =~= Seq::<u8>::empty());
        r.body_source = BodySource::Bytes(none);
    }
    r
}

/// The static handler of a server.
#[derive(Debug)]
pub struct RequestHandler<'a> {
    pub config: &'a ServerConfig,
}

impl<'a> RequestHandler<'a> {
    pub fn new(config: &'a ServerConfig) -> (r: Self)
        ensures
            r.config == config,
    {
        RequestHandler { config }
    }

    /// The settings that apply to a request.
    pub fn effective_config(&self, req: &HttpRequest) -> (r: ServerConfig)
        ensures
            r@ == settings_for(self.config@, req@),
    {
        effective_config(self.config, req)
    }

    /// The answer where the client asks too often.
    pub fn refuse(&self, req: &HttpRequest) -> (r: HttpResponse)
        ensures
            r@ == head_only(
                req@,
                (ResponseView { headers: secured(too_many().headers, self.config@), ..too_many() }),
            ),
    {
        let mut r = HttpResponse::new(StatusCode::TooManyRequests).with_raw_header(
            "Retry-After",
            "1",
        ).with_text("429 Too Many Requests");
        apply_security_headers(&mut r.headers, self.config);
        strip_body(req, r)
    }

    /// The answer to a request, given whether the client may ask, the rules of the
    /// directory and what the file system holds.
    pub fn handle_request(
        &self,
        req: &HttpRequest,
        peer: Option<IpAddr>,
        allowed: bool,
        rules: &DirectoryConfig,
        facts: &Facts,
        metrics: &str,
    ) -> (r: HttpResponse)
        requires
            networks_wf(rules@),
            expiry_fits(rules@, facts.now),
        ensures
            r@ == handled(req@, peer, allowed, self.config@, rules@, facts@, metrics@),
    {
        if !allowed && peer.is_some() {
            return self.refuse(req);
        }
        let config = self.effective_config(req);
        let mut r = match screen(req, metrics) {
            Admission::Answer(a) => a,
            Admission::Serve(clean, path) => match check_rules(
                req,
                peer,
                &config,
                rules,
                clean.as_str(),
                path.as_str(),
            ) {
                Some(a) => a,
                None => serve(req, &config, rules, clean.as_str(), facts),
            },
        };
        apply_security_headers(&mut r.headers, self.config);
        strip_body(req, r)
    }
}

/// The bytes that the log counts for a response.
pub open spec fn logged_bytes(req: RequestView, r: ResponseView) -> int {
    if req.method is Head {
        0
    } else {
        source_len(r.body_source)
    }
}

/// The line of the access log.
pub open spec fn access_line(
    json: bool,
    peer: Seq<char>,
    req: RequestView,
    r: ResponseView,
    millis: Seq<char>,
) -> Seq<char> {
    let status = decimal(r.status.number() as nat);
    let bytes = decimal(logged_bytes(req, r) as nat);
    if json {
        "{\"remote_addr\":\""@ + json_text(peer) + "\",\"method\":\""@ + json_text(
            method_text(req.method),
        ) + "\",\"path\":\""@ + json_text(req.uri) + "\",\"protocol\":\""@ + json_text(req.version)
            + "\",\"status\":"@ + status + ",\"response_bytes\":"@ + bytes + ",\"duration_ms\":"@
            + millis + "}\n"@
    } else {
        "[INFO] "@ + peer + " \""@ + method_text(req.method) + " "@ + req.uri + " "@ + req.version
            + "\" "@ + status + " "@ + bytes + " "@ + millis + "ms\n"@
    }
}

/// The line of the access log, given the rendered duration.
pub fn format_access_line(
    log_format: &str,
    peer_ip: &str,
    req: &HttpRequest,
    resp: &HttpResponse,
    duration_ms: &str,
) -> (r: String)
    ensures
        r@ == access_line(
            same_name(log_format@, "json"@),
            peer_ip@,
            req@,
            resp@,
            duration_ms@,
        ),
{
    let n: u64 = if req.method.is_head() {
        0
    } else {
        resp.body_len()
    };
    let status = decimal_of(resp.status.code() as u64);
    let bytes = decimal_of(n);
    let method = req.method.to_text();
    let mut out: Vec<char>;
    if is_name(&chars_of(log_format), "json") {
        out = chars_of("{\"remote_addr\":\"");
        push_text(&mut out, &json_escape(peer_ip));
        push_str(&mut out, "\",\"method\":\"");
        push_text(&mut out, &json_escape(method.as_str()));
        push_str(&mut out, "\",\"path\":\"");
        push_text(&mut out, &json_escape(req.uri.as_str()));
        push_str(&mut out, "\",\"protocol\":\"");
        push_text(&mut out, &json_escape(req.version.as_str()));
        push_str(&mut out, "\",\"status\":");
        push_text(&mut out, &status);
        push_str(&mut out, ",\"response_bytes\":");
        push_text(&mut out, &bytes);
        push_str(&mut out, ",\"duration_ms\":");
        push_str(&mut out, duration_ms);
        push_str(&mut out, "}\n");
    } else {
        out = chars_of("[INFO] ");
        push_str(&mut out, peer_ip);
        push_str(&mut out, " \"");
        push_str(&mut out, method.as_str());
        push_str(&mut out, " ");
        push_str(&mut out, req.uri.as_str());
        push_str(&mut out, " ");
        push_str(&mut out, req.version.as_str());
        push_str(&mut out, "\" ");
        push_text(&mut out, &status);
        push_str(&mut out, " ");
        push_text(&mut out, &bytes);
        push_str(&mut out, " ");
        push_str(&mut out, duration_ms);
        push_str(&mut out, "ms\n");
    }
    string_of(&out)
}

} // verus!
