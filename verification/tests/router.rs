//! Paths, dates, ranges, virtual hosts and the static handler.

use veysrs::config::ip::{Cidr, IpAddr};
use veysrs::config::types::{DirectoryConfig, ServerConfig, VhostConfig};
use veysrs::config::veysrule::parse_veysrule_content;
use veysrs::router::date::{format_http_date, parse_http_date};
use veysrs::router::handler::{
    error_page_path, file_to_open, format_access_line, index_files, screen, Admission, Facts,
    OpenedDirectory, OpenedFile, RequestHandler,
};
use veysrs::router::negotiate::{
    apply_custom_headers, ensure_vary_accept_encoding, response_mime_is_compressible,
    vary_etag_for_encoding,
};
use veysrs::router::path::{
    get_mime_type, has_hidden_component, is_protected_rule_path, normalize_relative_path,
    normalized_request_path, percent_decode_recursive, percent_decode_single,
    request_path_is_safe,
};
use veysrs::router::range::{generate_etag, parse_range_header, RangeSpec};
use veysrs::router::render::{html_escape, json_escape, render_directory_listing, url_encode_path};
use veysrs::router::target::{
    has_index, next_index, open_steps, request_has_static_target, StaticFacts,
};
use veysrs::router::vhost::{join_below, normalize_host, select_vhost};
use veysrs::server::http::{HttpRequest, Method, StatusCode};
use veysrs::server::quality::{accepts_gzip, accepts_gzip_from_upstream, is_positive};
use veysrs::server::response::{BodySource, HttpResponse};

fn request(uri: &str, headers: &[(&str, &str)]) -> HttpRequest {
    HttpRequest {
        method: Method::Get,
        uri: uri.to_string(),
        version: "HTTP/1.1".to_string(),
        headers: headers
            .iter()
            .map(|(k, v)| (k.to_string(), v.to_string()))
            .collect(),
        body: Vec::new(),
    }
}

fn nothing() -> Facts {
    Facts {
        root_found: true,
        directory: None,
        file: None,
        error_page: None,
        now: 1_700_000_500,
    }
}

fn one_file(path: &str, size: u64) -> Facts {
    Facts {
        file: Some(OpenedFile {
            path: path.to_string(),
            size,
            modified: 1_700_000_000,
        }),
        ..nothing()
    }
}

fn header<'a>(r: &'a HttpResponse, name: &str) -> Option<&'a str> {
    r.headers
        .iter()
        .find(|(k, _)| k.eq_ignore_ascii_case(name))
        .map(|(_, v)| v.as_str())
}

fn body_text(r: &HttpResponse) -> String {
    match &r.body_source {
        BodySource::Bytes(b) => String::from_utf8(b.clone()).unwrap(),
        _ => panic!("the body is not in memory"),
    }
}

fn chars(s: &str) -> Vec<char> {
    s.chars().collect()
}

#[test]
fn gzip_accept_encoding_honors_q_values() {
    assert!(accepts_gzip(Some("br, gzip;q=0.8")));
    assert!(!accepts_gzip(Some("gzip;q=0")));
    assert!(accepts_gzip(Some("*;q=0.5")));
    assert!(!accepts_gzip(Some("identity")));
}

#[test]
fn qualities_are_read_as_single_precision_numbers() {
    for text in [
        "0", "0.0", "-0", "1", "0.001", "1e-45", "7e-46", "8e-46", "1e-50", ".5", "5.", "+1",
        "-1", "inf", "-inf", "nan", "1e", "", ".", "1e400", "0x1", "1_0", " 1", "1e+2", "infinity",
        "0e9", "700649232162408535461864791644958065640130970938257885878534141944895541342930300743319094181060791015625e-150",
        "700649232162408535461864791644958065640130970938257885878534141944895541342930300743319094181060791015626e-150",
    ] {
        let expected = text.parse::<f32>().ok().map(|q| q > 0.0);
        assert_eq!(is_positive(&chars(text)), expected, "{text}");
    }
    assert!(accepts_gzip_from_upstream(Some("gzip")));
    assert!(!accepts_gzip_from_upstream(Some("gzip; q=0")));
    assert!(!accepts_gzip_from_upstream(None));
}

#[test]
fn security_headers_are_added_without_overriding_rules() {
    let config = ServerConfig::default();
    let handler = RequestHandler::new(&config);
    let req = request("/", &[("Host", "localhost")]);
    let rules = DirectoryConfig::default();
    let response = handler.handle_request(&req, None, true, &rules, &nothing(), "");
    assert!(response
        .headers
        .iter()
        .any(|(name, value)| name == "X-Content-Type-Options" && value == "nosniff"));
    assert!(response
        .headers
        .iter()
        .any(|(name, value)| name == "Referrer-Policy"
            && value == "strict-origin-when-cross-origin"));

    let (_, rules, errors) =
        parse_veysrule_content("header Referrer-Policy no-referrer\n", ".veysrule", false);
    assert!(errors.is_empty());
    let response = handler.handle_request(&req, None, true, &rules, &one_file("index.html", 3), "");
    assert_eq!(header(&response, "Referrer-Policy"), Some("no-referrer"));
    assert_eq!(
        response
            .headers
            .iter()
            .filter(|(name, _)| name.eq_ignore_ascii_case("Referrer-Policy"))
            .count(),
        1
    );
}

#[test]
fn directory_redirect_and_bounded_autoindex_use_secure_open() {
    let config = ServerConfig::default();
    let (_, rules, errors) = parse_veysrule_content("autoindex on\n", ".veysrule", true);
    assert!(errors.is_empty());
    let handler = RequestHandler::new(&config);
    let facts = Facts {
        directory: Some(OpenedDirectory {
            has_index: false,
            entries: vec![
                ("file name.txt".to_string(), false),
                (".veysrule".to_string(), false),
            ],
        }),
        ..nothing()
    };
    let req = request("/docs", &[("Host", "localhost")]);
    let response = handler.handle_request(&req, None, true, &rules, &facts, "");
    assert_eq!(response.status, StatusCode::MovedPermanently);
    assert_eq!(header(&response, "Location"), Some("/docs/"));
    let req = request("/docs/", &[("Host", "localhost")]);
    let response = handler.handle_request(&req, None, true, &rules, &facts, "");
    assert_eq!(response.status, StatusCode::Okay);
    let html = body_text(&response);
    assert!(html.contains("file%20name.txt"));
    assert!(!html.contains(".veysrule"));
}

#[test]
fn front_controller_only_handles_missing_static_resources() {
    let config = ServerConfig {
        front_controller: Some("/index.php".to_string()),
        ..ServerConfig::default()
    };
    let root = StaticFacts {
        root_found: true,
        opens: false,
        directory: true,
        index_found: false,
        controller_found: true,
    };
    let file = StaticFacts { opens: true, directory: false, ..root };
    let directory = StaticFacts { opens: false, directory: true, ..root };
    let missing = StaticFacts { opens: false, directory: false, ..root };
    assert!(!request_has_static_target("/", &config, &root));
    assert!(request_has_static_target("/css/app.css", &config, &file));
    assert!(request_has_static_target("/docs/", &config, &directory));
    assert!(!request_has_static_target("/login?foo=bar", &config, &missing));
    assert!(!request_has_static_target("/%2e%2e/index.php", &config, &file));

    let disabled = ServerConfig {
        front_controller: None,
        ..config.clone()
    };
    assert!(request_has_static_target("/", &disabled, &root));
    assert!(!request_has_static_target("/missing", &disabled, &missing));
    let indexed = StaticFacts { index_found: true, ..root };
    assert!(request_has_static_target("/", &config, &indexed));
    let nowhere = StaticFacts { root_found: false, ..root };
    assert!(!request_has_static_target("/", &disabled, &nowhere));
}

#[test]
fn files_are_opened_name_by_name() {
    let steps = open_steps("docs/api/../index.html", false);
    let names: Vec<&str> = steps.iter().map(|s| s.name.as_str()).collect();
    assert_eq!(names, vec!["docs", "api", "index.html"]);
    assert_eq!(
        steps.iter().map(|s| s.directory).collect::<Vec<_>>(),
        vec![true, true, false]
    );
    assert!(open_steps("docs", true)[0].directory);
    assert!(open_steps("", false).is_empty());
    assert!(open_steps("./..", false).is_empty());
}

#[test]
fn test_etag_generation() {
    let etag = generate_etag(1700000000, 1024);
    assert_eq!(etag, "\"6553f100-400\"");
}

#[test]
fn test_http_date_format_and_parse() {
    let formatted = format_http_date(1700000000);
    let parsed = parse_http_date(&formatted).unwrap();
    assert_eq!(parsed, 1700000000);
}

#[test]
fn dates_have_one_form() {
    assert_eq!(format_http_date(0), "Thu, 01 Jan 1970 00:00:00 GMT");
    assert_eq!(format_http_date(1700000000), "Tue, 14 Nov 2023 22:13:20 GMT");
    assert_eq!(format_http_date(951782400), "Tue, 29 Feb 2000 00:00:00 GMT");
    assert_eq!(parse_http_date("Tue, 29 Feb 2000 00:00:00 GMT"), Some(951782400));
    assert_eq!(parse_http_date("yesterday"), None);
}

#[test]
fn test_parse_range_header() {
    // bytes=0-499
    let r1 = parse_range_header("bytes=0-499", 1000).unwrap().unwrap();
    assert_eq!(r1, RangeSpec { start: 0, end: 499 });

    // bytes=500-
    let r2 = parse_range_header("bytes=500-", 1000).unwrap().unwrap();
    assert_eq!(
        r2,
        RangeSpec {
            start: 500,
            end: 999
        }
    );

    // bytes=-200
    let r3 = parse_range_header("bytes=-200", 1000).unwrap().unwrap();
    assert_eq!(
        r3,
        RangeSpec {
            start: 800,
            end: 999
        }
    );

    // Unsatisfiable Range
    assert!(parse_range_header("bytes=1500-2000", 1000).is_err());
    assert!(parse_range_header("bytes=500-400", 1000).is_err());
}

#[test]
fn test_double_percent_decode() {
    assert_eq!(
        percent_decode_recursive("/%252e%252e/Cargo.toml"),
        Some("/../Cargo.toml".to_string())
    );
    assert_eq!(
        percent_decode_recursive("/%2e%2e/Cargo.toml"),
        Some("/../Cargo.toml".to_string())
    );
    assert_eq!(
        percent_decode_recursive("/%2525252eveysrule"),
        Some("/.veysrule".to_string())
    );
}

#[test]
fn broken_escapes_are_refused() {
    assert_eq!(percent_decode_single("/a%2"), None);
    assert_eq!(percent_decode_single("/a%zz"), None);
    assert_eq!(percent_decode_single("/%ff"), None);
    assert_eq!(percent_decode_single("/caf%c3%a9"), Some("/caf\u{e9}".to_string()));
}

#[test]
fn paths_stay_below_the_root() {
    assert_eq!(normalize_relative_path("/a/./b//c/../d"), Ok("a/b/d".to_string()));
    assert!(normalize_relative_path("/../etc/passwd").is_err());
    assert!(normalize_relative_path("/a/../../b").is_err());
    assert_eq!(normalized_request_path("/a%2fb?x#y"), Some("a/b".to_string()));
    assert!(!request_path_is_safe("/docs/.veysrule", false));
    assert!(!request_path_is_safe("/.git/config", true));
    assert!(request_path_is_safe("/.git/config", false));
}

#[test]
fn test_has_hidden_component() {
    assert!(has_hidden_component(".veysrule"));
    assert!(has_hidden_component(".git/config"));
    assert!(has_hidden_component(".env"));
    assert!(has_hidden_component("sub/.hidden/file.txt"));
    assert!(!has_hidden_component("index.html"));
    assert!(!has_hidden_component("style.css"));
}

#[test]
fn test_protected_rule_path_is_recursive() {
    assert!(is_protected_rule_path(".veysrule"));
    assert!(is_protected_rule_path("nested/.veysrule"));
    assert!(!is_protected_rule_path("nested/file.txt"));
}

#[test]
fn test_h2_conditional_requests_and_header_case_variations() {
    let config = ServerConfig::default();
    let handler = RequestHandler::new(&config);
    let rules = DirectoryConfig::default();
    let facts = one_file("public/index.html", 1024);
    let ask = |version: &str, headers: &[(&str, &str)]| {
        let req = HttpRequest {
            version: version.to_string(),
            ..request("/", headers)
        };
        handler.handle_request(&req, None, true, &rules, &facts, "")
    };

    let initial_resp = ask("HTTP/2.0", &[]);
    assert_eq!(initial_resp.status, StatusCode::Okay);
    let etag = header(&initial_resp, "ETag")
        .map(|v| v.to_string())
        .expect("ETag header present");

    // 1. HTTP/2 request containing If-None-Match matching resource ETag -> 304
    let match_resp = ask("HTTP/2.0", &[("if-none-match", &etag)]);
    assert_eq!(match_resp.status, StatusCode::NotModified);

    // 2. Non-matching If-None-Match -> 200
    let non_match_resp = ask("HTTP/2.0", &[("if-none-match", "\"invalid-etag\"")]);
    assert_eq!(non_match_resp.status, StatusCode::Okay);

    // 3. Header-name case variations behave identically
    for header_name in &[
        "if-none-match",
        "If-None-Match",
        "IF-NONE-MATCH",
        "iF-nOnE-mAtCh",
    ] {
        let resp = ask("HTTP/2.0", &[(header_name, &etag)]);
        assert_eq!(
            resp.status,
            StatusCode::NotModified,
            "Failed for case variation {}",
            header_name
        );
    }

    // 4. Range produces 206
    let range_resp = ask("HTTP/2.0", &[("range", "bytes=0-10")]);
    assert_eq!(range_resp.status, StatusCode::PartialContent);

    // 5. Existing HTTP/1.1 conditional request tests remain passing
    let h1_resp = ask("HTTP/1.1", &[("If-None-Match", &etag)]);
    assert_eq!(h1_resp.status, StatusCode::NotModified);
}

#[test]
fn test_vhost_host_and_default_selection() {
    let mut config = ServerConfig::default();
    config.vhosts = vec![
        VhostConfig {
            host: "example.test".to_string(),
            root_dir: "/tmp/example".to_string(),
            config_file: None,
            tls_certificate: None,
            tls_private_key: None,
        },
        VhostConfig {
            host: "*".to_string(),
            root_dir: "/tmp/default".to_string(),
            config_file: None,
            tls_certificate: None,
            tls_private_key: None,
        },
    ];
    let known = request("/", &[("Host", "EXAMPLE.TEST:443")]);
    let unknown = HttpRequest {
        headers: vec![("Host".to_string(), "unknown.test".to_string())],
        ..known.clone()
    };
    assert_eq!(select_vhost(&config, &known).unwrap().root_dir, "/tmp/example");
    assert_eq!(select_vhost(&config, &unknown).unwrap().root_dir, "/tmp/default");
    assert_eq!(
        normalize_host("example.test:443"),
        Some("example.test".to_string())
    );
    assert_eq!(normalize_host("example.test:not-a-port"), None);

    let effective = RequestHandler::new(&config).effective_config(&known);
    assert_eq!(effective.root_dir, "/tmp/example");
    assert_eq!(effective.config_file, "/tmp/example/.veysrule");
    assert_eq!(join_below("/srv", "x"), "/srv/x");
}

#[test]
fn test_expanded_mime_types() {
    assert_eq!(get_mime_type("page.html"), "text/html; charset=utf-8");
    assert_eq!(get_mime_type("style.css"), "text/css; charset=utf-8");
    assert_eq!(get_mime_type("app.js"), "application/javascript");
    assert_eq!(get_mime_type("data.json"), "application/json");
    assert_eq!(get_mime_type("feed.xml"), "application/xml");
    assert_eq!(get_mime_type("image.webp"), "image/webp");
    assert_eq!(get_mime_type("module.wasm"), "application/wasm");
}

fn status_of(uri: &str, method: Method, rules: &DirectoryConfig, facts: &Facts) -> StatusCode {
    let config = ServerConfig::default();
    let req = HttpRequest {
        method,
        ..request(uri, &[("Host", "localhost")])
    };
    RequestHandler::new(&config)
        .handle_request(&req, Some(IpAddr::V4(0x0a00_0001)), true, rules, facts, "metrics")
        .status
}

#[test]
fn refusals_come_before_any_file() {
    let rules = DirectoryConfig::default();
    let facts = one_file("x", 1);
    assert_eq!(status_of("/", Method::Post, &rules, &facts), StatusCode::NotImplemented);
    assert_eq!(
        status_of("/", Method::Other("PUT".to_string()), &rules, &facts),
        StatusCode::MethodNotAllowed
    );
    assert_eq!(status_of("/%zz", Method::Get, &rules, &facts), StatusCode::BadRequest);
    assert_eq!(status_of("/%2e%2e/x", Method::Get, &rules, &facts), StatusCode::Forbidden);
    assert_eq!(status_of("/a/.veysrule", Method::Get, &rules, &facts), StatusCode::NotFound);
    assert_eq!(status_of("/.env", Method::Get, &rules, &facts), StatusCode::Forbidden);
    let denied = DirectoryConfig {
        deny_networks: vec![Cidr { address: IpAddr::V4(0x0a00_0000), prefix: 8 }],
        ..DirectoryConfig::default()
    };
    assert_eq!(status_of("/x", Method::Get, &denied, &facts), StatusCode::Forbidden);
    assert_eq!(status_of("/x", Method::Get, &rules, &nothing()), StatusCode::NotFound);
    let rootless = Facts { root_found: false, ..nothing() };
    assert_eq!(
        status_of("/x", Method::Get, &rules, &rootless),
        StatusCode::InternalServerError
    );
    let (_, only_post, _) = parse_veysrule_content("methods POST\n", "x", false);
    assert_eq!(status_of("/x", Method::Get, &only_post, &facts), StatusCode::MethodNotAllowed);
    let (_, moved, _) = parse_veysrule_content("redirect /x /y 301\n", "x", false);
    assert_eq!(status_of("/x", Method::Get, &moved, &facts), StatusCode::MovedPermanently);
}

#[test]
fn clients_that_ask_too_often_are_told_so() {
    let config = ServerConfig::default();
    let handler = RequestHandler::new(&config);
    let req = request("/", &[("Host", "localhost")]);
    let rules = DirectoryConfig::default();
    let r = handler.handle_request(&req, Some(IpAddr::V4(1)), false, &rules, &nothing(), "");
    assert_eq!(r.status, StatusCode::TooManyRequests);
    assert_eq!(header(&r, "Retry-After"), Some("1"));
}

#[test]
fn the_metrics_page_needs_no_file() {
    let config = ServerConfig::default();
    let req = request("/metrics?x", &[("Host", "localhost")]);
    let rules = DirectoryConfig::default();
    let r = RequestHandler::new(&config).handle_request(&req, None, true, &rules, &nothing(), "m 1\n");
    assert_eq!(r.status, StatusCode::Okay);
    assert_eq!(body_text(&r), "m 1\n");
    assert!(matches!(screen(&request("/a", &[]), ""), Admission::Serve(_, _)));
}

#[test]
fn ranges_answer_with_their_bytes() {
    let config = ServerConfig::default();
    let rules = DirectoryConfig::default();
    let facts = one_file("public/movie.bin", 1000);
    let handler = RequestHandler::new(&config);
    let req = request("/movie.bin", &[("Host", "h"), ("Range", "bytes=10-19")]);
    let r = handler.handle_request(&req, None, true, &rules, &facts, "");
    assert_eq!(r.status, StatusCode::PartialContent);
    assert_eq!(header(&r, "Content-Range"), Some("bytes 10-19/1000"));
    assert_eq!(r.body_source, BodySource::FileRange(10, 10));
    let req = request("/movie.bin", &[("Host", "h"), ("Range", "bytes=2000-")]);
    let r = handler.handle_request(&req, None, true, &rules, &facts, "");
    assert_eq!(r.status, StatusCode::RangeNotSatisfiable);
}

#[test]
fn large_texts_are_compressed_for_clients_that_take_it() {
    let config = ServerConfig::default();
    let rules = DirectoryConfig::default();
    let facts = one_file("public/page.html", 100_000);
    let handler = RequestHandler::new(&config);
    let req = request("/page.html", &[("Host", "h"), ("Accept-Encoding", "gzip")]);
    let r = handler.handle_request(&req, None, true, &rules, &facts, "");
    assert_eq!(header(&r, "Content-Encoding"), Some("gzip"));
    assert_eq!(header(&r, "Vary"), Some("Accept-Encoding"));
    assert!(matches!(r.body_source, BodySource::GzipFile(100_000, _)));
    let req = request("/page.html", &[("Host", "h")]);
    let r = handler.handle_request(&req, None, true, &rules, &facts, "");
    assert_eq!(header(&r, "Content-Encoding"), None);
    assert_eq!(r.body_source, BodySource::File(100_000));
}

#[test]
fn index_files_and_error_pages_come_from_rules() {
    let (_, rules, errors) =
        parse_veysrule_content("index home.html\nerror_page 404 /oops.html\n", "x", false);
    assert!(errors.is_empty());
    assert_eq!(index_files(&rules), vec!["home.html".to_string()]);
    assert_eq!(file_to_open(&rules, ""), "home.html");
    assert_eq!(file_to_open(&rules, "a/b"), "a/b");
    assert_eq!(error_page_path(&rules), Some("oops.html".to_string()));
}

#[test]
fn listings_escape_names() {
    assert_eq!(
        html_escape(&chars("<a href=\"x\">&'")).into_iter().collect::<String>(),
        "&lt;a href=&quot;x&quot;&gt;&amp;'"
    );
    assert_eq!(
        url_encode_path("a b/c?").into_iter().collect::<String>(),
        "a%20b%2Fc%3F"
    );
    assert_eq!(
        json_escape("a\"b\\c\n").into_iter().collect::<String>(),
        "a\\\"b\\\\c\\n"
    );
    let page = render_directory_listing(
        &vec![("b".to_string(), false), ("a".to_string(), true), (".x".to_string(), false)],
        true,
    );
    let html = String::from_utf8(page).unwrap();
    assert!(html.find(">a").unwrap() < html.find(">b").unwrap());
    assert!(!html.contains(".x"));
}

#[test]
fn negotiation_adds_to_headers() {
    let mut h = vec![("Vary".to_string(), "Origin".to_string())];
    ensure_vary_accept_encoding(&mut h);
    assert_eq!(h, vec![("Vary".to_string(), "Origin, Accept-Encoding".to_string())]);
    let mut h = vec![("ETag".to_string(), "\"abc\"".to_string())];
    vary_etag_for_encoding(&mut h, "gzip");
    assert_eq!(h[0].1, "\"abc-gzip\"");
    let h = vec![("Content-Type".to_string(), "text/css; charset=utf-8".to_string())];
    assert!(response_mime_is_compressible(&h, &vec!["text/".to_string()]));
    let h = vec![("Content-Type".to_string(), "font/woff".to_string())];
    assert!(!response_mime_is_compressible(&h, &vec!["image/svg+xml".to_string()]));
    assert!(response_mime_is_compressible(&h, &vec!["font/woff".to_string()]));
    let r = apply_custom_headers(
        HttpResponse::new(StatusCode::Okay),
        &vec![("X-A".to_string(), "1\r\nX-B: 2".to_string())],
    );
    assert_eq!(header(&r, "X-A"), Some("1X-B: 2"));
}

#[test]
fn access_lines_have_two_forms() {
    let req = request("/a\"b", &[]);
    let resp = HttpResponse::new(StatusCode::Okay).with_body(b"hello".to_vec(), "text/plain");
    assert_eq!(
        format_access_line("text", "10.0.0.1", &req, &resp, "1.50"),
        "[INFO] 10.0.0.1 \"GET /a\"b HTTP/1.1\" 200 5 1.50ms\n"
    );
    assert_eq!(
        format_access_line("JSON", "10.0.0.1", &req, &resp, "1.50"),
        "{\"remote_addr\":\"10.0.0.1\",\"method\":\"GET\",\"path\":\"/a\\\"b\",\"protocol\":\"HTTP/1.1\",\"status\":200,\"response_bytes\":5,\"duration_ms\":1.50}\n"
    );
}

#[test]
fn head_answers_have_no_body() {
    let config = ServerConfig::default();
    let handler = RequestHandler::new(&config);
    let rules = DirectoryConfig::default();
    let listed = DirectoryConfig {
        autoindex: Some(true),
        ..DirectoryConfig::default()
    };
    let folder = Facts {
        directory: Some(OpenedDirectory {
            has_index: false,
            entries: Vec::new(),
        }),
        ..nothing()
    };
    for (uri, rules, facts, status, length) in [
        ("/.veysrule", &rules, nothing(), 404, Some("13")),
        ("/missing", &rules, nothing(), 404, Some("13")),
        ("/metrics", &rules, nothing(), 200, Some("4")),
        ("/../x", &rules, nothing(), 403, None),
        ("/docs/", &listed, folder, 200, None),
        ("/a.txt", &rules, one_file("a.txt", 9), 200, Some("9")),
    ] {
        let mut req = request(uri, &[]);
        req.method = Method::Head;
        let r = handler.handle_request(&req, None, true, rules, &facts, "m 1\n");
        assert_eq!(r.status.code(), status, "{uri}");
        assert_eq!(r.body_source, BodySource::Bytes(Vec::new()), "{uri}");
        assert!(header(&r, "Content-Length").is_some(), "{uri}");
        if let Some(n) = length {
            assert_eq!(header(&r, "Content-Length"), Some(n), "{uri}");
        }
    }
    let mut req = request("/", &[]);
    req.method = Method::Head;
    let peer = Some(IpAddr::V4(1));
    let r = handler.handle_request(&req, peer, false, &rules, &nothing(), "");
    assert_eq!(r.status, StatusCode::TooManyRequests);
    assert_eq!(r.body_source, BodySource::Bytes(Vec::new()));
}

#[test]
fn index_files_are_tried_in_turn() {
    let indexes = vec!["index.html".to_string(), "home.htm".to_string()];
    assert_eq!(
        next_index("docs", &indexes, 0).as_deref(),
        Some("docs/index.html")
    );
    assert_eq!(
        next_index("docs/", &indexes, 1).as_deref(),
        Some("docs/home.htm")
    );
    assert_eq!(next_index("", &indexes, 1).as_deref(), Some("home.htm"));
    assert_eq!(next_index("docs", &indexes, 2), None);
    assert_eq!(next_index("docs", &Vec::new(), 0), None);
    assert!(has_index(&vec![false, true, false]));
    assert!(!has_index(&vec![false, false]));
    assert!(!has_index(&Vec::new()));
}
