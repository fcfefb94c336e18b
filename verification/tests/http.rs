//! HTTP/1.1 messages and connections.

use std::io::Read;
use veysrs::config::types::ServerConfig;
use veysrs::server::dispatch::{
    gateway_answer, parse_error_answer, request_timeout, server_full, sniff, status_answer,
    too_many_connections, Sniff, Target,
};
use veysrs::server::fastcgi::Progress;
use veysrs::server::http::{
    parse_http_request_from_buf, parse_http_request_from_buf_with_limits,
    parse_http_request_head_from_buf_with_limits, HttpParseError, HttpRequest, Method, StatusCode,
};
use veysrs::server::response::{write_chunked, BodySource, HttpResponse};
use veysrs::server::send::{GzipReader, ResponseSender, SendStep};
use veysrs::server::cgi_reader::BodyPiece;
use veysrs::server::session::{open_connection, Action, ClientEvent, Opening, Session};

#[test]
fn test_valid_http_1_1_request() {
    let mut buf = b"GET /index.html HTTP/1.1\r\nHost: localhost\r\n\r\n".to_vec();
    let req = parse_http_request_from_buf(&mut buf).unwrap().unwrap();
    assert_eq!(req.method, Method::Get);
    assert_eq!(req.uri, "/index.html");
    assert_eq!(req.version, "HTTP/1.1");
    assert_eq!(req.get_header("Host"), Some("localhost"));
    assert!(buf.is_empty());
}

#[test]
fn connection_header_uses_case_insensitive_tokens_and_close_wins() {
    let request = |value: &str| HttpRequest {
        method: Method::Get,
        uri: "/".to_string(),
        version: "HTTP/1.1".to_string(),
        headers: vec![("Connection".to_string(), value.to_string())],
        body: Vec::new(),
    };
    assert!(request(" keep-alive ").is_keep_alive());
    assert!(request("KEEP-ALIVE, upgrade").is_keep_alive());
    assert!(!request("keep-alive, close").is_keep_alive());
    assert!(!request(" CLOSE , keep-alive ").is_keep_alive());
    assert!(!request("close").is_keep_alive());
}

#[test]
fn test_reject_http_1_0() {
    let mut buf = b"GET / HTTP/1.0\r\nHost: localhost\r\n\r\n".to_vec();
    let err = parse_http_request_from_buf(&mut buf).unwrap_err();
    assert_eq!(err, HttpParseError::UnsupportedVersion);
}

#[test]
fn test_missing_host_header() {
    let mut buf = b"GET / HTTP/1.1\r\nUser-Agent: curl/7.68.0\r\n\r\n".to_vec();
    let err = parse_http_request_from_buf(&mut buf).unwrap_err();
    assert_eq!(err, HttpParseError::MissingHost);
}

#[test]
fn test_duplicate_host_header() {
    let mut buf = b"GET / HTTP/1.1\r\nHost: a.com\r\nHost: b.com\r\n\r\n".to_vec();
    let err = parse_http_request_from_buf(&mut buf).unwrap_err();
    assert_eq!(err, HttpParseError::MalformedHost);
}

#[test]
fn test_chunked_transfer_encoding_not_implemented() {
    let mut buf =
        b"POST / HTTP/1.1\r\nHost: localhost\r\nTransfer-Encoding: chunked\r\n\r\n".to_vec();
    let err = parse_http_request_from_buf(&mut buf).unwrap_err();
    assert_eq!(err, HttpParseError::ChunkedEncodingNotImplemented);
}

#[test]
fn test_uri_length_limit() {
    let cfg = ServerConfig {
        max_uri_length: 10,
        ..ServerConfig::default()
    };
    let mut buf = b"GET /12345678901 HTTP/1.1\r\nHost: localhost\r\n\r\n".to_vec();
    let err = parse_http_request_from_buf_with_limits(&mut buf, &cfg).unwrap_err();
    assert_eq!(err, HttpParseError::OversizedRequestLine);
}

#[test]
fn test_request_size_limit() {
    let cfg = ServerConfig {
        max_request_size: 5,
        ..ServerConfig::default()
    };
    let mut buf =
        b"POST / HTTP/1.1\r\nHost: localhost\r\nContent-Length: 10\r\n\r\n1234567890".to_vec();
    let err = parse_http_request_from_buf_with_limits(&mut buf, &cfg).unwrap_err();
    assert_eq!(err, HttpParseError::OversizedBody);
}

#[test]
fn test_header_count_limit() {
    let cfg = ServerConfig {
        max_headers: 2,
        ..ServerConfig::default()
    };
    let mut buf = b"GET / HTTP/1.1\r\nHost: localhost\r\nX-H1: 1\r\nX-H2: 2\r\n\r\n".to_vec();
    let err = parse_http_request_from_buf_with_limits(&mut buf, &cfg).unwrap_err();
    assert_eq!(err, HttpParseError::TooManyHeaders);
}

#[test]
fn test_malformed_request_never_panics() {
    let fuzz_inputs: Vec<&[u8]> = vec![
        b"",
        b"\0\0\0\0",
        b"\r\n\r\n",
        b"GET / \0 HTTP/1.1\r\nHost: localhost\r\n\r\n",
        b"GARBAGE INPUT DATA WITHOUT HTTP PROTOCOL\r\n",
        b"GET / HTTP/1.1\r\nHost: localhost\r\nContent-Length: -50\r\n\r\n",
    ];

    for input in fuzz_inputs {
        let mut buf = input.to_vec();
        let _ = parse_http_request_from_buf(&mut buf);
    }
}

fn send_file(response: &HttpResponse, file: &[u8]) -> Vec<u8> {
    let (mut wire, mut sender) = ResponseSender::send_to(response);
    let mut at = 0;
    loop {
        match sender.next() {
            SendStep::Read(wanted) => {
                let n = wanted.min(file.len() - at);
                let step = sender.feed(&file[at..at + n]);
                at += n;
                wire.extend_from_slice(&step.output);
                if let Progress::Failed(f) = step.progress {
                    panic!("{}", f.message);
                }
            }
            SendStep::Send(bytes) => wire.extend_from_slice(&bytes),
            SendStep::Done => return wire,
            SendStep::Failed(f) => panic!("{}", f.message),
        }
    }
}

fn dechunk(mut body: &[u8]) -> Vec<u8> {
    let mut out = Vec::new();
    loop {
        let end = body.windows(2).position(|w| w == b"\r\n").unwrap();
        let n = usize::from_str_radix(std::str::from_utf8(&body[..end]).unwrap(), 16).unwrap();
        if n == 0 {
            assert_eq!(&body[end..], b"\r\n\r\n");
            return out;
        }
        out.extend_from_slice(&body[end + 2..end + 2 + n]);
        body = &body[end + 2 + n + 2..];
    }
}

fn gunzip(bytes: &[u8]) -> Vec<u8> {
    let mut out = Vec::new();
    flate2::read::GzDecoder::new(bytes).read_to_end(&mut out).unwrap();
    out
}

#[test]
fn gzip_file_response_is_streamed_with_chunked_framing() {
    let mut response = HttpResponse::new(StatusCode::Okay)
        .with_header("Content-Encoding", "gzip")
        .with_header("Content-Type", "text/plain");
    response.body_source = BodySource::GzipFile(4096, 6);
    let wire = send_file(&response, &[b'a'; 4096]);
    let header_end = wire
        .windows(4)
        .position(|window| window == b"\r\n\r\n")
        .unwrap();
    assert!(std::str::from_utf8(&wire[..header_end])
        .unwrap()
        .contains("Transfer-Encoding: chunked"));
    assert!(wire[header_end + 4..]
        .windows(2)
        .any(|window| window == [0x1f, 0x8b]));
    assert_eq!(gunzip(&dechunk(&wire[header_end + 4..])), vec![b'a'; 4096]);
}

#[test]
fn files_and_ranges_are_sent_as_they_are() {
    let file: Vec<u8> = (0..200_000u32).map(|i| i as u8).collect();
    let whole = HttpResponse::new(StatusCode::Okay).with_file(200_000, "application/octet-stream");
    let wire = send_file(&whole, &file);
    assert!(wire.ends_with(&file));
    let mut part = HttpResponse::new(StatusCode::PartialContent);
    part.body_source = BodySource::FileRange(5, 10);
    let wire = send_file(&part, &file[5..]);
    assert!(wire.ends_with(b"\r\n\r\n\x05\x06\x07\x08\x09\x0a\x0b\x0c\x0d\x0e"));

    let (_, mut sender) = ResponseSender::send_to(&part);
    sender.feed(&[1, 2, 3]);
    assert!(matches!(sender.feed(&[]).progress, Progress::Failed(f)
        if f.message == "file changed while streaming response"));
}

#[test]
fn compressed_readers_give_back_what_they_took() {
    let text: Vec<u8> = (0..50_000u32).map(|i| (i % 97) as u8).collect();
    let mut reader = GzipReader::new(6);
    let mut source = text.chunks(777);
    let mut out = Vec::new();
    loop {
        match reader.read(1000).unwrap() {
            BodyPiece::Bytes(b) => out.extend_from_slice(&b),
            BodyPiece::NeedMore => reader.feed(source.next().unwrap_or(&[])),
            BodyPiece::End => break,
        }
    }
    assert!(out.len() < text.len());
    assert_eq!(gunzip(&out), text);
}

#[test]
fn compressed_files_have_the_chunks_of_the_encoder() {
    let long: Vec<u8> = (0..300_000u64)
        .map(|i| (i.wrapping_mul(6_364_136_223_846_793_005) >> 33) as u8)
        .collect();
    for file in [&b"hello"[..], &b""[..], &long] {
        let mut response = HttpResponse::new(StatusCode::Okay);
        response.body_source = BodySource::GzipFile(file.len() as u64, 6);
        let wire = send_file(&response, file);
        let start = wire.windows(4).position(|w| w == b"\r\n\r\n").unwrap() + 4;
        let mut encoder = flate2::read::GzEncoder::new(file, flate2::Compression::new(6));
        let mut expected = Vec::new();
        let mut chunk = vec![0u8; 65536];
        loop {
            let n = encoder.read(&mut chunk).unwrap();
            expected.extend(write_chunked(&chunk[..n], true));
            if n == 0 {
                break;
            }
        }
        assert_eq!(wire[start..], expected[..]);
    }
}

#[test]
fn encoders_that_wait_keep_their_header() {
    let mut reader = GzipReader::new(6);
    assert_eq!(reader.read(100), Ok(BodyPiece::NeedMore));
    reader.feed(b"body");
    assert_eq!(reader.read(100), Ok(BodyPiece::NeedMore));
    assert_eq!(reader.read(3), Ok(BodyPiece::Bytes(vec![0x1f, 0x8b, 8])));
    reader.feed(b"");
    let mut out = vec![0x1f, 0x8b, 8];
    while let Ok(BodyPiece::Bytes(b)) = reader.read(100) {
        out.extend_from_slice(&b);
    }
    assert_eq!(gunzip(&out), b"body".to_vec());
}

#[test]
fn chunks_carry_their_length() {
    assert_eq!(write_chunked(b"hello", true), b"5\r\nhello\r\n".to_vec());
    assert_eq!(write_chunked(&[b'x'; 31], true)[..4], *b"1f\r\n");
    assert_eq!(write_chunked(b"", true), b"0\r\n\r\n".to_vec());
    assert_eq!(write_chunked(b"hello", false), b"hello".to_vec());
}

#[test]
fn response_heads_name_the_connection() {
    let r = HttpResponse::new(StatusCode::NotFound).with_body(b"404".to_vec(), "text/plain");
    assert_eq!(
        r.head_text(),
        "HTTP/1.1 404 Not Found\r\nServer: veysrs/0.6.0\r\nContent-Length: 3\r\nContent-Type: text/plain\r\nConnection: keep-alive\r\n\r\n"
    );
    assert!(r
        .set_close_connection(true)
        .head_text()
        .contains("Connection: close\r\n"));
}

#[test]
fn test_reject_whitespace_before_colon() {
    let mut buf =
        b"GET / HTTP/1.1\r\nHost: localhost\r\nContent-Length : 10\r\n\r\n1234567890".to_vec();
    let err = parse_http_request_from_buf(&mut buf).unwrap_err();
    assert_eq!(err, HttpParseError::MalformedRequest);
}

#[test]
fn test_reject_obs_fold_and_non_token_header_name() {
    for request in [
        b"GET / HTTP/1.1\r\nHost: localhost\r\n Host: attacker\r\n\r\n".as_slice(),
        b"GET / HTTP/1.1\r\nHost: localhost\r\nBad(Name): value\r\n\r\n".as_slice(),
        b"GET\t/ HTTP/1.1\r\nHost: localhost\r\n\r\n".as_slice(),
    ] {
        let mut buf = request.to_vec();
        assert_eq!(
            parse_http_request_from_buf(&mut buf).unwrap_err(),
            HttpParseError::MalformedRequest
        );
    }
}

#[test]
fn test_reject_bare_lf_and_bare_cr_in_headers() {
    for request in [
        b"GET / HTTP/1.1\r\nHost: localhost\nX-Test: accepted\r\n\r\n".as_slice(),
        b"GET / HTTP/1.1\r\nHost: localhost\rX-Test: accepted\r\n\r\n".as_slice(),
    ] {
        let mut buf = request.to_vec();
        assert_eq!(
            parse_http_request_from_buf(&mut buf).unwrap_err(),
            HttpParseError::MalformedRequest
        );
    }
}

#[test]
fn test_reject_all_transfer_encodings() {
    let mut buf =
        b"POST / HTTP/1.1\r\nHost: localhost\r\nTransfer-Encoding: gzip\r\n\r\n".to_vec();
    assert_eq!(
        parse_http_request_from_buf(&mut buf).unwrap_err(),
        HttpParseError::ChunkedEncodingNotImplemented
    );
}

#[test]
fn heads_are_read_before_their_bodies() {
    let config = ServerConfig::default();
    let bytes = b"POST /x HTTP/1.1\r\nHost: h\r\nContent-Length: 4\r\n\r\nab";
    let head = parse_http_request_head_from_buf_with_limits(bytes, &config)
        .unwrap()
        .unwrap();
    assert_eq!(head.content_length, 4);
    assert_eq!(head.header_len, bytes.len() - 2);
    let mut buf = bytes.to_vec();
    assert!(parse_http_request_from_buf(&mut buf).unwrap().is_none());
    buf.extend_from_slice(b"cdGET");
    let req = parse_http_request_from_buf(&mut buf).unwrap().unwrap();
    assert_eq!(req.body, b"abcd".to_vec());
    assert_eq!(buf, b"GET".to_vec());
}

#[test]
fn other_parse_errors() {
    for (text, error) in [
        ("GET / HTTP/1.1\r\nHost: h\r\nContent-Length: x\r\n\r\n", HttpParseError::MalformedContentLength),
        ("GET / HTTP/1.1\r\nHost: h\r\nContent-Length: 1\r\nContent-Length: 2\r\n\r\n", HttpParseError::ConflictingHeaders),
        ("GET / HTTP/1.1\r\nHost: \r\n\r\n", HttpParseError::MalformedHost),
    ] {
        let mut buf = text.as_bytes().to_vec();
        assert_eq!(parse_http_request_from_buf(&mut buf).unwrap_err(), error, "{text}");
    }
    let cfg = ServerConfig { max_header_line: 40, ..ServerConfig::default() };
    let mut buf = format!("GET / HTTP/1.1\r\nHost: h\r\nX: {}\r\n\r\n", "y".repeat(60)).into_bytes();
    assert_eq!(
        parse_http_request_from_buf_with_limits(&mut buf, &cfg).unwrap_err(),
        HttpParseError::OversizedHeaderLine
    );
    let cfg = ServerConfig { max_header_size: 16, ..ServerConfig::default() };
    let mut buf = vec![b'x'; 17];
    assert_eq!(
        parse_http_request_from_buf_with_limits(&mut buf, &cfg).unwrap_err(),
        HttpParseError::OversizedHeader
    );
}

#[test]
fn methods_are_upper_case() {
    let mut buf = b"options / HTTP/1.1\r\nHost: h\r\n\r\n".to_vec();
    let req = parse_http_request_from_buf(&mut buf).unwrap().unwrap();
    assert_eq!(req.method, Method::Other("OPTIONS".to_string()));
    assert_eq!(Method::from("stra\u{df}e"), Method::Other("STRASSE".to_string()));
}

#[test]
fn statuses_have_numbers_and_phrases() {
    assert_eq!(StatusCode::from_u16(404), StatusCode::NotFound);
    assert_eq!(StatusCode::NotFound.code(), 404);
    assert_eq!(StatusCode::NotFound.reason_phrase(), "Not Found");
    assert_eq!(StatusCode::from(HttpParseError::OversizedBody), StatusCode::PayloadTooLarge);
}

#[test]
fn the_preface_decides_the_protocol() {
    assert_eq!(sniff(b"PRI * HT"), Sniff::More);
    assert_eq!(sniff(b"PRI * HTTP/2.0\r\n\r\nSM\r\n\r\n\x00"), Sniff::Http2);
    assert_eq!(sniff(b"GET / HT"), Sniff::Http1);
    let mut b = Vec::new();
    let data = |s: &[u8]| ClientEvent::Data(s.to_vec());
    assert_eq!(open_connection(&mut b, &data(b"PRI"), true, false), Opening::Read);
    assert_eq!(open_connection(&mut b, &ClientEvent::Timeout, true, false), Opening::Read);
    assert_eq!(open_connection(&mut b, &ClientEvent::Timeout, true, true), Opening::Http1);
    assert_eq!(open_connection(&mut b, &ClientEvent::Closed, true, true), Opening::Close);
    assert_eq!(open_connection(&mut b, &data(b"x"), false, false), Opening::Http1);
    assert_eq!(b, b"PRIx".to_vec());
}

#[test]
fn sessions_serve_one_request_after_the_other() {
    let config = ServerConfig { max_requests_per_connection: 2, ..ServerConfig::default() };
    let text = "GET /a HTTP/1.1\r\nHost: h\r\n\r\n";
    let mut s = Session::new(text.repeat(2).into_bytes());
    match s.next(&config) {
        Action::Serve(Target::Files, q, last) => {
            assert_eq!(q.uri, "/a");
            assert!(!last);
        }
        other => panic!("{other:?}"),
    }
    assert!(matches!(s.next(&config), Action::Serve(Target::Files, _, true)));
    assert!(matches!(s.next(&config), Action::Read));
    assert!(s.read(&ClientEvent::Data(b"GARBAGE\r\n\r\n".to_vec())).is_none());
    match s.next(&config) {
        Action::Answer(r) => assert_eq!(r.status, StatusCode::BadRequest),
        other => panic!("{other:?}"),
    }
    assert!(matches!(s.read(&ClientEvent::Timeout), Some(Action::Answer(_))));
    let mut s = Session::new(Vec::new());
    assert!(matches!(s.read(&ClientEvent::Timeout), Some(Action::Close)));
}

#[test]
fn answers_close_the_connection() {
    for (r, status, text) in [
        (status_answer(StatusCode::BadRequest), 400, "400 Bad Request"),
        (gateway_answer("broken"), 502, "502 Bad Gateway: broken"),
        (too_many_connections(), 429, "429 Too Many Requests"),
        (server_full(), 503, "503 Service Unavailable: Maximum connection limit reached"),
        (request_timeout(), 408, "408 Request Timeout"),
        (parse_error_answer(HttpParseError::OversizedHeader).unwrap(), 431, "431 Request Header Fields Too Large"),
    ] {
        assert_eq!(r.status.code(), status);
        assert_eq!(r.body_source, BodySource::Bytes(text.as_bytes().to_vec()));
        assert!(r.close_connection);
    }
    assert!(parse_error_answer(HttpParseError::ConnectionClosed).is_none());
}

#[test]
fn later_bytes_change_no_refusal() {
    let config = ServerConfig {
        max_header_size: 64,
        ..ServerConfig::default()
    };
    for bytes in [
        b"GET / HTTP/1.0\r\nHost: a\r\n\r\n".to_vec(),
        b"GET / HTTP/1.1\r\n\r\n".to_vec(),
        vec![b'a'; 65],
    ] {
        let refusal = parse_http_request_head_from_buf_with_limits(&bytes, &config).err();
        assert!(refusal.is_some());
        let mut longer = bytes.clone();
        longer.extend_from_slice(b"\r\nHost: b\r\n\r\n");
        assert_eq!(
            parse_http_request_head_from_buf_with_limits(&longer, &config).err(),
            refusal
        );
    }
}
