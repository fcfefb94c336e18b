//! Proxy upstreams, FastCGI and WebSocket relays.

use flate2::read::GzDecoder;
use std::io::Read;
use veysrs::config::types::{FastCgiRoute, ProxyRoute, ServerConfig};
use veysrs::server::cgi_reader::{BodyPiece, CgiReader, H2FastCgiPending};
use veysrs::server::cgi_request::{
    closing_record, fastcgi_endpoint, method_served, opening_records, outside_root,
    refuse_request, request_records, stderr_message, Endpoint,
};
use veysrs::server::checker::{checker_needed, checks_of, next_nap, Retries};
use veysrs::server::connect::{unavailable, upstream_authority, Round, RoundEvent, RoundStep};
use veysrs::server::dispatch::{body_target, gateway_answer, request_target, stream_target, Target};
use veysrs::server::fastcgi::{
    is_below, percent_decode, script_path, select_route as select_fastcgi, Progress,
    ResponseStream,
};
use veysrs::server::fault::FaultKind;
use veysrs::server::front::{controller_request, front_controller};
use veysrs::server::health::{
    health_settings, probe_answer, probe_goes_on, Gate, HealthSettings, HealthTable, RoundRobin,
    HEALTH_COOLDOWN,
};
use veysrs::server::http::{HttpRequest, Method, StatusCode};
use veysrs::server::pool::{
    health_key, pool_key, IdlePool, UpstreamBudget, IDLE_UPSTREAM_TTL, MAX_ACTIVE_UPSTREAMS,
    MAX_IDLE_UPSTREAMS,
};
use veysrs::server::proxy::{
    body_left, candidate_at, candidates_of, is_websocket_upgrade, request_head, retry_attempts,
    select_route, take_buffered,
};
use veysrs::server::proxy_head::{parse_captured_response, parse_upstream_head};
use veysrs::server::proxy_stream::{H2ProxyPending, UpstreamRelay};
use veysrs::server::record::{
    append_param, build_params, named_params, parse_h2_fastcgi_headers, send_record, send_records, take_record,
    END_REQUEST, FCGI_VERSION, MAX_RECORD, STDERR, STDIN, STDOUT,
};
use veysrs::server::response::BodySource;
use veysrs::server::websocket::{
    check_upgrade, judge_upgrade, upgrade_head, upgrade_progress, valid_upgrade,
    websocket_accept, IoEvent, RelayState, UpgradeProgress,
};

fn request(uri: &str, headers: &[(&str, &str)]) -> HttpRequest {
    HttpRequest {
        method: Method::Get,
        uri: uri.to_string(),
        version: "HTTP/1.1".to_string(),
        headers: headers
            .iter()
            .map(|(k, v)| (k.to_string(), v.to_string()))
            .collect(),
        body: Vec::new(),
    }
}

fn proxy(host: &str, prefix: &str, upstream: &str) -> ProxyRoute {
    ProxyRoute {
        host: host.to_string(),
        prefix: prefix.to_string(),
        upstream: upstream.to_string(),
    }
}

#[test]
fn encodes_short_and_long_parameter_lengths() {
    let mut output = Vec::new();
    append_param(&mut output, b"A", &[b'x'; 128]);
    assert_eq!(output[0], 1);
    assert_eq!(
        u32::from_be_bytes([output[1], output[2], output[3], output[4]]),
        0x8000_0080
    );
}

/// Runs the records of a responder through a stream, as they would be read.
fn run_stream(wire: Vec<u8>, accept_gzip: bool) -> (Vec<u8>, Progress) {
    let mut wire = wire;
    let mut stream = ResponseStream::new(4096, false, accept_gzip, 6);
    let mut client = Vec::new();
    while let Some((kind, data)) = take_record(&mut wire).unwrap() {
        let step = stream.stream_response(kind, &data);
        client.extend_from_slice(&step.output);
        if step.progress != Progress::More {
            return (client, step.progress);
        }
    }
    panic!("the responder did not finish")
}

fn record(kind: u8, data: &[u8]) -> Vec<u8> {
    let mut header = [0u8; 8];
    header[0] = FCGI_VERSION;
    header[1] = kind;
    header[2..4].copy_from_slice(&1u16.to_be_bytes());
    header[4..6].copy_from_slice(&(data.len() as u16).to_be_bytes());
    let mut wire = header.to_vec();
    wire.extend_from_slice(data);
    wire
}

#[test]
fn h1_fastcgi_response_gzip_is_streamed() {
    let mut wire = record(
        STDOUT,
        b"Status: 200 OK\r\nContent-Type: text/plain\r\n\r\nhello",
    );
    wire.extend(record(END_REQUEST, &[0; 8]));
    let (client, progress) = run_stream(wire, true);
    assert_eq!(progress, Progress::Done);
    let marker = client.windows(4).position(|w| w == b"\r\n\r\n").unwrap() + 4;
    let mut decoder = GzDecoder::new(&client[marker..]);
    let mut body = String::new();
    std::io::Read::read_to_string(&mut decoder, &mut body).unwrap();
    assert_eq!(body, "hello");
    let headers = String::from_utf8_lossy(&client[..marker]);
    assert!(headers.contains("Content-Encoding: gzip"));
    assert!(headers.contains("Vary: Accept-Encoding"));
    let lines: Vec<&str> = headers.split("\r\n").collect();
    assert!(lines.contains(&"Content-Encoding: gzip"));
    assert!(lines.contains(&"Vary: Accept-Encoding"));
    assert!(lines.contains(&"Connection: close"));
}

#[test]
fn fastcgi_rejects_malformed_status_names_and_framing_headers() {
    for headers in [
        b"Status nope\r\n\r\n".as_slice(),
        b"Status: nope\r\n\r\n".as_slice(),
        b"Bad(Name): value\r\n\r\n".as_slice(),
        b"Transfer-Encoding: chunked\r\n\r\n".as_slice(),
        b"Content-Length: 1\r\nContent-Length: 2\r\n\r\n".as_slice(),
    ] {
        assert!(parse_h2_fastcgi_headers(headers).is_err(), "{headers:?}");
    }

    let mut wire = record(STDOUT, b"Status: nope\r\nContent-Type: text/plain\r\n\r\n");
    wire.extend(record(END_REQUEST, &[0; 8]));
    let (_, progress) = run_stream(wire, false);
    assert!(matches!(progress, Progress::Failed(_)));
}

#[test]
fn responders_keep_to_their_announced_length() {
    for (body, fine) in [("hello", true), ("hell", false), ("hello!", false)] {
        let mut wire = record(STDOUT, b"Content-Length: 5\r\n");
        wire.extend(record(STDOUT, format!("\r\n{body}").as_bytes()));
        wire.extend(record(END_REQUEST, &[0; 8]));
        let (client, progress) = run_stream(wire, false);
        assert_eq!(progress, Progress::Done, "{body}");
        let text = String::from_utf8(client).unwrap();
        assert!(text.starts_with("HTTP/1.1 200 OK\r\n"));
        assert_eq!(text.ends_with("\r\n\r\nhello"), fine, "{body}");
        assert_eq!(text.contains("HTTP/1.1 502 Bad Gateway\r\n"), !fine, "{body}");
    }
}

#[test]
fn rejects_encoded_traversal_in_script_path() {
    let req = HttpRequest {
        method: Method::Get,
        uri: "/%2e%2e/etc/passwd".to_string(),
        version: "HTTP/1.1".to_string(),
        headers: vec![("Host".to_string(), "example.test".to_string())],
        body: Vec::new(),
    };
    assert!(script_path(&req).is_err());
}

#[test]
fn scripts_are_named_by_their_path() {
    assert_eq!(script_path(&request("/a/b.php?x=1", &[])).unwrap(), "a/b.php");
    assert!(script_path(&request("/", &[])).is_err());
    assert_eq!(percent_decode("/a%20b"), Some("/a b".to_string()));
    assert_eq!(percent_decode("/a%2"), None);
    assert!(is_below("/srv/www", "/srv/www/app"));
    assert!(!is_below("/srv/www", "/srv/wwwapp"));
    assert!(outside_root("/srv/www", "/srv/www/app").is_none());
    assert_eq!(
        outside_root("/srv/www", "/etc").unwrap().kind,
        FaultKind::PermissionDenied
    );
}

#[test]
fn records_read_back() {
    let mut wire = send_record(STDIN, b"hello").unwrap();
    assert_eq!(&wire[..6], &[FCGI_VERSION, STDIN, 0, 1, 0, 5]);
    assert_eq!(take_record(&mut wire).unwrap(), Some((STDIN, b"hello".to_vec())));
    assert!(wire.is_empty());
    assert!(send_record(STDIN, &vec![0; MAX_RECORD + 1]).is_err());
    let mut wire = send_records(STDIN, &vec![7; 100_000]);
    let mut all = Vec::new();
    while let Some((kind, data)) = take_record(&mut wire).unwrap() {
        assert_eq!(kind, STDIN);
        all.extend(data);
    }
    assert_eq!(all, vec![7; 100_000]);
    let mut broken = vec![9, 6, 0, 1, 0, 0, 0, 0];
    assert!(take_record(&mut broken).is_err());
}

#[test]
fn requests_are_framed_for_the_responder() {
    let req = request("/a.php?x=1", &[("Host", "h:8080"), ("X-Test", "yes")]);
    let params = build_params(&req, "/srv", "/srv/a.php", true, "10.0.0.1", 3);
    let text = String::from_utf8_lossy(&params).to_string();
    for part in [
        "SCRIPT_FILENAME/srv/a.php",
        "QUERY_STRINGx=1",
        "HTTP_X_TESTyes",
        "REMOTE_ADDR10.0.0.1",
        "CONTENT_LENGTH3",
    ] {
        assert!(text.contains(part), "{part}");
    }
    let whole = request_records(&params, b"abc");
    let mut parts = opening_records(&params);
    parts.extend(send_records(STDIN, b"abc"));
    parts.extend(closing_record());
    assert_eq!(whole, parts);
}

#[test]
fn parameters_and_body_end_with_empty_records() {
    let mut expected = vec![1, 1, 0, 1, 0, 8, 0, 0, 0, 1, 0, 0, 0, 0, 0, 0];
    expected.extend([1, 4, 0, 1, 0, 2, 6, 0, b'a', b'b', 0, 0, 0, 0, 0, 0]);
    expected.extend([1, 4, 0, 1, 0, 0, 0, 0]);
    expected.extend([1, 5, 0, 1, 0, 1, 7, 0, b'x', 0, 0, 0, 0, 0, 0, 0]);
    expected.extend([1, 5, 0, 1, 0, 0, 0, 0]);
    assert_eq!(request_records(b"ab", b"x"), expected);
}

#[test]
fn other_methods_are_refused_before_the_responder() {
    let put = HttpRequest {
        method: Method::Other("PUT".to_string()),
        ..request("/a.php", &[])
    };
    assert!(!method_served(&put.method));
    assert_eq!(
        refuse_request(&put, "/srv", "/srv").unwrap().status,
        StatusCode::MethodNotAllowed
    );
    assert!(refuse_request(&request("/a.php", &[]), "/srv", "/srv").is_none());
    assert_eq!(
        refuse_request(&request("/a.php", &[]), "/srv", "/etc").unwrap().status,
        StatusCode::BadGateway
    );
}

#[test]
fn complaints_of_responders_are_one_line() {
    assert_eq!(stderr_message(&[b'x'; 4097]), None);
    let line = stderr_message(b"bad\xffnews\nhere").unwrap();
    assert!(line.contains("bad\u{fffd}news here"), "{line}");
}

#[test]
fn readers_give_back_the_body() {
    let mut pending = H2FastCgiPending::new(4096, false);
    assert!(pending.poll(false).unwrap().is_none());
    pending.feed(&record(STDERR, b"noise"));
    pending.feed(&record(STDOUT, b"Content-Length: 6\r\n\r\nfoo"));
    let ready = pending.poll(false).unwrap().unwrap();
    assert_eq!(ready.response.status, StatusCode::Okay);
    assert!(ready.has_body);
    assert_eq!(ready.length, Some(6));
    let mut reader: CgiReader = pending.into_reader();
    assert_eq!(reader.read(2), Ok(BodyPiece::Bytes(b"fo".to_vec())));
    assert_eq!(reader.read(9), Ok(BodyPiece::Bytes(b"o".to_vec())));
    assert_eq!(reader.read(9), Ok(BodyPiece::NeedMore));
    reader.feed(&record(STDOUT, b"bar"));
    reader.feed(&record(END_REQUEST, &[0; 8]));
    assert_eq!(reader.read(9), Ok(BodyPiece::Bytes(b"bar".to_vec())));
    assert_eq!(reader.read(9), Ok(BodyPiece::End));
    assert!(H2FastCgiPending::new(4096, false).poll(true).is_err());
}

fn relay_all(state: &mut RelayState, from_upstream: &[u8]) -> (Vec<u8>, Vec<u8>) {
    let mut client = Vec::new();
    let mut upstream = Vec::new();
    let mut left = from_upstream.to_vec();
    for now in 0..10u64 {
        state.begin_round();
        if state.wants_client() {
            state.client_read(&IoEvent::Closed, now);
        }
        if state.wants_upstream() {
            let event = if left.is_empty() {
                IoEvent::Closed
            } else {
                IoEvent::Data(std::mem::take(&mut left))
            };
            state.upstream_read(&event, now);
        }
        let n = state.for_upstream().len();
        if n > 0 {
            upstream.extend_from_slice(state.for_upstream());
            state.upstream_written(&IoEvent::Wrote(n), now);
        }
        let n = state.for_client().len();
        if n > 0 {
            client.extend_from_slice(state.for_client());
            state.client_written(&IoEvent::Wrote(n), now);
        }
        if state.over(now, 1000) {
            return (client, upstream);
        }
    }
    panic!("the relay goes on")
}

#[test]
fn websocket_relay_delivers_upstream_data_without_client_input() {
    let mut state = RelayState::new(0);
    let (client, upstream) = relay_all(&mut state, b"server-first");
    assert_eq!(client, b"server-first");
    assert!(upstream.is_empty());
}

#[test]
fn retries_only_safe_methods_and_keeps_pool_keys_vhost_scoped() {
    let route_a = ProxyRoute {
        host: "a.example".to_string(),
        prefix: "/api".to_string(),
        upstream: "http://127.0.0.1:1".to_string(),
    };
    let route_b = ProxyRoute {
        host: "b.example".to_string(),
        ..route_a.clone()
    };
    assert_ne!(
        pool_key(&route_a, &route_a.upstream),
        pool_key(&route_b, &route_b.upstream)
    );
    assert_ne!(
        pool_key(&route_a, "http://127.0.0.1:2"),
        pool_key(&route_a, &route_a.upstream)
    );
    assert_eq!(retry_attempts(&Method::Get), 2);
    assert_eq!(retry_attempts(&Method::Head), 2);
    assert_eq!(retry_attempts(&Method::Other("OPTIONS".to_string())), 2);
    assert_eq!(retry_attempts(&Method::Post), 1);
}

#[test]
fn upstream_budget_is_bounded_and_raii_released() {
    let mut budget = UpstreamBudget::new();
    let mut permits = 0;
    while budget.acquire_upstream_permit().is_ok() {
        permits += 1;
        assert!(permits <= MAX_ACTIVE_UPSTREAMS);
    }
    assert!(budget.acquire_upstream_permit().is_err());
    for _ in 0..permits {
        budget.release();
    }
    assert!(budget.acquire_upstream_permit().is_ok());
}

#[test]
fn permits_are_counted() {
    let mut budget = UpstreamBudget::new();
    assert_eq!(budget.in_use(), 0);
    assert!(budget.acquire_upstream_permit().is_ok());
    assert!(budget.acquire_upstream_permit().is_ok());
    assert_eq!(budget.in_use(), 2);
    budget.release();
    assert_eq!(budget.in_use(), 1);
}

#[test]
fn active_health_probe_checks_status_and_handles_failure() {
    assert!(probe_answer(
        b"HTTP/1.1 204 No Content\r\nContent-Length: 0\r\n\r\n"
    ));
    assert!(probe_answer(b"HTTP/1.0 399 x\r\n\r\n"));
    assert!(!probe_answer(b"HTTP/1.1 500 Oops\r\n\r\n"));
    assert!(!probe_answer(b""));
    assert!(probe_goes_on(b"HTTP/1.1 204 No"));
    assert!(!probe_goes_on(b"HTTP/1.1 204 No Content\r\n\r\n"));
}

#[test]
fn probes_take_upstreams_out_and_back_in() {
    let mut table = HealthTable::new();
    table.mark_probe_failed("k", 2, 0);
    assert!(table.health_available("k", 0, 0));
    table.mark_probe_failed("k", 2, 0);
    assert!(!table.health_available("k", 0, 0));
    table.mark_probe_healthy("k", 2);
    assert!(!table.health_available("k", 0, 0));
    table.mark_probe_healthy("k", 2);
    assert!(table.health_available("k", 0, 0));
    assert!(table.health_probe_due("k", 100, 0));
    table.begin_probe("k", 5);
    assert!(!table.health_probe_due("k", 100, 104));
    assert!(table.health_probe_due("k", 100, 105));
    assert_eq!(table.gate("k", 0, 104), Gate::Use);
}

#[test]
fn health_settings_come_from_the_configuration() {
    let config = ServerConfig {
        upstream_health_interval: 3,
        upstream_health_timeout: 2,
        ..ServerConfig::default()
    };
    let s = health_settings(&config);
    assert_eq!((s.interval, s.timeout), (3, 2));
    assert_eq!(HealthSettings::default().interval, 0);
}

#[test]
fn idle_pool_reuses_connection_for_same_route_only() {
    let route = proxy("pool", "/", "http://127.0.0.1:1");
    let other = ProxyRoute {
        host: "other-vhost".to_string(),
        ..route.clone()
    };
    let mut pool: IdlePool<u32> = IdlePool::new();
    pool.return_pooled(&pool_key(&route, &route.upstream), 7, 0);
    assert_eq!(
        pool.take_pooled(&pool_key(&route, &route.upstream), 1),
        Some(7)
    );
    assert!(pool
        .take_pooled(&pool_key(&other, &other.upstream), 1)
        .is_none());
}

#[test]
fn idle_connections_grow_old_and_are_few() {
    let mut pool: IdlePool<u32> = IdlePool::new();
    pool.return_pooled("k", 1, 0);
    assert!(pool.take_pooled("k", IDLE_UPSTREAM_TTL + 1).is_none());
    for i in 0..100 {
        pool.return_pooled("k", i, 50_000);
    }
    assert_eq!(pool.len(), MAX_IDLE_UPSTREAMS);
    pool.shutdown_pool();
    assert_eq!(pool.len(), 0);
}

#[test]
fn pooling_preserves_round_robin_candidate_selection() {
    let route = proxy("rr", "/", "http://127.0.0.1:1,http://127.0.0.1:2");
    let mut turns = RoundRobin::new();
    let mut health = HealthTable::new();
    let mut picks = Vec::new();
    for _ in 0..3 {
        let mut round = Round::begin(&route, &mut turns).unwrap();
        match round.next(&route, &mut health, 0, RoundEvent::Begin, 0) {
            RoundStep::Connect(c) => picks.push(c),
            other => panic!("{other:?}"),
        }
    }
    assert_ne!(picks[0], picks[1]);
    assert_eq!(picks[0], picks[2]);
}

#[test]
fn rounds_try_every_upstream_once() {
    let route = proxy("r", "/", "http://127.0.0.1:1,http://127.0.0.1:2");
    let mut turns = RoundRobin::new();
    let mut health = HealthTable::new();
    let mut round = Round::begin(&route, &mut turns).unwrap();
    let mut event = RoundEvent::Begin;
    let mut tried = 0;
    loop {
        match round.next(&route, &mut health, 0, event, 0) {
            RoundStep::Connect(_) => tried += 1,
            RoundStep::GiveUp => break,
            RoundStep::Probe(_) => panic!("no probes"),
        }
        event = RoundEvent::Failed;
    }
    assert_eq!(tried, 2);
    assert_eq!(unavailable().kind, FaultKind::ConnectionRefused);
    assert_eq!(
        candidates_of(&route),
        vec!["http://127.0.0.1:1".to_string(), "http://127.0.0.1:2".to_string()]
    );
    assert_eq!(candidate_at(5, 1, 4), 2);
    let mut round = Round::begin(&route, &mut turns).unwrap();
    assert!(matches!(
        round.next(&route, &mut health, 1000, RoundEvent::Begin, 0),
        RoundStep::Probe(_)
    ));
    assert!(matches!(
        round.next(&route, &mut health, 1000, RoundEvent::Probed(true), 0),
        RoundStep::Connect(_)
    ));
}

fn stream_all(answer: &[u8], accept_gzip: bool) -> (Vec<u8>, Progress, bool) {
    let mut relay = UpstreamRelay::new(4096, false, accept_gzip, 6);
    let mut client = Vec::new();
    let mut at = 0;
    loop {
        let n = relay.wanted().min(answer.len() - at);
        let step = relay.stream_upstream_response(&answer[at..at + n]);
        at += n;
        client.extend_from_slice(&step.output);
        if step.progress != Progress::More {
            return (client, step.progress, relay.reusable());
        }
    }
}

#[test]
fn streams_fixed_length_response_and_filters_hop_by_hop() {
    let (client, progress, _) = stream_all(
        b"HTTP/1.1 201 Created\r\nContent-Length: 5\r\nConnection: keep-alive\r\nX-Test: ok\r\n\r\nhello",
        false,
    );
    assert_eq!(progress, Progress::Done);
    let output = String::from_utf8(client).unwrap();
    assert!(output.starts_with("HTTP/1.1 201 Created\r\n"));
    assert!(output.contains("X-Test: ok\r\n"));
    assert!(!output.contains("keep-alive"));
    assert!(output.contains("Connection: close\r\n\r\nhello"));
    assert!(output.ends_with("\r\n\r\nhello"));
}

#[test]
fn streams_dynamic_gzip_without_buffering_body() {
    let (client, progress, _) = stream_all(
        b"HTTP/1.1 200 OK\r\nContent-Length: 5\r\nContent-Type: text/plain\r\n\r\nhello",
        true,
    );
    assert_eq!(progress, Progress::Done);
    let split = client
        .windows(4)
        .position(|window| window == b"\r\n\r\n")
        .unwrap();
    let headers = std::str::from_utf8(&client[..split]).unwrap();
    assert!(headers.contains("Content-Encoding: gzip"));
    assert!(!headers.contains("Content-Length:"));
    let lines: Vec<&str> = headers.split("\r\n").collect();
    assert!(lines.contains(&"Vary: Accept-Encoding"));
    assert!(lines.contains(&"Connection: close"));
    assert!(client[split + 4..]
        .windows(2)
        .any(|window| window == [0x1f, 0x8b]));
    let mut body = String::new();
    GzDecoder::new(&client[split + 4..])
        .read_to_string(&mut body)
        .unwrap();
    assert_eq!(body, "hello");
}

#[test]
fn does_not_pool_http10_close_delimited_semantics() {
    let (client, progress, reusable) =
        stream_all(b"HTTP/1.0 200 OK\r\nContent-Length: 5\r\n\r\nhello", false);
    assert_eq!(progress, Progress::Done);
    assert!(!reusable);
    assert!(String::from_utf8_lossy(&client).contains("hello"));
    let (_, _, reusable) =
        stream_all(b"HTTP/1.1 200 OK\r\nContent-Length: 5\r\n\r\nhello", false);
    assert!(reusable);
}

#[test]
fn truncated_bodies_fail() {
    let (_, progress, _) =
        stream_all(b"HTTP/1.1 200 OK\r\nContent-Length: 9\r\n\r\nhello", false);
    assert!(matches!(progress, Progress::Failed(_)));
    let (client, progress, reusable) = stream_all(b"HTTP/1.1 200", false);
    assert_eq!(progress, Progress::Done);
    assert!(client.starts_with(b"HTTP/1.1 502 Bad Gateway\r\n"));
    assert!(!reusable);
    assert_eq!(body_left(5, 2).unwrap(), 3);
    assert!(body_left(5, 0).is_err());
}

#[test]
fn failed_upstream_enters_bounded_health_cooldown() {
    let key = "http://health-test.invalid:1";
    let mut table = HealthTable::new();
    table.mark_failed(key, 0);
    table.mark_failed(key, 0);
    assert!(table.health_available(key, 0, 0));
    table.mark_failed(key, 0);
    assert!(!table.health_available(key, 0, 0));
    assert!(!table.health_available(key, 0, HEALTH_COOLDOWN - 1));
    assert!(table.health_available(key, 0, HEALTH_COOLDOWN));
    assert!(!table.health_available(key, 1, HEALTH_COOLDOWN));
    assert_eq!(table.gate(key, 0, 1), Gate::Skip);
    assert_eq!(table.gate(key, 0, HEALTH_COOLDOWN - 1), Gate::Skip);
    assert_eq!(table.gate(key, 0, HEALTH_COOLDOWN), Gate::Use);
    assert_eq!(table.gate(key, 1000, HEALTH_COOLDOWN), Gate::Probe);
    table.mark_healthy(key);
    assert!(table.health_available(key, 0, 0));
}

#[test]
fn health_state_isolated_by_route_key() {
    let route_a = ProxyRoute {
        host: "a.example".to_string(),
        prefix: "/api".to_string(),
        upstream: "http://127.0.0.1:1".to_string(),
    };
    let route_b = ProxyRoute {
        host: "b.example".to_string(),
        ..route_a.clone()
    };
    let key_a = health_key(&route_a, &route_a.upstream);
    let key_b = health_key(&route_b, &route_b.upstream);
    let mut table = HealthTable::new();
    table.mark_failed(&key_a, 0);
    table.mark_failed(&key_a, 0);
    table.mark_failed(&key_a, 0);
    assert!(!table.health_available(&key_a, 0, 0));
    assert!(table.health_available(&key_b, 0, 0));
}

#[test]
fn websocket_accept_matches_rfc_example() {
    assert_eq!(
        websocket_accept("dGhlIHNhbXBsZSBub25jZQ=="),
        "s3pPLMBiTxaQ9kYGzzhZRbK+xOo="
    );
}

#[test]
fn upgrades_are_checked_on_both_sides() {
    let req = request(
        "/chat",
        &[
            ("Host", "h"),
            ("Connection", "keep-alive, Upgrade"),
            ("Upgrade", "websocket"),
            ("Sec-WebSocket-Key", "dGhlIHNhbXBsZSBub25jZQ=="),
            ("Sec-WebSocket-Version", "13"),
        ],
    );
    assert!(is_websocket_upgrade(&req));
    assert!(valid_upgrade(&req));
    let mut short = req.clone();
    short.headers[3].1 = "c2hvcnQ=".to_string();
    assert!(!valid_upgrade(&short));
    short.headers[3].1 = "!!".to_string();
    assert!(!valid_upgrade(&short));
    let mut old = req.clone();
    old.headers[4].1 = "8".to_string();
    assert!(!valid_upgrade(&old));
    assert!(upgrade_head(&req).starts_with("GET /chat HTTP/1.1\r\n"));

    let answer = b"HTTP/1.1 101 Switching Protocols\r\nUpgrade: websocket\r\nConnection: Upgrade\r\nSec-WebSocket-Accept: s3pPLMBiTxaQ9kYGzzhZRbK+xOo=\r\n\r\n";
    assert_eq!(upgrade_progress(&answer[..20]), UpgradeProgress::More);
    assert_eq!(upgrade_progress(answer), UpgradeProgress::Complete);
    assert_eq!(check_upgrade(&req, answer), None);
    assert!(judge_upgrade(answer, "other").is_some());
    assert!(check_upgrade(&req, b"HTTP/1.1 200 OK\r\n\r\n").is_some());
}

#[test]
fn rejects_truncated_upstream_headers() {
    assert!(parse_captured_response(b"HTTP/1.1 200 OK\r\nX-Test: yes\r\n").is_err());
}

#[test]
fn captured_responses_keep_their_body() {
    let r = parse_captured_response(
        b"HTTP/1.1 201 Created\r\nContent-Length: 5\r\nConnection: close\r\nX-Test: yes\r\n\r\nhello",
    )
    .unwrap();
    assert_eq!(r.status, StatusCode::Created);
    assert_eq!(r.body_source, BodySource::Bytes(b"hello".to_vec()));
    assert!(r.headers.iter().any(|h| h.0 == "X-Test"));
    assert!(!r.headers.iter().any(|h| h.0 == "Connection"));
}

#[test]
fn h2_header_poll_is_nonblocking_before_upstream_headers() {
    let pending = H2ProxyPending::new(4096, false);
    assert!(pending.poll(false).unwrap().is_none());
    assert_eq!(pending.poll(true).unwrap_err().kind, FaultKind::TimedOut);
}

#[test]
fn h2_header_parser_rejects_malformed_and_oversized_headers() {
    assert!(parse_upstream_head(b"HTTP/1.1 200 OK\r\nBad Header: x\r\n\r\n").is_err());
    let oversized = format!("HTTP/1.1 200 OK\r\nX-Test: {}\r\n\r\n", "x".repeat(100));
    let mut pending = H2ProxyPending::new(16, false);
    pending.feed(oversized.as_bytes());
    assert!(pending.poll(false).is_err());
    let mut pending = H2ProxyPending::new(4096, false);
    pending.feed(b"HTTP/1.1 200 OK\r\nContent-Length: 5\r\n\r\nhe");
    let (ready, prefix) = pending.poll(false).unwrap().unwrap();
    assert_eq!(ready.length, Some(5));
    assert_eq!(prefix, b"he".to_vec());
}

#[test]
fn configured_upstream_failure_becomes_bad_gateway() {
    let mut config = ServerConfig::default();
    config
        .proxy_routes
        .push(proxy("example.test", "/api/", "http://127.0.0.1:1"));
    let req = HttpRequest {
        version: "HTTP/2.0".to_string(),
        ..request("/api/fail", &[("Host", "example.test")])
    };
    assert_eq!(request_target(&req, &config), Target::Proxy);
    let route = select_route(&req, &config).unwrap();
    let mut round = Round::begin(route, &mut RoundRobin::new()).unwrap();
    let mut health = HealthTable::new();
    assert_eq!(
        round.next(route, &mut health, 0, RoundEvent::Begin, 0),
        RoundStep::Connect("http://127.0.0.1:1".to_string())
    );
    assert_eq!(
        round.next(route, &mut health, 0, RoundEvent::Failed, 0),
        RoundStep::GiveUp
    );
    let response = gateway_answer(unavailable().message);
    assert_eq!(response.status, StatusCode::BadGateway);
}

#[test]
fn the_longest_prefix_is_chosen() {
    let mut config = ServerConfig::default();
    config.proxy_routes.push(proxy("*", "/", "http://a:1"));
    config.proxy_routes.push(proxy("h", "/api", "http://b:1"));
    config.fastcgi_routes.push(FastCgiRoute {
        host: "*".to_string(),
        prefix: "/php".to_string(),
        endpoint: "unix:/tmp/php.sock".to_string(),
        document_root: "/srv".to_string(),
    });
    let api = request("/api/x", &[("Host", "h")]);
    assert_eq!(select_route(&api, &config).unwrap().upstream, "http://b:1");
    let other = request("/x", &[("Host", "h")]);
    assert_eq!(select_route(&other, &config).unwrap().upstream, "http://a:1");
    let php = request("/php/x.php", &[("Host", "h")]);
    assert_eq!(select_fastcgi(&php, &config).unwrap().prefix, "/php");
    config.proxy_routes.clear();
    assert_eq!(request_target(&php, &config), Target::FastCgi);
    assert_eq!(stream_target(&php, &config), Target::FastCgi);
    assert_eq!(body_target(&php, &config), None);
    let post = HttpRequest {
        method: Method::Post,
        ..php.clone()
    };
    assert_eq!(body_target(&post, &config), Some(Target::FastCgi));
    assert_eq!(request_target(&other, &config), Target::Files);
    assert_eq!(body_target(&other, &config), None);
}

#[test]
fn forwarded_requests_name_the_client() {
    let route = proxy("*", "/", "http://a:1");
    let req = request(
        "/x",
        &[("Host", "h"), ("Connection", "close"), ("X-Forwarded-For", "9.9.9.9"), ("X-A", "1")],
    );
    let head = request_head(&req, &route, "10.0.0.1", true, true, 0);
    assert!(head.starts_with("GET x HTTP/1.1\r\nX-Forwarded-For: 9.9.9.9\r\n"), "{head}");
    assert!(head.contains("Host: h\r\nX-Forwarded-For: 10.0.0.1\r\n"), "{head}");
    assert!(head.contains("X-Forwarded-Proto: https\r\n"));
    assert!(head.contains("X-A: 1\r\n"));
    assert!(!head.contains("close"));
    let api = proxy("*", "/x", "http://a:1");
    assert!(request_head(&req, &api, "10.0.0.1", false, false, 0).starts_with("GET / HTTP/1.1\r\n"));
    assert!(head.ends_with("\r\n\r\n"));
    let mut buffered = b"bodynext".to_vec();
    assert_eq!(take_buffered(&mut buffered, 4), b"body".to_vec());
    assert_eq!(buffered, b"next".to_vec());
}

#[test]
fn addresses_of_upstreams() {
    assert_eq!(upstream_authority("http://a:1"), Ok("a:1".to_string()));
    assert_eq!(
        upstream_authority("https://a:1").unwrap_err().message,
        "unsupported proxy scheme"
    );
    assert_eq!(
        fastcgi_endpoint("unix:/run/php.sock"),
        Ok(Endpoint::Unix("/run/php.sock".to_string()))
    );
    assert_eq!(
        fastcgi_endpoint("tcp://127.0.0.1:9000"),
        Ok(Endpoint::Tcp("127.0.0.1:9000".to_string()))
    );
    assert_eq!(
        fastcgi_endpoint("127.0.0.1:9000").unwrap_err().kind,
        FaultKind::InvalidInput
    );
}

#[test]
fn front_controllers_answer_for_missing_paths() {
    let mut config = ServerConfig {
        front_controller: Some("/index.php".to_string()),
        ..ServerConfig::default()
    };
    let req = request("/users/7?tab=a", &[("Host", "h")]);
    assert_eq!(front_controller(&req, &config, false), None);
    config.fastcgi_routes.push(FastCgiRoute {
        host: "*".to_string(),
        prefix: "/index.php".to_string(),
        endpoint: "unix:/run/php.sock".to_string(),
        document_root: "/srv".to_string(),
    });
    assert_eq!(
        front_controller(&req, &config, false),
        Some("/index.php".to_string())
    );
    assert_eq!(front_controller(&req, &config, true), None);
    let direct = request("/index.php?x", &[("Host", "h")]);
    assert_eq!(front_controller(&direct, &config, false), None);
    let outside = request("/%2e%2e/x", &[("Host", "h")]);
    assert_eq!(front_controller(&outside, &config, false), None);

    let routed = controller_request(&req, "/index.php");
    assert_eq!(script_path(&routed).unwrap(), "index.php");
    assert_eq!(select_fastcgi(&routed, &config).unwrap().prefix, "/index.php");
    let params = named_params(&req, "/index.php", "/srv", "/srv/index.php", false, "::1", 0);
    let text = String::from_utf8_lossy(&params).to_string();
    for part in [
        "SCRIPT_NAME/index.php",
        "SCRIPT_FILENAME/srv/index.php",
        "REQUEST_URI/users/7?tab=a",
        "QUERY_STRINGtab=a",
    ] {
        assert!(text.contains(part), "{part}");
    }
}

#[test]
fn tries_and_checks_are_scheduled() {
    let mut retries = Retries::new(&Method::Get);
    assert_eq!(retries.failed(), Some(10));
    assert_eq!(retries.failed(), None);
    assert_eq!(Retries::new(&Method::Post).failed(), None);
    assert_eq!(next_nap(1, 0), Some(100));
    assert_eq!(next_nap(1, 950), Some(50));
    assert_eq!(next_nap(1, 1000), None);
    let mut config = ServerConfig::default();
    assert!(!checker_needed(&config));
    config.upstream_health_interval = 5;
    assert!(!checker_needed(&config));
    let route = ProxyRoute {
        host: "a.example".to_string(),
        prefix: "/api".to_string(),
        upstream: "http://one:1, ,http://two:2".to_string(),
    };
    config.proxy_routes = vec![route.clone()];
    assert!(checker_needed(&config));
    assert_eq!(
        checks_of(&config.proxy_routes),
        vec![
            (health_key(&route, "http://one:1"), "http://one:1".to_string()),
            (health_key(&route, "http://two:2"), "http://two:2".to_string()),
        ]
    );
}
