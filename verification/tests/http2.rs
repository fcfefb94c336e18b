//! Frames, streams, flow control and the HTTP/2 connection.

use flate2::write::GzDecoder;
use std::io::Write;
use veysrs::config::types::ServerConfig;
use veysrs::server::cgi_reader::BodyPiece;
use veysrs::server::dispatch::Target;
use veysrs::server::http::StatusCode;
use veysrs::server::http2::connection::{
    goaway_frame, take_frame, take_preface, FrameRead, Http2Connection, CLIENT_PREFACE,
};
use veysrs::server::http2::flags;
use veysrs::server::http2::flow::{FlowControl, Window, MAX_WINDOW_SIZE};
use veysrs::server::http2::frame::{
    Frame, FrameHeader, FramePayload, FrameType, Http2ErrorCode, SettingId,
};
use veysrs::server::http2::hpack::{encode_headers, HpackDecoder};
use veysrs::server::http2::huffman::huffman_decode;
use veysrs::server::http2::policy::{
    dynamic_response_compressible, h2_response_headers, prepare_response, upstream_failure,
};
use veysrs::server::http2::request::{
    request_of_stream, validate_content_length, validate_request_headers,
};
use veysrs::server::http2::schedule::{
    pending_body, BodyRead, PendingBody, PendingResponse, ReadEvent,
};
use veysrs::server::http2::stream::{Stream, StreamState};
use veysrs::server::response::HttpResponse;
use veysrs::server::send::GzipReader;

fn pair(name: &str, value: &str) -> (String, String) {
    (name.to_string(), value.to_string())
}

fn frame(frame_type: FrameType, flags: u8, stream_id: u32, payload: &[u8]) -> Frame {
    let header = FrameHeader {
        length: payload.len() as u32,
        frame_type,
        flags,
        stream_id,
    };
    Frame::parse(header, payload).unwrap()
}

fn get(connection: &mut Http2Connection, stream_id: u32) -> Stream {
    let headers = frame(
        FrameType::Headers,
        flags::END_HEADERS | flags::END_STREAM,
        stream_id,
        b"block",
    );
    assert_eq!(
        connection.header_block_to_decode(&headers),
        Some(b"block".to_vec())
    );
    let mut out = Vec::new();
    connection
        .process_frame(&headers, Ok(request_pairs("/")), &mut out)
        .unwrap()
        .unwrap()
}

fn request_pairs(path: &str) -> Vec<(String, String)> {
    vec![
        pair(":method", "GET"),
        pair(":scheme", "https"),
        pair(":authority", "example.test"),
        pair(":path", path),
    ]
}

#[test]
fn reader_body_preserves_pending_state_and_bounds_reads() {
    let mut body = PendingBody::Reader { remaining: Some(4) };
    assert!(matches!(
        body.read_chunk(16, ReadEvent::WouldBlock).unwrap(),
        BodyRead::Pending
    ));
    assert_eq!(body.bytes_wanted(16), 4);
    match body
        .read_chunk(16, ReadEvent::Bytes(b"body".to_vec()))
        .unwrap()
    {
        BodyRead::Data(bytes, done) => {
            assert_eq!(bytes, b"body");
            assert!(done);
        }
        _ => panic!("reader did not resume after readiness"),
    }
}

#[test]
fn bodies_end_with_their_announced_length() {
    let mut body = PendingBody::File { left: 10 };
    assert_eq!(
        body.read_chunk(6, ReadEvent::Bytes(vec![1; 6])),
        Ok(BodyRead::Data(vec![1; 6], false))
    );
    assert_eq!(body.bytes_wanted(6), 4);
    assert_eq!(
        body.read_chunk(6, ReadEvent::Bytes(vec![2; 4])),
        Ok(BodyRead::Data(vec![2; 4], true))
    );
    let mut body = PendingBody::Reader { remaining: Some(4) };
    assert!(body.read_chunk(6, ReadEvent::Bytes(Vec::new())).is_err());
    assert!(body.read_chunk(6, ReadEvent::Failed).is_err());
}

#[test]
fn test_client_preface_constant() {
    assert_eq!(CLIENT_PREFACE.len(), 24);
    assert_eq!(&CLIENT_PREFACE, b"PRI * HTTP/2.0\r\n\r\nSM\r\n\r\n");
}

#[test]
fn prefaces_are_taken_whole() {
    let mut b = b"PRI * HTTP/2.0".to_vec();
    assert_eq!(take_preface(&mut b), None);
    b.extend_from_slice(b"\r\n\r\nSM\r\n\r\nrest");
    assert_eq!(take_preface(&mut b), Some(true));
    assert_eq!(b, b"rest".to_vec());
    let mut b = b"GET / HTTP/1.1\r\nHost: h\r\n\r\n".to_vec();
    assert_eq!(take_preface(&mut b), Some(false));
}

#[test]
fn test_reject_invalid_h2_request_headers() {
    let mut stream = Stream::new(1, 65_535).unwrap();
    stream.request_headers = vec![
        (":method".to_string(), "GET".to_string()),
        ("host".to_string(), "example.test".to_string()),
        (":path".to_string(), "/".to_string()),
        (":scheme".to_string(), "http".to_string()),
    ];
    assert_eq!(
        validate_request_headers(&stream),
        Err(Http2ErrorCode::ProtocolError)
    );

    stream.request_headers = vec![
        (":method".to_string(), "GET".to_string()),
        (":scheme".to_string(), "http".to_string()),
        (":path".to_string(), "/".to_string()),
        ("Connection".to_string(), "close".to_string()),
    ];
    assert_eq!(
        validate_request_headers(&stream),
        Err(Http2ErrorCode::ProtocolError)
    );
}

#[test]
fn streams_become_requests() {
    let mut stream = Stream::new(1, 65_535).unwrap();
    stream.append_request_headers(request_pairs("/a?b"), true);
    assert_eq!(validate_request_headers(&stream), Ok(()));
    let r = request_of_stream(&stream).unwrap();
    assert_eq!(r.uri, "/a?b");
    assert_eq!(r.version, "HTTP/2.0");
    assert_eq!(r.get_header("Host"), Some("example.test"));
}

#[test]
fn test_content_length_must_match_h2_data() {
    assert_eq!(
        validate_content_length(&vec![("content-length".to_string(), "5".to_string())], 4),
        Err(Http2ErrorCode::ProtocolError)
    );
    assert_eq!(
        validate_content_length(
            &vec![
                ("content-length".to_string(), "4".to_string()),
                ("content-length".to_string(), "4".to_string()),
            ],
            4,
        ),
        Err(Http2ErrorCode::ProtocolError)
    );
    assert_eq!(
        validate_content_length(&vec![("content-length".to_string(), "4".to_string())], 4),
        Ok(())
    );
}

#[test]
fn zero_send_window_cannot_accumulate_unbounded_pending_streams() {
    let config = ServerConfig {
        http2_max_concurrent_streams: 2,
        ..ServerConfig::default()
    };
    let mut connection = Http2Connection::new(&config);
    connection.peer_connection_window = Window::new(0);

    for stream_id in [1, 3] {
        connection
            .send_stream_windows
            .push((stream_id, Window::new(65_535)));
        connection.pending_responses.push(PendingResponse {
            stream_id,
            body: PendingBody::Bytes {
                data: vec![b'x'; 32],
                offset: 0,
            },
        });
    }

    assert_eq!(connection.tracked_stream_count(), 2);
    assert!(!connection.can_accept_new_stream());
    assert_eq!(connection.pending_responses.len(), 2);
}

#[test]
fn dynamic_gzip_policy_rejects_no_transform_and_compresses_text() {
    let response = HttpResponse::new(StatusCode::Okay)
        .with_header("Content-Type", "text/plain")
        .with_header("Content-Length", "4")
        .with_body(b"body".to_vec(), "text/plain");
    assert!(dynamic_response_compressible(&response));
    let blocked = response
        .clone()
        .with_header("Cache-Control", "no-transform");
    assert!(!dynamic_response_compressible(&blocked));
    let mut encoder = GzipReader::new(6);
    encoder.feed(b"body");
    encoder.feed(b"");
    let mut output = Vec::new();
    loop {
        match encoder.read(7).unwrap() {
            BodyPiece::Bytes(b) => output.extend_from_slice(&b),
            BodyPiece::NeedMore => panic!("the end was announced"),
            BodyPiece::End => break,
        }
    }
    assert_eq!(&output[..2], &[0x1f, 0x8b]);
    let mut decoder = GzDecoder::new(Vec::new());
    decoder.write_all(&output).unwrap();
    assert_eq!(decoder.finish().unwrap(), b"body".to_vec());
}

#[test]
fn compressed_responses_have_no_length() {
    let response = HttpResponse::new(StatusCode::Okay)
        .with_header("Content-Type", "text/plain")
        .with_header("Content-Length", "4");
    let (r, compress, length) = prepare_response(response.clone(), true, Some(4), true);
    assert!(compress);
    assert_eq!(length, None);
    let names: Vec<String> = r.headers.iter().map(|h| h.0.to_lowercase()).collect();
    assert!(!names.contains(&"content-length".to_string()));
    assert!(names.contains(&"content-encoding".to_string()));
    assert!(names.contains(&"vary".to_string()));
    let (_, compress, length) = prepare_response(response, true, Some(4), false);
    assert!(!compress);
    assert_eq!(length, Some(4));
}

#[test]
fn response_heads_start_with_the_status() {
    let r = HttpResponse::new(StatusCode::NotFound).with_header("X-Test", "Yes");
    let h = h2_response_headers(&r);
    assert_eq!(h[0], pair(":status", "404"));
    assert_eq!(&h[1..], &r.headers[..]);
    assert_eq!(h[h.len() - 1], pair("X-Test", "Yes"));
}

#[test]
fn failing_upstreams_are_answered() {
    assert_eq!(
        upstream_failure(Target::Proxy).unwrap().status,
        StatusCode::BadGateway
    );
    assert_eq!(
        upstream_failure(Target::FastCgi).unwrap().status,
        StatusCode::BadGateway
    );
    assert!(upstream_failure(Target::Files).is_none());
}

#[test]
fn test_window_initial_and_update() {
    let mut window = Window::new(65535);
    assert_eq!(window.available(), 65535);

    window.update(1000).unwrap();
    assert_eq!(window.available(), 66535);
}

#[test]
fn test_window_overflow_rejection() {
    let mut window = Window::new(MAX_WINDOW_SIZE);
    let res = window.update(1);
    assert_eq!(res, Err(Http2ErrorCode::FlowControlError));
}

#[test]
fn test_zero_increment_rejection() {
    let mut window = Window::new(65535);
    let res = window.update(0);
    assert_eq!(res, Err(Http2ErrorCode::ProtocolError));
}

#[test]
fn test_window_consume() {
    let mut window = Window::new(65535);
    window.consume(1000).unwrap();
    assert_eq!(window.available(), 64535);
}

#[test]
fn windows_follow_settings() {
    let mut window = Window::new(10);
    window.adjust(-20).unwrap();
    assert_eq!(window.available(), -10);
    assert!(window.adjust(1 << 40).is_err());
    window.consume(1).unwrap();
    assert_eq!(window.available(), -11);
    let mut flow = FlowControl::new(65535);
    assert_eq!(
        flow.update_initial_window_size(MAX_WINDOW_SIZE + 1),
        Err(Http2ErrorCode::FlowControlError)
    );
    assert_eq!(flow.initial_stream_window_size(), 65535);
}

#[test]
fn test_frame_header_parse_and_encode() {
    let header = FrameHeader {
        length: 1234,
        frame_type: FrameType::Headers,
        flags: flags::END_STREAM | flags::END_HEADERS,
        stream_id: 15,
    };

    let encoded = header.encode();
    assert_eq!(encoded.len(), 9);

    let parsed = FrameHeader::parse(&encoded).unwrap();
    assert_eq!(parsed.length, 1234);
    assert_eq!(parsed.frame_type, FrameType::Headers);
    assert_eq!(parsed.flags, flags::END_STREAM | flags::END_HEADERS);
    assert_eq!(parsed.stream_id, 15);
}

#[test]
fn test_settings_frame_parse_and_encode() {
    let frame = Frame {
        header: FrameHeader {
            length: 12,
            frame_type: FrameType::Settings,
            flags: 0,
            stream_id: 0,
        },
        payload: FramePayload::Settings {
            settings: vec![
                (SettingId::MaxConcurrentStreams, 100),
                (SettingId::InitialWindowSize, 65535),
            ],
            ack: false,
        },
    };

    let raw = frame.encode();
    let parsed_header = FrameHeader::parse(&raw[..9]).unwrap();
    let parsed_frame = Frame::parse(parsed_header, &raw[9..]).unwrap();

    assert_eq!(parsed_frame.header.stream_id, 0);
    if let FramePayload::Settings { settings, ack } = parsed_frame.payload {
        assert!(!ack);
        assert_eq!(settings.len(), 2);
        assert_eq!(settings[0], (SettingId::MaxConcurrentStreams, 100));
        assert_eq!(settings[1], (SettingId::InitialWindowSize, 65535));
    } else {
        panic!("Expected Settings payload");
    }
}

#[test]
fn test_ping_frame_ack() {
    let ping_frame = Frame {
        header: FrameHeader {
            length: 8,
            frame_type: FrameType::Ping,
            flags: flags::ACK,
            stream_id: 0,
        },
        payload: FramePayload::Ping {
            opaque_data: [1, 2, 3, 4, 5, 6, 7, 8],
            ack: true,
        },
    };

    let raw = ping_frame.encode();
    let parsed_header = FrameHeader::parse(&raw[..9]).unwrap();
    let parsed_frame = Frame::parse(parsed_header, &raw[9..]).unwrap();

    if let FramePayload::Ping { opaque_data, ack } = parsed_frame.payload {
        assert!(ack);
        assert_eq!(opaque_data, [1, 2, 3, 4, 5, 6, 7, 8]);
    } else {
        panic!("Expected Ping payload");
    }
}

#[test]
fn test_invalid_stream_id_for_settings() {
    let header = FrameHeader {
        length: 0,
        frame_type: FrameType::Settings,
        flags: 0,
        stream_id: 1, // Must be 0
    };
    let res = Frame::parse(header, &[]);
    assert_eq!(res, Err(Http2ErrorCode::ProtocolError));
}

#[test]
fn frames_are_read_whole() {
    let raw = goaway_frame(7, Http2ErrorCode::EnhanceYourCalm).encode();
    let mut buffer = raw[..10].to_vec();
    assert!(matches!(take_frame(&mut buffer, 16384), FrameRead::NeedMore));
    buffer.extend_from_slice(&raw[10..]);
    buffer.push(9);
    match take_frame(&mut buffer, 16384) {
        FrameRead::Whole(f) => assert_eq!(f.encode(), raw),
        _ => panic!("the frame is complete"),
    }
    assert_eq!(buffer, vec![9]);
    let mut large = vec![0, 64, 1, 0, 0, 0, 0, 0, 1];
    assert!(matches!(
        take_frame(&mut large, 16384),
        FrameRead::Broken(Http2ErrorCode::FrameSizeError)
    ));
}

#[test]
fn error_numbers_read_back() {
    for n in 0..14 {
        assert_eq!(Http2ErrorCode::from_u32(n).to_u32(), n);
    }
    assert_eq!(u8::from(FrameType::from(9u8)), 9);
    assert_eq!(u16::from(SettingId::from(5u16)), 5);
}

#[test]
fn padding_is_dropped() {
    let f = frame(FrameType::Data, flags::PADDED | flags::END_STREAM, 1, &[2, b'a', b'b', 0, 0]);
    match f.payload {
        FramePayload::Data { data, end_stream } => {
            assert_eq!(data, b"ab".to_vec());
            assert!(end_stream);
        }
        _ => panic!("data"),
    }
    let header = FrameHeader {
        length: 2,
        frame_type: FrameType::Data,
        flags: flags::PADDED,
        stream_id: 1,
    };
    assert!(Frame::parse(header, &[9, 0]).is_err());
}

#[test]
fn test_valid_client_stream_creation() {
    let stream = Stream::new(1, 65535).unwrap();
    assert_eq!(stream.id, 1);
    assert_eq!(stream.state, StreamState::Idle);
}

#[test]
fn test_reject_even_client_stream_id() {
    let res = Stream::new(2, 65535);
    assert_eq!(res, Err(Http2ErrorCode::ProtocolError));
}

#[test]
fn test_stream_state_transitions() {
    let mut stream = Stream::new(3, 65535).unwrap();
    stream.transition_to(StreamState::Open).unwrap();
    assert_eq!(stream.state, StreamState::Open);

    stream.transition_to(StreamState::HalfClosedRemote).unwrap();
    assert_eq!(stream.state, StreamState::HalfClosedRemote);

    stream.transition_to(StreamState::Closed).unwrap();
    assert_eq!(stream.state, StreamState::Closed);
}

#[test]
fn closed_streams_stay_closed() {
    let mut stream = Stream::new(3, 65535).unwrap();
    assert!(stream.transition_to(StreamState::Closed).is_err());
    stream.transition_to(StreamState::Open).unwrap();
    stream.transition_to(StreamState::Closed).unwrap();
    assert_eq!(
        stream.transition_to(StreamState::Open),
        Err(Http2ErrorCode::StreamClosed)
    );
}

#[test]
fn stream_numbers_only_grow() {
    let config = ServerConfig::default();
    let mut connection = Http2Connection::new(&config).with_secure(true);
    let s = get(&mut connection, 3);
    assert_eq!(s.id, 3);
    assert_eq!(connection.last_stream_id, 3);
    let again = frame(
        FrameType::Headers,
        flags::END_HEADERS | flags::END_STREAM,
        1,
        b"block",
    );
    let mut out = Vec::new();
    assert!(connection
        .process_frame(&again, Ok(request_pairs("/")), &mut out)
        .is_err());
}

#[test]
fn header_blocks_may_come_in_pieces() {
    let config = ServerConfig::default();
    let mut connection = Http2Connection::new(&config);
    let first = frame(FrameType::Headers, flags::END_STREAM, 1, b"abc");
    assert_eq!(connection.header_block_to_decode(&first), None);
    let mut out = Vec::new();
    assert_eq!(
        connection
            .process_frame(&first, Ok(Vec::new()), &mut out)
            .unwrap(),
        None
    );
    let second = frame(FrameType::Continuation, flags::END_HEADERS, 1, b"def");
    assert_eq!(
        connection.header_block_to_decode(&second),
        Some(b"abcdef".to_vec())
    );
    let ping = frame(FrameType::Ping, 0, 0, &[0; 8]);
    assert_eq!(
        connection.process_frame(&ping, Ok(Vec::new()), &mut out),
        Err(Http2ErrorCode::ProtocolError)
    );
}

#[test]
fn pings_and_settings_are_acknowledged() {
    let config = ServerConfig::default();
    let mut connection = Http2Connection::new(&config);
    let ping = frame(FrameType::Ping, 0, 0, &[8, 7, 6, 5, 4, 3, 2, 1]);
    let mut out = Vec::new();
    connection
        .process_frame(&ping, Ok(Vec::new()), &mut out)
        .unwrap();
    assert_eq!(
        out[0].payload,
        FramePayload::Ping {
            opaque_data: [8, 7, 6, 5, 4, 3, 2, 1],
            ack: true
        }
    );
    let settings = frame(FrameType::Settings, 0, 0, &[0, 4, 0, 0, 0, 100]);
    let mut out = Vec::new();
    connection
        .process_frame(&settings, Ok(Vec::new()), &mut out)
        .unwrap();
    assert_eq!(connection.peer_initial_stream_window_size, 100);
    assert!(matches!(
        out[0].payload,
        FramePayload::Settings { ack: true, .. }
    ));
}

#[test]
fn responses_take_turns_within_the_windows() {
    let config = ServerConfig::default();
    let mut connection = Http2Connection::new(&config);
    let mut heads = Vec::new();
    for id in [1u32, 3] {
        get(&mut connection, id);
        let response =
            HttpResponse::new(StatusCode::Okay).with_body(vec![id as u8; 100], "text/plain");
        heads.extend(connection.queue_h2_response(id, &response));
    }
    assert_eq!(heads.len(), 2);
    let (turns, quota) = connection.begin_round().unwrap();
    assert_eq!(turns, 2);
    let mut seen = Vec::new();
    for _ in 0..turns {
        let f = connection
            .take_turn(quota, ReadEvent::WouldBlock)
            .unwrap();
        seen.push(f.header.stream_id);
        match f.payload {
            FramePayload::Data { data, end_stream } => {
                assert_eq!(data, vec![f.header.stream_id as u8; 100]);
                assert!(end_stream);
            }
            _ => panic!("data"),
        }
    }
    assert_eq!(seen, vec![1, 3]);
    assert_eq!(connection.peer_connection_window.available(), 65535 - 200);
    assert!(connection.begin_round().is_none());
}

#[test]
fn long_header_blocks_are_split() {
    let config = ServerConfig::default();
    let mut connection = Http2Connection::new(&config);
    get(&mut connection, 1);
    let response =
        HttpResponse::new(StatusCode::NotModified).with_header("X-Long", &"a".repeat(40_000));
    let block = encode_headers(&h2_response_headers(&response));
    let frames = connection.queue_h2_stream_response(1, &response, None);
    let mut joined = Vec::new();
    for (i, f) in frames.iter().enumerate() {
        match &f.payload {
            FramePayload::Headers { header_block, end_stream, end_headers } => {
                assert_eq!(i, 0);
                assert!(*end_stream);
                assert!(!*end_headers);
                joined.extend_from_slice(header_block);
            }
            FramePayload::Continuation { header_block, end_headers } => {
                assert_eq!(*end_headers, i + 1 == frames.len());
                joined.extend_from_slice(header_block);
            }
            _ => panic!("a header block"),
        }
    }
    assert_eq!(frames.len(), 3);
    assert_eq!(joined, block);
}

#[test]
fn waiting_streams_are_asked_in_turn() {
    let config = ServerConfig::default();
    let mut connection = Http2Connection::new(&config);
    connection.await_upstream(1, Some("gzip"), 6);
    connection.await_upstream(3, None, 6);
    let first = connection.next_waiting().unwrap();
    assert_eq!((first.stream_id, first.compress), (1, true));
    connection.keep_waiting(first);
    let second = connection.next_waiting().unwrap();
    assert_eq!((second.stream_id, second.compress), (3, false));
    let f = connection.fail_waiting(3);
    assert_eq!(f.header.stream_id, 3);
    assert!(matches!(f.payload, FramePayload::RstStream { .. }));
    assert_eq!(connection.next_waiting().unwrap().stream_id, 1);
    assert!(connection.next_waiting().is_none());
}

#[test]
fn received_data_is_acknowledged() {
    let config = ServerConfig::default();
    let mut connection = Http2Connection::new(&config);
    let mut headers = request_pairs("/");
    headers[0].1 = "POST".to_string();
    let open = frame(FrameType::Headers, flags::END_HEADERS, 1, b"block");
    let mut out = Vec::new();
    assert_eq!(
        connection
            .process_frame(&open, Ok(headers), &mut out)
            .unwrap(),
        None
    );
    let data = frame(FrameType::Data, flags::END_STREAM, 1, b"hello");
    let mut out = Vec::new();
    let s = connection
        .process_frame(&data, Ok(Vec::new()), &mut out)
        .unwrap()
        .unwrap();
    assert_eq!(s.request_body, b"hello".to_vec());
    assert!(out.iter().any(|f| f.payload
        == FramePayload::WindowUpdate {
            window_size_increment: 5
        }));
    assert_eq!(connection.flow_control.connection_window.available(), 65535);
}

fn hex(text: &str) -> Vec<u8> {
    let digits: Vec<u8> = text
        .bytes()
        .filter(|b| *b != b' ')
        .map(|b| (b as char).to_digit(16).unwrap() as u8)
        .collect();
    digits.chunks(2).map(|p| p[0] * 16 + p[1]).collect()
}

fn list(h: &[(&str, &str)]) -> Vec<(String, String)> {
    h.iter().map(|(a, b)| pair(a, b)).collect()
}

#[test]
fn header_blocks_refer_to_earlier_ones() {
    let mut decoder = HpackDecoder::new(4096, 65536);
    assert_eq!(
        decoder
            .decode_header_block(&hex("8286 8441 8cf1 e3c2 e5f2 3a6b a0ab 90f4 ff"))
            .unwrap(),
        list(&[
            (":method", "GET"),
            (":scheme", "http"),
            (":path", "/"),
            (":authority", "www.example.com"),
        ])
    );
    assert_eq!(
        decoder
            .decode_header_block(&hex("8286 84be 5886 a8eb 1064 9cbf"))
            .unwrap(),
        list(&[
            (":method", "GET"),
            (":scheme", "http"),
            (":path", "/"),
            (":authority", "www.example.com"),
            ("cache-control", "no-cache"),
        ])
    );
    assert_eq!(
        decoder
            .decode_header_block(&hex(
                "8287 85bf 4088 25a8 49e9 5ba9 7d7f 8925 a849 e95b b8e8 b4bf"
            ))
            .unwrap(),
        list(&[
            (":method", "GET"),
            (":scheme", "https"),
            (":path", "/index.html"),
            (":authority", "www.example.com"),
            ("custom-key", "custom-value"),
        ])
    );
}

#[test]
fn header_tables_forget_the_oldest() {
    let mut decoder = HpackDecoder::new(4096, 65536);
    let mut block = hex("3fe1 01");
    block.extend(hex(
        "4882 6402 5885 aec3 771a 4b61 96d0 7abe 9410 54d4 44a8 2005 9504 0b81 66e0 82a6 2d1b ff6e 919d 29ad 1718 63c7 8f0b 97c8 e9ae 82ae 43d3",
    ));
    assert_eq!(
        decoder.decode_header_block(&block).unwrap(),
        list(&[
            (":status", "302"),
            ("cache-control", "private"),
            ("date", "Mon, 21 Oct 2013 20:13:21 GMT"),
            ("location", "https://www.example.com"),
        ])
    );
    assert_eq!(
        decoder.decode_header_block(&hex("4883 640e ffc1 c0bf")).unwrap(),
        list(&[
            (":status", "307"),
            ("cache-control", "private"),
            ("date", "Mon, 21 Oct 2013 20:13:21 GMT"),
            ("location", "https://www.example.com"),
        ])
    );
    assert_eq!(
        decoder.decode_header_block(&hex("c2")),
        Err(Http2ErrorCode::CompressionError)
    );
    assert_eq!(
        decoder.decode_header_block(&hex("be")).unwrap(),
        list(&[(":status", "307")])
    );
}

#[test]
fn written_header_blocks_read_back() {
    let long = "x".repeat(70_000);
    let headers = list(&[(":status", "200"), ("Content-Type", "caf\u{e9}"), ("X-Long", &long)]);
    let block = encode_headers(&headers);
    let mut decoder = HpackDecoder::new(4096, 1 << 20);
    assert_eq!(
        decoder.decode_header_block(&block).unwrap(),
        list(&[(":status", "200"), ("content-type", "caf\u{e9}"), ("x-long", &long)])
    );
}

#[test]
fn broken_header_blocks_are_refused() {
    for block in ["80", "ff", "40", "4001", "0001 61 01 ff", "8220", "3fe2 1f", "0081 00 00"] {
        assert_eq!(
            HpackDecoder::new(4096, 65536).decode_header_block(&hex(block)),
            Err(Http2ErrorCode::CompressionError),
            "{block}"
        );
    }
    assert_eq!(huffman_decode(&hex("a8eb 1064 9cbf")), Some(b"no-cache".to_vec()));
    assert_eq!(huffman_decode(&hex("a8eb 1064 9cbe")), None);
    assert_eq!(huffman_decode(&hex("ffff ffff")), None);
    assert_eq!(huffman_decode(&[]), Some(Vec::new()));
}

#[test]
fn received_blocks_become_request_headers() {
    let config = ServerConfig::default();
    let mut connection = Http2Connection::new(&config);
    let mut decoder = HpackDecoder::new(4096, 65536);
    let block = encode_headers(&vec![pair(":method", "GET"), pair("X-Name", "value")]);
    let whole = frame(
        FrameType::Headers,
        flags::END_HEADERS | flags::END_STREAM,
        1,
        &block,
    );
    let mut out = Vec::new();
    let s = connection
        .receive_frame(&mut decoder, &whole, &mut out)
        .unwrap()
        .unwrap();
    assert_eq!(s.request_headers, vec![pair(":method", "GET"), pair("x-name", "value")]);
    let first = frame(FrameType::Headers, flags::END_STREAM, 3, &block[..5]);
    assert_eq!(connection.receive_frame(&mut decoder, &first, &mut out), Ok(None));
    let second = frame(FrameType::Continuation, flags::END_HEADERS, 3, &block[5..]);
    let s = connection
        .receive_frame(&mut decoder, &second, &mut out)
        .unwrap()
        .unwrap();
    assert_eq!(s.request_headers, vec![pair(":method", "GET"), pair("x-name", "value")]);
    let ping = frame(FrameType::Ping, 0, 0, &[0; 8]);
    for n in 1..3 {
        connection.receive_frame(&mut decoder, &ping, &mut out).unwrap();
        assert_eq!(out.len(), n);
    }
    let broken = frame(
        FrameType::Headers,
        flags::END_HEADERS | flags::END_STREAM,
        5,
        &[0xff, 0xff],
    );
    assert_eq!(
        connection.receive_frame(&mut decoder, &broken, &mut out),
        Err(Http2ErrorCode::CompressionError)
    );
}

#[test]
fn rounds_stay_within_the_connection_window() {
    let config = ServerConfig::default();
    let mut connection = Http2Connection::new(&config);
    for id in [1u32, 3, 5] {
        get(&mut connection, id);
        let response =
            HttpResponse::new(StatusCode::Okay).with_body(vec![1; 50_000], "text/plain");
        connection.queue_h2_response(id, &response);
    }
    let mut total = 0;
    while let Some((turns, quota)) = connection.begin_round() {
        let before = connection.peer_connection_window.available() as usize;
        let mut streams = Vec::new();
        let mut sent = 0;
        for _ in 0..turns {
            if let Some(f) = connection.take_turn(quota, ReadEvent::WouldBlock) {
                assert!(!streams.contains(&f.header.stream_id));
                streams.push(f.header.stream_id);
                if let FramePayload::Data { data, .. } = f.payload {
                    sent += data.len();
                }
            }
        }
        assert!(sent <= before);
        assert!(sent > 0);
        total += sent;
    }
    assert_eq!(total, 65535);
}

#[test]
fn decoded_headers_count_for_a_bounded_amount() {
    let config = ServerConfig {
        http2_max_header_block_size: 200,
        ..ServerConfig::default()
    };
    let connection = Http2Connection::new(&config);
    let mut decoder = connection.header_decoder();
    let first = encode_headers(&vec![pair("a", "b")]);
    assert_eq!(decoder.decode_header_block(&first), Ok(vec![pair("a", "b")]));
    let mut table = vec![0x40];
    table.extend_from_slice(&first[1..]);
    assert_eq!(decoder.decode_header_block(&table), Ok(vec![pair("a", "b")]));
    assert_eq!(decoder.decode_header_block(&[0xbe; 5]).unwrap().len(), 5);
    assert_eq!(
        decoder.decode_header_block(&[0xbe; 6]),
        Err(Http2ErrorCode::EnhanceYourCalm)
    );
    assert_eq!(decoder.decode_header_block(&[0xbe]), Ok(vec![pair("a", "b")]));
}
