//! The numbers and names that HTTP and HTTP/2 fix.

use crate::router::path::{extension, last_dot, mime_type};
use crate::server::http::StatusCode;
use crate::server::http2::frame::{
    frame_type, frame_type_number, header_of, setting_id, setting_number, FrameType, Http2ErrorCode,
    SettingId,
};
use crate::server::http2::hpack::entry_at;
use crate::text::{has_char, same_name};
use vstd::prelude::*;

verus! {

/// Every status has the number and the phrase of the standard.
pub proof fn law_statuses_are_numbered_and_named()
    ensures
        StatusCode::Okay.number() == 200 && StatusCode::Okay.phrase() == "OK"@,
        StatusCode::Created.number() == 201 && StatusCode::Created.phrase() == "Created"@,
        StatusCode::Accepted.number() == 202 && StatusCode::Accepted.phrase() == "Accepted"@,
        StatusCode::NoContent.number() == 204 && StatusCode::NoContent.phrase() == "No Content"@,
        StatusCode::MovedPermanently.number() == 301 && StatusCode::MovedPermanently.phrase() == "Moved Permanently"@,
        StatusCode::Found.number() == 302 && StatusCode::Found.phrase() == "Found"@,
        StatusCode::PartialContent.number() == 206 && StatusCode::PartialContent.phrase() == "Partial Content"@,
        StatusCode::NotModified.number() == 304 && StatusCode::NotModified.phrase() == "Not Modified"@,
        StatusCode::BadRequest.number() == 400 && StatusCode::BadRequest.phrase() == "Bad Request"@,
        StatusCode::Unauthorized.number() == 401 && StatusCode::Unauthorized.phrase() == "Unauthorized"@,
        StatusCode::Forbidden.number() == 403 && StatusCode::Forbidden.phrase() == "Forbidden"@,
        StatusCode::NotFound.number() == 404 && StatusCode::NotFound.phrase() == "Not Found"@,
        StatusCode::MethodNotAllowed.number() == 405 && StatusCode::MethodNotAllowed.phrase() == "Method Not Allowed"@,
        StatusCode::RequestTimeout.number() == 408 && StatusCode::RequestTimeout.phrase() == "Request Timeout"@,
        StatusCode::PayloadTooLarge.number() == 413 && StatusCode::PayloadTooLarge.phrase() == "Payload Too Large"@,
        StatusCode::UriTooLong.number() == 414 && StatusCode::UriTooLong.phrase() == "URI Too Long"@,
        StatusCode::RangeNotSatisfiable.number() == 416 && StatusCode::RangeNotSatisfiable.phrase() == "Range Not Satisfiable"@,
        StatusCode::RequestHeaderFieldsTooLarge.number() == 431 && StatusCode::RequestHeaderFieldsTooLarge.phrase() == "Request Header Fields Too Large"@,
        StatusCode::TooManyRequests.number() == 429 && StatusCode::TooManyRequests.phrase() == "Too Many Requests"@,
        StatusCode::InternalServerError.number() == 500 && StatusCode::InternalServerError.phrase() == "Internal Server Error"@,
        StatusCode::BadGateway.number() == 502 && StatusCode::BadGateway.phrase() == "Bad Gateway"@,
        StatusCode::NotImplemented.number() == 501 && StatusCode::NotImplemented.phrase() == "Not Implemented"@,
        StatusCode::ServiceUnavailable.number() == 503 && StatusCode::ServiceUnavailable.phrase() == "Service Unavailable"@,
        StatusCode::GatewayTimeout.number() == 504 && StatusCode::GatewayTimeout.phrase() == "Gateway Timeout"@,
        StatusCode::HttpVersionNotSupported.number() == 505 && StatusCode::HttpVersionNotSupported.phrase() == "HTTP Version Not Supported"@,
{
}

/// Every error of HTTP/2 has the number of the standard.
pub proof fn law_errors_are_numbered()
    ensures
        Http2ErrorCode::NoError.number() == 0,
        Http2ErrorCode::ProtocolError.number() == 1,
        Http2ErrorCode::InternalError.number() == 2,
        Http2ErrorCode::FlowControlError.number() == 3,
        Http2ErrorCode::SettingsTimeout.number() == 4,
        Http2ErrorCode::StreamClosed.number() == 5,
        Http2ErrorCode::FrameSizeError.number() == 6,
        Http2ErrorCode::RefusedStream.number() == 7,
        Http2ErrorCode::Cancel.number() == 8,
        Http2ErrorCode::CompressionError.number() == 9,
        Http2ErrorCode::ConnectError.number() == 10,
        Http2ErrorCode::EnhanceYourCalm.number() == 11,
        Http2ErrorCode::InadequateSecurity.number() == 12,
        Http2ErrorCode::Http11Required.number() == 13,
{
}

/// The kinds of frames and the settings have the numbers of the standard, and no other
/// number is one of theirs.
pub proof fn law_frames_and_settings_are_numbered(n: u8, m: u16)
    ensures
        frame_type(0) == FrameType::Data && frame_type_number(FrameType::Data) == 0,
        frame_type(1) == FrameType::Headers && frame_type_number(FrameType::Headers) == 1,
        frame_type(2) == FrameType::Priority && frame_type_number(FrameType::Priority) == 2,
        frame_type(3) == FrameType::RstStream && frame_type_number(FrameType::RstStream) == 3,
        frame_type(4) == FrameType::Settings && frame_type_number(FrameType::Settings) == 4,
        frame_type(5) == FrameType::PushPromise && frame_type_number(FrameType::PushPromise) == 5,
        frame_type(6) == FrameType::Ping && frame_type_number(FrameType::Ping) == 6,
        frame_type(7) == FrameType::GoAway && frame_type_number(FrameType::GoAway) == 7,
        frame_type(8) == FrameType::WindowUpdate && frame_type_number(FrameType::WindowUpdate) == 8,
        frame_type(9) == FrameType::Continuation && frame_type_number(FrameType::Continuation) == 9,
        n > 9 ==> frame_type(n) == FrameType::Unknown(n),
        setting_id(1) == SettingId::HeaderTableSize && setting_number(SettingId::HeaderTableSize) == 1,
        setting_id(2) == SettingId::EnablePush && setting_number(SettingId::EnablePush) == 2,
        setting_id(3) == SettingId::MaxConcurrentStreams && setting_number(SettingId::MaxConcurrentStreams) == 3,
        setting_id(4) == SettingId::InitialWindowSize && setting_number(SettingId::InitialWindowSize) == 4,
        setting_id(5) == SettingId::MaxFrameSize && setting_number(SettingId::MaxFrameSize) == 5,
        setting_id(6) == SettingId::MaxHeaderListSize && setting_number(SettingId::MaxHeaderListSize) == 6,
        m == 0 || m > 6 ==> setting_id(m) == SettingId::Unknown(m),
{
}

/// The nine bytes before a frame hold the length of what follows in the first three, the
/// kind, the flags, and in the last four the stream without the highest bit; the most
/// significant byte comes first.
pub proof fn law_frame_headers_are_laid_out(b: Seq<u8>)
    requires
        b.len() >= 9,
    ensures
        header_of(b).length == b[0] * 65536 + b[1] * 256 + b[2],
        header_of(b).frame_type == frame_type(b[3]),
        header_of(b).flags == b[4],
        header_of(b).stream_id == (b[5] % 128) * 16777216 + b[6] * 65536 + b[7] * 256 + b[8],
{
    let (x, y, z) = (b[0], b[1], b[2]);
    assert(((x as u32) << 16) | ((y as u32) << 8) | (z as u32) == x * 65536 + y * 256 + z)
        by (bit_vector);
    let (p, q, r, s) = (b[5], b[6], b[7], b[8]);
    assert((((p as u32) << 24) | ((q as u32) << 16) | ((r as u32) << 8) | (s as u32)) & 0x7fff_ffff
        == (p % 128) * 16777216 + q * 65536 + r * 256 + s) by (bit_vector);
}

/// The headers that both sides of an HTTP/2 connection know are those of the standard,
/// whatever else was sent.
pub proof fn law_known_headers_are_numbered(e: Seq<(Seq<char>, Seq<char>)>)
    ensures
        entry_at(e, 1) == Some((":authority"@, ""@)),
        entry_at(e, 2) == Some((":method"@, "GET"@)),
        entry_at(e, 3) == Some((":method"@, "POST"@)),
        entry_at(e, 4) == Some((":path"@, "/"@)),
        entry_at(e, 5) == Some((":path"@, "/index.html"@)),
        entry_at(e, 6) == Some((":scheme"@, "http"@)),
        entry_at(e, 7) == Some((":scheme"@, "https"@)),
        entry_at(e, 8) == Some((":status"@, "200"@)),
        entry_at(e, 9) == Some((":status"@, "204"@)),
        entry_at(e, 10) == Some((":status"@, "206"@)),
        entry_at(e, 11) == Some((":status"@, "304"@)),
        entry_at(e, 12) == Some((":status"@, "400"@)),
        entry_at(e, 13) == Some((":status"@, "404"@)),
        entry_at(e, 14) == Some((":status"@, "500"@)),
        entry_at(e, 15) == Some(("accept-charset"@, ""@)),
        entry_at(e, 16) == Some(("accept-encoding"@, "gzip, deflate"@)),
        entry_at(e, 17) == Some(("accept-language"@, ""@)),
        entry_at(e, 18) == Some(("accept-ranges"@, ""@)),
        entry_at(e, 19) == Some(("accept"@, ""@)),
        entry_at(e, 20) == Some(("access-control-allow-origin"@, ""@)),
        entry_at(e, 21) == Some(("age"@, ""@)),
        entry_at(e, 22) == Some(("allow"@, ""@)),
        entry_at(e, 23) == Some(("authorization"@, ""@)),
        entry_at(e, 24) == Some(("cache-control"@, ""@)),
        entry_at(e, 25) == Some(("content-disposition"@, ""@)),
        entry_at(e, 26) == Some(("content-encoding"@, ""@)),
        entry_at(e, 27) == Some(("content-language"@, ""@)),
        entry_at(e, 28) == Some(("content-length"@, ""@)),
        entry_at(e, 29) == Some(("content-location"@, ""@)),
        entry_at(e, 30) == Some(("content-range"@, ""@)),
        entry_at(e, 31) == Some(("content-type"@, ""@)),
        entry_at(e, 32) == Some(("cookie"@, ""@)),
        entry_at(e, 33) == Some(("date"@, ""@)),
        entry_at(e, 34) == Some(("etag"@, ""@)),
        entry_at(e, 35) == Some(("expect"@, ""@)),
        entry_at(e, 36) == Some(("expires"@, ""@)),
        entry_at(e, 37) == Some(("from"@, ""@)),
        entry_at(e, 38) == Some(("host"@, ""@)),
        entry_at(e, 39) == Some(("if-match"@, ""@)),
        entry_at(e, 40) == Some(("if-modified-since"@, ""@)),
        entry_at(e, 41) == Some(("if-none-match"@, ""@)),
        entry_at(e, 42) == Some(("if-range"@, ""@)),
        entry_at(e, 43) == Some(("if-unmodified-since"@, ""@)),
        entry_at(e, 44) == Some(("last-modified"@, ""@)),
        entry_at(e, 45) == Some(("link"@, ""@)),
        entry_at(e, 46) == Some(("location"@, ""@)),
        entry_at(e, 47) == Some(("max-forwards"@, ""@)),
        entry_at(e, 48) == Some(("proxy-authenticate"@, ""@)),
        entry_at(e, 49) == Some(("proxy-authorization"@, ""@)),
        entry_at(e, 50) == Some(("range"@, ""@)),
        entry_at(e, 51) == Some(("referer"@, ""@)),
        entry_at(e, 52) == Some(("refresh"@, ""@)),
        entry_at(e, 53) == Some(("retry-after"@, ""@)),
        entry_at(e, 54) == Some(("server"@, ""@)),
        entry_at(e, 55) == Some(("set-cookie"@, ""@)),
        entry_at(e, 56) == Some(("strict-transport-security"@, ""@)),
        entry_at(e, 57) == Some(("transfer-encoding"@, ""@)),
        entry_at(e, 58) == Some(("user-agent"@, ""@)),
        entry_at(e, 59) == Some(("vary"@, ""@)),
        entry_at(e, 60) == Some(("via"@, ""@)),
        entry_at(e, 61) == Some(("www-authenticate"@, ""@)),
{
}

proof fn lemma_last_dot(n: Seq<char>, k: int)
    requires
        0 < k <= n.len(),
        n[k - 1] == '.',
        forall|i: int| k <= i < n.len() ==> n[i] != '.',
    ensures
        last_dot(n) == k,
    decreases n.len(),
{
    if n.len() > k {
        assert(n[n.len() - 1] != '.');
        lemma_last_dot(n.drop_last(), k);
    }
}

/// The extension of a file is what follows the last dot of its name.
pub proof fn law_extensions_follow_the_last_dot(dir: Seq<char>, stem: Seq<char>, ext: Seq<char>)
    requires
        stem.len() > 0,
        !has_char(stem, '/'),
        !has_char(ext, '/'),
        !has_char(ext, '.'),
        ext.len() > 0,
    ensures
        extension(stem + seq!['.'] + ext) == Some(ext),
        extension(dir + seq!['/'] + (stem + seq!['.'] + ext)) == Some(ext),
{
    reveal_strlit(".");
    reveal_strlit("..");
    let n = stem + seq!['.'] + ext;
    assert forall|i: int| 0 <= i < n.len() implies n[i] != '/' by {
        if i < stem.len() {
            assert(n[i] == stem[i]);
        } else if i > stem.len() {
            assert(n[i] == ext[i - stem.len() - 1]);
        }
    }
    assert(!has_char(n, '/'));
    let k = stem.len() as int + 1;
    assert(n.len() > 2);
    crate::laws::paths::law_paths_are_made_of_names(dir, n, n);
    assert forall|i: int| k <= i < n.len() implies n[i] != '.' by {
        assert(n[i] == ext[i - k]);
    }
    lemma_last_dot(n, k);
    assert(n.subrange(k, n.len() as int) =~= ext);
    let c = crate::router::path::components(dir) + seq![n];
    assert(c.last() == n);
}

/// A file is of the type that its extension stands for, in any case of its letters.
pub proof fn law_extensions_have_types(path: Seq<char>, ext: Seq<char>)
    requires
        extension(path) == Some(ext),
    ensures
        same_name(ext, "html"@) ==> mime_type(path) == "text/html; charset=utf-8"@,
        same_name(ext, "htm"@) ==> mime_type(path) == "text/html; charset=utf-8"@,
        same_name(ext, "css"@) ==> mime_type(path) == "text/css; charset=utf-8"@,
        same_name(ext, "js"@) ==> mime_type(path) == "application/javascript"@,
        same_name(ext, "json"@) ==> mime_type(path) == "application/json"@,
        same_name(ext, "txt"@) ==> mime_type(path) == "text/plain; charset=utf-8"@,
        same_name(ext, "xml"@) ==> mime_type(path) == "application/xml"@,
        same_name(ext, "svg"@) ==> mime_type(path) == "image/svg+xml"@,
        same_name(ext, "png"@) ==> mime_type(path) == "image/png"@,
        same_name(ext, "jpg"@) ==> mime_type(path) == "image/jpeg"@,
        same_name(ext, "jpeg"@) ==> mime_type(path) == "image/jpeg"@,
        same_name(ext, "gif"@) ==> mime_type(path) == "image/gif"@,
        same_name(ext, "webp"@) ==> mime_type(path) == "image/webp"@,
        same_name(ext, "ico"@) ==> mime_type(path) == "image/x-icon"@,
        same_name(ext, "wasm"@) ==> mime_type(path) == "application/wasm"@,
        !same_name(ext, "html"@) && !same_name(ext, "htm"@) && !same_name(ext, "css"@) && !same_name(ext, "js"@) && !same_name(ext, "json"@) && !same_name(ext, "txt"@) && !same_name(ext, "xml"@) && !same_name(ext, "svg"@) && !same_name(ext, "png"@) && !same_name(ext, "jpg"@) && !same_name(ext, "jpeg"@) && !same_name(ext, "gif"@) && !same_name(ext, "webp"@) && !same_name(ext, "ico"@) && !same_name(ext, "wasm"@)
            ==> mime_type(path) == "application/octet-stream"@,
{
    reveal_strlit("html");
    reveal_strlit("htm");
    reveal_strlit("css");
    reveal_strlit("js");
    reveal_strlit("json");
    reveal_strlit("txt");
    reveal_strlit("xml");
    reveal_strlit("svg");
    reveal_strlit("png");
    reveal_strlit("jpg");
    reveal_strlit("jpeg");
    reveal_strlit("gif");
    reveal_strlit("webp");
    reveal_strlit("ico");
    reveal_strlit("wasm");
    let l = crate::text::lower(ext);
    assert(crate::text::lower("html"@) =~= "html"@);
    assert(crate::text::lower("htm"@) =~= "htm"@);
    assert(crate::text::lower("css"@) =~= "css"@);
    assert(crate::text::lower("js"@) =~= "js"@);
    assert(crate::text::lower("json"@) =~= "json"@);
    assert(crate::text::lower("txt"@) =~= "txt"@);
    assert(crate::text::lower("xml"@) =~= "xml"@);
    assert(crate::text::lower("svg"@) =~= "svg"@);
    assert(crate::text::lower("png"@) =~= "png"@);
    assert(crate::text::lower("jpg"@) =~= "jpg"@);
    assert(crate::text::lower("jpeg"@) =~= "jpeg"@);
    assert(crate::text::lower("gif"@) =~= "gif"@);
    assert(crate::text::lower("webp"@) =~= "webp"@);
    assert(crate::text::lower("ico"@) =~= "ico"@);
    assert(crate::text::lower("wasm"@) =~= "wasm"@);
    assert("html"@[0] == 'h' && "html"@[1] == 't' && "html"@[2] == 'm' && "html"@[3] == 'l');
    assert("json"@[0] == 'j' && "json"@[1] == 's' && "json"@[2] == 'o' && "json"@[3] == 'n');
    assert("jpeg"@[0] == 'j' && "jpeg"@[1] == 'p' && "jpeg"@[2] == 'e' && "jpeg"@[3] == 'g');
    assert("webp"@[0] == 'w' && "webp"@[1] == 'e' && "webp"@[2] == 'b' && "webp"@[3] == 'p');
    assert("wasm"@[0] == 'w' && "wasm"@[1] == 'a' && "wasm"@[2] == 's' && "wasm"@[3] == 'm');
    assert("htm"@[0] == 'h' && "htm"@[1] == 't' && "htm"@[2] == 'm');
    assert("css"@[0] == 'c' && "css"@[1] == 's' && "css"@[2] == 's');
    assert("txt"@[0] == 't' && "txt"@[1] == 'x' && "txt"@[2] == 't');
    assert("xml"@[0] == 'x' && "xml"@[1] == 'm' && "xml"@[2] == 'l');
    assert("svg"@[0] == 's' && "svg"@[1] == 'v' && "svg"@[2] == 'g');
    assert("png"@[0] == 'p' && "png"@[1] == 'n' && "png"@[2] == 'g');
    assert("jpg"@[0] == 'j' && "jpg"@[1] == 'p' && "jpg"@[2] == 'g');
    assert("gif"@[0] == 'g' && "gif"@[1] == 'i' && "gif"@[2] == 'f');
    assert("ico"@[0] == 'i' && "ico"@[1] == 'c' && "ico"@[2] == 'o');
    assert("js"@[0] == 'j' && "js"@[1] == 's');
}

} // verus!
