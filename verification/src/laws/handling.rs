//! Answers that the server makes up, and settings that a running server takes over.

use crate::config::types::{default_server, DirView, ServerView};
use crate::laws::headers::law_the_first_header_counts;
use crate::router::handler::{head_only, logged_bytes, ruled_type, type_of_file};
use crate::router::path::{extension, mime_type, safe_request};
use crate::server::cgi_request::served_method;
use crate::server::dispatch::{body_target_of, target_of, Target};
use crate::server::fastcgi::some_route_fits;
use crate::server::fault::closing_answer;
use crate::server::front::{at_controller, controller_for};
use crate::server::http::{header_value, RequestView, StatusCode};
use crate::server::listener::{reloaded, ReloadError};
use crate::server::response::{ResponseView, SourceView};
use crate::text::{decimal, lower};
use vstd::prelude::*;
use vstd::utf8::encode_utf8;

verus! {

/// A plain answer has the status and the message that it was made with, says how long the
/// message is and what it is, and ends the connection.
pub proof fn law_plain_answers_say_their_message(status: StatusCode, message: Seq<char>)
    ensures
        ({
            let r = closing_answer(status, message);
            &&& r.status == status
            &&& r.close_connection
            &&& r.body_source == SourceView::Bytes(encode_utf8(message))
            &&& header_value(r.headers, "Content-Length"@) == Some(
                decimal(encode_utf8(message).len()),
            )
            &&& header_value(r.headers, "Content-Type"@) == Some("text/plain; charset=utf-8"@)
        }),
{
    let r = closing_answer(status, message);
    reveal_strlit("Server");
    reveal_strlit("Content-Length");
    reveal_strlit("Content-Type");
    assert(lower("Server"@).len() == 6 && lower("Content-Length"@).len() == 14 && lower(
        "Content-Type"@,
    ).len() == 12);
    law_the_first_header_counts(r.headers, "Content-Length"@, 1);
    law_the_first_header_counts(r.headers, "Content-Type"@, 2);
}

/// An answer to `HEAD` has the status and the headers of the answer to `GET`, and no body;
/// any other answer is left alone.
pub proof fn law_head_requests_get_no_body(req: RequestView, r: ResponseView)
    ensures
        head_only(req, r).status == r.status,
        head_only(req, r).headers == r.headers,
        head_only(req, r).close_connection == r.close_connection,
        req.method is Head ==> head_only(req, r).body_source == SourceView::Bytes(Seq::empty())
            && logged_bytes(req, r) == 0,
        !(req.method is Head) ==> head_only(req, r) == r,
        !(req.method is Head) ==> (r.body_source matches SourceView::Bytes(b) ==> logged_bytes(
            req,
            r,
        ) == b.len()),
        !(req.method is Head) ==> (r.body_source matches SourceView::File(n) ==> logged_bytes(
            req,
            r,
        ) == n),
        !(req.method is Head) ==> (r.body_source matches SourceView::FileRange(_, n)
            ==> logged_bytes(req, r) == n),
{
}

proof fn lemma_ruled_type(m: Seq<(Seq<char>, Seq<char>)>, ext: Seq<char>, i: int, k: int)
    requires
        0 <= i <= k <= m.len(),
        forall|j: int| i <= j < k ==> (#[trigger] m[j]).0 != ext,
        k < m.len() ==> m[k].0 == ext,
    ensures
        ruled_type(m, ext, i) == (if k < m.len() {
            Some(m[k].1)
        } else {
            None
        }),
    decreases k - i,
{
    if i < k {
        lemma_ruled_type(m, ext, i + 1, k);
    }
}

/// A file has the type that the rules give to its extension first, else the usual one. `k`
/// is the place of the extension among the rules.
pub proof fn law_rules_name_the_types_of_files(
    d: DirView,
    path: Seq<char>,
    ext: Seq<char>,
    k: int,
)
    requires
        extension(path) == Some(ext),
        0 <= k <= d.mime_types.len(),
        forall|j: int| 0 <= j < k ==> (#[trigger] d.mime_types[j]).0 != seq!['.'] + ext,
        k < d.mime_types.len() ==> d.mime_types[k].0 == seq!['.'] + ext,
    ensures
        type_of_file(d, path) == (if k < d.mime_types.len() {
            d.mime_types[k].1
        } else {
            mime_type(path)
        }),
{
    reveal_strlit(".");
    assert("."@ + ext =~= seq!['.'] + ext);
    lemma_ruled_type(d.mime_types, "."@ + ext, 0, k);
}

/// A running server takes over the settings of a rule file without complaint that does not
/// move it to another address. What the file leaves at its default stays as it is where the
/// command line can set it. A file with complaints is refused, and so is another address.
pub proof fn law_reloads_take_the_settings_over(
    parsed: ServerView,
    complaints: nat,
    active: ServerView,
)
    requires
        complaints <= usize::MAX,
    ensures
        ({
            let d = default_server();
            let stays = (parsed.host == d.host || parsed.host == active.host) && (parsed.port
                == d.port || parsed.port == active.port);
            let r = reloaded(parsed, complaints, active);
            &&& complaints > 0 ==> r == Err::<ServerView, _>(
                ReloadError::Parse(complaints as usize),
            )
            &&& complaints == 0 && !stays ==> r == Err::<ServerView, _>(ReloadError::Bound)
            &&& complaints == 0 && stays ==> {
                &&& r matches Ok(c)
                &&& c.workers == (if parsed.workers == d.workers {
                    active.workers
                } else {
                    parsed.workers
                })
                &&& c.max_connections == (if parsed.max_connections == d.max_connections {
                    active.max_connections
                } else {
                    parsed.max_connections
                })
                &&& c.max_request_size == (if parsed.max_request_size == d.max_request_size {
                    active.max_request_size
                } else {
                    parsed.max_request_size
                })
                &&& c == (ServerView {
                    host: active.host,
                    port: active.port,
                    config_file: active.config_file,
                    root_dir: c.root_dir,
                    workers: c.workers,
                    max_connections: c.max_connections,
                    max_request_size: c.max_request_size,
                    ..parsed
                })
            }
        }),
{
}

/// A safe request for a path at which nothing lies goes to the front controller, where there
/// is one that a responder serves.
pub proof fn law_missing_paths_go_to_the_controller(
    req: RequestView,
    c: ServerView,
    controller: Seq<char>,
)
    requires
        c.front_controller == Some(controller),
        target_of(req, c) is Files,
        safe_request(req.uri, c.deny_hidden_files),
        served_method(req.method),
        some_route_fits(at_controller(req, controller), c),
    ensures
        controller_for(req, c, false) == Some(controller),
        controller_for(req, c, true) is None,
        at_controller(req, controller).uri == controller,
        at_controller(req, controller).headers == req.headers,
        at_controller(req, controller).body == req.body,
{
}

/// A proxied request and a form for a script are passed on while they come in, unless the
/// connection is to be upgraded; everything else is taken in first.
pub proof fn law_bodies_are_passed_on_as_they_come(req: RequestView, c: ServerView)
    ensures
        header_value(req.headers, "Upgrade"@) is Some ==> body_target_of(req, c) is None,
        header_value(req.headers, "Upgrade"@) is None ==> body_target_of(req, c) == (
        match target_of(req, c) {
            Target::Proxy => Some(Target::Proxy),
            Target::FastCgi => if req.method is Post {
                Some(Target::FastCgi)
            } else {
                None
            },
            Target::Files => None,
        }),
{
}

} // verus!
