//! The front controller: the script that answers for paths at which there is no file.

use crate::config::types::{ServerConfig, ServerView};
use crate::router::path::{request_path_is_safe, safe_request};
use crate::server::cgi_request::{method_served, served_method};
use crate::server::dispatch::{request_target, target_of, Target};
use crate::server::fastcgi;
use crate::server::http::{HttpRequest, RequestView};
use crate::server::record::{query, request_params};
use vstd::prelude::*;

verus! {

/// The request as it selects the route and the script of the front controller.
pub open spec fn at_controller(req: RequestView, controller: Seq<char>) -> RequestView {
    RequestView { uri: controller, ..req }
}

/// The front controller that answers a request. `found` says that there is a file or a
/// directory at its path.
pub open spec fn controller_for(req: RequestView, c: ServerView, found: bool) -> Option<Seq<char>> {
    match c.front_controller {
        Some(p) => if target_of(req, c) is Files && !found && safe_request(
            req.uri,
            c.deny_hidden_files,
        ) && served_method(req.method) && fastcgi::some_route_fits(at_controller(req, p), c) {
            Some(p)
        } else {
            None
        },
        None => None,
    }
}

/// Files and directories that are there, paths that are not safe and paths with a route
/// of their own never come to the front controller, nor does anything where no route
/// leads to it.
pub proof fn law_controllers_take_missing_paths_only(req: RequestView, c: ServerView, found: bool)
    ensures
        controller_for(req, c, found) matches Some(p) ==> {
            &&& !found
            &&& safe_request(req.uri, c.deny_hidden_files)
            &&& !fastcgi::some_route_fits(req, c)
            &&& c.front_controller == Some(p)
            &&& fastcgi::some_route_fits(at_controller(req, p), c)
        },
{
}

/// The front controller is told what the client asked for, under its own name.
pub proof fn law_controllers_see_the_request(
    req: RequestView,
    controller: Seq<char>,
    root: Seq<char>,
    script: Seq<char>,
    secure: bool,
    peer: Seq<char>,
    length: nat,
)
    ensures
        ({
            let p = request_params(req, controller, root, script, secure, peer, length);
            &&& p.contains(("REQUEST_URI"@, req.uri))
            &&& p.contains(("QUERY_STRING"@, query(req.uri)))
            &&& p.contains(("SCRIPT_NAME"@, controller))
            &&& p.contains(("SCRIPT_FILENAME"@, script))
        }),
{
    let p = request_params(req, controller, root, script, secure, peer, length);
    assert(p[6] == ("REQUEST_URI"@, req.uri));
    assert(p[1] == ("QUERY_STRING"@, query(req.uri)));
    assert(p[5] == ("SCRIPT_NAME"@, controller));
    assert(p[4] == ("SCRIPT_FILENAME"@, script));
}

/// The request as it selects the route and the script of the front controller.
pub fn controller_request(req: &HttpRequest, controller: &str) -> (r: HttpRequest)
    ensures
        r@ == at_controller(req@, controller@),
{
    let q = req.clone();
    HttpRequest { uri: controller.to_owned(), ..q }
}

/// The front controller that answers a request.
pub fn front_controller(req: &HttpRequest, config: &ServerConfig, found: bool) -> (r: Option<String>)
    ensures
        match r {
            Some(p) => controller_for(req@, config@, found) == Some(p@),
            None => controller_for(req@, config@, found) is None,
        },
{
    match &config.front_controller {
        Some(p) => {
            let fits = match request_target(req, config) {
                Target::Files => !found && request_path_is_safe(
                    req.uri.as_str(),
                    config.deny_hidden_files,
                ) && method_served(&req.method),
                _ => false,
            };
            if fits && fastcgi::route_matches_request(
                &controller_request(req, p.as_str()),
                config,
            ) {
                Some(p.clone())
            } else {
                None
            }
        },
        None => None,
    }
}

} // verus!
