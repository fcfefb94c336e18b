//! What a request is answered under the rules of a directory.

use crate::config::ip::IpAddr;
use crate::config::types::{no_rules, DirView, RedirectView, ServerView};
use crate::config::veysrule::rules;
use crate::laws::directives::{law_redirect_lines, lemma_one_line_file};
use crate::laws::headers::{law_rules_shape_answers, lemma_unbroken};
use crate::laws::rule_lines::{ended, plain_word, plain_words, spaced};
use crate::laws::texts::{lemma_decimal_is_digits, lemma_uncut, one_line};
use crate::router::handler::{
    admission, answered, denied, handled, missing_page, page_from, served, FactsView,
};
use crate::router::negotiate::{law_security_headers_override_nothing, ruled, secured};
use crate::router::path::{hidden, law_plain_paths_decode_to_themselves, normal_path, protected};
use crate::router::render::listing;
use crate::router::vhost::settings_for;
use crate::server::http::{method_text, RequestView, StatusCode};
use crate::server::response::{add_header, bare_response, with_nothing, ResponseView, SourceView};
use crate::text::{decimal, ends_with, has_char, lines, same_name};
use vstd::prelude::*;

verus! {

/// A target without escapes, query and fragment.
pub open spec fn plain_target(s: Seq<char>) -> bool {
    !has_char(s, '%') && !has_char(s, '?') && !has_char(s, '#')
}

/// A request for a file of the server under a plain target that is neither a rule file nor
/// outside of the root.
pub open spec fn asks_for(req: RequestView, target: Seq<char>) -> bool {
    &&& req.method is Get || req.method is Head
    &&& req.uri == target
    &&& plain_target(target)
    &&& target != "/metrics"@
    &&& normal_path(target) matches Some(p) && !protected(p)
}

proof fn lemma_admitted(req: RequestView, metrics: Seq<char>)
    requires
        asks_for(req, req.uri),
    ensures
        admission(req, metrics) == Ok::<_, ResponseView>(
            (req.uri, normal_path(req.uri).unwrap()),
        ),
{
    law_plain_paths_decode_to_themselves(req.uri);
    lemma_uncut(req.uri, '?');
    lemma_uncut(req.uri, '#');
}

/// No rule of the directory turns the client away.
pub open spec fn lets_in(d: DirView, req: RequestView, peer: Option<IpAddr>) -> bool {
    &&& d.methods matches Some(l) ==> l.contains(method_text(req.method))
    &&& peer matches Some(a) ==> !d.deny_ips.contains(a) && (forall|i: int|
        0 <= i < d.deny_networks.len() ==> !(#[trigger] d.deny_networks[i]).covers(a)) && (
    d.allow_networks.len() == 0 || exists|i: int|
        0 <= i < d.allow_networks.len() && (#[trigger] d.allow_networks[i]).covers(a))
}

/// Hidden files are denied by the directory or, where it does not say, by the server.
pub open spec fn shows(d: DirView, c: ServerView, path: Seq<char>) -> bool {
    !hidden(path) || d.deny_hidden_files == Some(false) || (d.deny_hidden_files is None
        && !c.deny_hidden_files)
}

/// A request for the source of a redirect is sent to its target, permanently under the
/// status 301 and for the moment under any other.
pub proof fn law_redirects_are_followed(
    req: RequestView,
    peer: Option<IpAddr>,
    c: ServerView,
    d: DirView,
    f: FactsView,
    metrics: Seq<char>,
    r: RedirectView,
)
    requires
        asks_for(req, r.source),
        lets_in(d, req, peer),
        shows(d, c, normal_path(req.uri).unwrap()),
        d.redirect == Some(r),
        one_line(r.target),
        forall|i: int|
            0 <= i < d.remove_headers.len() ==> !same_name(
                "Location"@,
                #[trigger] d.remove_headers[i],
            ),
    ensures
        ({
            let a = handled(req, peer, true, c, d, f, metrics);
            &&& a.status == (if r.status == 301 {
                StatusCode::MovedPermanently
            } else {
                StatusCode::Found
            })
            &&& a.headers.contains(("Location"@, r.target))
            &&& a.body_source == SourceView::Bytes(Seq::empty())
        }),
{
    reveal_strlit("Location");
    lemma_admitted(req, metrics);
    let s = settings_for(c, req);
    assert(s.deny_hidden_files == c.deny_hidden_files);
    let path = normal_path(req.uri).unwrap();
    lemma_let_in(req, peer, s, d, path);
    lemma_unbroken(r.target);
    let status = if r.status == 301 {
        StatusCode::MovedPermanently
    } else {
        StatusCode::Found
    };
    let bare = with_nothing(add_header(bare_response(status), "Location"@, r.target));
    assert(bare.headers[1] == ("Location"@, r.target));
    assert(one_line("Location"@));
    law_rules_shape_answers(bare, d, ("Location"@, r.target));
    let x = answered(req, peer, s, d, f, metrics);
    assert(x == ruled(bare, d));
    law_security_headers_override_nothing(x.headers, c);
    let i = choose|i: int| 0 <= i < x.headers.len() && x.headers[i] == ("Location"@, r.target);
    assert(secured(x.headers, c)[i] == ("Location"@, r.target));
}

proof fn lemma_same_name(a: Seq<char>)
    ensures
        same_name(a, a),
{
}

proof fn lemma_let_in(
    req: RequestView,
    peer: Option<IpAddr>,
    c: ServerView,
    d: DirView,
    path: Seq<char>,
)
    requires
        lets_in(d, req, peer),
    ensures
        d.methods matches Some(l) ==> crate::router::handler::method_listed(
            l,
            method_text(req.method),
        ),
        peer matches Some(a) ==> !denied(d, a),
{
    if let Some(l) = d.methods {
        let m = method_text(req.method);
        let i = choose|i: int| 0 <= i < l.len() && l[i] == m;
        lemma_same_name(m);
        assert(same_name(l[i], m));
    }
}

/// A rule file whose only line is `redirect S T C` sends a request for S to T.
#[verifier::rlimit(40)]
pub proof fn law_redirect_files_redirect(
    req: RequestView,
    peer: Option<IpAddr>,
    c: ServerView,
    f: FactsView,
    metrics: Seq<char>,
    source: Seq<char>,
    target: Seq<char>,
    code: u16,
    is_root: bool,
)
    requires
        plain_word(source),
        plain_word(target),
        300 <= code <= 399,
        asks_for(req, source),
        !c.deny_hidden_files || !hidden(normal_path(source).unwrap()),
    ensures
        ({
            let file = ended(
                seq![spaced(seq!["redirect"@, source, target, decimal(code as nat)])],
            );
            let r = rules(lines(file), is_root);
            let a = handled(req, peer, true, c, r.dir, f, metrics);
            &&& r.complaints.len() == 0
            &&& r.dir.redirect == Some(RedirectView { source, target, status: code })
            &&& a.headers.contains(("Location"@, target))
            &&& a.status == (if code == 301 {
                StatusCode::MovedPermanently
            } else {
                StatusCode::Found
            })
        }),
{
    let r = RedirectView { source, target, status: code };
    let d = DirView { redirect: Some(r), ..no_rules() };
    lemma_redirect_file(source, target, code, is_root);
    lemma_word_is_one_line(target);
    law_redirects_are_followed(req, peer, c, d, f, metrics, r);
}

proof fn lemma_word_is_one_line(w: Seq<char>)
    requires
        plain_word(w),
    ensures
        one_line(w),
{
    assert forall|i: int| 0 <= i < w.len() implies #[trigger] w[i] != '\r' && w[i] != '\n' by {
        assert(crate::text::is_space('\r') && crate::text::is_space('\n'));
    }
}

proof fn lemma_redirect_file(source: Seq<char>, target: Seq<char>, code: u16, is_root: bool)
    requires
        plain_word(source),
        plain_word(target),
        300 <= code <= 399,
    ensures
        ({
            let file = ended(
                seq![spaced(seq!["redirect"@, source, target, decimal(code as nat)])],
            );
            let r = rules(lines(file), is_root);
            &&& r.complaints.len() == 0
            &&& r.dir == (DirView {
                redirect: Some(RedirectView { source, target, status: code }),
                ..no_rules()
            })
        }),
{
    reveal_strlit("redirect");
    lemma_decimal_is_digits(code as nat);
    let ws = seq!["redirect"@, source, target, decimal(code as nat)];
    assert(plain_words(ws)) by {
        assert(plain_word("redirect"@));
        assert(plain_word(decimal(code as nat)));
    }
    lemma_one_line_file(ws, is_root);
    law_redirect_lines(Seq::empty(), source, target, code, is_root);
}

/// An address that a rule denies, or that is not among those that are allowed where some
/// are, is refused; any other is not refused for its address.
pub proof fn law_addresses_are_screened(
    req: RequestView,
    a: IpAddr,
    c: ServerView,
    d: DirView,
    f: FactsView,
    metrics: Seq<char>,
)
    requires
        asks_for(req, req.uri),
        d.methods is None,
        shows(d, c, normal_path(req.uri).unwrap()),
        d.deny_ips.contains(a) || (exists|i: int|
            0 <= i < d.deny_networks.len() && (#[trigger] d.deny_networks[i]).covers(a)) || (
        d.allow_networks.len() > 0 && forall|i: int|
            0 <= i < d.allow_networks.len() ==> !(#[trigger] d.allow_networks[i]).covers(a)),
    ensures
        handled(req, Some(a), true, c, d, f, metrics).status == StatusCode::Forbidden,
{
    lemma_admitted(req, metrics);
    let s = settings_for(c, req);
    assert(denied(d, a));
    let plain = crate::server::response::plain_answer(
        StatusCode::Forbidden,
        "403 Forbidden: Access denied by IP rule"@,
    );
    law_rules_shape_answers(plain, d, (Seq::empty(), Seq::empty()));
}

/// A method that the rules do not list is refused, and the answer names those they do.
pub proof fn law_unlisted_methods_are_refused(
    req: RequestView,
    peer: Option<IpAddr>,
    c: ServerView,
    d: DirView,
    f: FactsView,
    metrics: Seq<char>,
    l: Seq<Seq<char>>,
)
    requires
        asks_for(req, req.uri),
        d.methods == Some(l),
        forall|i: int| 0 <= i < l.len() ==> !same_name(#[trigger] l[i], method_text(req.method)),
    ensures
        handled(req, peer, true, c, d, f, metrics).status == StatusCode::MethodNotAllowed,
{
    lemma_admitted(req, metrics);
}

/// A hidden file is refused where the directory, or the server for it, denies hidden files.
pub proof fn law_hidden_files_are_refused(
    req: RequestView,
    peer: Option<IpAddr>,
    c: ServerView,
    d: DirView,
    f: FactsView,
    metrics: Seq<char>,
)
    requires
        asks_for(req, req.uri),
        lets_in(d, req, peer),
        !shows(d, c, normal_path(req.uri).unwrap()),
    ensures
        handled(req, peer, true, c, d, f, metrics).status == StatusCode::Forbidden,
{
    lemma_admitted(req, metrics);
    let s = settings_for(c, req);
    lemma_let_in(req, peer, s, d, req.uri);
    let plain = crate::server::response::plain_answer(
        StatusCode::Forbidden,
        "403 Forbidden: Access to hidden files is restricted"@,
    );
    law_rules_shape_answers(plain, d, (Seq::empty(), Seq::empty()));
}

/// A request that no rule stops is answered from the file system: a directory without its
/// slash is sent to the one with it, a directory without an index file is listed where that
/// is allowed, and what is not there is missing.
pub proof fn law_what_is_there_is_served(
    req: RequestView,
    peer: Option<IpAddr>,
    c: ServerView,
    d: DirView,
    f: FactsView,
    metrics: Seq<char>,
)
    requires
        asks_for(req, req.uri),
        req.method is Get,
        lets_in(d, req, peer),
        shows(d, c, normal_path(req.uri).unwrap()),
        d.redirect is None,
        f.root_found,
        one_line(req.uri),
        d.remove_headers.len() == 0,
        req.uri.len() > 0,
    ensures
        ({
            let a = handled(req, peer, true, c, d, f, metrics);
            &&& f.directory is Some && req.uri.last() != '/' ==> a.status
                == StatusCode::MovedPermanently && a.headers.contains(
                ("Location"@, req.uri + "/"@),
            )
            &&& f.directory is Some && req.uri.last() == '/' && !f.directory.unwrap().has_index
                && d.autoindex == Some(true) ==> a.status == StatusCode::Okay && a.body_source
                == SourceView::Bytes(
                listing(
                    f.directory.unwrap().entries,
                    if d.deny_hidden_files is Some {
                        d.deny_hidden_files.unwrap()
                    } else {
                        c.deny_hidden_files
                    },
                ),
            )
            &&& f.directory is None && f.file is None ==> a.status == StatusCode::NotFound
        }),
{
    reveal_strlit("/");
    reveal_strlit("Location");
    lemma_admitted(req, metrics);
    let s = settings_for(c, req);
    lemma_let_in(req, peer, s, d, req.uri);
    let x = served(req, s, d, req.uri, f);
    assert(answered(req, peer, s, d, f, metrics) == x);
    let e = (Seq::<char>::empty(), Seq::<char>::empty());
    let u = req.uri;
    let last = u.subrange(u.len() - 1, u.len() as int);
    assert(last[0] == u.last());
    assert(ends_with(u, "/"@) <==> u.last() == '/') by {
        if u.last() == '/' {
            assert(last =~= "/"@);
        }
    }
    if f.directory is Some && u.last() != '/' {
        let t = u + "/"@;
        assert forall|i: int| 0 <= i < t.len() implies #[trigger] t[i] != '\r' && t[i] != '\n' by {
            if i < u.len() {
                assert(t[i] == u[i]);
            }
        }
        lemma_unbroken(t);
        let bare = with_nothing(
            add_header(bare_response(StatusCode::MovedPermanently), "Location"@, t),
        );
        let p = ("Location"@, t);
        assert(bare.headers[1] == p);
        assert(one_line("Location"@));
        law_rules_shape_answers(bare, d, p);
        law_security_headers_override_nothing(x.headers, c);
        let i = choose|i: int| 0 <= i < x.headers.len() && x.headers[i] == p;
        assert(secured(x.headers, c)[i] == p);
    } else if f.directory is Some && !f.directory.unwrap().has_index && d.autoindex == Some(true) {
        let page = listing(
            f.directory.unwrap().entries,
            crate::router::handler::hides(d, s.deny_hidden_files),
        );
        law_rules_shape_answers(
            crate::server::response::add_body(
                bare_response(StatusCode::Okay),
                page.len(),
                "text/html; charset=utf-8"@,
                SourceView::Bytes(page),
            ),
            d,
            e,
        );
    } else if f.directory is None && f.file is None {
        law_rules_shape_answers(crate::router::handler::missing(d, f.error_page), d, e);
    }
}

proof fn lemma_page(p: Seq<(u16, Seq<char>)>, status: u16, from: int, k: int)
    requires
        0 <= from <= k < p.len(),
        p[k].0 == status,
        forall|i: int| from <= i < k ==> (#[trigger] p[i]).0 != status,
    ensures
        page_from(p, status, from) == Some(p[k].1),
    decreases k - from,
{
    if from < k {
        assert(p[from].0 != status);
        lemma_page(p, status, from + 1, k);
    }
}

proof fn lemma_no_page(p: Seq<(u16, Seq<char>)>, status: u16, from: int)
    requires
        0 <= from <= p.len(),
        forall|i: int| from <= i < p.len() ==> (#[trigger] p[i]).0 != status,
    ensures
        page_from(p, status, from) is None,
    decreases p.len() - from,
{
    if from < p.len() {
        assert(p[from].0 != status);
        lemma_no_page(p, status, from + 1);
    }
}

/// The page for what is missing is the first that the rules give for that status, else the
/// one they redirect to; it lies below the root and is no rule file.
pub proof fn law_missing_pages_are_found(d: DirView, k: int)
    requires
        0 <= k <= d.error_pages.len(),
        forall|i: int| 0 <= i < k ==> (#[trigger] d.error_pages[i]).0 != 404,
        k < d.error_pages.len() ==> d.error_pages[k].0 == 404,
    ensures
        k < d.error_pages.len() ==> (missing_page(d) matches Some(p) ==> normal_path(
            d.error_pages[k].1,
        ) == Some(p) && !protected(p)),
        k < d.error_pages.len() && missing_page(d) is None ==> (normal_path(
            d.error_pages[k].1,
        ) matches Some(p) ==> protected(p)),
        k == d.error_pages.len() && d.redirect_404 is None ==> missing_page(d) is None,
        k == d.error_pages.len() && d.redirect_404 is Some ==> (missing_page(d) matches Some(p)
            ==> normal_path(d.redirect_404.unwrap()) == Some(p) && !protected(p)),
{
    if k < d.error_pages.len() {
        lemma_page(d.error_pages, 404, 0, k);
    } else {
        lemma_no_page(d.error_pages, 404, 0);
    }
}

} // verus!
