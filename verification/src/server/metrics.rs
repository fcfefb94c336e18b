//! Counters, and the text in which they are published.

use crate::text::{chars_of, decimal, decimal_of, push_str, push_text, string_of};
use vstd::prelude::*;

verus! {

/// The counters of a server; one that is full starts over at zero.
#[derive(Debug, Clone, Copy, PartialEq, Eq, Structural)]
pub struct Metrics {
    pub requests_total: u64,
    pub requests_active: u64,
    pub response_bytes: u64,
    pub status_4xx: u64,
    pub status_5xx: u64,
    pub proxy_requests: u64,
    pub fastcgi_requests: u64,
}

/// The sum, which starts over at zero behind the greatest number.
pub open spec fn counted(a: u64, b: u64) -> u64 {
    if a + b > u64::MAX {
        (a + b - u64::MAX - 1) as u64
    } else {
        (a + b) as u64
    }
}

fn count(a: u64, b: u64) -> (r: u64)
    ensures
        r == counted(a, b),
{
    if b > u64::MAX - a {
        b - (u64::MAX - a) - 1
    } else {
        a + b
    }
}

impl Default for Metrics {
    fn default() -> (r: Self)
        ensures
            r == (Metrics {
                requests_total: 0,
                requests_active: 0,
                response_bytes: 0,
                status_4xx: 0,
                status_5xx: 0,
                proxy_requests: 0,
                fastcgi_requests: 0,
            }),
    {
        Metrics {
            requests_total: 0,
            requests_active: 0,
            response_bytes: 0,
            status_4xx: 0,
            status_5xx: 0,
            proxy_requests: 0,
            fastcgi_requests: 0,
        }
    }
}

/// A request that is being served.
#[derive(Debug)]
pub struct RequestGuard {}

impl RequestGuard {
    /// Begins to serve a request.
    pub fn begin(m: &mut Metrics) -> (g: Self)
        ensures
            *final(m) == (Metrics { requests_active: counted(old(m).requests_active, 1), ..*old(m) }),
    {
        m.requests_active = count(m.requests_active, 1);
        RequestGuard {  }
    }

    /// The request was served.
    pub fn end(self, m: &mut Metrics)
        ensures
            *final(m) == (Metrics {
                requests_active: counted(old(m).requests_active, u64::MAX),
                ..*old(m)
            }),
    {
        m.requests_active = count(m.requests_active, u64::MAX);
    }
}

/// A request that was served is not counted as one that is being served.
pub proof fn law_served_requests_are_not_active(active: u64)
    ensures
        counted(counted(active, 1), u64::MAX) == active,
{
}

/// The counters after a response.
pub open spec fn after_response(m: Metrics, status: u16, bytes: u64) -> Metrics {
    Metrics {
        requests_total: counted(m.requests_total, 1),
        response_bytes: counted(m.response_bytes, bytes),
        status_4xx: if 400 <= status < 500 {
            counted(m.status_4xx, 1)
        } else {
            m.status_4xx
        },
        status_5xx: if 500 <= status < 600 {
            counted(m.status_5xx, 1)
        } else {
            m.status_5xx
        },
        ..m
    }
}

/// Counts a response.
pub fn record_response(m: &mut Metrics, status: u16, bytes: u64)
    ensures
        *final(m) == after_response(*old(m), status, bytes),
{
    m.requests_total = count(m.requests_total, 1);
    m.response_bytes = count(m.response_bytes, bytes);
    if 400 <= status && status < 500 {
        m.status_4xx = count(m.status_4xx, 1);
    } else if 500 <= status && status < 600 {
        m.status_5xx = count(m.status_5xx, 1);
    }
}

/// Counts a request that goes to an upstream.
pub fn record_proxy(m: &mut Metrics)
    ensures
        *final(m) == (Metrics { proxy_requests: counted(old(m).proxy_requests, 1), ..*old(m) }),
{
    m.proxy_requests = count(m.proxy_requests, 1);
}

/// Counts a request that goes to a FastCGI responder.
pub fn record_fastcgi(m: &mut Metrics)
    ensures
        *final(m) == (Metrics { fastcgi_requests: counted(old(m).fastcgi_requests, 1), ..*old(m) }),
{
    m.fastcgi_requests = count(m.fastcgi_requests, 1);
}

/// The counters as a text.
pub open spec fn prometheus(m: Metrics) -> Seq<char> {
    "# TYPE veysrs_requests_total counter\nveysrs_requests_total "@ + decimal(
        m.requests_total as nat,
    ) + "\n# TYPE veysrs_requests_active gauge\nveysrs_requests_active "@ + decimal(
        m.requests_active as nat,
    ) + "\n# TYPE veysrs_response_bytes counter\nveysrs_response_bytes "@ + decimal(
        m.response_bytes as nat,
    ) + "\n# TYPE veysrs_4xx_total counter\nveysrs_4xx_total "@ + decimal(m.status_4xx as nat)
        + "\n# TYPE veysrs_5xx_total counter\nveysrs_5xx_total "@ + decimal(m.status_5xx as nat)
        + "\n# TYPE veysrs_proxy_requests_total counter\nveysrs_proxy_requests_total "@ + decimal(
        m.proxy_requests as nat,
    ) + "\n# TYPE veysrs_fastcgi_requests_total counter\nveysrs_fastcgi_requests_total "@ + decimal(
        m.fastcgi_requests as nat,
    ) + "\n"@
}

/// The counters as a text.
pub fn render_prometheus(m: &Metrics) -> (r: String)
    ensures
        r@ == prometheus(*m),
{
    let mut out = chars_of("# TYPE veysrs_requests_total counter\nveysrs_requests_total ");
    push_text(&mut out, &decimal_of(m.requests_total));
    push_str(&mut out, "\n# TYPE veysrs_requests_active gauge\nveysrs_requests_active ");
    push_text(&mut out, &decimal_of(m.requests_active));
    push_str(&mut out, "\n# TYPE veysrs_response_bytes counter\nveysrs_response_bytes ");
    push_text(&mut out, &decimal_of(m.response_bytes));
    push_str(&mut out, "\n# TYPE veysrs_4xx_total counter\nveysrs_4xx_total ");
    push_text(&mut out, &decimal_of(m.status_4xx));
    push_str(&mut out, "\n# TYPE veysrs_5xx_total counter\nveysrs_5xx_total ");
    push_text(&mut out, &decimal_of(m.status_5xx));
    push_str(
        &mut out,
        "\n# TYPE veysrs_proxy_requests_total counter\nveysrs_proxy_requests_total ",
    );
    push_text(&mut out, &decimal_of(m.proxy_requests));
    push_str(
        &mut out,
        "\n# TYPE veysrs_fastcgi_requests_total counter\nveysrs_fastcgi_requests_total ",
    );
    push_text(&mut out, &decimal_of(m.fastcgi_requests));
    push_str(&mut out, "\n");
    string_of(&out)
}

} // verus!
