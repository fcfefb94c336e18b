//! What the listener decides: how many connections there are, and which settings are
//! taken over while the server runs.

use crate::config::ip::IpAddr;
use crate::config::types::{default_server, ServerConfig, ServerView};
use crate::router::path::{components, components_of};
use crate::server::limits::{connected, disconnected, AdmissionLimiter};
use crate::text::{
    chars_of, decimal, decimal_of, is_text, push_str, same, starts_with, starts_with_str, string_of,
    texts,
};
use vstd::prelude::*;

verus! {

/// The number of open connections.
#[derive(Debug)]
pub struct ConnectionCount {
    pub open: usize,
}

/// A connection that is counted.
#[derive(Debug)]
pub struct ConnectionGuard {}

impl ConnectionGuard {
    /// Counts one more connection, while there are fewer than `max`.
    pub fn try_acquire(counter: &mut ConnectionCount, max: usize) -> (r: Option<Self>)
        ensures
            match r {
                Some(_) => old(counter).open < max && final(counter).open == old(counter).open + 1,
                None => old(counter).open >= max && final(counter).open == old(counter).open,
            },
    {
        if counter.open >= max {
            return None;
        }
        counter.open = counter.open + 1;
        Some(ConnectionGuard {  })
    }

    /// The connection is closed.
    pub fn release(self, counter: &mut ConnectionCount)
        requires
            old(counter).open > 0,
        ensures
            final(counter).open == old(counter).open - 1,
    {
        counter.open = counter.open - 1;
    }
}

/// What a client that connects gets.
#[derive(Debug)]
pub enum Welcome {
    /// It is served.
    Serve(ConnectionGuard),
    /// It has too many connections.
    Busy,
    /// The server has too many connections.
    Full,
}

/// Counts a connection of an address. One that is not served is not counted; where the
/// server is full, the address is remembered as one that was just seen.
pub fn welcome(
    limiter: &mut AdmissionLimiter,
    counter: &mut ConnectionCount,
    config: &ServerConfig,
    ip: IpAddr,
    now: u64,
) -> (w: Welcome)
    ensures
        ({
            let (buckets, room) = connected(
                old(limiter)@,
                ip,
                config.max_connections_per_ip,
                now,
            );
            match w {
                Welcome::Serve(_) => room && old(counter).open < config.max_connections
                    && final(limiter)@ == buckets && final(counter).open == old(counter).open + 1,
                Welcome::Busy => !room && final(limiter)@ == buckets && final(counter).open == old(
                    counter,
                ).open,
                Welcome::Full => room && old(counter).open >= config.max_connections
                    && final(limiter)@ == disconnected(buckets, ip, now) && final(counter).open
                    == old(counter).open,
            }
        }),
{
    if !limiter.try_connection(ip, config.max_connections_per_ip, now) {
        return Welcome::Busy;
    }
    match ConnectionGuard::try_acquire(counter, config.max_connections) {
        Some(g) => Welcome::Serve(g),
        None => {
            limiter.release_connection(ip, now);
            Welcome::Full
        },
    }
}

/// The connection of an address is closed.
pub fn farewell(
    guard: ConnectionGuard,
    limiter: &mut AdmissionLimiter,
    counter: &mut ConnectionCount,
    ip: IpAddr,
    now: u64,
)
    requires
        old(counter).open > 0,
    ensures
        final(limiter)@ == disconnected(old(limiter)@, ip, now),
        final(counter).open == old(counter).open - 1,
{
    guard.release(counter);
    limiter.release_connection(ip, now);
}

/// A path begins with the current directory.
pub open spec fn starts_here(s: Seq<char>) -> bool {
    s == "."@ || starts_with(s, "./"@)
}

/// Two paths consist of the same names, from the same beginning.
pub open spec fn same_path(a: Seq<char>, b: Seq<char>) -> bool {
    starts_with(a, "/"@) == starts_with(b, "/"@) && starts_here(a) == starts_here(b) && components(
        a,
    ) == components(b)
}

/// Whether two paths consist of the same names, from the same beginning.
pub fn paths_equal(a: &str, b: &str) -> (r: bool)
    ensures
        r == same_path(a@, b@),
{
    let x = chars_of(a);
    let y = chars_of(b);
    let p = components_of(&x);
    let q = components_of(&y);
    if starts_with_str(&x, "/") != starts_with_str(&y, "/") {
        return false;
    }
    if (is_text(&x, ".") || starts_with_str(&x, "./")) != (is_text(&y, ".") || starts_with_str(
        &y,
        "./",
    )) {
        return false;
    }
    let ghost u = components(a@);
    let ghost v = components(b@);
    assert(u.len() == p@.len() && v.len() == q@.len());
    if p.len() != q.len() {
        return false;
    }
    let mut i: usize = 0;
    while i < p.len()
        invariant
            u == texts(p@),
            v == texts(q@),
            u == components(a@),
            v == components(b@),
            p@.len() == q@.len(),
            i <= p@.len(),
            forall|j: int| 0 <= j < i ==> u[j] == v[j],
        decreases p@.len() - i,
    {
        assert(u[i as int] == p@[i as int]@ && v[i as int] == q@[i as int]@);
        if !same(&p[i], &q[i]) {
            return false;
        }
        i = i + 1;
    }
    assert(u =~= v);
    true
}

/// Why new settings are not taken over.
#[derive(Debug, Clone, Copy, PartialEq, Eq, Structural)]
pub enum ReloadError {
    /// So many complaints about the root rule file.
    Parse(usize),
    /// The server would have to listen elsewhere.
    Bound,
    /// So many complaints about rule files.
    Rules(usize),
}

impl ReloadError {
    /// The error as a text.
    pub open spec fn text(self) -> Seq<char> {
        match self {
            ReloadError::Parse(n) => decimal(n as nat) + " configuration error(s)"@,
            ReloadError::Bound =>
                "runtime reload cannot change the bound host or port; restart required"@,
            ReloadError::Rules(n) => decimal(n as nat) + " VeyRule validation error(s)"@,
        }
    }

    /// The error as a text.
    pub fn to_text(&self) -> (r: String)
        ensures
            r@ == self.text(),
    {
        match self {
            ReloadError::Parse(n) => {
                let mut t = decimal_of(*n as u64);
                push_str(&mut t, " configuration error(s)");
                string_of(&t)
            },
            ReloadError::Bound => string_of(
                &chars_of("runtime reload cannot change the bound host or port; restart required"),
            ),
            ReloadError::Rules(n) => {
                let mut t = decimal_of(*n as u64);
                push_str(&mut t, " VeyRule validation error(s)");
                string_of(&t)
            },
        }
    }
}

/// The settings of a rule file, where those that it leaves at their defaults stay as
/// the running server has them.
pub open spec fn carried_over(parsed: ServerView, active: ServerView) -> ServerView {
    let d = default_server();
    ServerView {
        config_file: active.config_file,
        host: if parsed.host == d.host {
            active.host
        } else {
            parsed.host
        },
        port: if parsed.port == d.port {
            active.port
        } else {
            parsed.port
        },
        root_dir: if same_path(parsed.root_dir, d.root_dir) && !same_path(
            active.root_dir,
            d.root_dir,
        ) {
            active.root_dir
        } else {
            parsed.root_dir
        },
        workers: if parsed.workers == d.workers {
            active.workers
        } else {
            parsed.workers
        },
        max_connections: if parsed.max_connections == d.max_connections {
            active.max_connections
        } else {
            parsed.max_connections
        },
        max_request_size: if parsed.max_request_size == d.max_request_size {
            active.max_request_size
        } else {
            parsed.max_request_size
        },
        ..parsed
    }
}

/// The settings that a running server takes over from its root rule file.
pub open spec fn reloaded(parsed: ServerView, complaints: nat, active: ServerView) -> Result<
    ServerView,
    ReloadError,
> {
    let c = carried_over(parsed, active);
    if complaints > 0 {
        Err(ReloadError::Parse(complaints as usize))
    } else if c.host != active.host || c.port != active.port {
        Err(ReloadError::Bound)
    } else {
        Ok(c)
    }
}

/// A server goes on listening where it does, whatever is reloaded.
pub proof fn law_reloads_keep_the_binding(parsed: ServerView, complaints: nat, active: ServerView)
    ensures
        reloaded(parsed, complaints, active) matches Ok(c) ==> c.host == active.host && c.port
            == active.port && c.config_file == active.config_file,
{
}

/// A rule file that says nothing changes none of the settings that come from the
/// command line.
pub proof fn law_silent_rules_keep_the_command_line(active: ServerView)
    ensures
        ({
            let c = carried_over(default_server(), active);
            &&& c.host == active.host && c.port == active.port && c.workers == active.workers
            &&& c.max_connections == active.max_connections
            &&& c.max_request_size == active.max_request_size
            &&& same_path(c.root_dir, active.root_dir)
        }),
{
}

/// A server and its settings.
#[derive(Debug)]
pub struct Server {
    config: ServerConfig,
}

impl View for Server {
    type V = ServerView;

    closed spec fn view(&self) -> ServerView {
        self.config@
    }
}

impl Server {
    pub fn new(config: ServerConfig) -> (r: Self)
        ensures
            r@ == config@,
    {
        Server { config }
    }

    pub fn config(&self) -> (r: &ServerConfig)
        ensures
            r@ == self@,
    {
        &self.config
    }

    /// The settings that the server takes over from its root rule file, which was
    /// read with so many complaints. The rule files below the root that they name
    /// are still to be validated.
    pub fn load_runtime_state(&self, parsed: ServerConfig, complaints: usize) -> (r: Result<
        ServerConfig,
        ReloadError,
    >)
        ensures
            match r {
                Ok(c) => reloaded(parsed@, complaints as nat, self@) == Ok::<_, ReloadError>(c@),
                Err(e) => reloaded(parsed@, complaints as nat, self@) == Err::<ServerView, _>(e),
            },
    {
        if complaints > 0 {
            return Err(ReloadError::Parse(complaints));
        }
        let d = ServerConfig::default();
        let mut c = parsed;
        let ghost p = c@;
        c.config_file = self.config.config_file.clone();
        if same(&chars_of(c.host.as_str()), &chars_of(d.host.as_str())) {
            c.host = self.config.host.clone();
        }
        if c.port == d.port {
            c.port = self.config.port;
        }
        if paths_equal(c.root_dir.as_str(), d.root_dir.as_str()) && !paths_equal(
            self.config.root_dir.as_str(),
            d.root_dir.as_str(),
        ) {
            c.root_dir = self.config.root_dir.clone();
        }
        if c.workers == d.workers {
            c.workers = self.config.workers;
        }
        if c.max_connections == d.max_connections {
            c.max_connections = self.config.max_connections;
        }
        if c.max_request_size == d.max_request_size {
            c.max_request_size = self.config.max_request_size;
        }
        assert(c@ =~= carried_over(p, self@));
        if !same(&chars_of(c.host.as_str()), &chars_of(self.config.host.as_str())) || c.port
            != self.config.port {
            return Err(ReloadError::Bound);
        }
        Ok(c)
    }
}

/// New settings are taken over only where no rule file is complained about.
pub fn check_rules(complaints: usize) -> (r: Result<(), ReloadError>)
    ensures
        match r {
            Ok(_) => complaints == 0,
            Err(e) => complaints > 0 && e == ReloadError::Rules(complaints),
        },
{
    if complaints > 0 {
        Err(ReloadError::Rules(complaints))
    } else {
        Ok(())
    }
}

/// The certificate and the key of a server; none where it does not use TLS.
pub open spec fn tls_material(c: ServerView) -> Result<
    Option<(Seq<char>, Seq<char>)>,
    Seq<char>,
> {
    if !c.tls_enabled {
        Ok(None)
    } else {
        match (c.tls_certificate, c.tls_private_key) {
            (None, _) => Err("TLS_CERTIFICATE is required when TLS_ENABLED is true"@),
            (Some(_), None) => Err("TLS_PRIVATE_KEY is required when TLS_ENABLED is true"@),
            (Some(a), Some(b)) => Ok(Some((a, b))),
        }
    }
}

/// The certificate and the key of a server.
pub fn tls_files(config: &ServerConfig) -> (r: Result<Option<(String, String)>, &'static str>)
    ensures
        match r {
            Ok(Some((a, b))) => tls_material(config@) == Ok::<_, Seq<char>>(Some((a@, b@))),
            Ok(None) => tls_material(config@) == Ok::<Option<(Seq<char>, Seq<char>)>, Seq<char>>(
                None,
            ),
            Err(e) => tls_material(config@) == Err::<Option<(Seq<char>, Seq<char>)>, _>(e@),
        },
{
    if !config.tls_enabled {
        return Ok(None);
    }
    match &config.tls_certificate {
        None => Err("TLS_CERTIFICATE is required when TLS_ENABLED is true"),
        Some(a) => match &config.tls_private_key {
            None => Err("TLS_PRIVATE_KEY is required when TLS_ENABLED is true"),
            Some(b) => Ok(Some((a.clone(), b.clone()))),
        },
    }
}

/// The number of workers must be positive.
pub fn check_workers(size: usize) -> (r: Result<(), &'static str>)
    ensures
        match r {
            Ok(_) => size > 0,
            Err(e) => size == 0 && e@ == "ThreadPool size must be greater than 0"@,
        },
{
    if size == 0 {
        return Err("ThreadPool size must be greater than 0");
    }
    Ok(())
}

} // verus!
