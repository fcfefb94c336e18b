//! The command line.

use crate::config::types::{opt_text, views, ServerConfig, ServerView, VhostView};
use crate::text::{
    chars_of, decimal, decimal_of, is_text, parse_uint, push_str, push_text, read_u16, read_usize,
    starts_with, starts_with_str, string_of, strings,
};
use vstd::prelude::*;

verus! {

/// The version of the program.
pub const VERSION: &'static str = "0.6.0";

/// Where the number of the process is kept, unless another file is named.
pub const PID_FILE: &'static str = "/run/veysrs/veysrs.pid";

/// The document root, unless another one is named.
pub const DEFAULT_ROOT: &'static str = "./public";

/// The root rule file, unless another one is named.
pub const DEFAULT_CONFIG: &'static str = "./.veysrule";

/// What the program is asked to do.
#[derive(Debug, Clone, Copy, PartialEq, Eq, Structural)]
pub enum Command {
    Version,
    ConfigTest,
    ConfigShow,
    ConfigPath,
    ConfigReload,
    /// `config` without one of its commands.
    ConfigUsage,
    Doctor,
    RulesShow,
    /// The options follow the word `serve`.
    Serve,
    /// There is no such command.
    Unknown,
    /// There is no command; the options are those of `serve`.
    Plain,
}

/// What the program is asked to do; the first argument is its own name.
pub open spec fn command_of(a: Seq<Seq<char>>) -> Command {
    if a.len() < 2 {
        Command::Plain
    } else if a[1] == "version"@ {
        Command::Version
    } else if a[1] == "config"@ {
        if a.len() < 3 {
            Command::ConfigUsage
        } else if a[2] == "test"@ {
            Command::ConfigTest
        } else if a[2] == "show"@ {
            Command::ConfigShow
        } else if a[2] == "path"@ {
            Command::ConfigPath
        } else if a[2] == "reload"@ {
            Command::ConfigReload
        } else {
            Command::ConfigUsage
        }
    } else if a[1] == "doctor"@ || a[1] == "health"@ {
        Command::Doctor
    } else if a[1] == "rules"@ && a.len() >= 3 && a[2] == "show"@ {
        Command::RulesShow
    } else if a[1] == "serve"@ {
        Command::Serve
    } else if !starts_with(a[1], "-"@) {
        Command::Unknown
    } else {
        Command::Plain
    }
}

fn arg_is(args: &Vec<String>, i: usize, s: &str) -> (b: bool)
    ensures
        b == (i < args@.len() && strings(args@)[i as int] == s@),
{
    if i >= args.len() {
        return false;
    }
    assert(strings(args@)[i as int] == args@[i as int]@);
    is_text(&chars_of(args[i].as_str()), s)
}

/// What the program is asked to do.
pub fn command(args: &Vec<String>) -> (c: Command)
    ensures
        c == command_of(strings(args@)),
{
    let ghost a = strings(args@);
    assert(a.len() == args@.len());
    if args.len() < 2 {
        return Command::Plain;
    }
    if arg_is(args, 1, "version") {
        return Command::Version;
    }
    if arg_is(args, 1, "config") {
        return if arg_is(args, 2, "test") {
            Command::ConfigTest
        } else if arg_is(args, 2, "show") {
            Command::ConfigShow
        } else if arg_is(args, 2, "path") {
            Command::ConfigPath
        } else if arg_is(args, 2, "reload") {
            Command::ConfigReload
        } else {
            Command::ConfigUsage
        };
    }
    if arg_is(args, 1, "doctor") || arg_is(args, 1, "health") {
        return Command::Doctor;
    }
    if arg_is(args, 1, "rules") && arg_is(args, 2, "show") {
        return Command::RulesShow;
    }
    if arg_is(args, 1, "serve") {
        return Command::Serve;
    }
    assert(a[1] == args@[1]@);
    if !starts_with_str(&chars_of(args[1].as_str()), "-") {
        return Command::Unknown;
    }
    Command::Plain
}

/// What is said of a command that does not exist.
pub fn unknown_command(name: &str) -> (r: String)
    ensures
        r@ == "unknown command '"@ + name@ + "'; try 'veysrs --help'"@,
{
    let mut t = chars_of("unknown command '");
    push_str(&mut t, name);
    push_str(&mut t, "'; try 'veysrs --help'");
    string_of(&t)
}

/// The options of the server; what is not named stays as it is configured.
#[derive(Debug)]
pub struct ServeOptions {
    pub host: Option<String>,
    pub port: Option<u16>,
    pub root: Option<String>,
    pub config: Option<String>,
    pub workers: Option<usize>,
    pub max_connections: Option<usize>,
    pub max_request_size: Option<usize>,
    pub dev: bool,
    pub pid_file: String,
}

#[verifier::ext_equal]
pub struct OptionsView {
    pub host: Option<Seq<char>>,
    pub port: Option<u16>,
    pub root: Option<Seq<char>>,
    pub config: Option<Seq<char>>,
    pub workers: Option<usize>,
    pub max_connections: Option<usize>,
    pub max_request_size: Option<usize>,
    pub dev: bool,
    pub pid_file: Seq<char>,
}

impl View for ServeOptions {
    type V = OptionsView;

    open spec fn view(&self) -> OptionsView {
        OptionsView {
            host: opt_text(self.host),
            port: self.port,
            root: opt_text(self.root),
            config: opt_text(self.config),
            workers: self.workers,
            max_connections: self.max_connections,
            max_request_size: self.max_request_size,
            dev: self.dev,
            pid_file: self.pid_file@,
        }
    }
}

pub open spec fn no_options() -> OptionsView {
    OptionsView {
        host: None,
        port: None,
        root: None,
        config: None,
        workers: None,
        max_connections: None,
        max_request_size: None,
        dev: false,
        pid_file: PID_FILE@,
    }
}

/// The option is followed by a value.
pub open spec fn takes_value(x: Seq<char>) -> bool {
    x == "--host"@ || x == "--port"@ || x == "--root"@ || x == "--config"@ || x == "--workers"@ || x
        == "--max-connections"@ || x == "--max-request-size"@ || x == "--pid-file"@
}

/// A number, or what was there before where it is none.
pub open spec fn number_or(v: Seq<char>, before: Option<usize>) -> Option<usize> {
    match parse_uint(v, usize::MAX as nat) {
        Some(n) => Some(n as usize),
        None => before,
    }
}

/// The options after one with a value.
pub open spec fn with_value(o: OptionsView, x: Seq<char>, v: Seq<char>) -> OptionsView {
    if x == "--host"@ {
        OptionsView { host: Some(v), ..o }
    } else if x == "--port"@ {
        match parse_uint(v, u16::MAX as nat) {
            Some(n) => OptionsView { port: Some(n as u16), ..o },
            None => o,
        }
    } else if x == "--root"@ {
        OptionsView { root: Some(v), ..o }
    } else if x == "--config"@ {
        OptionsView { config: Some(v), ..o }
    } else if x == "--workers"@ {
        OptionsView { workers: number_or(v, o.workers), ..o }
    } else if x == "--max-connections"@ {
        OptionsView { max_connections: number_or(v, o.max_connections), ..o }
    } else if x == "--max-request-size"@ {
        OptionsView { max_request_size: number_or(v, o.max_request_size), ..o }
    } else if x == "--pid-file"@ {
        OptionsView { pid_file: v, ..o }
    } else {
        o
    }
}

/// The options from a position on; what is no option is passed over.
pub open spec fn options_from(a: Seq<Seq<char>>, i: int, o: OptionsView) -> OptionsView
    decreases a.len() - i,
{
    if i >= a.len() {
        o
    } else if takes_value(a[i]) && i + 1 < a.len() {
        options_from(a, i + 2, with_value(o, a[i], a[i + 1]))
    } else if a[i] == "--dev"@ {
        options_from(a, i + 1, OptionsView { dev: true, ..o })
    } else {
        options_from(a, i + 1, o)
    }
}

/// What a server is asked to do.
#[derive(Debug)]
pub enum ServeRequest {
    Help,
    Version,
    Run(ServeOptions),
}

pub enum ServeView {
    Help,
    Version,
    Run(OptionsView),
}

impl View for ServeRequest {
    type V = ServeView;

    open spec fn view(&self) -> ServeView {
        match self {
            ServeRequest::Help => ServeView::Help,
            ServeRequest::Version => ServeView::Version,
            ServeRequest::Run(o) => ServeView::Run(o@),
        }
    }
}

/// What a server is asked to do; the first argument is the name of the program.
pub open spec fn serve_of(a: Seq<Seq<char>>) -> ServeView {
    if a.contains("--help"@) || a.contains("-h"@) {
        ServeView::Help
    } else if a.contains("--version"@) || a.contains("-v"@) {
        ServeView::Version
    } else {
        ServeView::Run(options_from(a, 1, no_options()))
    }
}

fn holds(args: &Vec<String>, s: &str) -> (b: bool)
    ensures
        b == strings(args@).contains(s@),
{
    let ghost a = strings(args@);
    let mut i: usize = 0;
    while i < args.len()
        invariant
            a == strings(args@),
            i <= args@.len(),
            forall|j: int| 0 <= j < i ==> a[j] != s@,
        decreases args@.len() - i,
    {
        assert(a[i as int] == args@[i as int]@);
        if is_text(&chars_of(args[i].as_str()), s) {
            assert(a.contains(s@));
            return true;
        }
        i = i + 1;
    }
    false
}

fn read_number_or(v: &str, before: Option<usize>) -> (r: Option<usize>)
    ensures
        r == number_or(v@, before),
{
    match read_usize(&chars_of(v)) {
        Some(n) => Some(n),
        None => before,
    }
}

fn set_value(o: &mut ServeOptions, x: &str, v: &str)
    ensures
        final(o)@ == with_value(old(o)@, x@, v@),
{
    let n = chars_of(x);
    if is_text(&n, "--host") {
        o.host = Some(v.to_owned());
    } else if is_text(&n, "--port") {
        match read_u16(&chars_of(v)) {
            Some(p) => {
                o.port = Some(p);
            },
            None => {},
        }
    } else if is_text(&n, "--root") {
        o.root = Some(v.to_owned());
    } else if is_text(&n, "--config") {
        o.config = Some(v.to_owned());
    } else if is_text(&n, "--workers") {
        o.workers = read_number_or(v, o.workers);
    } else if is_text(&n, "--max-connections") {
        o.max_connections = read_number_or(v, o.max_connections);
    } else if is_text(&n, "--max-request-size") {
        o.max_request_size = read_number_or(v, o.max_request_size);
    } else if is_text(&n, "--pid-file") {
        o.pid_file = v.to_owned();
    }
}

fn value_follows(x: &str) -> (b: bool)
    ensures
        b == takes_value(x@),
{
    let n = chars_of(x);
    is_text(&n, "--host") || is_text(&n, "--port") || is_text(&n, "--root") || is_text(
        &n,
        "--config",
    ) || is_text(&n, "--workers") || is_text(&n, "--max-connections") || is_text(
        &n,
        "--max-request-size",
    ) || is_text(&n, "--pid-file")
}

/// What a server is asked to do.
pub fn serve_request(args: &Vec<String>) -> (r: ServeRequest)
    ensures
        r@ == serve_of(strings(args@)),
{
    if holds(args, "--help") || holds(args, "-h") {
        return ServeRequest::Help;
    }
    if holds(args, "--version") || holds(args, "-v") {
        return ServeRequest::Version;
    }
    let ghost a = strings(args@);
    let mut o = ServeOptions {
        host: None,
        port: None,
        root: None,
        config: None,
        workers: None,
        max_connections: None,
        max_request_size: None,
        dev: false,
        pid_file: PID_FILE.to_owned(),
    };
    let n: usize = args.len();
    let mut i: usize = 1;
    while i < n
        invariant
            n == args@.len(),
            a == strings(args@),
            a.len() == n,
            1 <= i <= n || (n == 0 && i == 1),
            options_from(a, i as int, o@) == options_from(a, 1, no_options()),
        decreases n - i,
    {
        assert(a[i as int] == args@[i as int]@);
        if value_follows(args[i].as_str()) && i + 1 < n {
            assert(a[i + 1] == args@[i + 1]@);
            set_value(&mut o, args[i].as_str(), args[i + 1].as_str());
            i = i + 2;
        } else {
            if is_text(&chars_of(args[i].as_str()), "--dev") {
                o.dev = true;
            }
            i = i + 1;
        }
    }
    ServeRequest::Run(o)
}

/// The arguments of `serve` without that word.
pub fn serve_args(args: &Vec<String>) -> (r: Vec<String>)
    requires
        args@.len() >= 2,
    ensures
        strings(r@) == strings(args@).remove(1),
{
    let ghost a = strings(args@);
    let mut r: Vec<String> = Vec::new();
    r.push(args[0].clone());
    let mut i: usize = 2;
    while i < args.len()
        invariant
            2 <= i <= args@.len(),
            r@.len() == i - 1,
            r@[0]@ == args@[0]@,
            forall|j: int| 1 <= j < i - 1 ==> (#[trigger] r@[j])@ == args@[j + 1]@,
        decreases args@.len() - i,
    {
        r.push(args[i].clone());
        i = i + 1;
    }
    assert(strings(r@) =~= a.remove(1));
    r
}

pub open spec fn value_or<T>(o: Option<T>, d: T) -> T {
    match o {
        Some(v) => v,
        None => d,
    }
}

/// The settings with the options of the command line.
pub open spec fn with_options(c: ServerView, o: OptionsView) -> ServerView {
    ServerView {
        host: value_or(o.host, c.host),
        port: value_or(o.port, c.port),
        root_dir: value_or(o.root, c.root_dir),
        workers: value_or(o.workers, c.workers),
        max_connections: value_or(o.max_connections, c.max_connections),
        max_request_size: value_or(o.max_request_size, c.max_request_size),
        dev_mode: o.dev,
        ..c
    }
}

/// The settings with the options of the command line.
pub fn apply_options(config: ServerConfig, options: &ServeOptions) -> (r: ServerConfig)
    ensures
        r@ == with_options(config@, options@),
{
    let mut c = config;
    match &options.host {
        Some(h) => {
            c.host = h.clone();
        },
        None => {},
    }
    match options.port {
        Some(p) => {
            c.port = p;
        },
        None => {},
    }
    match &options.root {
        Some(d) => {
            c.root_dir = d.clone();
        },
        None => {},
    }
    match options.workers {
        Some(n) => {
            c.workers = n;
        },
        None => {},
    }
    match options.max_connections {
        Some(n) => {
            c.max_connections = n;
        },
        None => {},
    }
    match options.max_request_size {
        Some(n) => {
            c.max_request_size = n;
        },
        None => {},
    }
    c.dev_mode = options.dev;
    assert(c@ =~= with_options(config@, options@));
    c
}

/// An option of the command line is what the server runs with.
pub proof fn law_the_command_line_wins(c: ServerView, o: OptionsView)
    ensures
        o.host matches Some(h) ==> with_options(c, o).host == h,
        o.port matches Some(p) ==> with_options(c, o).port == p,
        o.root matches Some(d) ==> with_options(c, o).root_dir == d,
        o.workers matches Some(n) ==> with_options(c, o).workers == n,
{
}

/// Which options a command takes.
#[derive(Debug, Clone, Copy, PartialEq, Eq, Structural)]
pub enum OptionSet {
    /// `config test` and `config reload`.
    Test,
    /// `doctor` and `config show`.
    Diagnostic,
    /// `config path`.
    Path,
}

/// The options of a command that does not serve.
#[derive(Debug)]
pub struct ToolOptions {
    pub root: String,
    pub config: String,
    pub port: u16,
}

#[verifier::ext_equal]
pub struct ToolView {
    pub root: Seq<char>,
    pub config: Seq<char>,
    pub port: u16,
}

impl View for ToolOptions {
    type V = ToolView;

    open spec fn view(&self) -> ToolView {
        ToolView { root: self.root@, config: self.config@, port: self.port }
    }
}

/// Why the options of a command are refused.
#[derive(Debug, PartialEq, Eq)]
pub enum OptionError {
    /// There is no such option.
    Unknown(String),
    /// That is no port.
    Port(String),
}

pub enum OptionErrorView {
    Unknown(Seq<char>),
    Port(Seq<char>),
}

impl View for OptionError {
    type V = OptionErrorView;

    open spec fn view(&self) -> OptionErrorView {
        match self {
            OptionError::Unknown(s) => OptionErrorView::Unknown(s@),
            OptionError::Port(s) => OptionErrorView::Port(s@),
        }
    }
}

/// What is said of an option that does not exist.
pub open spec fn unknown_option(set: OptionSet, name: Seq<char>) -> Seq<char> {
    (match set {
        OptionSet::Test => "unknown config test option '"@,
        OptionSet::Diagnostic => "unknown diagnostic option '"@,
        OptionSet::Path => "unknown config path option '"@,
    }) + name + "'"@
}

/// What is said of an option that does not exist.
pub fn unknown_option_text(set: OptionSet, name: &str) -> (r: String)
    ensures
        r@ == unknown_option(set, name@),
{
    let mut t = match set {
        OptionSet::Test => chars_of("unknown config test option '"),
        OptionSet::Diagnostic => chars_of("unknown diagnostic option '"),
        OptionSet::Path => chars_of("unknown config path option '"),
    };
    push_str(&mut t, name);
    push_str(&mut t, "'");
    string_of(&t)
}

pub open spec fn default_tool() -> ToolView {
    ToolView { root: DEFAULT_ROOT@, config: DEFAULT_CONFIG@, port: 8080 }
}

/// The options from a position on; what is no option is refused.
pub open spec fn tool_from(set: OptionSet, a: Seq<Seq<char>>, i: int, o: ToolView) -> Result<
    ToolView,
    OptionErrorView,
>
    decreases a.len() - i,
{
    let more = i + 1 < a.len();
    if i >= a.len() {
        Ok(o)
    } else if a[i] == "--root"@ && more && set != OptionSet::Path {
        tool_from(set, a, i + 2, ToolView { root: a[i + 1], ..o })
    } else if a[i] == "--config"@ && more {
        tool_from(set, a, i + 2, ToolView { config: a[i + 1], ..o })
    } else if a[i] == "--pid-file"@ && more && set == OptionSet::Test {
        tool_from(set, a, i + 2, o)
    } else if a[i] == "--port"@ && more && set == OptionSet::Diagnostic {
        match parse_uint(a[i + 1], u16::MAX as nat) {
            Some(p) => tool_from(set, a, i + 2, ToolView { port: p as u16, ..o }),
            None => Err(OptionErrorView::Port(a[i + 1])),
        }
    } else {
        Err(OptionErrorView::Unknown(a[i]))
    }
}

/// The options of a command that does not serve.
pub fn tool_options(set: OptionSet, args: &Vec<String>) -> (r: Result<ToolOptions, OptionError>)
    ensures
        match r {
            Ok(o) => tool_from(set, strings(args@), 0, default_tool()) == Ok::<
                _,
                OptionErrorView,
            >(o@),
            Err(e) => tool_from(set, strings(args@), 0, default_tool()) == Err::<ToolView, _>(e@),
        },
{
    let ghost a = strings(args@);
    let mut o = ToolOptions {
        root: DEFAULT_ROOT.to_owned(),
        config: DEFAULT_CONFIG.to_owned(),
        port: 8080,
    };
    let n: usize = args.len();
    let mut i: usize = 0;
    while i < n
        invariant
            n == args@.len(),
            a == strings(args@),
            a.len() == n,
            i <= n,
            tool_from(set, a, i as int, o@) == tool_from(set, a, 0, default_tool()),
        decreases n - i,
    {
        assert(a[i as int] == args@[i as int]@);
        let more = i + 1 < n;
        if more {
            assert(a[i + 1] == args@[i + 1]@);
        }
        if more && set != OptionSet::Path && arg_is(args, i, "--root") {
            o.root = args[i + 1].clone();
        } else if more && arg_is(args, i, "--config") {
            o.config = args[i + 1].clone();
        } else if more && set == OptionSet::Test && arg_is(args, i, "--pid-file") {
        } else if more && set == OptionSet::Diagnostic && arg_is(args, i, "--port") {
            match read_u16(&chars_of(args[i + 1].as_str())) {
                Some(p) => {
                    o.port = p;
                },
                None => {
                    return Err(OptionError::Port(args[i + 1].clone()));
                },
            }
        } else {
            return Err(OptionError::Unknown(args[i].clone()));
        }
        i = i + 2;
    }
    Ok(o)
}

/// The file with the number of the process, as the last option names it.
pub open spec fn pid_file_from(a: Seq<Seq<char>>, i: int, f: Seq<char>) -> Seq<char>
    decreases a.len() - i,
{
    if i >= a.len() {
        f
    } else if a[i] == "--pid-file"@ && i + 1 < a.len() {
        pid_file_from(a, i + 2, a[i + 1])
    } else {
        pid_file_from(a, i + 1, f)
    }
}

/// The file with the number of the process.
pub fn pid_file(args: &Vec<String>) -> (r: String)
    ensures
        r@ == pid_file_from(strings(args@), 0, PID_FILE@),
{
    let ghost a = strings(args@);
    let n: usize = args.len();
    let mut f = PID_FILE.to_owned();
    let mut i: usize = 0;
    while i < n
        invariant
            n == args@.len(),
            a == strings(args@),
            a.len() == n,
            i <= n,
            pid_file_from(a, i as int, f@) == pid_file_from(a, 0, PID_FILE@),
        decreases n - i,
    {
        if i + 1 < n && arg_is(args, i, "--pid-file") {
            assert(a[i + 1] == args@[i + 1]@);
            f = args[i + 1].clone();
            i = i + 2;
        } else {
            i = i + 1;
        }
    }
    f
}

/// Every route names where it leads.
pub open spec fn routes_lead_somewhere(c: ServerView) -> bool {
    (forall|i: int| 0 <= i < c.proxy_routes.len() ==> (#[trigger] c.proxy_routes[i]).upstream.len()
        > 0) && (forall|i: int|
        0 <= i < c.fastcgi_routes.len() ==> (#[trigger] c.fastcgi_routes[i]).endpoint.len() > 0)
}

/// Whether every route names where it leads.
pub fn upstreams_configured(c: &ServerConfig) -> (b: bool)
    ensures
        b == routes_lead_somewhere(c@),
{
    let ghost p = c@.proxy_routes;
    let ghost f = c@.fastcgi_routes;
    let mut i: usize = 0;
    while i < c.proxy_routes.len()
        invariant
            p == views(c.proxy_routes@),
            p == c@.proxy_routes,
            i <= c.proxy_routes@.len(),
            forall|j: int| 0 <= j < i ==> (#[trigger] p[j]).upstream.len() > 0,
        decreases c.proxy_routes@.len() - i,
    {
        assert(p[i as int] == c.proxy_routes@[i as int]@);
        if chars_of(c.proxy_routes[i].upstream.as_str()).len() == 0 {
            return false;
        }
        i = i + 1;
    }
    let mut k: usize = 0;
    while k < c.fastcgi_routes.len()
        invariant
            f == views(c.fastcgi_routes@),
            f == c@.fastcgi_routes,
            k <= c.fastcgi_routes@.len(),
            forall|j: int| 0 <= j < k ==> (#[trigger] f[j]).endpoint.len() > 0,
        decreases c.fastcgi_routes@.len() - k,
    {
        assert(f[k as int] == c.fastcgi_routes@[k as int]@);
        if chars_of(c.fastcgi_routes[k].endpoint.as_str()).len() == 0 {
            return false;
        }
        k = k + 1;
    }
    true
}

/// What was found out about a deployment, in the order in which it is reported.
#[derive(Debug, Clone, Copy, PartialEq, Eq, Structural)]
pub struct DoctorFacts {
    pub configuration: bool,
    pub root: bool,
    pub readable: bool,
    pub workers: bool,
    pub port: bool,
    pub unit: bool,
    pub tls: bool,
    pub upstreams: bool,
}

/// The checks, with their names.
pub open spec fn checks(f: DoctorFacts) -> Seq<(Seq<char>, bool)> {
    seq![
        ("Configuration and VeyRule"@, f.configuration),
        ("Document root"@, f.root),
        ("Document root readable"@, f.readable),
        ("Worker pool"@, f.workers),
        ("Port availability"@, f.port),
        ("systemd unit source"@, f.unit),
        ("TLS certificate and key"@, f.tls),
        ("Configured upstreams"@, f.upstreams),
    ]
}

/// The lines about some checks.
pub open spec fn check_lines(c: Seq<(Seq<char>, bool)>) -> Seq<char>
    decreases c.len(),
{
    if c.len() == 0 {
        Seq::empty()
    } else {
        check_lines(c.drop_last()) + (if c.last().1 {
            "[OK] "@
        } else {
            "[FAIL] "@
        }) + c.last().0 + "\n"@
    }
}

/// The number of checks that are passed.
pub open spec fn passed(c: Seq<(Seq<char>, bool)>) -> nat
    decreases c.len(),
{
    if c.len() == 0 {
        0
    } else {
        passed(c.drop_last()) + if c.last().1 {
            1nat
        } else {
            0nat
        }
    }
}

fn check_list(f: &DoctorFacts) -> (r: Vec<(&'static str, bool)>)
    ensures
        r@.len() == 8,
        forall|i: int|
            0 <= i < 8 ==> checks(*f)[i] == ((#[trigger] r@[i]).0@, r@[i].1),
{
    let mut r: Vec<(&'static str, bool)> = Vec::new();
    r.push(("Configuration and VeyRule", f.configuration));
    r.push(("Document root", f.root));
    r.push(("Document root readable", f.readable));
    r.push(("Worker pool", f.workers));
    r.push(("Port availability", f.port));
    r.push(("systemd unit source", f.unit));
    r.push(("TLS certificate and key", f.tls));
    r.push(("Configured upstreams", f.upstreams));
    r
}

/// The report on a deployment, and whether every check is passed.
pub fn doctor_report(f: &DoctorFacts) -> (r: (String, bool))
    ensures
        r.0@ == check_lines(checks(*f)) + "Result: "@ + decimal(passed(checks(*f))) + "/"@
            + decimal(8) + " checks passed"@,
        r.1 == (passed(checks(*f)) == 8),
{
    let list = check_list(f);
    let ghost c = checks(*f);
    let mut out: Vec<char> = Vec::new();
    let mut n: u64 = 0;
    let mut i: usize = 0;
    assert(c.len() == 8);
    assert(c.subrange(0, 0) =~= Seq::<(Seq<char>, bool)>::empty());
    while i < 8
        invariant
            c == checks(*f),
            c.len() == 8,
            list@.len() == 8,
            forall|j: int| 0 <= j < 8 ==> c[j] == ((#[trigger] list@[j]).0@, list@[j].1),
            i <= 8,
            n <= i,
            n == passed(c.subrange(0, i as int)),
            out@ == check_lines(c.subrange(0, i as int)),
        decreases 8 - i,
    {
        let ghost before = out@;
        assert(c.subrange(0, i + 1).drop_last() =~= c.subrange(0, i as int));
        let x = list[i];
        assert(c[i as int] == (list@[i as int].0@, list@[i as int].1));
        if x.1 {
            push_str(&mut out, "[OK] ");
            n = n + 1;
        } else {
            push_str(&mut out, "[FAIL] ");
        }
        push_str(&mut out, x.0);
        push_str(&mut out, "\n");
        i = i + 1;
    }
    assert(c.subrange(0, 8) =~= c);
    push_str(&mut out, "Result: ");
    push_text(&mut out, &decimal_of(n));
    push_str(&mut out, "/");
    push_text(&mut out, &decimal_of(8));
    push_str(&mut out, " checks passed");
    (string_of(&out), n == 8)
}

/// The certificate and the key are in place where they are needed.
pub fn tls_in_place(config: &ServerConfig, certificate_found: bool, key_found: bool) -> (b: bool)
    ensures
        b == (!config@.tls_enabled || (config@.tls_certificate is Some && certificate_found
            && config@.tls_private_key is Some && key_found)),
{
    !config.tls_enabled || (config.tls_certificate.is_some() && certificate_found
        && config.tls_private_key.is_some() && key_found)
}

/// The lines about virtual hosts.
pub open spec fn vhost_lines(v: Seq<VhostView>) -> Seq<char>
    decreases v.len(),
{
    if v.len() == 0 {
        Seq::empty()
    } else {
        vhost_lines(v.drop_last()) + "VHost: "@ + v.last().host + " -> "@ + v.last().root_dir
            + "\n"@
    }
}

/// The settings as a text.
pub open spec fn settings_text(c: ServerView) -> Seq<char> {
    "VeySRS configuration\n====================\nHost: "@ + c.host + "\nPort: "@ + decimal(
        c.port as nat,
    ) + "\nRoot: "@ + c.root_dir + "\nWorkers: "@ + decimal(c.workers as nat)
        + "\nMax connections: "@ + decimal(c.max_connections as nat) + "\nHTTP/2: "@ + (
    if c.http2_enabled {
        "true"@
    } else {
        "false"@
    }) + "\nConfig: "@ + c.config_file + "\n"@ + vhost_lines(c.vhosts)
}

/// The settings as a text.
pub fn show_config(c: &ServerConfig) -> (r: String)
    ensures
        r@ == settings_text(c@),
{
    let mut out = chars_of("VeySRS configuration\n====================\nHost: ");
    push_str(&mut out, c.host.as_str());
    push_str(&mut out, "\nPort: ");
    push_text(&mut out, &decimal_of(c.port as u64));
    push_str(&mut out, "\nRoot: ");
    push_str(&mut out, c.root_dir.as_str());
    push_str(&mut out, "\nWorkers: ");
    push_text(&mut out, &decimal_of(c.workers as u64));
    push_str(&mut out, "\nMax connections: ");
    push_text(&mut out, &decimal_of(c.max_connections as u64));
    push_str(&mut out, "\nHTTP/2: ");
    push_str(
        &mut out,
        if c.http2_enabled {
            "true"
        } else {
            "false"
        },
    );
    push_str(&mut out, "\nConfig: ");
    push_str(&mut out, c.config_file.as_str());
    push_str(&mut out, "\n");
    let ghost start = out@;
    let ghost v = c@.vhosts;
    let mut i: usize = 0;
    assert(v.subrange(0, 0) =~= Seq::<VhostView>::empty());
    assert(start + Seq::<char>::empty() =~= start);
    while i < c.vhosts.len()
        invariant
            v == views(c.vhosts@),
            i <= c.vhosts@.len(),
            out@ == start + vhost_lines(v.subrange(0, i as int)),
        decreases c.vhosts@.len() - i,
    {
        let ghost done = vhost_lines(v.subrange(0, i as int));
        assert(v.subrange(0, i + 1).drop_last() =~= v.subrange(0, i as int));
        assert(v.subrange(0, i + 1).last() == c.vhosts@[i as int]@);
        push_str(&mut out, "VHost: ");
        push_str(&mut out, c.vhosts[i].host.as_str());
        push_str(&mut out, " -> ");
        push_str(&mut out, c.vhosts[i].root_dir.as_str());
        push_str(&mut out, "\n");
        assert(out@ =~= start + (done + "VHost: "@ + v[i as int].host + " -> "@
            + v[i as int].root_dir + "\n"@));
        i = i + 1;
    }
    assert(v.subrange(0, v.len() as int) =~= v);
    string_of(&out)
}

} // verus!
