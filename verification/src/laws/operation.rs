//! How the server is started, counted and kept within its limits.

use crate::cli::{command_of, no_options, options_from, serve_of, Command, OptionsView, ServeView};
use crate::config::ip::IpAddr;
use crate::laws::rule_lines::{ended, law_files_are_read_by_lines};
use crate::laws::texts::lemma_decimal_is_digits;
use crate::server::health::{after_failure, gate_for, Gate, HealthState};
use crate::server::limits::{bucket_at, connected, disconnected, known, Bucket};
use crate::server::metrics::{after_response, prometheus, Metrics};
use crate::text::{decimal, has_char, is_digit, law_decimal_reads_back, lines};
use vstd::prelude::*;

verus! {

/// What the program is asked for by its words.
pub proof fn law_commands_are_recognised(a: Seq<Seq<char>>, name: Seq<char>)
    requires
        a.len() >= 1,
    ensures
        command_of(seq![name]) == Command::Plain,
        command_of(seq![name, "version"@]) == Command::Version,
        command_of(seq![name, "config"@]) == Command::ConfigUsage,
        command_of(seq![name, "config"@, "test"@]) == Command::ConfigTest,
        command_of(seq![name, "config"@, "show"@]) == Command::ConfigShow,
        command_of(seq![name, "config"@, "path"@]) == Command::ConfigPath,
        command_of(seq![name, "config"@, "reload"@]) == Command::ConfigReload,
        command_of(seq![name, "doctor"@]) == Command::Doctor,
        command_of(seq![name, "health"@]) == Command::Doctor,
        command_of(seq![name, "rules"@, "show"@]) == Command::RulesShow,
        a.len() >= 2 && a[1] == "serve"@ ==> command_of(a) == Command::Serve,
        a.len() >= 2 && a[1].len() > 0 && a[1][0] == '-' ==> command_of(a) == Command::Plain,
{
    reveal_strlit("version");
    reveal_strlit("config");
    reveal_strlit("test");
    reveal_strlit("show");
    reveal_strlit("path");
    reveal_strlit("reload");
    reveal_strlit("doctor");
    reveal_strlit("health");
    reveal_strlit("rules");
    reveal_strlit("serve");
    reveal_strlit("-");
    assert("version"@.len() == 7 && "config"@.len() == 6 && "doctor"@.len() == 6 && "health"@.len()
        == 6 && "rules"@.len() == 5 && "serve"@.len() == 5);
    assert("version"@[0] == 'v' && "config"@[0] == 'c' && "doctor"@[0] == 'd' && "health"@[0] == 'h'
        && "rules"@[0] == 'r' && "serve"@[0] == 's');
    assert("test"@[0] == 't' && "show"@[0] == 's' && "path"@[0] == 'p' && "reload"@.len() == 6
        && "test"@.len() == 4 && "show"@.len() == 4 && "path"@.len() == 4);
    if a.len() >= 2 && a[1].len() > 0 && a[1][0] == '-' {
        assert(a[1].subrange(0, 1) =~= "-"@);
    }
}

proof fn lemma_options()
    ensures
        "--host"@.len() == 6 && "--host"@[2] == 'h',
        "--port"@.len() == 6 && "--port"@[2] == 'p',
        "--root"@.len() == 6 && "--root"@[2] == 'r',
        "--config"@.len() == 8,
        "--workers"@.len() == 9 && "--workers"@[2] == 'w',
        "--max-connections"@.len() == 17,
        "--max-request-size"@.len() == 18,
        "--pid-file"@.len() == 10,
        "--dev"@.len() == 5,
        "--help"@.len() == 6 && "--help"@[2] == 'h' && "--help"@[3] == 'e' && "--host"@[3] == 'o',
        "--version"@.len() == 9 && "--version"@[2] == 'v',
        "-h"@.len() == 2,
        "-v"@.len() == 2,
{
    reveal_strlit("--host");
    reveal_strlit("--port");
    reveal_strlit("--root");
    reveal_strlit("--config");
    reveal_strlit("--workers");
    reveal_strlit("--max-connections");
    reveal_strlit("--max-request-size");
    reveal_strlit("--pid-file");
    reveal_strlit("--dev");
    reveal_strlit("--help");
    reveal_strlit("--version");
    reveal_strlit("-h");
    reveal_strlit("-v");
}

proof fn lemma_one_option(name: Seq<char>, x: Seq<char>, v: Seq<char>)
    requires
        crate::cli::takes_value(x),
        ordinary(name),
        ordinary(v),
        ordinary(x),
    ensures
        serve_of(seq![name, x, v]) == ServeView::Run(
            crate::cli::with_value(no_options(), x, v),
        ),
{
    let a = seq![name, x, v];
    reveal_with_fuel(options_from, 2);
    assert(forall|i: int| 0 <= i < a.len() ==> ordinary(#[trigger] a[i]));
}

/// An argument that asks neither for help nor for the version.
pub open spec fn ordinary(s: Seq<char>) -> bool {
    s != "--help"@ && s != "-h"@ && s != "--version"@ && s != "-v"@
}

/// Every option sets what it is named after to the value behind it, and nothing else.
pub proof fn law_options_set_what_they_name(name: Seq<char>, v: Seq<char>, n: u16, m: usize)
    requires
        ordinary(name),
        ordinary(v),
    ensures
        ({
            let o = no_options();
            let number = decimal(m as nat);
            &&& serve_of(seq![name]) == ServeView::Run(o)
            &&& serve_of(seq![name, "--host"@, v]) == ServeView::Run(
                OptionsView { host: Some(v), ..o },
            )
            &&& serve_of(seq![name, "--port"@, decimal(n as nat)]) == ServeView::Run(
                OptionsView { port: Some(n), ..o },
            )
            &&& serve_of(seq![name, "--root"@, v]) == ServeView::Run(
                OptionsView { root: Some(v), ..o },
            )
            &&& serve_of(seq![name, "--config"@, v]) == ServeView::Run(
                OptionsView { config: Some(v), ..o },
            )
            &&& serve_of(seq![name, "--workers"@, number]) == ServeView::Run(
                OptionsView { workers: Some(m), ..o },
            )
            &&& serve_of(seq![name, "--max-connections"@, number]) == ServeView::Run(
                OptionsView { max_connections: Some(m), ..o },
            )
            &&& serve_of(seq![name, "--max-request-size"@, number]) == ServeView::Run(
                OptionsView { max_request_size: Some(m), ..o },
            )
            &&& serve_of(seq![name, "--pid-file"@, v]) == ServeView::Run(
                OptionsView { pid_file: v, ..o },
            )
            &&& serve_of(seq![name, "--dev"@]) == ServeView::Run(OptionsView { dev: true, ..o })
            &&& serve_of(seq![name, "--help"@]) == ServeView::Help
            &&& serve_of(seq![name, "--version"@]) == ServeView::Version
        }),
{
    lemma_options();
    reveal_strlit("--help");
    reveal_strlit("--version");
    reveal_strlit("-h");
    reveal_strlit("-v");
    let number = decimal(m as nat);
    lemma_decimal_is_digits(n as nat);
    lemma_decimal_is_digits(m as nat);
    assert(is_digit(decimal(n as nat)[0]));
    assert(is_digit(number[0]));
    assert("--help"@[0] == '-' && "--version"@[0] == '-' && "-h"@[0] == '-' && "-v"@[0] == '-');
    assert(ordinary(decimal(n as nat)) && ordinary(number));
    law_decimal_reads_back(n as nat, u16::MAX as nat);
    law_decimal_reads_back(m as nat, usize::MAX as nat);
    lemma_one_option(name, "--host"@, v);
    lemma_one_option(name, "--port"@, decimal(n as nat));
    lemma_one_option(name, "--root"@, v);
    lemma_one_option(name, "--config"@, v);
    lemma_one_option(name, "--workers"@, number);
    lemma_one_option(name, "--max-connections"@, number);
    lemma_one_option(name, "--max-request-size"@, number);
    lemma_one_option(name, "--pid-file"@, v);
    reveal_with_fuel(options_from, 2);
    let a = seq![name];
    assert(forall|i: int| 0 <= i < a.len() ==> ordinary(#[trigger] a[i]));
    let b = seq![name, "--dev"@];
    assert(forall|i: int| 0 <= i < b.len() ==> ordinary(#[trigger] b[i]));
    let c = seq![name, "--help"@];
    assert(c[1] == "--help"@);
    let d = seq![name, "--version"@];
    assert(d[1] == "--version"@);
    assert(forall|i: int| 0 <= i < d.len() ==> d[i] != "--help"@ && d[i] != "-h"@);
}

/// Each response is counted once with its bytes, and as an error of the client or of the
/// server where its status says so.
pub proof fn law_responses_are_counted(m: Metrics, status: u16, bytes: u64)
    requires
        m.requests_total < u64::MAX,
        m.response_bytes + bytes <= u64::MAX,
        m.status_4xx < u64::MAX,
        m.status_5xx < u64::MAX,
    ensures
        ({
            let n = after_response(m, status, bytes);
            &&& n.requests_total == m.requests_total + 1
            &&& n.response_bytes == m.response_bytes + bytes
            &&& n.status_4xx - m.status_4xx == (if status / 100 == 4 {
                1int
            } else {
                0
            })
            &&& n.status_5xx - m.status_5xx == (if status / 100 == 5 {
                1int
            } else {
                0
            })
            &&& n.requests_active == m.requests_active
            &&& n.proxy_requests == m.proxy_requests
            &&& n.fastcgi_requests == m.fastcgi_requests
        }),
{
}

proof fn lemma_metric(
    l: Seq<Seq<char>>,
    text: Seq<char>,
    opening: Seq<char>,
    kind: Seq<char>,
    name: Seq<char>,
    value: Seq<char>,
)
    requires
        text + "\n"@ == ended(l),
        opening == "\n"@ + kind + "\n"@ + name,
        "\n"@ == seq!['\n'],
    ensures
        text + opening + value + "\n"@ == ended(l.push(kind).push(name + value)),
{
    let a = l.push(kind);
    let b = a.push(name + value);
    assert(a.drop_last() =~= l);
    assert(b.drop_last() =~= a);
    assert(a.last() == kind && b.last() == name + value);
    assert(ended(a) == ended(l) + kind + seq!['\n']);
    assert(ended(b) == ended(a) + (name + value) + seq!['\n']);
    assert(text + opening + value + "\n"@ =~= (text + "\n"@) + kind + seq!['\n'] + (name + value)
        + seq!['\n']);
}

proof fn lemma_metric_texts()
    ensures
        "\n"@ == seq!['\n'],
        "# TYPE veysrs_requests_total counter\nveysrs_requests_total "@ == "# TYPE veysrs_requests_total counter"@ + "\n"@ + "veysrs_requests_total "@,
        !has_char("# TYPE veysrs_requests_total counter"@, '\n') && !has_char("# TYPE veysrs_requests_total counter"@, '\r'),
        !has_char("veysrs_requests_total "@, '\n') && !has_char("veysrs_requests_total "@, '\r'),
        "\n# TYPE veysrs_requests_active gauge\nveysrs_requests_active "@ == "\n"@ + "# TYPE veysrs_requests_active gauge"@ + "\n"@ + "veysrs_requests_active "@,
        !has_char("# TYPE veysrs_requests_active gauge"@, '\n') && !has_char("# TYPE veysrs_requests_active gauge"@, '\r'),
        !has_char("veysrs_requests_active "@, '\n') && !has_char("veysrs_requests_active "@, '\r'),
        "\n# TYPE veysrs_response_bytes counter\nveysrs_response_bytes "@ == "\n"@ + "# TYPE veysrs_response_bytes counter"@ + "\n"@ + "veysrs_response_bytes "@,
        !has_char("# TYPE veysrs_response_bytes counter"@, '\n') && !has_char("# TYPE veysrs_response_bytes counter"@, '\r'),
        !has_char("veysrs_response_bytes "@, '\n') && !has_char("veysrs_response_bytes "@, '\r'),
        "\n# TYPE veysrs_4xx_total counter\nveysrs_4xx_total "@ == "\n"@ + "# TYPE veysrs_4xx_total counter"@ + "\n"@ + "veysrs_4xx_total "@,
        !has_char("# TYPE veysrs_4xx_total counter"@, '\n') && !has_char("# TYPE veysrs_4xx_total counter"@, '\r'),
        !has_char("veysrs_4xx_total "@, '\n') && !has_char("veysrs_4xx_total "@, '\r'),
        "\n# TYPE veysrs_5xx_total counter\nveysrs_5xx_total "@ == "\n"@ + "# TYPE veysrs_5xx_total counter"@ + "\n"@ + "veysrs_5xx_total "@,
        !has_char("# TYPE veysrs_5xx_total counter"@, '\n') && !has_char("# TYPE veysrs_5xx_total counter"@, '\r'),
        !has_char("veysrs_5xx_total "@, '\n') && !has_char("veysrs_5xx_total "@, '\r'),
        "\n# TYPE veysrs_proxy_requests_total counter\nveysrs_proxy_requests_total "@ == "\n"@ + "# TYPE veysrs_proxy_requests_total counter"@ + "\n"@ + "veysrs_proxy_requests_total "@,
        !has_char("# TYPE veysrs_proxy_requests_total counter"@, '\n') && !has_char("# TYPE veysrs_proxy_requests_total counter"@, '\r'),
        !has_char("veysrs_proxy_requests_total "@, '\n') && !has_char("veysrs_proxy_requests_total "@, '\r'),
        "\n# TYPE veysrs_fastcgi_requests_total counter\nveysrs_fastcgi_requests_total "@ == "\n"@ + "# TYPE veysrs_fastcgi_requests_total counter"@ + "\n"@ + "veysrs_fastcgi_requests_total "@,
        !has_char("# TYPE veysrs_fastcgi_requests_total counter"@, '\n') && !has_char("# TYPE veysrs_fastcgi_requests_total counter"@, '\r'),
        !has_char("veysrs_fastcgi_requests_total "@, '\n') && !has_char("veysrs_fastcgi_requests_total "@, '\r'),
{
    lemma_metric_text_0();
    lemma_metric_text_1();
    lemma_metric_text_2();
    lemma_metric_text_3();
    lemma_metric_text_4();
    lemma_metric_text_5();
    lemma_metric_text_6();
    reveal_strlit("\n");
    assert("\n"@ =~= seq!['\n']);
}

proof fn lemma_metric_text_0()
    ensures
        "# TYPE veysrs_requests_total counter\nveysrs_requests_total "@ == "# TYPE veysrs_requests_total counter"@ + "\n"@ + "veysrs_requests_total "@,
        !has_char("# TYPE veysrs_requests_total counter"@, '\n') && !has_char("# TYPE veysrs_requests_total counter"@, '\r'),
        !has_char("veysrs_requests_total "@, '\n') && !has_char("veysrs_requests_total "@, '\r'),
{
    reveal_strlit("# TYPE veysrs_requests_total counter\nveysrs_requests_total ");
    reveal_strlit("# TYPE veysrs_requests_total counter");
    reveal_strlit("veysrs_requests_total ");
    reveal_strlit("\n");
    assert("# TYPE veysrs_requests_total counter\nveysrs_requests_total "@ =~= "# TYPE veysrs_requests_total counter"@ + "\n"@ + "veysrs_requests_total "@);
}

proof fn lemma_metric_text_1()
    ensures
        "\n# TYPE veysrs_requests_active gauge\nveysrs_requests_active "@ == "\n"@ + "# TYPE veysrs_requests_active gauge"@ + "\n"@ + "veysrs_requests_active "@,
        !has_char("# TYPE veysrs_requests_active gauge"@, '\n') && !has_char("# TYPE veysrs_requests_active gauge"@, '\r'),
        !has_char("veysrs_requests_active "@, '\n') && !has_char("veysrs_requests_active "@, '\r'),
{
    reveal_strlit("\n# TYPE veysrs_requests_active gauge\nveysrs_requests_active ");
    reveal_strlit("# TYPE veysrs_requests_active gauge");
    reveal_strlit("veysrs_requests_active ");
    reveal_strlit("\n");
    assert("\n# TYPE veysrs_requests_active gauge\nveysrs_requests_active "@ =~= "\n"@ + "# TYPE veysrs_requests_active gauge"@ + "\n"@ + "veysrs_requests_active "@);
}

proof fn lemma_metric_text_2()
    ensures
        "\n# TYPE veysrs_response_bytes counter\nveysrs_response_bytes "@ == "\n"@ + "# TYPE veysrs_response_bytes counter"@ + "\n"@ + "veysrs_response_bytes "@,
        !has_char("# TYPE veysrs_response_bytes counter"@, '\n') && !has_char("# TYPE veysrs_response_bytes counter"@, '\r'),
        !has_char("veysrs_response_bytes "@, '\n') && !has_char("veysrs_response_bytes "@, '\r'),
{
    reveal_strlit("\n# TYPE veysrs_response_bytes counter\nveysrs_response_bytes ");
    reveal_strlit("# TYPE veysrs_response_bytes counter");
    reveal_strlit("veysrs_response_bytes ");
    reveal_strlit("\n");
    assert("\n# TYPE veysrs_response_bytes counter\nveysrs_response_bytes "@ =~= "\n"@ + "# TYPE veysrs_response_bytes counter"@ + "\n"@ + "veysrs_response_bytes "@);
}

proof fn lemma_metric_text_3()
    ensures
        "\n# TYPE veysrs_4xx_total counter\nveysrs_4xx_total "@ == "\n"@ + "# TYPE veysrs_4xx_total counter"@ + "\n"@ + "veysrs_4xx_total "@,
        !has_char("# TYPE veysrs_4xx_total counter"@, '\n') && !has_char("# TYPE veysrs_4xx_total counter"@, '\r'),
        !has_char("veysrs_4xx_total "@, '\n') && !has_char("veysrs_4xx_total "@, '\r'),
{
    reveal_strlit("\n# TYPE veysrs_4xx_total counter\nveysrs_4xx_total ");
    reveal_strlit("# TYPE veysrs_4xx_total counter");
    reveal_strlit("veysrs_4xx_total ");
    reveal_strlit("\n");
    assert("\n# TYPE veysrs_4xx_total counter\nveysrs_4xx_total "@ =~= "\n"@ + "# TYPE veysrs_4xx_total counter"@ + "\n"@ + "veysrs_4xx_total "@);
}

proof fn lemma_metric_text_4()
    ensures
        "\n# TYPE veysrs_5xx_total counter\nveysrs_5xx_total "@ == "\n"@ + "# TYPE veysrs_5xx_total counter"@ + "\n"@ + "veysrs_5xx_total "@,
        !has_char("# TYPE veysrs_5xx_total counter"@, '\n') && !has_char("# TYPE veysrs_5xx_total counter"@, '\r'),
        !has_char("veysrs_5xx_total "@, '\n') && !has_char("veysrs_5xx_total "@, '\r'),
{
    reveal_strlit("\n# TYPE veysrs_5xx_total counter\nveysrs_5xx_total ");
    reveal_strlit("# TYPE veysrs_5xx_total counter");
    reveal_strlit("veysrs_5xx_total ");
    reveal_strlit("\n");
    assert("\n# TYPE veysrs_5xx_total counter\nveysrs_5xx_total "@ =~= "\n"@ + "# TYPE veysrs_5xx_total counter"@ + "\n"@ + "veysrs_5xx_total "@);
}

proof fn lemma_metric_text_5()
    ensures
        "\n# TYPE veysrs_proxy_requests_total counter\nveysrs_proxy_requests_total "@ == "\n"@ + "# TYPE veysrs_proxy_requests_total counter"@ + "\n"@ + "veysrs_proxy_requests_total "@,
        !has_char("# TYPE veysrs_proxy_requests_total counter"@, '\n') && !has_char("# TYPE veysrs_proxy_requests_total counter"@, '\r'),
        !has_char("veysrs_proxy_requests_total "@, '\n') && !has_char("veysrs_proxy_requests_total "@, '\r'),
{
    reveal_strlit("\n# TYPE veysrs_proxy_requests_total counter\nveysrs_proxy_requests_total ");
    reveal_strlit("# TYPE veysrs_proxy_requests_total counter");
    reveal_strlit("veysrs_proxy_requests_total ");
    reveal_strlit("\n");
    assert("\n# TYPE veysrs_proxy_requests_total counter\nveysrs_proxy_requests_total "@ =~= "\n"@ + "# TYPE veysrs_proxy_requests_total counter"@ + "\n"@ + "veysrs_proxy_requests_total "@);
}

proof fn lemma_metric_text_6()
    ensures
        "\n# TYPE veysrs_fastcgi_requests_total counter\nveysrs_fastcgi_requests_total "@ == "\n"@ + "# TYPE veysrs_fastcgi_requests_total counter"@ + "\n"@ + "veysrs_fastcgi_requests_total "@,
        !has_char("# TYPE veysrs_fastcgi_requests_total counter"@, '\n') && !has_char("# TYPE veysrs_fastcgi_requests_total counter"@, '\r'),
        !has_char("veysrs_fastcgi_requests_total "@, '\n') && !has_char("veysrs_fastcgi_requests_total "@, '\r'),
{
    reveal_strlit("\n# TYPE veysrs_fastcgi_requests_total counter\nveysrs_fastcgi_requests_total ");
    reveal_strlit("# TYPE veysrs_fastcgi_requests_total counter");
    reveal_strlit("veysrs_fastcgi_requests_total ");
    reveal_strlit("\n");
    assert("\n# TYPE veysrs_fastcgi_requests_total counter\nveysrs_fastcgi_requests_total "@ =~= "\n"@ + "# TYPE veysrs_fastcgi_requests_total counter"@ + "\n"@ + "veysrs_fastcgi_requests_total "@);
}

/// Every counter stands in a line of its own behind its name, and no other line has that
/// name.
pub proof fn law_counters_are_published(m: Metrics)
    ensures
        ({
            let l = lines(prometheus(m));
            &&& l.len() == 14
            &&& l[0] == "# TYPE veysrs_requests_total counter"@
            &&& l[1] == "veysrs_requests_total "@ + decimal(m.requests_total as nat)
            &&& l[2] == "# TYPE veysrs_requests_active gauge"@
            &&& l[3] == "veysrs_requests_active "@ + decimal(m.requests_active as nat)
            &&& l[4] == "# TYPE veysrs_response_bytes counter"@
            &&& l[5] == "veysrs_response_bytes "@ + decimal(m.response_bytes as nat)
            &&& l[6] == "# TYPE veysrs_4xx_total counter"@
            &&& l[7] == "veysrs_4xx_total "@ + decimal(m.status_4xx as nat)
            &&& l[8] == "# TYPE veysrs_5xx_total counter"@
            &&& l[9] == "veysrs_5xx_total "@ + decimal(m.status_5xx as nat)
            &&& l[10] == "# TYPE veysrs_proxy_requests_total counter"@
            &&& l[11] == "veysrs_proxy_requests_total "@ + decimal(m.proxy_requests as nat)
            &&& l[12] == "# TYPE veysrs_fastcgi_requests_total counter"@
            &&& l[13] == "veysrs_fastcgi_requests_total "@ + decimal(m.fastcgi_requests as nat)
        }),
{
    lemma_metric_texts();
    let l0 = Seq::<Seq<char>>::empty();
    let a0 = l0.push("# TYPE veysrs_requests_total counter"@);
    let l1 = a0.push("veysrs_requests_total "@ + decimal(m.requests_total as nat));
    assert(a0.drop_last() =~= l0);
    assert(l1.drop_last() =~= a0);
    let t1 = "# TYPE veysrs_requests_total counter\nveysrs_requests_total "@ + decimal(m.requests_total as nat);
    assert(a0.last() == "# TYPE veysrs_requests_total counter"@);
    assert(ended(l0) =~= Seq::<char>::empty());
    assert(ended(a0) =~= "# TYPE veysrs_requests_total counter"@ + seq!['\n']);
    assert(ended(l1) == ended(a0) + l1.last() + seq!['\n']);
    assert(t1 + "\n"@ =~= ended(l1));
    lemma_metric(
        l1,
        t1,
        "\n# TYPE veysrs_requests_active gauge\nveysrs_requests_active "@,
        "# TYPE veysrs_requests_active gauge"@,
        "veysrs_requests_active "@,
        decimal(m.requests_active as nat),
    );
    let t2 = t1 + "\n# TYPE veysrs_requests_active gauge\nveysrs_requests_active "@ + decimal(m.requests_active as nat);
    let l2 = l1.push("# TYPE veysrs_requests_active gauge"@).push("veysrs_requests_active "@ + decimal(m.requests_active as nat));
    lemma_metric(
        l2,
        t2,
        "\n# TYPE veysrs_response_bytes counter\nveysrs_response_bytes "@,
        "# TYPE veysrs_response_bytes counter"@,
        "veysrs_response_bytes "@,
        decimal(m.response_bytes as nat),
    );
    let t3 = t2 + "\n# TYPE veysrs_response_bytes counter\nveysrs_response_bytes "@ + decimal(m.response_bytes as nat);
    let l3 = l2.push("# TYPE veysrs_response_bytes counter"@).push("veysrs_response_bytes "@ + decimal(m.response_bytes as nat));
    lemma_metric(
        l3,
        t3,
        "\n# TYPE veysrs_4xx_total counter\nveysrs_4xx_total "@,
        "# TYPE veysrs_4xx_total counter"@,
        "veysrs_4xx_total "@,
        decimal(m.status_4xx as nat),
    );
    let t4 = t3 + "\n# TYPE veysrs_4xx_total counter\nveysrs_4xx_total "@ + decimal(m.status_4xx as nat);
    let l4 = l3.push("# TYPE veysrs_4xx_total counter"@).push("veysrs_4xx_total "@ + decimal(m.status_4xx as nat));
    lemma_metric(
        l4,
        t4,
        "\n# TYPE veysrs_5xx_total counter\nveysrs_5xx_total "@,
        "# TYPE veysrs_5xx_total counter"@,
        "veysrs_5xx_total "@,
        decimal(m.status_5xx as nat),
    );
    let t5 = t4 + "\n# TYPE veysrs_5xx_total counter\nveysrs_5xx_total "@ + decimal(m.status_5xx as nat);
    let l5 = l4.push("# TYPE veysrs_5xx_total counter"@).push("veysrs_5xx_total "@ + decimal(m.status_5xx as nat));
    lemma_metric(
        l5,
        t5,
        "\n# TYPE veysrs_proxy_requests_total counter\nveysrs_proxy_requests_total "@,
        "# TYPE veysrs_proxy_requests_total counter"@,
        "veysrs_proxy_requests_total "@,
        decimal(m.proxy_requests as nat),
    );
    let t6 = t5 + "\n# TYPE veysrs_proxy_requests_total counter\nveysrs_proxy_requests_total "@ + decimal(m.proxy_requests as nat);
    let l6 = l5.push("# TYPE veysrs_proxy_requests_total counter"@).push("veysrs_proxy_requests_total "@ + decimal(m.proxy_requests as nat));
    lemma_metric(
        l6,
        t6,
        "\n# TYPE veysrs_fastcgi_requests_total counter\nveysrs_fastcgi_requests_total "@,
        "# TYPE veysrs_fastcgi_requests_total counter"@,
        "veysrs_fastcgi_requests_total "@,
        decimal(m.fastcgi_requests as nat),
    );
    let t7 = t6 + "\n# TYPE veysrs_fastcgi_requests_total counter\nveysrs_fastcgi_requests_total "@ + decimal(m.fastcgi_requests as nat);
    let l7 = l6.push("# TYPE veysrs_fastcgi_requests_total counter"@).push("veysrs_fastcgi_requests_total "@ + decimal(m.fastcgi_requests as nat));
    assert(prometheus(m) == ended(l7));
    assert forall|i: int| 0 <= i < l7.len() implies !has_char(#[trigger] l7[i], '\n') && !has_char(
        l7[i],
        '\r',
    ) by {
        lemma_plain_line("veysrs_requests_total "@, m.requests_total as nat);
        lemma_plain_line("veysrs_requests_active "@, m.requests_active as nat);
        lemma_plain_line("veysrs_response_bytes "@, m.response_bytes as nat);
        lemma_plain_line("veysrs_4xx_total "@, m.status_4xx as nat);
        lemma_plain_line("veysrs_5xx_total "@, m.status_5xx as nat);
        lemma_plain_line("veysrs_proxy_requests_total "@, m.proxy_requests as nat);
        lemma_plain_line("veysrs_fastcgi_requests_total "@, m.fastcgi_requests as nat);
    }
    law_files_are_read_by_lines(l7);
}

proof fn lemma_plain_line(name: Seq<char>, n: nat)
    requires
        !has_char(name, '\n'),
        !has_char(name, '\r'),
    ensures
        !has_char(name + decimal(n), '\n'),
        !has_char(name + decimal(n), '\r'),
{
    let d = decimal(n);
    let s = name + d;
    lemma_decimal_is_digits(n);
    assert forall|i: int| 0 <= i < s.len() implies s[i] != '\n' && s[i] != '\r' by {
        if i < name.len() {
            assert(s[i] == name[i]);
        } else {
            assert(s[i] == d[i - name.len()]);
            assert(is_digit(d[i - name.len()]));
        }
    }
}

proof fn lemma_connected_at(b: Seq<Bucket>, ip: IpAddr, from: int, k: int)
    requires
        0 <= from <= k < b.len(),
        b[k].ip == ip,
        forall|i: int| from <= i < k ==> (#[trigger] b[i]).ip != ip,
    ensures
        bucket_at(b, ip, from) == k,
    decreases k - from,
{
    if from < k {
        assert(b[from].ip != ip);
        lemma_connected_at(b, ip, from + 1, k);
    }
}

proof fn lemma_bucket_at(b: Seq<Bucket>, ip: IpAddr, from: int)
    requires
        0 <= from <= b.len(),
    ensures
        from <= bucket_at(b, ip, from) <= b.len(),
        bucket_at(b, ip, from) < b.len() ==> b[bucket_at(b, ip, from)].ip == ip,
        forall|i: int| from <= i < bucket_at(b, ip, from) ==> (#[trigger] b[i]).ip != ip,
    decreases b.len() - from,
{
    if from < b.len() && b[from].ip != ip {
        lemma_bucket_at(b, ip, from + 1);
    }
}

/// A connection that closes gives back the place that it took: what is remembered of its
/// address counts as many connections as before.
pub proof fn law_closed_connections_give_back_their_place(
    b: Seq<Bucket>,
    ip: IpAddr,
    max: usize,
    now: u64,
    later: u64,
)
    requires
        max > 0,
        connected(b, ip, max, now).1,
    ensures
        ({
            let s = crate::server::limits::staying(b, now);
            let a = connected(b, ip, max, now).0;
            let d = disconnected(a, ip, later);
            let k = bucket_at(s, ip, 0);
            &&& known(a, ip)
            &&& a[bucket_at(a, ip, 0)].connections == (if k < s.len() {
                s[k].connections + 1
            } else {
                1
            })
            &&& a[bucket_at(a, ip, 0)].connections <= max
            &&& d[bucket_at(d, ip, 0)].connections == a[bucket_at(a, ip, 0)].connections - 1
            &&& d.len() == a.len()
            &&& forall|i: int| 0 <= i < s.len() && i != k ==> d[i] == #[trigger] s[i]
        }),
{
    let s = crate::server::limits::staying(b, now);
    let a = connected(b, ip, max, now).0;
    lemma_bucket_at(s, ip, 0);
    let k = bucket_at(s, ip, 0);
    assert forall|i: int| 0 <= i < k implies (#[trigger] a[i]).ip != ip by {
        assert(a[i] == s[i]);
    }
    lemma_connected_at(a, ip, 0, k);
    let d = disconnected(a, ip, later);
    assert forall|i: int| 0 <= i < k implies (#[trigger] d[i]).ip != ip by {
        assert(d[i] == a[i]);
    }
    lemma_connected_at(d, ip, 0, k);
}

/// So many failures as a threshold allows leave an upstream in use; one more takes it out
/// until its cooldown of ten seconds is over.
pub proof fn law_failures_add_up(s: HealthState, threshold: u32, now: u64)
    requires
        s.failures < u32::MAX,
        s.unhealthy_until is None,
        now + 10000 <= u64::MAX,
        threshold > 0,
    ensures
        ({
            let t = after_failure(s, threshold, now);
            &&& t.failures == s.failures + 1
            &&& t.failures < threshold ==> t.unhealthy_until is None
            &&& t.failures >= threshold ==> t.unhealthy_until == Some((now + 10000) as u64)
            &&& t.recoveries == s.recoveries && t.last_probe == s.last_probe
        }),
{
}

/// An upstream that was taken out is skipped until its cooldown is over; without probes it is
/// tried again from then on, and one without failures is used.
pub proof fn law_upstreams_are_skipped_while_they_cool_down(
    m: Map<Seq<char>, HealthState>,
    key: Seq<char>,
    now: u64,
)
    ensures
        !m.contains_key(key) ==> gate_for(m, key, 0, now) == Gate::Use,
        m.contains_key(key) && m[key].unhealthy_until is None ==> gate_for(m, key, 0, now)
            == Gate::Use,
        m.contains_key(key) ==> (m[key].unhealthy_until matches Some(t) ==> gate_for(m, key, 0, now)
            == (if now < t {
            Gate::Skip
        } else {
            Gate::Use
        })),
{
}

} // verus!
