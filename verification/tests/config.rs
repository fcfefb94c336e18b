//! Rule files, how rules combine, and what is remembered of them.

use veysrs::config::ip::{parse_cidr, read_ip, Cidr, IpAddr};
use veysrs::config::manager::{rule_paths, ConfigManager, RuleFile};
use veysrs::config::tree::{validate_veysrule_tree, walk_step, WalkStep};
use veysrs::config::types::ServerConfig;
use veysrs::config::veysrule::{parse_veysrule_content, parse_veysrule_file};

fn chars(s: &str) -> Vec<char> {
    s.chars().collect()
}

#[test]
fn test_parse_valid_veysrule_v0_3() {
    let content = r#"
# Valid v0.3.0 config file
PORT = 8080
ROOT_DIR = ./public
MAX_REQUEST_SIZE = 131072
MAX_HEADER_SIZE = 32768
MAX_HEADERS = 128
MAX_HEADER_LINE = 4096
MAX_URI_LENGTH = 4096
READ_TIMEOUT = 15
WRITE_TIMEOUT = 15
KEEP_ALIVE_TIMEOUT = 15
MAX_CONNECTIONS = 2048
MAX_REQUESTS_PER_CONNECTION = 200
DENY_HIDDEN_FILES = true
DENY_IP = 192.168.1.50
HEADER = X-Powered-By: veysrs
REDIRECT_404 = /404.html
"#;
    let (server_cfg, dir_cfg, errors) = parse_veysrule_content(content, ".veysrule", true);
    assert!(errors.is_empty(), "Errors: {:?}", errors);
    assert_eq!(server_cfg.port, 8080);
    assert_eq!(server_cfg.max_request_size, 131072);
    assert_eq!(server_cfg.max_connections, 2048);
    assert!(server_cfg.deny_hidden_files);
    assert_eq!(dir_cfg.deny_ips.len(), 1);
    assert_eq!(
        dir_cfg.headers,
        vec![("X-Powered-By".to_string(), "veysrs".to_string())]
    );
}

#[test]
fn test_parse_invalid_directives() {
    let content = r#"
PORT = invalid
DENY_IP = 999.999.999.999
HEADER_INVALID
UNKNOWN_DIRECTIVE = 123
"#;
    let (_, _, errors) = parse_veysrule_content(content, ".veysrule", true);
    assert_eq!(errors.len(), 4);
}

#[test]
fn test_child_config_cannot_override_root_directives() {
    let content = r#"
PORT = 9090
MAX_CONNECTIONS = 9999
"#;
    let (_, _, errors) = parse_veysrule_content(content, "public/.veysrule", false);
    assert_eq!(errors.len(), 2);
    assert_eq!(errors[0].message, "PORT is a root-only directive");
    assert_eq!(
        errors[1].message,
        "MAX_CONNECTIONS is a root-only directive"
    );
}

#[test]
fn test_native_veysrule_directives_and_escaping() {
    let content = r#"
            # comments may follow quoted values
            header X-Test "hello # world"
            add_header Cache-Control "public, max-age=60"
            remove_header Server
            redirect "/old" "/new" 301
            rewrite "^/docs/(.*)$" "/documentation/$1"
            allow ip "10.0.0.0/8"
            methods GET HEAD OPTIONS
            index "index.html" "index.htm"
            autoindex off
            cache on
            expires 1h
            mime ".wasm" "application/wasm"
            error_page 404 "/404.html"
        "#;
    let (_, cfg, errors) = parse_veysrule_content(content, "nested/.veysrule", false);
    assert!(errors.is_empty(), "errors: {errors:?}");
    assert_eq!(cfg.headers[0].1, "hello # world");
    assert_eq!(cfg.redirect.as_ref().unwrap().status, 301);
    assert_eq!(cfg.allow_networks[0].prefix, 8);
    assert_eq!(cfg.expires, Some(3600));
    assert_eq!(cfg.error_pages, vec![(404, "/404.html".to_string())]);
}

#[test]
fn test_native_parser_reports_quoted_and_value_errors() {
    let (_, _, errors) = parse_veysrule_content(
        "header X \"unterminated\nexpires 4x\nredirect /a /b 200\n",
        "bad/.veysrule",
        false,
    );
    assert_eq!(errors.len(), 3);
    assert!(errors[0].message.contains("unterminated"));
    assert_eq!(errors[0].line_number, 1);
}

#[test]
fn test_directory_merge_is_explicit_and_deterministic() {
    let (_, parent, parent_errors) = parse_veysrule_content(
        "header X-Test \"parent\"\nmethods GET HEAD\ncache off\n",
        "root/.veysrule",
        true,
    );
    let (_, child, child_errors) = parse_veysrule_content(
        "add_header X-Child \"yes\"\nheader X-Test \"child\"\nmethods GET\ncache on\n",
        "child/.veysrule",
        false,
    );
    assert!(parent_errors.is_empty() && child_errors.is_empty());
    let mut effective = parent;
    effective.merge(child);
    assert_eq!(
        effective.headers,
        vec![("X-Test".to_string(), "child".to_string())]
    );
    assert_eq!(
        effective.add_headers,
        vec![("X-Child".to_string(), "yes".to_string())]
    );
    assert_eq!(effective.methods, Some(vec!["GET".to_string()]));
    assert_eq!(effective.cache, Some(true));
}

#[test]
fn test_tls_and_vhost_root_directives() {
    let content = "TLS_ENABLED = true\nTLS_CERTIFICATE = /etc/veysrs/cert.pem\nTLS_PRIVATE_KEY = /etc/veysrs/key.pem\nVHOST = example.test /var/www/example\n";
    let (config, _, errors) = parse_veysrule_content(content, ".veysrule", true);
    assert!(errors.is_empty(), "errors: {errors:?}");
    assert!(config.tls_enabled);
    assert_eq!(
        config.tls_certificate,
        Some("/etc/veysrs/cert.pem".to_string())
    );
    assert_eq!(config.vhosts[0].host, "example.test");
}

#[test]
fn test_proxy_and_fastcgi_are_root_only_and_validated() {
    let content = "PROXY = example.test /api/ http://127.0.0.1:3000\nFASTCGI = example.test / unix:/run/php.sock /var/www/example\n";
    let (cfg, _, errors) = parse_veysrule_content(content, ".veysrule", true);
    assert!(errors.is_empty(), "errors: {errors:?}");
    assert_eq!(cfg.proxy_routes[0].prefix, "/api/");
    assert_eq!(cfg.fastcgi_routes[0].endpoint, "unix:/run/php.sock");

    let (_, _, errors) =
        parse_veysrule_content("PROXY = * / http://127.0.0.1:1\n", "child/.veysrule", false);
    assert_eq!(errors.len(), 1);
    assert!(errors[0].message.contains("root-only"));
}

#[test]
fn test_front_controller_is_root_only_and_path_validated() {
    let (config, _, errors) =
        parse_veysrule_content("FRONT_CONTROLLER = /index.php\n", ".veysrule", true);
    assert!(errors.is_empty(), "errors: {errors:?}");
    assert_eq!(config.front_controller.as_deref(), Some("/index.php"));

    for value in ["../index.php", "/../index.php", "/index.php?x=1", "/"] {
        let (_, _, errors) =
            parse_veysrule_content(&format!("FRONT_CONTROLLER = {value}\n"), ".veysrule", true);
        assert_eq!(errors.len(), 1, "accepted unsafe controller {value}");
    }

    let (_, _, errors) =
        parse_veysrule_content("FRONT_CONTROLLER = /index.php\n", "nested/.veysrule", false);
    assert_eq!(errors.len(), 1);
    assert!(errors[0].message.contains("root-only"));
}

#[test]
fn test_upstream_health_settings_are_bounded() {
    let content = "UPSTREAM_HEALTH_INTERVAL = 5\nUPSTREAM_HEALTH_TIMEOUT = 2\nUPSTREAM_HEALTH_FAILURES = 3\nUPSTREAM_HEALTH_RECOVERY = 2\n";
    let (cfg, _, errors) = parse_veysrule_content(content, ".veysrule", true);
    assert!(errors.is_empty(), "errors: {errors:?}");
    assert_eq!(cfg.upstream_health_interval, 5);
    assert_eq!(cfg.upstream_health_timeout, 2);
    assert_eq!(cfg.upstream_health_failures, 3);
    assert_eq!(cfg.upstream_health_recovery, 2);
}

fn rule_file(path: &str, content: Option<&str>, is_root: bool, stamp: Option<u128>) -> RuleFile {
    RuleFile {
        path: path.to_string(),
        content: content.map(|s| s.to_string()),
        stamp,
        is_root,
    }
}

#[test]
fn clear_cache_publishes_updated_root_rule() {
    let mut manager = ConfigManager::new();
    let one = vec![rule_file("/srv/.veysrule", Some("header X-Reload one\n"), true, Some(1))];
    let two = vec![rule_file("/srv/.veysrule", Some("header X-Reload two\n"), true, Some(2))];
    let (first, errors) = manager.get_config_for_dir(&one, false);
    assert!(errors.is_empty());
    assert_eq!(first.headers[0].1, "one");
    let (kept, _) = manager.get_config_for_dir(&two, false);
    assert_eq!(kept.headers[0].1, "one");
    manager.clear_cache();
    let (second, _) = manager.get_config_for_dir(&two, false);
    assert_eq!(second.headers[0].1, "two");
}

#[test]
fn development_mode_notices_changed_files() {
    let mut manager = ConfigManager::new();
    let one = vec![rule_file("/srv/.veysrule", Some("cache on\n"), true, Some(1))];
    let two = vec![rule_file("/srv/.veysrule", Some("cache off\n"), true, Some(2))];
    assert_eq!(manager.get_config_for_dir(&one, true).0.cache, Some(true));
    assert_eq!(manager.get_config_for_dir(&two, true).0.cache, Some(false));
}

#[test]
fn files_with_errors_give_no_rules() {
    let mut manager = ConfigManager::new_with_error_log("/var/log/veysrs.log");
    assert_eq!(manager.error_log(), "/var/log/veysrs.log");
    let files = vec![
        rule_file("/srv/.veysrule", Some("cache on\n"), true, None),
        rule_file("/srv/docs/.veysrule", Some("cache off\nexpires 4x\n"), false, None),
    ];
    let (rules, errors) = manager.get_config_for_dir(&files, false);
    assert_eq!(rules.cache, Some(true));
    assert_eq!(errors.len(), 1);
    assert_eq!(errors[0].file_name, "/srv/docs/.veysrule");
    assert_eq!(errors[0].line_number, 2);
}

#[test]
fn preloaded_rules_are_remembered() {
    let mut manager = ConfigManager::new();
    manager.preload_tree(&vec![rule_file("/srv/.veysrule", Some("cache on\n"), true, Some(1))]);
    let changed = rule_file("/srv/.veysrule", Some("cache off\n"), true, Some(2));
    let (config, errors) = manager.load_dir_config(&changed, false);
    assert!(errors.is_empty());
    assert_eq!(config.unwrap().cache, Some(true));
}

#[test]
fn rule_files_of_a_path_are_those_of_its_directories() {
    assert_eq!(
        rule_paths("docs/api/index.html"),
        vec![
            ".veysrule".to_string(),
            "docs/.veysrule".to_string(),
            "docs/api/.veysrule".to_string(),
            "docs/api/index.html/.veysrule".to_string(),
        ]
    );
}

#[test]
fn links_are_not_walked() {
    assert_eq!(walk_step(true, true, "docs", false), WalkStep::Skip);
    assert_eq!(walk_step(true, false, ".veysrule", false), WalkStep::Skip);
    assert_eq!(walk_step(false, true, "docs", false), WalkStep::Enter);
    assert_eq!(walk_step(false, false, ".veysrule", false), WalkStep::Read);
    assert_eq!(walk_step(false, false, ".veysrule", true), WalkStep::Skip);
    assert_eq!(walk_step(false, false, "index.html", false), WalkStep::Skip);
}

#[test]
fn all_rule_files_of_a_tree_are_complained_about() {
    let files = vec![
        rule_file("/srv/.veysrule", Some("PORT = nope\n"), true, None),
        rule_file("/srv/a/.veysrule", Some("PORT = 1\ncache maybe\n"), false, None),
        rule_file("/srv/b/.veysrule", None, false, None),
    ];
    let errors = validate_veysrule_tree(&files);
    assert_eq!(errors.len(), 3);
    assert_eq!(errors[0].file_name, "/srv/.veysrule");
    assert_eq!(errors[1].message, "PORT is a root-only directive");
    assert_eq!(errors[2].line_number, 2);
}

#[test]
fn oversized_rule_files_are_refused() {
    let text = "#".repeat(262145);
    let (_, _, errors) = parse_veysrule_file(Some(&text), ".veysrule", true);
    assert_eq!(errors.len(), 1);
    assert_eq!(errors[0].message, "rule file exceeds 262144 bytes");
    let (server, _, errors) = parse_veysrule_file(None, ".veysrule", true);
    assert!(errors.is_empty());
    assert_eq!(server.port, ServerConfig::default().port);
}

#[test]
fn oversized_directory_rules_are_not_applied() {
    let mut manager = ConfigManager::new();
    let mut text = "autoindex on\n".to_string();
    text.push_str(&"#".repeat(262145 - text.len()));
    let file = rule_file("/srv/a/.veysrule", Some(&text), false, None);
    let (config, errors) = manager.load_dir_config(&file, false);
    assert!(config.is_none());
    assert_eq!(errors.len(), 1);
    assert_eq!(errors[0].message, "rule file exceeds 262144 bytes");
    text.pop();
    let file = rule_file("/srv/a/.veysrule", Some(&text), false, None);
    let (config, errors) = manager.load_dir_config(&file, false);
    assert!(errors.is_empty());
    assert_eq!(config.unwrap().autoindex, Some(true));
}

#[test]
fn networks_cover_their_addresses() {
    let net = parse_cidr(&chars("10.1.0.0/16")).unwrap();
    assert!(net.contains(IpAddr::V4(0x0a01_ffff)));
    assert!(!net.contains(IpAddr::V4(0x0a02_0000)));
    assert!(!net.contains(IpAddr::V6(0)));
    let six = parse_cidr(&chars("2001:db8::/32")).unwrap();
    assert!(six.contains(IpAddr::V6(0x2001_0db8_0000_0000_0000_0000_0000_0001)));
    assert_eq!(
        Cidr { address: IpAddr::V4(0), prefix: 0 }.contains(IpAddr::V4(77)),
        true
    );
    assert!(parse_cidr(&chars("10.0.0.0/33")).is_err());
    assert_eq!(read_ip(&chars("::ffff:1.2.3.4")), Some(IpAddr::V6(0xffff_0102_0304)));
    assert_eq!(read_ip(&chars("1.2.3")), None);
}

#[test]
fn errors_name_file_line_and_message() {
    let (_, _, errors) = parse_veysrule_content("\nPORT = 0\n", "site/.veysrule", true);
    assert_eq!(errors.len(), 1);
    assert!(errors[0].to_text().starts_with("site/.veysrule:2:"));
}

#[test]
fn a_minimal_server_setup_is_accepted() {
    let content = "PORT = 8080\nROOT_DIR = /var/lib/veysrs/www\nWORKERS = 6\n\
        MAX_CONNECTIONS = 1024\nTLS_ENABLED = false\nCOMPRESSION_ENABLED = true\n\
        ACCESS_LOG = stdout\nERROR_LOG = stderr\n";
    let (config, _, errors) = parse_veysrule_content(content, ".veysrule", true);
    assert!(errors.is_empty(), "{errors:?}");
    assert_eq!(config.workers, 6);
    assert_eq!(config.max_connections, 1024);
    assert_eq!(config.root_dir, "/var/lib/veysrs/www");
    let (config, _, errors) = parse_veysrule_content("WORKERS = many\n", ".veysrule", true);
    assert_eq!(errors[0].message, "invalid WORKERS");
    assert_eq!(config.workers, ServerConfig::default().workers);
    let (_, _, errors) = parse_veysrule_content("WORKERS = 4\n", "a/.veysrule", false);
    assert_eq!(errors[0].message, "WORKERS is a root-only directive");
}

#[test]
fn rejected_lines_have_no_effect() {
    let content = "PORT = 0\nautoindex on\nautoindex maybe\nPORT = 81\nNONSENSE = 1\n";
    let (server, dir, errors) = parse_veysrule_content(content, ".veysrule", true);
    assert_eq!(server.port, 81);
    assert_eq!(dir.autoindex, Some(true));
    let numbers: Vec<usize> = errors.iter().map(|e| e.line_number).collect();
    assert_eq!(numbers, vec![1, 3, 5]);
}

#[test]
fn scalar_rules_come_from_the_deepest_directory() {
    let (_, parent, _) =
        parse_veysrule_content("methods GET\nexpires 1h\ncache on\n", ".veysrule", false);
    let (_, child, _) = parse_veysrule_content("cache off\n", "a/.veysrule", false);
    let mut both = parent.clone();
    both.merge(child);
    assert_eq!(both.methods, parent.methods);
    assert_eq!(both.expires, Some(3600));
    assert_eq!(both.cache, Some(false));
}
