use mlh::tools::check_git::{next_page, page_actions, page_bounds, total_pages, BrowseAction};
use mlh::tools::check_git::{article_position, commit_choice, select_test_inbox, single_commit_index, CommitChoice};
use mlh::tools::check_git::{commit_line, first_line, public_inbox_config_yaml};
use mlh::tools::check_git::truncate_subject;
use mlh::tools::check_nntp::{
    generate_config_yaml, generate_full_config_yaml, parse_server_url, truncate_str, ServerConfig,
};

#[test]
fn test_parse_nntp_default_port() {
    let cfg = parse_server_url("nntp://example.com").unwrap();
    assert_eq!(cfg.hostname, "nntp://example.com");
    assert_eq!(cfg.port, None);
    assert!(!cfg.use_tls);
}

#[test]
fn test_parse_typo_scheme_keeps_full_input() {
    // "nnttps://" (double t) is not recognized: the full input becomes the
    // hostname and the connection is plain text.
    let cfg = parse_server_url("nnttps://news.example.com").unwrap();
    assert_eq!(cfg.hostname, "nnttps://news.example.com");
    assert_eq!(cfg.port, None);
    assert!(!cfg.use_tls);
}

#[test]
fn test_parse_nntps_default_port() {
    let cfg = parse_server_url("nntps://example.com").unwrap();
    assert_eq!(cfg.hostname, "nntps://example.com");
    assert_eq!(cfg.port, None);
    assert!(cfg.use_tls);
}

#[test]
fn test_parse_nntp_with_port() {
    let cfg = parse_server_url("nntp://example.com:8119").unwrap();
    assert_eq!(cfg.hostname, "nntp://example.com");
    assert_eq!(cfg.port, Some(8119));
    assert!(!cfg.use_tls);
}

#[test]
fn test_parse_nntps_with_port() {
    let cfg = parse_server_url("nntps://example.com:563").unwrap();
    assert_eq!(cfg.hostname, "nntps://example.com");
    assert_eq!(cfg.port, Some(563));
    assert!(cfg.use_tls);
}

#[test]
fn test_parse_ip_with_port() {
    let cfg = parse_server_url("nntp://192.168.1.1:5119").unwrap();
    assert_eq!(cfg.hostname, "nntp://192.168.1.1");
    assert_eq!(cfg.port, Some(5119));
    assert!(!cfg.use_tls);
}

#[test]
fn test_parse_ip_without_port() {
    let cfg = parse_server_url("nntp://192.168.1.1").unwrap();
    assert_eq!(cfg.hostname, "nntp://192.168.1.1");
    assert_eq!(cfg.port, None);
    assert!(!cfg.use_tls);
}

#[test]
fn test_parse_no_scheme_defaults_to_nntp() {
    let cfg = parse_server_url("example.com").unwrap();
    assert_eq!(cfg.hostname, "example.com");
    assert_eq!(cfg.port, None);
    assert!(!cfg.use_tls);
}

#[test]
fn test_parse_no_scheme_with_port() {
    let cfg = parse_server_url("example.com:8119").unwrap();
    assert_eq!(cfg.hostname, "example.com");
    assert_eq!(cfg.port, Some(8119));
    assert!(!cfg.use_tls);
}

#[test]
fn test_parse_trims_whitespace() {
    let cfg = parse_server_url("  nntp://example.com:5119  ").unwrap();
    assert_eq!(cfg.hostname, "nntp://example.com");
    assert_eq!(cfg.port, Some(5119));
}

#[test]
fn test_parse_invalid_port_falls_back_to_hostname() {
    let cfg = parse_server_url("nntp://example.com:abc").unwrap();
    assert_eq!(cfg.hostname, "nntp://example.com:abc");
    assert_eq!(cfg.port, None);
}

#[test]
fn test_parse_port_out_of_range() {
    let result = parse_server_url("nntp://example.com:70000");
    assert!(result.is_err());
}

#[test]
fn test_parse_empty_hostname() {
    let cfg = parse_server_url("nntp://").unwrap();
    assert_eq!(cfg.hostname, "nntp://");
    assert_eq!(cfg.port, None);
}

#[test]
fn test_parse_empty_input() {
    let result = parse_server_url("");
    assert!(result.is_err());
}

#[test]
fn parse_error_messages() {
    assert_eq!(
        parse_server_url("nntp://example.com:70000").unwrap_err(),
        "invalid port '70000'"
    );
    assert_eq!(parse_server_url("").unwrap_err(), "empty hostname");
    assert_eq!(parse_server_url("   ").unwrap_err(), "empty hostname");
    assert_eq!(parse_server_url(":119").unwrap_err(), "empty hostname");
}

#[test]
fn parse_port_bounds() {
    let cfg = parse_server_url("host:65535").unwrap();
    assert_eq!(cfg.port, Some(65535));
    let cfg = parse_server_url("host:0").unwrap();
    assert_eq!(cfg.port, Some(0));
    assert!(parse_server_url("host:65536").is_err());
    let cfg = parse_server_url("host:").unwrap();
    assert_eq!(cfg.hostname, "host:");
    assert_eq!(cfg.port, None);
}

#[test]
fn config_snippet_with_port() {
    let server = ServerConfig {
        hostname: "nntp.lore.kernel.org".to_string(),
        port: Some(119),
        use_tls: false,
    };
    let groups = vec!["org.kernel.vger.netdev".to_string(), "org.kernel.vger.bpf".to_string()];
    let yaml = generate_config_yaml(&server, &groups);
    assert_eq!(
        yaml,
        "# NNTP Configuration Snippet\n# Add this to your archiver_config.yaml\n\nnntp:\n  hostname: \"nntp.lore.kernel.org\"\n  port: 119\n  group_lists:\n      - org.kernel.vger.netdev\n      - org.kernel.vger.bpf\n"
    );
}

#[test]
fn config_snippet_without_port() {
    let server = ServerConfig { hostname: "example.com".to_string(), port: None, use_tls: false };
    let groups = vec!["a.b".to_string()];
    let yaml = generate_config_yaml(&server, &groups);
    assert_eq!(
        yaml,
        "# NNTP Configuration Snippet\n# Add this to your archiver_config.yaml\n\nnntp:\n  hostname: \"example.com\"\n  # port: 119  # optional, defaults to 119\n  group_lists:\n      - a.b\n"
    );
}

#[test]
fn full_config_file() {
    let server = ServerConfig { hostname: "example.com".to_string(), port: Some(8119), use_tls: false };
    let groups = vec!["x.y".to_string(), "z".to_string()];
    let yaml = generate_full_config_yaml(&server, &groups);
    assert_eq!(
        yaml,
        "# MLH Archiver Configuration\n# Generated by check_nntp\n\nnthreads: 2\noutput_dir: \"./output\"\nloop_groups: true\n\nnntp:\n  hostname: \"example.com\"\n  port: 8119\n  group_lists:\n      - x.y\n      - z\n  # article_range: \"1-100\"  # Optional: fetch specific range\n"
    );
}

#[test]
fn truncation_in_bytes() {
    assert_eq!(truncate_str("short", 10), "short");
    assert_eq!(truncate_str("exactly10!", 10), "exactly10!");
    assert_eq!(truncate_str("org.kernel.vger.netdev", 10), "org.ker...");
    assert_eq!(truncate_subject("[PATCH] fix the thing", 12), "[PATCH] f...");
    assert_eq!(truncate_subject("héllo world", 8), "héll...");
}

#[test]
fn check_git_paging() {
    assert_eq!(total_pages(45, 20), 3);
    assert_eq!(total_pages(40, 20), 2);
    assert_eq!(total_pages(1, 20), 1);
    assert_eq!(page_bounds(0, 20, 45), (0, 20));
    assert_eq!(page_bounds(2, 20, 45), (40, 45));
    assert_eq!(
        page_actions(0, 3),
        vec![BrowseAction::SelectOnPage, BrowseAction::ViewByNumber, BrowseAction::NextPage, BrowseAction::Back]
    );
    assert_eq!(
        page_actions(2, 3),
        vec![BrowseAction::SelectOnPage, BrowseAction::ViewByNumber, BrowseAction::PreviousPage, BrowseAction::Back]
    );
    assert_eq!(next_page(1, 3, BrowseAction::NextPage), 2);
    assert_eq!(next_page(1, 3, BrowseAction::PreviousPage), 0);
    assert_eq!(next_page(1, 3, BrowseAction::Back), 1);
}

#[test]
fn check_git_choices() {
    assert_eq!(commit_choice("3", 10), CommitChoice::Index(2));
    assert_eq!(commit_choice("0", 10), CommitChoice::OutOfRange);
    assert_eq!(commit_choice("11", 10), CommitChoice::OutOfRange);
    assert_eq!(commit_choice("x", 10), CommitChoice::NotANumber);
    assert_eq!(article_position("5"), 5);
    assert_eq!(article_position(""), 1);
    assert_eq!(single_commit_index(1, 3), Some(0));
    assert_eq!(single_commit_index(0, 3), None);
    assert_eq!(single_commit_index(4, 3), None);
    let names = vec!["a".to_string(), "b".to_string()];
    assert_eq!(select_test_inbox(&names, Some("b")), Some(1));
    assert_eq!(select_test_inbox(&names, Some("c")), None);
    assert_eq!(select_test_inbox(&names, None), Some(0));
    assert_eq!(select_test_inbox(&vec![], None), None);
}

#[test]
fn check_git_texts() {
    assert_eq!(first_line("Subject line\nbody"), "Subject line");
    assert_eq!(first_line(""), "");
    assert_eq!(commit_line(7, "2024-01-02", "Jane", "fix"), "   7 | 2024-01-02 | Jane | fix");
    assert_eq!(commit_line(12345, "d", "a", "s"), "12345 | d | a | s");
    let yaml = public_inbox_config_yaml("/srv/inboxes", "public-inbox", &vec!["git".to_string(), "lkml".to_string()], " 1-100 ");
    assert_eq!(
        yaml,
        "# MLH Archiver Configuration - Public Inbox\n# Generated by check_git\n\nnthreads: 2\noutput_dir: \"./output\"\nloop_groups: false\n\npublic_inbox:\n  inport_directory: \"/srv/inboxes\"\n  origin: \"public-inbox\"\n  group_lists:\n    - \"git\"\n    - \"lkml\"\n  article_range: \"1-100\"\n"
    );
    let no_range = public_inbox_config_yaml("d", "o", &vec![], "  ");
    assert!(!no_range.contains("article_range"));
}
