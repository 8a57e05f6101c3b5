use mlh::archiver::config::{AppConfig, RunMode};
use mlh::archiver::errors::ConfigError;
use mlh::archiver::nntp_source::nntp_config::NntpConfig;
use mlh::archiver::range_inputs::parse_sequence;

fn nntp(hostname: &str, port: u16, group_lists: Option<Vec<String>>, article_range: Option<String>) -> NntpConfig {
    NntpConfig {
        hostname: hostname.to_string(),
        port: Some(port),
        group_lists,
        article_range,
        username: None,
        password: None,
    }
}

fn app(nntp: Option<NntpConfig>) -> AppConfig {
    AppConfig {
        nthreads: 1,
        output_dir: "./output".to_string(),
        loop_groups: true,
        nntp,
    }
}

#[test]
fn test_app_config_defaults() {
    let config = AppConfig::default();
    assert_eq!(config.nthreads, 1);
    assert_eq!(config.output_dir, "./output");
    assert!(config.loop_groups);
    assert!(config.nntp.is_none());
}

#[test]
fn test_nntp_config_validate_success() {
    let config = nntp("nntp.example.com", 119, None, None);
    assert!(config.validate().is_ok());
}

#[test]
fn test_nntp_config_validate_missing_hostname() {
    let config = nntp("", 119, None, None);
    let result = config.validate();
    assert!(result.is_err());
    assert!(matches!(result.unwrap_err(), ConfigError::MissingHostname));
}

#[test]
fn test_nntp_config_server_address_default_port() {
    let config = nntp("nntp.example.com", 119, None, None);
    assert_eq!(config.server_address(), "nntp.example.com:119");
}

#[test]
fn test_nntp_config_server_address_custom_port() {
    let config = nntp("nntp.example.com", 563, None, None);
    assert_eq!(config.server_address(), "nntp.example.com:563");
}

#[test]
fn test_app_config_get_nntp_config_with_nntp() {
    let config = app(Some(nntp("nntp.example.com", 119, None, None)));
    let nntp = config.nntp.unwrap();
    assert_eq!(nntp.hostname, "nntp.example.com");
}

#[test]
fn test_app_config_get_nntp_config_without_nntp() {
    let config = app(None);
    assert!(config.nntp.is_none());
}

fn lists(names: &[&str]) -> Vec<String> {
    names.iter().map(|s| s.to_string()).collect()
}

#[test]
fn test_get_group_lists_all_keyword() {
    let config = app(Some(nntp("nntp.example.com", 119, Some(lists(&["ALL"])), None)));
    let available_lists = lists(&["list1", "list2", "list3"]);
    let result = config.get_group_lists(available_lists.clone(), RunMode::NNTP, vec![]);
    assert!(result.is_ok());
    assert_eq!(result.unwrap(), available_lists);
}

#[test]
fn test_get_group_lists_specific_lists() {
    let config = app(Some(nntp("nntp.example.com", 119, Some(lists(&["list1", "list2"])), None)));
    let available_lists = lists(&["list1", "list2", "list3"]);
    let result = config.get_group_lists(available_lists, RunMode::NNTP, vec![]);
    assert!(result.is_ok());
    let lists = result.unwrap();
    assert_eq!(lists.len(), 2);
    assert!(lists.contains(&"list1".to_string()));
    assert!(lists.contains(&"list2".to_string()));
}

#[test]
fn test_get_group_lists_filters_invalid() {
    let config = app(Some(nntp(
        "nntp.example.com",
        119,
        Some(lists(&["valid_list", "invalid_list"])),
        None,
    )));
    let available_lists = lists(&["valid_list", "another_valid_list"]);
    let result = config.get_group_lists(available_lists, RunMode::NNTP, vec![]);
    assert!(result.is_ok());
    let lists = result.unwrap();
    assert_eq!(lists.len(), 1);
    assert_eq!(lists[0], "valid_list");
}

#[test]
fn test_get_group_lists_all_invalid() {
    let config = app(Some(nntp(
        "nntp.example.com",
        119,
        Some(lists(&["invalid1", "invalid2"])),
        None,
    )));
    let available_lists = lists(&["valid_list", "another_valid_list"]);
    let result = config.get_group_lists(available_lists, RunMode::NNTP, vec![]);
    assert!(result.is_err());
    assert!(matches!(result.unwrap_err(), ConfigError::AllListsUnavailable));
}

#[test]
fn test_get_group_lists_deduplicates() {
    let config = app(Some(nntp(
        "nntp.example.com",
        119,
        Some(lists(&["list1", "list1", "list2"])),
        None,
    )));
    let available_lists = lists(&["list1", "list2"]);
    let result = config.get_group_lists(available_lists, RunMode::NNTP, vec![]);
    assert!(result.is_ok());
    let lists = result.unwrap();
    assert_eq!(lists.len(), 2);
}

#[test]
fn test_get_group_lists_prompted_answer() {
    let config = app(Some(nntp("nntp.example.com", 119, None, None)));
    let available_lists = lists(&["list1", "list2", "list3"]);
    let picked = config.get_group_lists(available_lists.clone(), RunMode::NNTP, lists(&["list2"]));
    assert_eq!(picked.unwrap(), lists(&["list2"]));
    let all = config.get_group_lists(available_lists.clone(), RunMode::NNTP, lists(&["ALL", "list1"]));
    assert_eq!(all.unwrap(), available_lists);
    let none_offered = config.get_group_lists(vec![], RunMode::NNTP, lists(&["ALL"]));
    assert!(matches!(none_offered.unwrap_err(), ConfigError::ListSelectionEmpty));
}

#[test]
fn test_get_article_range_none() {
    let config = app(Some(nntp("nntp.example.com", 119, None, None)));
    let result = config.get_range_selection_text(RunMode::NNTP);
    assert!(result.is_none());
}

#[test]
fn test_get_article_range_single_number() {
    let config = app(Some(nntp(
        "nntp.example.com",
        119,
        Some(lists(&["list1"])),
        Some("100".to_string()),
    )));
    let result = config.get_range_selection_text(RunMode::NNTP);
    assert!(result.is_some());
    let range: Vec<usize> = parse_sequence(&result.unwrap()).unwrap().to_vec();
    assert_eq!(range, vec![100]);
}

#[test]
fn test_get_article_range_multiple_numbers() {
    let config = app(Some(nntp(
        "nntp.example.com",
        119,
        Some(lists(&["list1"])),
        Some("1,5,10".to_string()),
    )));
    let result = config.get_range_selection_text(RunMode::NNTP);
    assert!(result.is_some());
    let range: Vec<usize> = parse_sequence(&result.unwrap()).unwrap().to_vec();
    assert_eq!(range, vec![1, 5, 10]);
}

#[test]
fn test_get_article_range_dash_range() {
    let config = app(Some(nntp(
        "nntp.example.com",
        119,
        Some(lists(&["list1"])),
        Some("1-5".to_string()),
    )));
    let result = config.get_range_selection_text(RunMode::NNTP);
    assert!(result.is_some());
    let range: Vec<usize> = parse_sequence(&result.unwrap()).unwrap().to_vec();
    assert_eq!(range, vec![1, 2, 3, 4, 5]);
}

#[test]
fn test_get_article_range_mixed() {
    let config = app(Some(nntp(
        "nntp.example.com",
        119,
        Some(lists(&["list1"])),
        Some("1,3-5,10".to_string()),
    )));
    let result = config.get_range_selection_text(RunMode::NNTP);
    assert!(result.is_some());
    let range: Vec<usize> = parse_sequence(&result.unwrap()).unwrap().to_vec();
    assert_eq!(range, vec![1, 3, 4, 5, 10]);
}

#[test]
fn test_get_article_range_invalid() {
    let config = app(Some(nntp(
        "nntp.example.com",
        119,
        Some(lists(&["list1"])),
        Some("invalid".to_string()),
    )));
    let result = config.get_range_selection_text(RunMode::NNTP);
    assert!(result.is_some());
    assert_eq!(result.unwrap(), "invalid");
    let parsed = parse_sequence("invalid");
    assert!(parsed.is_err());
}

#[test]
fn test_get_article_range_no_nntp() {
    let config = app(None);
    let result = config.get_range_selection_text(RunMode::NNTP);
    assert!(result.is_none());
}

#[test]
fn test_config_validation_workflow() {
    let config = app(Some(nntp("", 119, None, None)));
    if let Some(ref nntp) = config.nntp {
        let result = nntp.validate();
        assert!(result.is_err());
        assert!(matches!(result.unwrap_err(), ConfigError::MissingHostname));
    }
}

#[test]
fn test_run_modes_and_mode_config() {
    let with = app(Some(nntp("h", 119, None, None)));
    assert_eq!(with.get_run_modes(), vec![RunMode::NNTP]);
    assert!(app(None).get_run_modes().is_empty());
    match with.get_run_mode_config(RunMode::NNTP) {
        Some(mlh::archiver::config::RunModeConfig::NNTP(c)) => assert_eq!(c.hostname, "h"),
        _ => panic!("expected an NNTP configuration"),
    }
    assert!(app(None).get_run_mode_config(RunMode::NNTP).is_none());
    assert!(matches!(
        app(None).get_run_mode_config(RunMode::LocalMbox),
        Some(mlh::archiver::config::RunModeConfig::LocalMbox)
    ));
}
