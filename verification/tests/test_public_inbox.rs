use mlh::archiver::public_inbox_source::pi_layout::{
    alternate_object_dirs, alternate_paths, classify_inbox, epoch_dir_name, epoch_is_after,
    packed_refs_have_master, sort_epochs, sort_inboxes, InboxProbe,
};
use mlh::archiver::public_inbox_source::pi_lister::valid_inbox_names;
use mlh::archiver::public_inbox_source::pi_utils::{format_email_id, parse_email_id, EpochRepo, PublicInbox};
use mlh::archiver::public_inbox_source::pi_worker::locate_email;

#[test]
fn test_format_and_parse_email_id() {
    let id = format_email_id(1, "1", "d3ed66e0123456789");
    assert_eq!(id, "0000000001-e1-d3ed66e");
    let parsed = parse_email_id(&id).unwrap();
    assert_eq!(parsed.email_num, 1);
    assert_eq!(parsed.epoch_name, "1");
    assert_eq!(parsed.short_sha, "d3ed66e");
    assert_eq!(format_email_id(12345678901, "all", "abc"), "12345678901-eall-abc");
    assert!(parse_email_id("0001-x1-abc").is_none());
    assert!(parse_email_id("no-dashes").is_none());
    assert!(parse_email_id("abc-e1-def").is_none());
}

#[test]
fn test_valid_inbox_names() {
    let inbox = |n: &str, v: &str| PublicInbox {
        name: n.to_string(),
        version: v.to_string(),
        git_dir: format!("/x/{}", n),
    };
    let found = vec![inbox("a", "V2"), inbox("b", "V2 (incomplete)"), inbox("c", "V1 (empty)")];
    assert_eq!(valid_inbox_names(&found), vec!["a".to_string(), "c".to_string()]);
}

#[test]
fn test_locate_email() {
    let counts = vec![3, 0, 2];
    assert_eq!(locate_email(0, &counts), None);
    assert_eq!(locate_email(1, &counts), Some((0, 0)));
    assert_eq!(locate_email(3, &counts), Some((0, 2)));
    assert_eq!(locate_email(4, &counts), Some((2, 0)));
    assert_eq!(locate_email(5, &counts), Some((2, 1)));
    assert_eq!(locate_email(6, &counts), None);
}

fn epoch(name: &str) -> EpochRepo {
    EpochRepo { epoch_name: name.to_string(), git_dir: format!("/inbox/git/{}.git", name) }
}

#[test]
fn test_sort_epochs_numeric_then_all() {
    let sorted = sort_epochs(vec![epoch("all"), epoch("10"), epoch("2"), epoch("0"), epoch("1")]);
    let names: Vec<&str> = sorted.iter().map(|e| e.epoch_name.as_str()).collect();
    assert_eq!(names, vec!["0", "1", "2", "10", "all"]);
    assert_eq!(sorted[3].git_dir, "/inbox/git/10.git");
    assert!(sort_epochs(vec![]).is_empty());
}

#[test]
fn test_sort_epochs_by_name_when_not_numbered() {
    let sorted = sort_epochs(vec![epoch("b"), epoch("all"), epoch("a"), epoch("ab")]);
    let names: Vec<&str> = sorted.iter().map(|e| e.epoch_name.as_str()).collect();
    assert_eq!(names, vec!["a", "ab", "b", "all"]);
}

#[test]
fn test_epoch_is_after() {
    assert!(epoch_is_after("all", "3"));
    assert!(!epoch_is_after("3", "all"));
    assert!(epoch_is_after("10", "9"));
    assert!(!epoch_is_after("9", "10"));
    assert!(!epoch_is_after("all", "all"));
    assert!(epoch_is_after("b", "a"));
}

#[test]
fn test_epoch_dir_name() {
    assert_eq!(epoch_dir_name("0.git"), Some("0".to_string()));
    assert_eq!(epoch_dir_name("all.git"), Some("all".to_string()));
    assert_eq!(epoch_dir_name("notes"), None);
    assert_eq!(epoch_dir_name(".git"), Some(String::new()));
}

#[test]
fn test_packed_refs_have_master() {
    assert!(packed_refs_have_master("# pack-refs with: peeled\nabc123 refs/heads/master\n"));
    assert!(packed_refs_have_master("  abc123 refs/heads/master  \r\n"));
    assert!(!packed_refs_have_master("# abc123 refs/heads/master\n"));
    assert!(!packed_refs_have_master("abc123 refs/heads/main\n"));
    assert!(!packed_refs_have_master(""));
}

#[test]
fn test_alternates_lines() {
    let content = " /srv/a/git/0.git/objects \n\n/srv/b/other\n";
    assert_eq!(alternate_paths(content), vec!["/srv/a/git/0.git/objects".to_string(), "/srv/b/other".to_string()]);
    assert_eq!(alternate_object_dirs(content), vec!["/srv/a/git/0.git/objects".to_string()]);
}

fn probe() -> InboxProbe {
    InboxProbe {
        has_git_dir: false,
        has_valid_epoch: false,
        all_git_is_repo: false,
        all_git_has_alternates: false,
        alternate_repo: None,
        all_git_has_objects: false,
        all_git_has_master: false,
        dir_is_repo_with_master: false,
    }
}

#[test]
fn test_classify_inbox_layouts() {
    assert!(classify_inbox("x", "/in/x", &probe()).is_none());

    let v2 = classify_inbox("x", "/in/x", &InboxProbe { has_git_dir: true, has_valid_epoch: true, ..probe() }).unwrap();
    assert_eq!((v2.name.as_str(), v2.version.as_str(), v2.git_dir.as_str()), ("x", "V2", "/in/x/git"));

    let alt = InboxProbe {
        has_git_dir: true,
        all_git_is_repo: true,
        all_git_has_alternates: true,
        alternate_repo: Some("/srv/a/git/0.git".to_string()),
        ..probe()
    };
    let found = classify_inbox("x", "/in/x", &alt).unwrap();
    assert_eq!((found.version.as_str(), found.git_dir.as_str()), ("V2 (alternates)", "/srv/a/git/0.git"));

    let incomplete = InboxProbe { alternate_repo: None, ..alt.clone() };
    assert_eq!(classify_inbox("x", "/in/x", &incomplete).unwrap().version, "V2 (incomplete)");
    let combined = InboxProbe { all_git_has_objects: true, all_git_has_master: true, ..incomplete.clone() };
    let found = classify_inbox("x", "/in/x", &combined).unwrap();
    assert_eq!((found.version.as_str(), found.git_dir.as_str()), ("V2 (combined)", "/in/x/all.git"));

    let v1 = InboxProbe { all_git_is_repo: true, all_git_has_master: true, ..probe() };
    assert_eq!(classify_inbox("x", "/in/x", &v1).unwrap().version, "V1");
    let bare = InboxProbe { dir_is_repo_with_master: true, ..probe() };
    let found = classify_inbox("x", "/in/x", &bare).unwrap();
    assert_eq!((found.version.as_str(), found.git_dir.as_str()), ("V1 (bare)", "/in/x"));
    let empty = InboxProbe { all_git_is_repo: true, ..probe() };
    assert_eq!(classify_inbox("x", "/in/x", &empty).unwrap().version, "V1 (empty)");
    let git_only = InboxProbe { has_git_dir: true, ..probe() };
    assert!(classify_inbox("x", "/in/x", &git_only).is_none());
}

#[test]
fn test_sort_inboxes_by_name() {
    let inbox = |name: &str, version: &str| PublicInbox {
        name: name.to_string(),
        version: version.to_string(),
        git_dir: format!("/in/{}", name),
    };
    let sorted = sort_inboxes(vec![inbox("lkml", "V2"), inbox("git", "V1"), inbox("Zeta", "V1"), inbox("git", "V2")]);
    let names: Vec<(&str, &str)> = sorted.iter().map(|i| (i.name.as_str(), i.version.as_str())).collect();
    assert_eq!(names, vec![("Zeta", "V1"), ("git", "V1"), ("git", "V2"), ("lkml", "V2")]);
}
