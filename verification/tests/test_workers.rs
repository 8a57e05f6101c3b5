use mlh::archiver::archive_writer::WriteMode;
use mlh::archiver::errors::ConfigError;
use mlh::archiver::nntp_source::nntp_worker::{next_worker_step, WorkerAction, WorkerEvent, WorkerState};
use mlh::archiver::public_inbox_source::pi_config::{check_import_dir, PIConfig};
use mlh::archiver::archive_writer::parquet_email_store::{next_part_index, part_index, part_name, ParquetEmailStore};
use mlh::archiver::archive_writer::EmailData;
use mlh::archiver::archive_writer::progress::try_read_number;
use mlh::archiver::archive_writer::ProgressTracker;
use mlh::archiver::nntp_source::nntp_worker::{
    plan_group_read, retry_delay_ms, NNTPWorkerGroupResult, ARTICLE_READ_RETRIES,
};
use mlh::archiver::public_inbox_source::pi_utils::{format_email_id, parse_email_id, EpochRepo};
use mlh::archiver::public_inbox_source::pi_worker::{
    epochs_or_whole, filter_epochs, is_position_selected, EpochScan,
};
use mlh::archiver::range_inputs::parse_sequence;
use mlh::archiver::scheduler::{index_task, parse_index_task, several_lists_in_range_mode};

fn epoch(name: &str) -> EpochRepo {
    EpochRepo { epoch_name: name.to_string(), git_dir: format!("/inbox/git/{}.git", name) }
}

#[test]
fn range_tasks_round_trip() {
    let t = index_task("org.kernel.vger.netdev", 42);
    assert_eq!(t, "org.kernel.vger.netdev_##42");
    assert_eq!(parse_index_task(&t), Some(("org.kernel.vger.netdev".to_string(), 42)));
    assert_eq!(parse_index_task("no separator"), None);
    assert_eq!(parse_index_task("list_##x"), None);
    assert!(several_lists_in_range_mode(&vec!["a".to_string(), "b".to_string()]));
    assert!(!several_lists_in_range_mode(&vec!["a".to_string()]));
}

#[test]
fn group_reads_are_planned() {
    assert_eq!(plan_group_read(0, 1, 10), Some((1, 10)));
    assert_eq!(plan_group_read(5, 1, 10), Some((6, 10)));
    assert_eq!(plan_group_read(9, 1, 10), Some((10, 10)));
    assert_eq!(plan_group_read(2, 7, 10), Some((7, 10)));
    assert_eq!(plan_group_read(10, 1, 10), None);
    assert_eq!(plan_group_read(12, 1, 10), None);
    assert_eq!(retry_delay_ms(1, ARTICLE_READ_RETRIES), Some(1200));
    assert_eq!(retry_delay_ms(3, ARTICLE_READ_RETRIES), Some(2400));
    assert_eq!(retry_delay_ms(4, ARTICLE_READ_RETRIES), None);
}

#[test]
fn epochs_are_chosen_for_resuming() {
    let whole = epochs_or_whole(vec![], "/inbox/all.git", "all");
    assert_eq!(whole.len(), 1);
    assert_eq!(whole[0].epoch_name, "all");
    assert_eq!(whole[0].git_dir, "/inbox/all.git");
    let kept = filter_epochs(vec![epoch("0"), epoch("1"), epoch("2")], "1");
    let names: Vec<String> = kept.iter().map(|e| e.epoch_name.clone()).collect();
    assert_eq!(names, vec!["1".to_string(), "2".to_string()]);
    let all = filter_epochs(vec![epoch("all")], "all");
    assert_eq!(all.len(), 1);
    assert!(filter_epochs(vec![epoch("0")], "all").is_empty());
}

#[test]
fn positions_follow_the_selection() {
    let sel = parse_sequence("1,3-5").unwrap();
    assert!(is_position_selected(&sel, 0));
    assert!(!is_position_selected(&sel, 1));
    assert!(is_position_selected(&sel, 2));
    assert!(is_position_selected(&sel, 4));
    assert!(!is_position_selected(&sel, 5));
    let zero = parse_sequence("0").unwrap();
    assert!(is_position_selected(&zero, 0));
}

#[test]
fn epoch_scans_count_commits() {
    let mut scan = EpochScan::new(10);
    assert_eq!(scan.next_email_num, 11);
    assert_eq!(scan.position(10), 10);
    scan.record(true);
    scan.record(false);
    assert_eq!(scan.commit_count, 2);
    assert_eq!(scan.emails_processed, 1);
    assert_eq!(scan.next_email_num, 13);
    assert_eq!(scan.position(10), 12);
}

#[test]
fn progress_documents_read_back() {
    let tracker = ProgressTracker::new("out", "list");
    for id in [0usize, 7, 123456] {
        let doc = tracker.update(id);
        assert_eq!(try_read_number(&doc), Some(id));
    }
}

#[test]
fn email_ids_read_back() {
    let id = format_email_id(17, "3", "0123456789abcdef");
    assert_eq!(id, "0000000017-e3-0123456");
    let p = parse_email_id(&id).unwrap();
    assert_eq!(p.email_num, 17);
    assert_eq!(p.epoch_name, "3");
    assert_eq!(p.short_sha, "0123456");
}

#[test]
fn parquet_files_are_numbered() {
    assert_eq!(part_name("data", 0), "data_000.parquet");
    assert_eq!(part_name("data", 12), "data_012.parquet");
    assert_eq!(part_name("emails", 1234), "emails_1234.parquet");
    assert_eq!(part_index("data_007.parquet", "data"), Some(7));
    assert_eq!(part_index("data_x.parquet", "data"), None);
    assert_eq!(part_index("other_001.parquet", "data"), None);
    assert_eq!(part_index("data_001.csv", "data"), None);
    let names = vec!["data_000.parquet".to_string(), "data_004.parquet".to_string(), "notes.txt".to_string()];
    assert_eq!(next_part_index(&names, "data"), Some(5));
    assert_eq!(next_part_index(&vec![], "data"), Some(0));
    let mut store = ParquetEmailStore::new("out/list".to_string(), 2);
    let mail = |id: &str| EmailData { email_id: id.to_string(), content: "x".to_string() };
    assert!(store.add_email(mail("1")).is_none());
    let batch = store.add_email(mail("2")).unwrap();
    let ids: Vec<String> = batch.iter().map(|e| e.email_id.clone()).collect();
    assert_eq!(ids, vec!["1".to_string(), "2".to_string()]);
    assert!(store.add_email(mail("3")).is_none());
    assert_eq!(store.close().unwrap().len(), 1);
    assert!(store.close().is_none());
}

#[test]
fn stores_and_workers_keep_what_they_were_given() {
    let mut store = ParquetEmailStore::new("out/list/emails.parquet".to_string(), 2);
    assert_eq!(store.output_path(), "out/list/emails.parquet");
    let _ = store.add_email(EmailData { email_id: "1".to_string(), content: "a".to_string() });
    store.commit_file("emails_0001.parquet".to_string());
    assert_eq!(store.output_path(), "out/list/emails.parquet");

    let config = PIConfig {
        import_directory: "/srv/inboxes".to_string(),
        origin: "lore".to_string(),
        public_inbox_config: None,
        email_range: Some("1-5".to_string()),
    };
    let flag = std::sync::Arc::new(std::sync::atomic::AtomicBool::new(false));
    let worker = mlh::archiver::public_inbox_source::pi_worker::PIWorker::new(3, config, "out".to_string(), flag.clone());
    assert_eq!(worker.pi_config().import_directory, "/srv/inboxes");
    assert_eq!(worker.pi_config().email_range.as_deref(), Some("1-5"));
    assert!(std::sync::Arc::ptr_eq(worker.shutdown_flag(), &flag));
}

#[test]
fn parquet_batches_keep_contents_in_order() {
    let mut store = ParquetEmailStore::new("out/list".to_string(), 3);
    let mail = |id: &str, body: &str| EmailData { email_id: id.to_string(), content: body.to_string() };
    assert!(store.add_email(mail("a", "first body")).is_none());
    assert!(store.add_email(mail("b", "second body")).is_none());
    let batch = store.add_email(mail("c", "third body")).unwrap();
    let pairs: Vec<(&str, &str)> = batch.iter().map(|e| (e.email_id.as_str(), e.content.as_str())).collect();
    assert_eq!(pairs, vec![("a", "first body"), ("b", "second body"), ("c", "third body")]);
    assert!(store.add_email(mail("d", "fourth body")).is_none());
    let rest = store.close().unwrap();
    assert_eq!((rest[0].email_id.as_str(), rest[0].content.as_str()), ("d", "fourth body"));
}

#[test]
fn worker_steps_follow_the_shutdown_checks() {
    let fresh = WorkerState { needs_reconnection: false };
    let broken = WorkerState { needs_reconnection: true };
    assert_eq!(next_worker_step(fresh, WorkerEvent::RoundStart { shutdown: true }), (fresh, WorkerAction::Exit));
    assert_eq!(next_worker_step(broken, WorkerEvent::RoundStart { shutdown: true }), (broken, WorkerAction::Exit));
    assert_eq!(next_worker_step(fresh, WorkerEvent::RoundStart { shutdown: false }), (fresh, WorkerAction::Receive));
    assert_eq!(
        next_worker_step(broken, WorkerEvent::RoundStart { shutdown: false }),
        (broken, WorkerAction::WaitThenReconnect { secs: 60 })
    );
    assert_eq!(next_worker_step(broken, WorkerEvent::WaitInterrupted), (broken, WorkerAction::Exit));
    assert_eq!(next_worker_step(broken, WorkerEvent::Reconnected { ok: true }), (fresh, WorkerAction::Receive));
    assert_eq!(next_worker_step(broken, WorkerEvent::Reconnected { ok: false }), (broken, WorkerAction::ExitWithError));
    assert_eq!(next_worker_step(fresh, WorkerEvent::Received(None)), (fresh, WorkerAction::Exit));
    assert_eq!(
        next_worker_step(fresh, WorkerEvent::Received(Some("comp.lang".to_string()))),
        (fresh, WorkerAction::HandleGroup("comp.lang".to_string()))
    );
    assert_eq!(next_worker_step(fresh, WorkerEvent::GroupDone), (fresh, WorkerAction::Pause { secs: 1 }));
    assert_eq!(
        next_worker_step(fresh, WorkerEvent::GroupFailed { network: true }),
        (broken, WorkerAction::WaitAfterError { secs: 10 })
    );
    assert_eq!(next_worker_step(fresh, WorkerEvent::GroupFailed { network: false }), (broken, WorkerAction::QuitConnection));
    assert_eq!(next_worker_step(broken, WorkerEvent::ErrorWaitOver), (broken, WorkerAction::QuitConnection));
    assert_eq!(next_worker_step(broken, WorkerEvent::QuitDone { ok: true }), (broken, WorkerAction::Pause { secs: 1 }));
    assert_eq!(next_worker_step(broken, WorkerEvent::QuitDone { ok: false }), (broken, WorkerAction::Pause { secs: 6 }));
}

#[test]
fn import_directory_answers() {
    assert!(matches!(check_import_dir("/srv/x", "lore", false, false), Err(ConfigError::Io(_))));
    assert!(matches!(check_import_dir("/srv/x", "lore", true, false), Err(ConfigError::Io(_))));
    assert!(matches!(check_import_dir("/srv/x", "", true, true), Err(ConfigError::MissingHostname)));
    assert!(check_import_dir("/srv/x", "lore", true, true).is_ok());
    let empty = PIConfig { import_directory: String::new(), origin: "lore".to_string(), public_inbox_config: None, email_range: None };
    assert!(matches!(empty.validate(), Err(ConfigError::MissingHostname)));
    let here = PIConfig { import_directory: ".".to_string(), origin: String::new(), public_inbox_config: None, email_range: None };
    assert!(matches!(here.validate(), Err(ConfigError::MissingHostname)));
    let missing = PIConfig {
        import_directory: "/no/such/import/directory".to_string(),
        origin: "lore".to_string(),
        public_inbox_config: None,
        email_range: None,
    };
    assert!(matches!(missing.validate(), Err(ConfigError::Io(_))));
}

#[test]
fn write_modes_read_back_their_text() {
    for m in [WriteMode::RawEmails, WriteMode::Parquet { buffer_size: 0 }, WriteMode::Parquet { buffer_size: 10_000 }] {
        assert_eq!(WriteMode::parse(&m.to_display_string()).unwrap(), m);
    }
}

#[test]
fn group_results_are_described() {
    let collected = NNTPWorkerGroupResult::Collected("comp.lang.rust".to_string(), 12);
    assert_eq!(collected.describe(), "Collected 12 new e-mails from \"comp.lang.rust\"");
    let odd = NNTPWorkerGroupResult::NoNews("a\"b\\c\n".to_string());
    assert_eq!(odd.describe(), format!("No New e-mails from {:?}", "a\"b\\c\n"));
    assert_eq!(odd.describe(), "No New e-mails from \"a\\\"b\\\\c\\n\"");
    assert_eq!(retry_delay_ms(1_000_000, 2_000_000), Some(600_000_600));
}
