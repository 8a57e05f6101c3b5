use mlh::archiver::archive_writer::{ArchiveWriter, ErrorLogger, ProgressTracker, RawEmailStore};
use mlh::archiver::archive_writer::progress::try_read_number;

#[test]
fn test_progress_paths_and_document() {
    let tracker = ProgressTracker::new("./output", "test.list");
    assert_eq!(tracker.output_path(), "./output/test.list/__progress.yaml");
    assert_eq!(tracker.update(42), "last_email: 42\n");
    assert_eq!(try_read_number(&tracker.update(42)), Some(42));
    assert_eq!(tracker.last_processed_id(Some(7), Some("junk")), (7, false));
    assert_eq!(tracker.last_processed_id(None, Some("  9 ")), (9, false));
    assert_eq!(tracker.last_processed_id(None, Some("nothing here")), (0, true));
    assert_eq!(tracker.last_processed_id(None, None), (0, true));
    let slash = ProgressTracker::new("./output/", "l");
    assert_eq!(slash.output_path(), "./output/l/__progress.yaml");
}

#[test]
fn test_error_logger_line() {
    let logger = ErrorLogger::new("./output", "test.list");
    assert_eq!(logger.output_path(), "./output/test.list/__errors.csv");
    assert_eq!(logger.log("42", "email not available"), "42,email not available");
}

#[test]
fn test_raw_store_and_writer() {
    let store = RawEmailStore::new("./output/test.list".to_string());
    assert_eq!(store.file_path("42"), "./output/test.list/42.eml");
    let writer = ArchiveWriter::new("./output", "test.list");
    let file = writer.write_email(42, &["From: user@example.com\r\n".to_string(), "body".to_string()]);
    assert_eq!(file.path, "./output/test.list/42.eml");
    assert_eq!(file.content, "From: user@example.com\r\nbody");
    assert_eq!(writer.update_progress(3), "last_email: 3\n");
    assert_eq!(writer.log_error(43, "email not available"), "43,email not available");
    assert_eq!(writer.progress_path(), "./output/test.list/__progress.yaml");
    assert_eq!(writer.error_log_path(), "./output/test.list/__errors.csv");
}
