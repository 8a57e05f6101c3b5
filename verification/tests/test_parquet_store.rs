//! The Parquet store's batching and file numbering. A batch the store
//! hands out goes to the next numbered file of its directory; the directory
//! is kept here as a list of files and their rows.
use mlh::archiver::archive_writer::parquet_email_store::{next_part_index, part_name, ParquetEmailStore};
use mlh::archiver::archive_writer::EmailData;

/// A directory of Parquet files: each file's name and its rows.
struct Dir {
    files: Vec<(String, Vec<(String, String)>)>,
}

impl Dir {
    fn new() -> Self {
        Dir { files: Vec::new() }
    }

    fn has_file(&self, name: &str) -> bool {
        self.files.iter().any(|(n, _)| n == name)
    }

    fn rows(&self, name: &str) -> Vec<(String, String)> {
        self.files.iter().find(|(n, _)| n == name).map(|(_, r)| r.clone()).unwrap_or_default()
    }

    /// Writes a batch handed out by the store to the next numbered file.
    fn write(&mut self, store: &mut ParquetEmailStore, stem: &str, batch: Option<Vec<EmailData>>) {
        if let Some(batch) = batch {
            let names: Vec<String> = self.files.iter().map(|(n, _)| n.clone()).collect();
            let name = part_name(stem, next_part_index(&names, stem).unwrap());
            let rows = batch.into_iter().map(|e| (e.email_id, e.content)).collect();
            self.files.push((name.clone(), rows));
            store.commit_file(name);
        }
    }
}

fn create_dummy_email(id: &str, line_count: usize) -> EmailData {
    let content = (0..line_count).map(|i| format!("Line {} of email {}", i, id)).collect::<Vec<_>>().join("");
    EmailData { email_id: id.to_string(), content }
}

#[test]
fn test_lazy_initialization() {
    let mut dir = Dir::new();
    let mut store = ParquetEmailStore::new("./parquet_email_store.test_lazy_initialization/lazy_test.parquet".to_string(), 10);
    assert!(!dir.has_file("lazy_test_000.parquet"), "File should not be created until data is written");
    let batch = store.add_email(create_dummy_email("email_1", 2));
    dir.write(&mut store, "lazy_test", batch);
    assert!(!dir.has_file("lazy_test_000.parquet"), "File should still not exist, buffer not full");
    let batch = store.close();
    dir.write(&mut store, "lazy_test", batch);
    assert!(dir.has_file("lazy_test_000.parquet"), "File should be created after flush");
}

#[test]
fn test_batch_flush_trigger() {
    let mut dir = Dir::new();
    let mut store = ParquetEmailStore::new("./parquet_email_store.test_batch_flush_trigger/batch_test.parquet".to_string(), 2);
    let batch = store.add_email(create_dummy_email("email_1", 1));
    assert!(batch.is_none());
    dir.write(&mut store, "batch_test", batch);
    assert!(!dir.has_file("batch_test_000.parquet"));
    let batch = store.add_email(create_dummy_email("email_2", 1));
    assert_eq!(batch.as_ref().map(|b| b.len()), Some(2));
    dir.write(&mut store, "batch_test", batch);
    assert!(dir.has_file("batch_test_000.parquet"));
    assert!(store.close().is_none());
}

#[test]
fn test_path_collision_logic() {
    let mut dir = Dir::new();
    for id in ["1", "2", "3"] {
        let mut store = ParquetEmailStore::new("./parquet_email_store.test_path_collision_logic/collision.parquet".to_string(), 1);
        let batch = store.add_email(EmailData { email_id: id.into(), content: String::new() });
        dir.write(&mut store, "collision", batch);
        let batch = store.close();
        dir.write(&mut store, "collision", batch);
    }
    assert!(dir.has_file("collision_000.parquet"));
    assert!(dir.has_file("collision_001.parquet"));
    assert!(dir.has_file("collision_002.parquet"));
}

#[test]
fn test_parquet_store_multi_file_creation() {
    let mut dir = Dir::new();
    let mut store = ParquetEmailStore::new("./test_parquet_multi_file/emails.parquet".to_string(), 3);
    for i in 0..10 {
        let batch = store.add_email(create_dummy_email(&format!("email_{}", i), 1));
        dir.write(&mut store, "emails", batch);
    }
    let batch = store.close();
    dir.write(&mut store, "emails", batch);
    for idx in 0..4 {
        assert!(dir.has_file(&format!("emails_{:03}.parquet", idx)), "Expected emails_{}.parquet to exist", idx);
    }
    assert!(!dir.has_file("emails_4.parquet"), "Should not create emails_4.parquet");
}

#[test]
fn test_parquet_store_multi_file_row_counts() {
    let mut dir = Dir::new();
    let mut store = ParquetEmailStore::new("./test_parquet_row_counts/rows.parquet".to_string(), 4);
    for i in 0..10 {
        let batch = store.add_email(create_dummy_email(&format!("email_{}", i), 1));
        dir.write(&mut store, "rows", batch);
    }
    let batch = store.close();
    dir.write(&mut store, "rows", batch);

    let f0 = dir.rows("rows_000.parquet");
    assert_eq!(f0.len(), 4, "File 0 should have 4 rows");
    assert_eq!(f0[0].0, "email_0");
    assert_eq!(f0[3].0, "email_3");

    let f1 = dir.rows("rows_001.parquet");
    assert_eq!(f1.len(), 4, "File 1 should have 4 rows");
    assert_eq!(f1[0].0, "email_4");
    assert_eq!(f1[3].0, "email_7");

    let f2 = dir.rows("rows_002.parquet");
    assert_eq!(f2.len(), 2, "File 2 should have 2 rows");
    assert_eq!(f2[0].0, "email_8");
    assert_eq!(f2[1].0, "email_9");

    assert!(!dir.has_file("rows_003.parquet"));
}

#[test]
fn test_parquet_store_content_integrity_across_files() {
    let mut dir = Dir::new();
    let mut store = ParquetEmailStore::new("./test_parquet_content_split/emails.parquet".to_string(), 2);
    for (id, lines) in [("alpha", 2), ("beta", 3), ("gamma", 1), ("delta", 2), ("epsilon", 4)] {
        let batch = store.add_email(create_dummy_email(id, lines));
        dir.write(&mut store, "emails", batch);
    }
    let batch = store.close();
    dir.write(&mut store, "emails", batch);

    let f0 = dir.rows("emails_000.parquet");
    assert_eq!(f0[0].0, "alpha");
    assert_eq!(f0[0].1, "Line 0 of email alphaLine 1 of email alpha");
    assert_eq!(f0[1].0, "beta");
    assert_eq!(f0[1].1, "Line 0 of email betaLine 1 of email betaLine 2 of email beta");

    let f1 = dir.rows("emails_001.parquet");
    assert_eq!(f1.len(), 2, "File 1 should have 2 rows");
    assert_eq!(f1[0].0, "gamma");
    assert_eq!(f1[0].1, "Line 0 of email gamma");
    assert_eq!(f1[1].0, "delta");
    assert_eq!(f1[1].1, "Line 0 of email deltaLine 1 of email delta");

    let f2 = dir.rows("emails_002.parquet");
    assert_eq!(f2.len(), 1, "File 2 should have 1 row");
    assert_eq!(f2[0].0, "epsilon");
    assert_eq!(
        f2[0].1,
        "Line 0 of email epsilonLine 1 of email epsilonLine 2 of email epsilonLine 3 of email epsilon"
    );

    assert!(!dir.has_file("emails_003.parquet"));
}

#[test]
fn test_archive_writer_empty_no_files() {
    let mut dir = Dir::new();
    let mut store = ParquetEmailStore::new("./test_aw_empty/output/empty_list".to_string(), 2);
    let batch = store.close();
    assert!(batch.is_none());
    dir.write(&mut store, "data", batch);
    assert!(!dir.has_file("data_000.parquet"));
    assert!(!dir.has_file("__progress.yaml"));
}
