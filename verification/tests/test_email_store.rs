use mlh::archiver::archive_writer::WriteMode;
use std::str::FromStr;

#[test]
fn test_parsing_write_mode() {
    let cases = vec![
        ("raw", WriteMode::RawEmails),
        ("raw_email", WriteMode::RawEmails),
        ("RawEmail", WriteMode::RawEmails),
        ("parquet:1000", WriteMode::Parquet { buffer_size: 1000 }),
        ("parquet:buffer_size:1000", WriteMode::Parquet { buffer_size: 1000 }),
        ("parquet{buffer_size=1000}", WriteMode::Parquet { buffer_size: 1000 }),
        ("Parquet(buffer_size:1000)", WriteMode::Parquet { buffer_size: 1000 }),
    ];
    for (input, expected) in cases {
        assert_eq!(WriteMode::from_str(input).unwrap(), expected);
    }
}

#[test]
fn test_write_mode_errors_and_display() {
    assert_eq!(
        WriteMode::parse("parquet").unwrap_err(),
        "Parquet mode requires a buffer size (e.g., 'parquet:1000'). Received: parquet"
    );
    assert_eq!(
        WriteMode::parse("unknown_mode").unwrap_err(),
        "Unknown WriteMode: 'unknown_mode'. Valid options are 'raw' or 'parquet:SIZE'"
    );
    assert_eq!(
        WriteMode::parse("parquet:99999999999999999999999").unwrap_err(),
        "Could not parse buffer size from: parquet:99999999999999999999999"
    );
    let m = WriteMode::Parquet { buffer_size: 42 };
    assert_eq!(m.to_display_string(), "parquet:42");
    assert_eq!(WriteMode::parse(&m.to_display_string()).unwrap(), m);
    assert_eq!(WriteMode::RawEmails.to_display_string(), "raw_email");
    assert_eq!(WriteMode::default(), WriteMode::Parquet { buffer_size: 10_000 });
}
