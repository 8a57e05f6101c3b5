use mlh::parser::dataset::email_record;
use mlh::parser::dataset::{
    is_email_file_extension, list_items, list_paths, should_flush, BATCH_MAX_RAW_BYTES,
    BATCH_MAX_RECORDS,
};
use mlh::parser::date_parser::{
    check_date_issues, find_date_in_string, fix_millennium_date, is_date_in_future,
    is_date_too_old, parse_date_tentative_raw, process_date, Timestamp,
};
use mlh::parser::email_reader::{
    addr_to_string, clean_body_leading_headers, get_body, hdr_value_to_string, normalize_email,
    score_email_address, select_best_from_header, DecodedMail, HeaderText, MailAddress,
};
use mlh::parser::entities::{Attribution, Headers, ParsedEmail};
use mlh::parser::errors::ParseError;
use mlh::parser::extractors::{extract_attributions, extract_patches};
use mlh::parser::parser::{
    get_email_id, parse_and_process_email, post_process_parsed_mail,
    sanitize_surrogate_characters,
};

fn at(seconds: i64) -> Timestamp {
    Timestamp {
        seconds,
        nanos: 0,
        offset: 0,
        year: 2024,
        month: 12,
        day: 21,
        time_seconds: 9600,
        text: String::from("2024-12-21T02:40:00+00:00"),
    }
}

fn now() -> Timestamp {
    at(1734748800)
}

fn sample_email() -> Vec<u8> {
    [
        "From: Test User <test@example.com>\r\n",
        "To: recipient@example.com\r\n",
        "Subject: Test Email\r\n",
        "Date: Sat, 29 Mar 2025 20:07:52 +0000\r\n",
        "Message-ID: <test123@example.com>\r\n",
        "\r\n",
        "This is the body of the test email.\r\n",
    ]
    .concat()
    .into_bytes()
}

#[test]
fn email_id_from_first_message_id_line() {
    let content = "From: a@b.c\r\nMessage-ID:  <id1@example.com> \r\nMessage-ID: <id2@example.com>\r\n";
    assert_eq!(get_email_id(content).unwrap(), "<id1@example.com>");
    assert_eq!(get_email_id("message-id:<x@y>").unwrap(), "<x@y>");
    assert_eq!(get_email_id("MESSAGE-ID: <X@Y>\n").unwrap(), "<X@Y>");
    assert!(matches!(get_email_id("Subject: hello\n\nbody"), Err(ParseError::NoMessageId)));
    assert!(matches!(get_email_id(" Message-ID: <late@x>"), Err(ParseError::NoMessageId)));
}

#[test]
fn headers_map_keeps_last_value() {
    let mut h = Headers::new();
    assert!(h.get("to").is_none());
    h.insert("to".to_string(), "a".to_string());
    h.insert("cc".to_string(), "b".to_string());
    h.insert("to".to_string(), "c".to_string());
    assert_eq!(h.get("to").unwrap(), "c");
    assert_eq!(h.get_or_empty("cc"), "b");
    assert_eq!(h.get_or_empty("missing"), "");
    assert!(h.contains_key("cc"));
    assert_eq!(h.pairs().len(), 2);
}

#[test]
fn sanitizing_keeps_the_email() {
    let mut h = Headers::new();
    h.insert("subject".to_string(), "héllo \u{FFFD} wörld".to_string());
    let mut email = ParsedEmail {
        headers: h,
        raw_body: "body ✓".to_string(),
        trailers: vec![Attribution {
            attribution: "Signed-off-by".to_string(),
            identification: "A <a@b.c>".to_string(),
        }],
        code: vec!["--- a\n+++ b".to_string()],
    };
    sanitize_surrogate_characters(&mut email);
    assert_eq!(email.headers.get_or_empty("subject"), "héllo \u{FFFD} wörld");
    assert_eq!(email.raw_body, "body ✓");
    assert_eq!(email.trailers[0].identification, "A <a@b.c>");
    assert_eq!(email.code, vec!["--- a\n+++ b".to_string()]);
}

#[test]
fn post_processing_normalizes_lists() {
    let mut h = Headers::new();
    h.insert("to".to_string(), " a@x.org , b@y.org ,, ".to_string());
    h.insert("references".to_string(), "<r1@x>  <r2@x>\n\t<r3@x>".to_string());
    let mut email = ParsedEmail { headers: h, raw_body: String::new(), trailers: vec![], code: vec![] };
    post_process_parsed_mail(&mut email, &now());
    let h = &email.headers;
    assert_eq!(h.get_or_empty("to"), "a@x.org||b@y.org");
    assert_eq!(h.get_or_empty("cc"), "");
    assert_eq!(h.get_or_empty("references"), "<r1@x>||<r2@x>||<r3@x>");
    for key in ["from", "subject", "date", "message-id", "in-reply-to", "x-mailing-list", "raw_body", "client-date"] {
        assert_eq!(h.get(key).map(|s| s.as_str()), Some(""), "{}", key);
    }
}

#[test]
fn dates_are_read_in_several_formats() {
    let d = parse_date_tentative_raw("Sat, 29 Mar 2025 20:07:52 +0000").unwrap();
    assert_eq!(d.seconds, 1743278872);
    assert_eq!(d.offset, 0);
    assert_eq!(d.year, 2025);
    assert_eq!(d.text, "2025-03-29T20:07:52+00:00");
    let d = parse_date_tentative_raw("Date was Fri, 15 Jun 2012 16:52:52 +0200 (CEST) or so").unwrap();
    assert_eq!(d.seconds, 1339779172 - 7200);
    assert_eq!(d.offset, 7200);
    assert_eq!(d.text, "2012-06-15T16:52:52+02:00");
    assert!(parse_date_tentative_raw("").is_none());
    assert!(parse_date_tentative_raw("no date here").is_none());
    assert_eq!(
        find_date_in_string("by host; Fri, 15 Jun 2012 16:52:52 -0700").unwrap(),
        "Fri, 15 Jun 2012 16:52:52 -0700"
    );
}

#[test]
fn date_judgements() {
    let n = now();
    let old = Timestamp { year: 1899, ..at(-2208988800 - 1) };
    assert!(is_date_too_old(&old));
    assert!(check_date_issues(&old, &n));
    assert!(!is_date_too_old(&n));
    assert!(!is_date_in_future(&at(1734748800 + 259200), &n));
    assert!(is_date_in_future(&Timestamp { nanos: 1, ..at(1734748800 + 259200) }, &n));
    assert!(!check_date_issues(&at(1734748800 - 10), &n));
}

#[test]
fn millennium_dates_move_forward() {
    let n = now();
    let d = Timestamp {
        seconds: -59011566743,
        nanos: 0,
        offset: 0,
        year: 100,
        month: 1,
        day: 3,
        time_seconds: 66457,
        text: "0100-01-03T18:27:37+00:00".to_string(),
    };
    let fixed = fix_millennium_date(d, &n);
    assert_eq!(fixed.year, 2000);
    assert_eq!(fixed.text, "2000-01-03T18:27:37+00:00");
    let late = Timestamp { year: 200, ..at(0) };
    assert_eq!(fix_millennium_date(late, &n).year, 200);
    let recent = fix_millennium_date(at(1000), &n);
    assert_eq!(recent.seconds, 1000);
}

#[test]
fn process_date_prefers_believable_header() {
    let mut h = Headers::new();
    h.insert("date".to_string(), "  Fri, 15 Jun 2012 16:52:52 +0000 ".to_string());
    process_date(&mut h, &now());
    assert_eq!(h.get_or_empty("date"), "2012-06-15T16:52:52+00:00");
    assert_eq!(h.get_or_empty("client-date"), "  Fri, 15 Jun 2012 16:52:52 +0000 ");

    let mut h = Headers::new();
    h.insert("date".to_string(), "Sat, 29 Mar 2025 20:07:52 +0000".to_string());
    h.insert("received".to_string(), "from x by y; Tue, 17 Dec 2024 10:00:00 +0000".to_string());
    process_date(&mut h, &now());
    assert_eq!(h.get_or_empty("date"), "2024-12-17T10:00:00+00:00");

    let mut h = Headers::new();
    h.insert("date".to_string(), "Sat, 29 Mar 2025 20:07:52 +0000".to_string());
    process_date(&mut h, &now());
    assert_eq!(h.get_or_empty("date"), "");
    assert_eq!(h.get_or_empty("client-date"), "Sat, 29 Mar 2025 20:07:52 +0000");

    let mut h = Headers::new();
    process_date(&mut h, &now());
    assert_eq!(h.get_or_empty("date"), "");
    assert_eq!(h.get_or_empty("client-date"), "");
}

#[test]
fn trailers_are_extracted() {
    let msg = "Fix it.\n\nSigned-off-by: Jane Doe <jane@example.com>\nReviewed-by: John\n<john@example.com>\nAcked-by: Max <max@example.org>\n-- \nSigned-off-by: Sig <sig@example.com>\n";
    let t = extract_attributions(msg);
    assert_eq!(t.len(), 3);
    assert_eq!(t[0].attribution, "Signed-off-by");
    assert_eq!(t[0].identification, "Jane Doe <jane@example.com>");
    assert_eq!(t[1].attribution, "Reviewed-by");
    assert_eq!(t[1].identification, "John <john@example.com>");
    assert_eq!(t[2].identification, "Max <max@example.org>");
    assert!(extract_attributions("no trailers").is_empty());
}

#[test]
fn patches_are_extracted() {
    let body = "Intro\n---\n a.c | 2 +-\n--\n2.40.0\n";
    let p = extract_patches(body);
    assert_eq!(p, vec!["---\n a.c | 2 +-\n--\n2.40.0".to_string()]);
    assert!(extract_patches("just text\n").is_empty());
}

#[test]
fn sender_addresses() {
    assert_eq!(normalize_email("Jane Doe <jane (a) example.com>"), "Jane Doe <jane@example.com>");
    assert_eq!(normalize_email("jane at example.com"), "jane@example.com");
    assert_eq!(normalize_email("Jane <jane@example.com>"), "Jane <jane@example.com>");
    assert_eq!(score_email_address("Jane <jane@example.com>"), (true, true, None));
    assert_eq!(score_email_address("jane (a) example.com"), (false, false, Some("(a)")));
    assert_eq!(score_email_address("Jane jane at example.com"), (true, false, Some(" at ")));
    assert_eq!(score_email_address("nothing"), (false, false, None));
    let best = select_best_from_header(&vec![
        "jane at example.com".to_string(),
        "Jane Doe <jane@example.com>".to_string(),
        "Other <o@example.com>".to_string(),
    ]);
    assert_eq!(best, "Jane Doe <jane@example.com>");
    assert_eq!(select_best_from_header(&vec![]), "");
    assert_eq!(select_best_from_header(&vec!["x at example.com".to_string()]), "x@example.com");
}

#[test]
fn header_values_as_text() {
    let a = MailAddress { name: Some("Jane".to_string()), address: Some("j@x.org".to_string()) };
    assert_eq!(addr_to_string(&a), "Jane <j@x.org>");
    assert_eq!(addr_to_string(&MailAddress { name: None, address: Some("j@x.org".to_string()) }), "j@x.org");
    assert_eq!(addr_to_string(&MailAddress { name: Some("Jane".to_string()), address: None }), "Jane");
    assert_eq!(hdr_value_to_string(&HeaderText::TextList(vec!["a".to_string(), "b".to_string()])), "a, b");
    assert_eq!(hdr_value_to_string(&HeaderText::Address(vec![])), "");
    let ct = HeaderText::ContentType(
        "text".to_string(),
        Some("plain".to_string()),
        Some(vec![("charset".to_string(), "utf-8".to_string())]),
    );
    assert_eq!(hdr_value_to_string(&ct), "text/plain; charset=utf-8");
}

#[test]
fn bodies_lose_leading_headers() {
    assert_eq!(clean_body_leading_headers("From: a@b.c\nSubject: x\n\n\nHello\nWorld"), "Hello\nWorld");
    assert_eq!(clean_body_leading_headers("Hello\nFrom: a@b.c"), "Hello\nFrom: a@b.c");
    assert_eq!(clean_body_leading_headers(""), "");
    let m = DecodedMail {
        headers: vec![],
        from: vec![],
        text_bodies: vec!["".to_string(), "line1\r\nline2".to_string()],
        html_bodies: vec!["<p>x</p>".to_string()],
    };
    assert_eq!(get_body(&m), "line1\nline2");
    let m = DecodedMail { headers: vec![], from: vec![], text_bodies: vec![], html_bodies: vec!["<p>x</p>".to_string()] };
    assert_eq!(get_body(&m), "<p>x</p>");
}

#[test]
fn raw_email_is_parsed() {
    let raw = sample_email();
    let e = parse_and_process_email(&raw, &now()).unwrap();
    assert_eq!(e.headers.get_or_empty("from"), "Test User <test@example.com>");
    assert_eq!(e.headers.get_or_empty("to"), "recipient@example.com");
    assert_eq!(e.headers.get_or_empty("subject"), "Test Email");
    assert_eq!(e.raw_body, "This is the body of the test email.\n");
    assert!(e.trailers.is_empty());
    assert!(e.code.is_empty());
    assert!(e.headers.contains_key("client-date"));
    assert!(e.headers.contains_key("date"));
}

#[test]
fn batches_and_paths() {
    assert!(should_flush(BATCH_MAX_RECORDS, 0, BATCH_MAX_RECORDS, BATCH_MAX_RAW_BYTES));
    assert!(should_flush(1, 400 * 1024 * 1024, BATCH_MAX_RECORDS, BATCH_MAX_RAW_BYTES));
    assert!(!should_flush(1, 10, BATCH_MAX_RECORDS, BATCH_MAX_RAW_BYTES));
    assert!(is_email_file_extension("EML"));
    assert!(is_email_file_extension("parquet"));
    assert!(!is_email_file_extension("txt"));
    assert_eq!(list_items("a||b||||c"), vec!["a".to_string(), "b".to_string(), "c".to_string()]);
    assert!(list_items("").is_empty());
    assert_eq!(list_items("x|y"), vec!["x|y".to_string()]);
    let p = list_paths("in", "out", "netdev");
    assert_eq!(p.list_input, "in/netdev");
    assert_eq!(p.list_output, "out/netdev");
    assert_eq!(p.parquet_dir, "out/parsed");
    assert_eq!(p.success_output, "out/parsed/list=netdev");
    assert_eq!(p.parquet_path, "out/parsed/list=netdev/list_data.parquet");
    assert_eq!(p.error_output, "out/netdev/errors");
}

#[test]
fn records_split_list_fields() {
    let mut h = Headers::new();
    h.insert("from".to_string(), "A <a@x.org>".to_string());
    h.insert("to".to_string(), "b@x.org||c@x.org".to_string());
    h.insert("date".to_string(), "2012-06-15T16:52:52+00:00".to_string());
    h.insert("client-date".to_string(), "Fri, 15 Jun 2012 16:52:52 +0000".to_string());
    let email = ParsedEmail { headers: h, raw_body: "body".to_string(), trailers: vec![], code: vec!["p".to_string()] };
    let r = email_record(&email, "0001.eml");
    assert_eq!(r.from, "A <a@x.org>");
    assert_eq!(r.to, vec!["b@x.org".to_string(), "c@x.org".to_string()]);
    assert!(r.cc.is_empty());
    assert_eq!(r.date_micros, Some(1339779172000000));
    assert_eq!(r.client_date, vec!["Fri, 15 Jun 2012 16:52:52 +0000".to_string()]);
    assert_eq!(r.subject, "");
    assert_eq!(r.code, vec!["p".to_string()]);
    assert_eq!(r.file_name, "0001.eml");
}

#[test]
fn post_processed_dates_read_back() {
    let mut h = Headers::new();
    h.insert("date".to_string(), "Fri, 20 Dec 2024 10:00:00 +0100".to_string());
    let mut email = ParsedEmail { headers: h, raw_body: String::new(), trailers: vec![], code: vec![] };
    post_process_parsed_mail(&mut email, &now());
    let date = email.headers.get_or_empty("date");
    assert_eq!(date, "2024-12-20T10:00:00+01:00");
    assert!(chrono::DateTime::parse_from_rfc3339(&date).is_ok());
    assert_eq!(email.headers.get_or_empty("client-date"), "Fri, 20 Dec 2024 10:00:00 +0100");
}

#[test]
fn address_fields_lose_their_commas() {
    let mut h = Headers::new();
    h.insert("to".to_string(), "b@example.com, c@example.com".to_string());
    h.insert("cc".to_string(), "d@example.com,e@example.com,".to_string());
    let mut email = ParsedEmail { headers: h, raw_body: String::new(), trailers: vec![], code: vec![] };
    post_process_parsed_mail(&mut email, &now());
    assert_eq!(email.headers.get_or_empty("to"), "b@example.com||c@example.com");
    assert_eq!(email.headers.get_or_empty("cc"), "d@example.com||e@example.com");
}
