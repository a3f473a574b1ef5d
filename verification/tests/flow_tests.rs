use pipeline::batch::{chunk_entries, passes_filter, process_shard};
use pipeline::commoncrawl::{parse_cdx_line, CdxEntry, CdxMetadata};
use pipeline::fetch::{decode_range_response, range_last_byte, FetchError};
use pipeline::warc::{parse_warc_records, WarcError};
use pipeline::worker::{find_blank_line, plan_batch_fetches, plan_extractions, should_acknowledge};

fn entry(surt: &str, status: usize, languages: Option<&str>) -> CdxEntry {
    CdxEntry {
        surt_url: surt.to_string(),
        timestamp: "20240722120756".to_string(),
        metadata: CdxMetadata {
            url: format!("https://{surt}"),
            status,
            length: 10,
            offset: 20,
            filename: "x.warc.gz".to_string(),
            languages: languages.map(|l| l.to_string()),
        },
    }
}

fn assert_entries_eq(a: &CdxEntry, b: &CdxEntry) {
    assert_eq!(a.surt_url, b.surt_url);
    assert_eq!(a.timestamp, b.timestamp);
    assert_eq!(a.metadata.url, b.metadata.url);
    assert_eq!(a.metadata.status, b.metadata.status);
    assert_eq!(a.metadata.length, b.metadata.length);
    assert_eq!(a.metadata.offset, b.metadata.offset);
    assert_eq!(a.metadata.filename, b.metadata.filename);
    assert_eq!(a.metadata.languages, b.metadata.languages);
}

#[test]
fn filter_keeps_english_success_only() {
    assert!(passes_filter(&entry("a", 200, Some("ind,eng"))));
    assert!(passes_filter(&entry("a", 200, Some("sheng"))));
    assert!(!passes_filter(&entry("a", 301, Some("eng"))));
    assert!(!passes_filter(&entry("a", 200, Some("deu"))));
    assert!(!passes_filter(&entry("a", 200, None)));
}

#[test]
fn sample_cdx_fixture_filters_to_one_entry() {
    let content = r#"0,100,22,165)/ 20240722120756 {"url": "http://165.22.100.0/", "status": "301", "length": "689", "offset": "3499", "filename": "a.warc.gz"}
0,100,22,165)/robots.txt 20240722120755 {"url": "http://165.22.100.0/robots.txt", "status": "301", "length": "700", "offset": "4656", "filename": "b.warc.gz"}
0,100,59,139)/ 20240723213521 {"url": "https://139.59.100.0/", "status": "200", "length": "16650", "offset": "64016172", "filename": "c.warc.gz", "languages": "ind,eng"}"#;
    let parsed: Vec<CdxEntry> = content.lines().map(|l| parse_cdx_line(l).unwrap()).collect();
    assert_eq!(parsed.len(), 3);
    let kept: Vec<&CdxEntry> = parsed.iter().filter(|e| passes_filter(e)).collect();
    assert_eq!(kept.len(), 1);
    assert_eq!(kept[0].metadata.languages.as_deref(), Some("ind,eng"));
    assert_eq!(kept[0].metadata.status, 200);
}

#[test]
fn chunking_is_ceil_bounded_and_order_preserving() {
    let entries: Vec<CdxEntry> = (0..5).map(|i| entry(&format!("s{i}"), 200, Some("eng"))).collect();
    let batches = chunk_entries(&entries, 2);
    assert_eq!(batches.len(), 3);
    assert_eq!(batches[0].len(), 2);
    assert_eq!(batches[1].len(), 2);
    assert_eq!(batches[2].len(), 1);
    let mut k = 0;
    for b in &batches {
        assert!(b.len() <= 2);
        for e in b {
            assert_entries_eq(e, &entries[k]);
            k += 1;
        }
    }
    assert_eq!(k, entries.len());
}

#[test]
fn chunking_at_the_batch_size_boundary() {
    let exactly: Vec<CdxEntry> =
        (0..pipeline::BATCH_SIZE).map(|i| entry(&format!("s{i}"), 200, Some("eng"))).collect();
    let batches = chunk_entries(&exactly, pipeline::BATCH_SIZE);
    assert_eq!(batches.len(), 1);
    assert_eq!(batches[0].len(), pipeline::BATCH_SIZE);

    let one_more: Vec<CdxEntry> =
        (0..pipeline::BATCH_SIZE + 1).map(|i| entry(&format!("s{i}"), 200, Some("eng"))).collect();
    let batches = chunk_entries(&one_more, pipeline::BATCH_SIZE);
    assert_eq!(batches.len(), 2);
    assert_eq!(batches[0].len(), pipeline::BATCH_SIZE);
    assert_eq!(batches[1].len(), 1);
}

#[test]
fn process_shard_filters_chunks_and_counts_skips() {
    let l1 = r#"a b {"url": "u1", "status": 200, "length": 1, "offset": 2, "filename": "f1", "languages": "eng"}"#;
    let l2 = "malformed line without json";
    let l3 = r#"c d {"url": "u2", "status": 301, "length": 1, "offset": 2, "filename": "f2", "languages": "eng"}"#;
    let l4 = r#"e f {"url": "u3", "status": 200, "length": 1, "offset": 2, "filename": "f3", "languages": "ind,eng"}"#;
    let text = format!("{l1}\n{l2}\n{l3}\n{l4}");
    let (batches, skipped) = process_shard(&text);
    assert_eq!(skipped, 1);
    assert_eq!(batches.len(), 1);
    assert_eq!(batches[0].len(), 2);
    assert_eq!(batches[0][0].metadata.url, "u1");
    assert_eq!(batches[0][1].metadata.url, "u3");
}

#[test]
fn process_shard_is_idempotent() {
    let l1 = r#"a b {"url": "u1", "status": 200, "length": 1, "offset": 2, "filename": "f1", "languages": "eng"}"#;
    let l2 = r#"c d {"url": "u2", "status": 200, "length": 3, "offset": 4, "filename": "f2", "languages": "por,eng"}"#;
    let text = format!("{l1}\n{l2}");
    let (b1, s1) = process_shard(&text);
    let (b2, s2) = process_shard(&text);
    assert_eq!(s1, s2);
    assert_eq!(b1.len(), b2.len());
    for (x, y) in b1.iter().zip(b2.iter()) {
        assert_eq!(x.len(), y.len());
        for (e1, e2) in x.iter().zip(y.iter()) {
            assert_entries_eq(e1, e2);
        }
    }
}

fn gzip(data: &[u8]) -> Vec<u8> {
    let mut enc = flate2::read::GzEncoder::new(data, flate2::Compression::default());
    let mut out = Vec::new();
    std::io::Read::read_to_end(&mut enc, &mut out).unwrap();
    out
}

#[test]
fn decode_range_response_unzips_partial_content() {
    let body = gzip(b"hello shard");
    let out = decode_range_response(206, &body).unwrap();
    assert_eq!(out, b"hello shard");
}

#[test]
fn decode_range_response_rejects_other_statuses() {
    let body = gzip(b"payload");
    assert_eq!(decode_range_response(404, &body).unwrap_err(), FetchError::UnexpectedStatus(404));
    assert_eq!(decode_range_response(200, &body).unwrap_err(), FetchError::UnexpectedStatus(200));
}

#[test]
fn decode_range_response_rejects_corrupt_gzip() {
    let body = vec![1u8, 2, 3, 4];
    assert_eq!(decode_range_response(206, &body).unwrap_err(), FetchError::Corrupted);
}

#[test]
fn range_last_byte_matches_range_header_arithmetic() {
    assert_eq!(range_last_byte(3499, 689), Some(4187));
    assert_eq!(range_last_byte(0, 1), Some(0));
    assert_eq!(range_last_byte(10, 0), None);
    assert_eq!(range_last_byte(usize::MAX, 2), None);
}

fn warc_record(rtype: &str, uri: Option<&str>, body: &[u8]) -> Vec<u8> {
    let mut out = Vec::new();
    out.extend_from_slice(b"WARC/1.0\r\n");
    out.extend_from_slice(format!("WARC-Type: {rtype}\r\n").as_bytes());
    if let Some(u) = uri {
        out.extend_from_slice(format!("WARC-Target-URI: {u}\r\n").as_bytes());
    }
    out.extend_from_slice(format!("Content-Length: {}\r\n", body.len()).as_bytes());
    out.extend_from_slice(b"\r\n");
    out.extend_from_slice(body);
    out.extend_from_slice(b"\r\n\r\n");
    out
}

#[test]
fn warc_parser_reads_mixed_records() {
    let mut buf = Vec::new();
    buf.extend_from_slice(&warc_record("request", Some("http://a/"), b"GET / HTTP/1.1\r\n"));
    buf.extend_from_slice(&warc_record(
        "response",
        Some("http://a/"),
        b"HTTP/1.1 200 OK\n\n<html>hi</html>",
    ));
    let records = parse_warc_records(&buf).unwrap();
    assert_eq!(records.len(), 2);
    assert_eq!(records[0].record_type, b"request");
    assert_eq!(records[1].record_type, b"response");
    assert_eq!(records[1].target_uri.as_deref(), Some(b"http://a/".as_slice()));
    assert_eq!(records[1].body, b"HTTP/1.1 200 OK\n\n<html>hi</html>");
}

#[test]
fn warc_parser_rejects_malformed_buffers() {
    assert_eq!(parse_warc_records(&b"not a warc".to_vec()).unwrap_err(), WarcError::Malformed);
    let truncated = b"WARC/1.0\r\nContent-Length: 100\r\n\r\nshort".to_vec();
    assert_eq!(parse_warc_records(&truncated).unwrap_err(), WarcError::Malformed);
}

#[test]
fn only_response_records_reach_extraction_and_bad_ones_are_skipped() {
    let mut buf = Vec::new();
    buf.extend_from_slice(&warc_record("request", Some("http://a/"), b"GET / HTTP/1.1\r\n"));
    buf.extend_from_slice(&warc_record(
        "response",
        Some("http://a/"),
        b"HTTP/1.1 200 OK\n\n<html>hi</html>",
    ));
    buf.extend_from_slice(&warc_record("response", Some("http://b/"), b"no separator here"));
    buf.extend_from_slice(&warc_record("metadata", None, b"x: y"));
    let records = parse_warc_records(&buf).unwrap();
    let (tasks, skipped) = plan_extractions(&records);
    assert_eq!(tasks.len(), 1);
    assert_eq!(skipped, 1);
    assert_eq!(tasks[0].target_uri.as_deref(), Some(b"http://a/".as_slice()));
    assert_eq!(tasks[0].html, b"\n\n<html>hi</html>");
}

#[test]
fn find_blank_line_locates_first_separator() {
    assert_eq!(find_blank_line(&b"ab\n\ncd\n\n".to_vec()), Some(2));
    assert_eq!(find_blank_line(&b"\n\n".to_vec()), Some(0));
    assert_eq!(find_blank_line(&b"no separator".to_vec()), None);
    assert_eq!(find_blank_line(&Vec::new()), None);
}

#[test]
fn consuming_a_batch_of_two_plans_two_fetches_and_one_ack() {
    let batch = vec![entry("a", 200, Some("eng")), entry("b", 200, Some("eng"))];
    let fetches = plan_batch_fetches(&batch);
    assert_eq!(fetches.len(), 2);
    assert_eq!(fetches[0].filename, batch[0].metadata.filename);
    assert_eq!(fetches[0].offset, batch[0].metadata.offset);
    assert_eq!(fetches[0].length, batch[0].metadata.length);
    let mut acks = 0;
    let mut attempted = 0;
    for _ in &fetches {
        assert!(!should_acknowledge(attempted, batch.len()));
        attempted += 1;
    }
    if should_acknowledge(attempted, batch.len()) {
        acks += 1;
    }
    assert_eq!(acks, 1);
}

#[test]
fn empty_shard_text_yields_no_batches() {
    let (batches, skipped) = process_shard("");
    assert!(batches.is_empty());
    assert_eq!(skipped, 0);
}
