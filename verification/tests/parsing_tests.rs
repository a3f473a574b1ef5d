use pipeline::commoncrawl::{
    parse_cdx_line, parse_cluster_idx, parse_cluster_index, CdxParseError, ClusterIdxError,
};
use pipeline::json::JsonError;
use pipeline::text::{parse_usize, split_lines, split_whitespace_tokens, str_contains};

#[test]
fn cluster_idx_line_round_trips_offset_and_length() {
    let line = "0,100,22,165)/ 20240722120756\tcdx-00000.gz\t188224\t178351\t7";
    let entry = parse_cluster_idx(line).unwrap().unwrap();
    assert_eq!(entry.cdx_filename, "cdx-00000.gz");
    assert_eq!(entry.cdx_offset, 188224);
    assert_eq!(entry.cdx_length, 178351);
}

#[test]
fn cluster_idx_line_with_few_fields_is_skipped() {
    assert!(parse_cluster_idx("a b c d").unwrap().is_none());
    assert!(parse_cluster_idx("").unwrap().is_none());
}

#[test]
fn cluster_idx_line_with_bad_number_is_an_error() {
    let line = "surt 20240722120756 cdx-00000.gz oops 178351 7";
    assert_eq!(parse_cluster_idx(line).unwrap_err(), ClusterIdxError::BadNumber);
}

#[test]
fn cluster_index_file_skips_short_lines_and_keeps_order() {
    let content = "a b cdx-1.gz 1 2 x\nshort line\nc d cdx-2.gz 3 4 y\n";
    let entries = parse_cluster_index(content).unwrap();
    assert_eq!(entries.len(), 2);
    assert_eq!(entries[0].cdx_filename, "cdx-1.gz");
    assert_eq!(entries[1].cdx_filename, "cdx-2.gz");
}

#[test]
fn cluster_index_file_with_a_bad_number_fails_as_a_whole() {
    let content = "a b cdx-1.gz 1 2 x\nc d cdx-2.gz three 4 y\n";
    assert_eq!(parse_cluster_index(content).unwrap_err(), ClusterIdxError::BadNumber);
}

#[test]
fn cdx_line_parses_all_fields() {
    let line = r#"0,100,59,139)/ 20240723213521 {"url": "https://139.59.100.0/", "status": "200", "length": "16650", "offset": "64016172", "filename": "x.warc.gz", "languages": "ind,eng"}"#;
    let e = parse_cdx_line(line).unwrap();
    assert_eq!(e.surt_url, "0,100,59,139)/");
    assert_eq!(e.timestamp, "20240723213521");
    assert_eq!(e.metadata.url, "https://139.59.100.0/");
    assert_eq!(e.metadata.status, 200);
    assert_eq!(e.metadata.length, 16650);
    assert_eq!(e.metadata.offset, 64016172);
    assert_eq!(e.metadata.filename, "x.warc.gz");
    assert_eq!(e.metadata.languages.as_deref(), Some("ind,eng"));
}

#[test]
fn cdx_status_parses_alike_from_string_and_number() {
    let as_string = r#"s t {"url": "u", "status": "200", "length": "1", "offset": "2", "filename": "f"}"#;
    let as_number = r#"s t {"url": "u", "status": 200, "length": 1, "offset": 2, "filename": "f"}"#;
    let e1 = parse_cdx_line(as_string).unwrap();
    let e2 = parse_cdx_line(as_number).unwrap();
    assert_eq!(e1.metadata.status, 200);
    assert_eq!(e2.metadata.status, 200);
    assert_eq!(e1.metadata.length, e2.metadata.length);
    assert_eq!(e1.metadata.offset, e2.metadata.offset);
}

#[test]
fn cdx_line_without_two_spaces_is_an_error() {
    assert_eq!(parse_cdx_line("one-part").unwrap_err(), CdxParseError::MissingSeparator);
    assert_eq!(parse_cdx_line("two parts").unwrap_err(), CdxParseError::MissingSeparator);
}

#[test]
fn cdx_line_with_broken_json_is_an_error() {
    assert_eq!(
        parse_cdx_line("s t not-json").unwrap_err(),
        CdxParseError::Json(JsonError::Syntax)
    );
    assert_eq!(
        parse_cdx_line(r#"s t {"url": }"#).unwrap_err(),
        CdxParseError::Json(JsonError::Syntax)
    );
}

#[test]
fn cdx_line_with_huge_number_is_an_error() {
    let line = r#"s t {"url": "u", "status": 99999999999999999999999999, "length": 1, "offset": 2, "filename": "f"}"#;
    assert_eq!(
        parse_cdx_line(line).unwrap_err(),
        CdxParseError::Json(JsonError::NumberTooLarge)
    );
}

#[test]
fn cdx_line_with_missing_field_is_an_error() {
    let line = r#"s t {"url": "u", "status": 200, "length": 1, "offset": 2}"#;
    assert_eq!(parse_cdx_line(line).unwrap_err(), CdxParseError::MissingField);
}

#[test]
fn cdx_line_with_duplicate_field_is_an_error() {
    let line = r#"s t {"url": "u", "url": "v", "status": 200, "length": 1, "offset": 2, "filename": "f"}"#;
    assert_eq!(parse_cdx_line(line).unwrap_err(), CdxParseError::DuplicateField);
}

#[test]
fn cdx_line_with_wrongly_typed_field_is_an_error() {
    let line = r#"s t {"url": 5, "status": 200, "length": 1, "offset": 2, "filename": "f"}"#;
    assert_eq!(parse_cdx_line(line).unwrap_err(), CdxParseError::WrongType);
}

#[test]
fn cdx_line_with_non_numeric_status_string_is_an_error() {
    let line = r#"s t {"url": "u", "status": "abc", "length": 1, "offset": 2, "filename": "f"}"#;
    assert_eq!(parse_cdx_line(line).unwrap_err(), CdxParseError::BadNumber);
}

#[test]
fn cdx_line_accepts_null_languages_as_unknown() {
    let line = r#"s t {"url": "u", "status": 200, "length": 1, "offset": 2, "filename": "f", "languages": null}"#;
    let e = parse_cdx_line(line).unwrap();
    assert!(e.metadata.languages.is_none());
}

#[test]
fn parse_usize_reads_exact_values() {
    assert_eq!(parse_usize("0"), Some(0));
    assert_eq!(parse_usize("188224"), Some(188224));
    assert_eq!(parse_usize(""), None);
    assert_eq!(parse_usize("12a"), None);
    assert_eq!(parse_usize("99999999999999999999999999"), None);
}

#[test]
fn tokens_and_lines_split_as_expected() {
    let toks = split_whitespace_tokens("  a\tbb  c ");
    let toks: Vec<&str> = toks.iter().map(|s| s.as_str()).collect();
    assert_eq!(toks, vec!["a", "bb", "c"]);
    let lines = split_lines("one\r\ntwo\n\nlast");
    let lines: Vec<&str> = lines.iter().map(|s| s.as_str()).collect();
    assert_eq!(lines, vec!["one", "two", "", "last"]);
}

#[test]
fn contains_is_substring_search() {
    assert!(str_contains("ind,eng", "eng"));
    assert!(str_contains("sheng", "eng"));
    assert!(!str_contains("deu,fra", "eng"));
    assert!(str_contains("anything", ""));
}
