use hashdeep_compare::parse::{parse_hashdeep_lines, FormatError};
use hashdeep_compare::record::HashdeepLine;

fn fields(names: &[&str]) -> Vec<String> {
    names.iter().map(|n| n.to_string()).collect()
}

fn manifest(header: &str, rows: &[&str]) -> Vec<String> {
    let mut lines = vec![
        "%%%% HASHDEEP-1.0".to_string(),
        header.to_string(),
        "## Invoked from: /home/user".to_string(),
        "## $ hashdeep -l .".to_string(),
        "## ".to_string(),
    ];
    for row in rows {
        lines.push(row.to_string());
    }
    lines
}

#[test]
fn parse_basic_manifest() {
    let lines = manifest(
        "%%%% size,md5,sha256,filename",
        &["10,aaa111,deadbeef,x", "20,bbb222,cafebabe,y"],
    );
    let records = parse_hashdeep_lines(&lines).unwrap();
    assert_eq!(records.len(), 2);
    assert_eq!(records[0].size, "10");
    assert_eq!(records[0].md5, "aaa111");
    assert_eq!(records[0].sha256, "deadbeef");
    assert_eq!(records[0].filename, "x");
    assert_eq!(records[1].size, "20");
    assert_eq!(records[1].md5, "bbb222");
    assert_eq!(records[1].sha256, "cafebabe");
    assert_eq!(records[1].filename, "y");
}

#[test]
fn column_order_governs_assignment() {
    let rec = HashdeepLine::new("abc,10,name", &fields(&["md5", "size", "filename"])).unwrap();
    assert_eq!(rec.md5, "abc");
    assert_eq!(rec.size, "10");
    assert_eq!(rec.filename, "name");
    assert_eq!(rec.sha256, "");

    let rec = HashdeepLine::new("n,feed,7,qq", &fields(&["filename", "sha256", "size", "md5"]))
        .unwrap();
    assert_eq!(rec.filename, "n");
    assert_eq!(rec.sha256, "feed");
    assert_eq!(rec.size, "7");
    assert_eq!(rec.md5, "qq");
}

#[test]
fn subset_of_columns_is_allowed() {
    let rec = HashdeepLine::new("10,abc", &fields(&["size", "md5"])).unwrap();
    assert_eq!(rec.size, "10");
    assert_eq!(rec.md5, "abc");
    assert_eq!(rec.sha256, "");
    assert_eq!(rec.filename, "");
}

#[test]
fn unknown_column_consumes_one_token() {
    let rec = HashdeepLine::new("10,zzz,abc", &fields(&["size", "crc32", "md5"])).unwrap();
    assert_eq!(rec.size, "10");
    assert_eq!(rec.md5, "abc");
    assert_eq!(rec.sha256, "");
    assert_eq!(rec.filename, "");
}

#[test]
fn trailing_filename_keeps_commas() {
    let rec = HashdeepLine::new("10,abc,a,b,c", &fields(&["size", "md5", "filename"])).unwrap();
    assert_eq!(rec.size, "10");
    assert_eq!(rec.md5, "abc");
    assert_eq!(rec.filename, "a,b,c");
}

#[test]
fn short_line_is_malformed() {
    assert!(HashdeepLine::new("10,abc", &fields(&["size", "md5", "filename"])).is_none());
    assert!(HashdeepLine::new("", &fields(&["size", "md5"])).is_none());
}

#[test]
fn missing_hashdeep_header_is_reported() {
    let mut lines = manifest("%%%% size,md5,filename", &["10,abc,x"]);
    lines[0] = "not a hashdeep file".to_string();
    assert_eq!(
        parse_hashdeep_lines(&lines),
        Err(FormatError::MissingHashdeepHeader)
    );
}

#[test]
fn missing_format_header_is_reported() {
    let mut lines = manifest("%%%% size,md5,filename", &["10,abc,x"]);
    lines[1] = "%%%% md5,size".to_string();
    assert_eq!(
        parse_hashdeep_lines(&lines),
        Err(FormatError::MissingFormatHeader)
    );
}

#[test]
fn missing_invocation_path_is_reported() {
    let mut lines = manifest("%%%% size,md5,filename", &[]);
    lines[2] = "# Invoked from nowhere".to_string();
    assert_eq!(
        parse_hashdeep_lines(&lines),
        Err(FormatError::MissingInvocationPath)
    );
}

#[test]
fn missing_command_is_reported() {
    let mut lines = manifest("%%%% size,md5,filename", &[]);
    lines[3] = "## md5deep -l .".to_string();
    assert_eq!(parse_hashdeep_lines(&lines), Err(FormatError::MissingCommand));
}

#[test]
fn missing_spacer_is_reported() {
    let mut lines = manifest("%%%% size,md5,filename", &[]);
    lines[4] = "#".to_string();
    assert_eq!(parse_hashdeep_lines(&lines), Err(FormatError::MissingSpacer));
}

#[test]
fn first_malformed_data_line_is_reported() {
    let lines = manifest("%%%% size,md5,filename", &["10,abc,x", "20,def"]);
    assert_eq!(
        parse_hashdeep_lines(&lines),
        Err(FormatError::MalformedDataLine(6))
    );
    let lines = manifest("%%%% size,md5,filename", &["10", "20,def"]);
    assert_eq!(
        parse_hashdeep_lines(&lines),
        Err(FormatError::MalformedDataLine(5))
    );
}

#[test]
fn empty_manifest_parses_to_no_records() {
    let lines: Vec<String> = Vec::new();
    let records = parse_hashdeep_lines(&lines).unwrap();
    assert_eq!(records.len(), 0);
}

#[test]
fn preamble_only_manifest_parses_to_no_records() {
    let lines = manifest("%%%% size,md5,sha256,filename", &[]);
    let records = parse_hashdeep_lines(&lines).unwrap();
    assert_eq!(records.len(), 0);
}

#[test]
fn preamble_checks_run_on_a_truncated_manifest() {
    let lines = vec![
        "%%%% HASHDEEP-1.0".to_string(),
        "%%%% size,md5".to_string(),
        "## Invoked from: /tmp".to_string(),
    ];
    let records = parse_hashdeep_lines(&lines).unwrap();
    assert_eq!(records.len(), 0);

    let lines = vec!["%%%% HASHDEEP-1.0".to_string(), "oops".to_string()];
    assert_eq!(
        parse_hashdeep_lines(&lines),
        Err(FormatError::MissingFormatHeader)
    );
}
