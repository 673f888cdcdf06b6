use fxdata::errors::EngineError;
use fxdata::parse::{clean_number, parse_csv_like};

#[test]
fn parses_comma_separated_lines() {
    let content = "2003.05.05 00:01:00,1.0,2.0,0.5,1.5,100\n2003.05.05 00:02:00,1.5,2.5,1.0,2.0,200\n";
    let rows = parse_csv_like(content).unwrap();
    assert_eq!(rows.len(), 2);
    assert_eq!(rows[0].ts_utc, "2003-05-05T00:01:00Z");
    assert_eq!(rows[0].open_text, "1.0");
    assert_eq!(rows[0].close_text, "1.5");
    assert_eq!(rows[0].volume_text.as_deref(), Some("100"));
    assert_eq!(rows[1].line, 2);
}

#[test]
fn skips_header_and_blank_lines() {
    let content = "\nTimestamp,Open,High,Low,Close\n2003.05.05 00:01:00,1,2,0.5,1.5\n";
    let rows = parse_csv_like(content).unwrap();
    assert_eq!(rows.len(), 1);
    assert_eq!(rows[0].line, 3);
    assert!(rows[0].volume_text.is_none());
}

#[test]
fn skips_date_time_header() {
    let content = "DATE TIME OPEN HIGH LOW CLOSE\n2003.05.05 00:01:00 1 2 0.5 1.5\n";
    let rows = parse_csv_like(content).unwrap();
    assert_eq!(rows.len(), 1);
}

#[test]
fn splits_on_tab_when_present() {
    let content = "2003.05.05 00:01:00\t1\t2\t0.5\t1.5\t9\n";
    let rows = parse_csv_like(content).unwrap();
    assert_eq!(rows.len(), 1);
    assert_eq!(rows[0].volume_text.as_deref(), Some("9"));
}

#[test]
fn recognises_two_column_timestamp() {
    let content = "2003.05.05,00:01:00,1,2,0.5,1.5,7\n";
    let rows = parse_csv_like(content).unwrap();
    assert_eq!(rows.len(), 1);
    assert_eq!(rows[0].ts_utc, "2003-05-05T00:01:00Z");
    assert_eq!(rows[0].open_text, "1");
    assert_eq!(rows[0].volume_text.as_deref(), Some("7"));
}

#[test]
fn reports_column_count_with_line_number() {
    let content = "2003.05.05 00:01:00,1,2,0.5,1.5\nshort,line\n";
    let err = parse_csv_like(content).unwrap_err();
    match err {
        EngineError::ParseError { line, detail } => {
            assert_eq!(line, 2);
            assert_eq!(detail, "invalid column count at line 2");
        }
        other => panic!("unexpected error {:?}", other),
    }
}

#[test]
fn reports_bad_timestamp_with_line_number() {
    let content = "nonsense,1,2,0.5,1.5\n";
    let err = parse_csv_like(content).unwrap_err();
    match err {
        EngineError::ParseError { line, detail } => {
            assert_eq!(line, 1);
            assert_eq!(detail, "invalid timestamp format: nonsense at line 1");
        }
        other => panic!("unexpected error {:?}", other),
    }
}

#[test]
fn header_only_on_first_nonblank_line() {
    // a later line mentioning "timestamp" is data, and fails as data
    let content = "2003.05.05 00:01:00,1,2,0.5,1.5\ntimestamp,a,b,c,d\n";
    let err = parse_csv_like(content).unwrap_err();
    match err {
        EngineError::ParseError { line, .. } => assert_eq!(line, 2),
        other => panic!("unexpected error {:?}", other),
    }
}

#[test]
fn empty_input_yields_no_rows() {
    assert!(parse_csv_like("").unwrap().is_empty());
}

#[test]
fn clean_number_strips_commas_and_space() {
    assert_eq!(clean_number(" 1,234.5 "), "1234.5");
    assert_eq!(clean_number("42"), "42");
}

#[test]
fn recognises_whitespace_two_column_layout() {
    let content = "2003.05.05 00:01:00 1.0 2.0 0.5 1.5\n";
    let rows = parse_csv_like(content).unwrap();
    assert_eq!(rows.len(), 1);
    assert_eq!(rows[0].ts_utc, "2003-05-05T00:01:00Z");
    assert_eq!(rows[0].open_text, "1.0");
    assert_eq!(rows[0].close_text, "1.5");
    assert!(rows[0].volume_text.is_none());
}
