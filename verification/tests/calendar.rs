use fxdata::calendar::{format_ts, from_epoch, parse_ts, to_epoch};

#[test]
fn to_epoch_matches_known_instant() {
    assert_eq!(to_epoch(2004, 1, 1, 0, 0, 0), 1072915200);
    assert_eq!(to_epoch(1970, 1, 1, 0, 0, 0), 0);
    assert_eq!(to_epoch(2003, 5, 5, 0, 1, 0), 1052092860);
}

#[test]
fn from_epoch_matches_known_instant() {
    assert_eq!(from_epoch(1072915200), (2004, 1, 1, 0, 0, 0));
    assert_eq!(from_epoch(0), (1970, 1, 1, 0, 0, 0));
    assert_eq!(from_epoch(-1), (1969, 12, 31, 23, 59, 59));
}

#[test]
fn epoch_round_trips_through_civil() {
    for &e in &[0i64, 1, 59, 86399, 86400, 1052092860, 1072915200, 951782400, -86400] {
        let (y, m, d, h, mi, s) = from_epoch(e);
        assert_eq!(to_epoch(y, m, d, h, mi, s), e);
    }
}

#[test]
fn parse_ts_reads_canonical_text() {
    assert_eq!(parse_ts("2003-05-05T00:01:00Z").unwrap(), 1052092860);
    assert_eq!(parse_ts("1970-01-01T00:00:00Z").unwrap(), 0);
}

#[test]
fn parse_ts_defaults_missing_seconds() {
    assert_eq!(parse_ts("2003-05-05T00:01Z").unwrap(), 1052092860);
}

#[test]
fn parse_ts_rejects_missing_t() {
    let err = parse_ts("2003-05-05 00:01:00").unwrap_err();
    assert_eq!(err.message(), "invalid timestamp");
}

#[test]
fn parse_ts_rejects_bad_date() {
    let err = parse_ts("2003-xx-05T00:01:00Z").unwrap_err();
    assert_eq!(err.message(), "invalid date");
}

#[test]
fn parse_ts_rejects_bad_time() {
    let err = parse_ts("2003-05-05T00:xx:00Z").unwrap_err();
    assert_eq!(err.message(), "invalid time");
}

#[test]
fn parse_ts_rejects_short_date() {
    let err = parse_ts("2003-05T00:01:00Z").unwrap_err();
    assert_eq!(err.message(), "invalid timestamp");
}

#[test]
fn format_ts_writes_canonical_text() {
    assert_eq!(format_ts(1052092860), "2003-05-05T00:01:00Z");
    assert_eq!(format_ts(0), "1970-01-01T00:00:00Z");
    assert_eq!(format_ts(-1), "1969-12-31T23:59:59Z");
}

#[test]
fn format_then_parse_is_identity() {
    for &e in &[0i64, 60, 86400, 1052092860, 1072915200] {
        assert_eq!(parse_ts(&format_ts(e)).unwrap(), e);
    }
}

#[test]
fn format_ts_pads_small_years() {
    let e = to_epoch(5, 1, 1, 0, 0, 0);
    assert_eq!(format_ts(e), "0005-01-01T00:00:00Z");
    assert_eq!(parse_ts(&format_ts(e)).unwrap(), e);
}
