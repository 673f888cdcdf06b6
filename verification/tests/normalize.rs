use fxdata::ts::normalize_timestamp;

#[test]
fn normalize_timestamp_works() {
    let ts = normalize_timestamp("2003.05.05 0:01:00").unwrap();
    assert_eq!(ts, "2003-05-05T00:01:00Z");
}

#[test]
fn normalize_timestamp_is_utc() {
    let ts = normalize_timestamp("2003.05.05 23:59:59").unwrap();
    assert!(ts.ends_with('Z'));
}

#[test]
fn normalize_timestamp_accepts_tab() {
    let ts = normalize_timestamp("2003.05.05\t7:08:09").unwrap();
    assert_eq!(ts, "2003-05-05T07:08:09Z");
}

#[test]
fn normalize_timestamp_pads_components() {
    let ts = normalize_timestamp("1999.01.02 1:2:3").unwrap();
    assert_eq!(ts, "1999-01-02T01:02:03Z");
}

#[test]
fn normalize_timestamp_rejects_missing_separator() {
    let err = normalize_timestamp("2003.05.05").unwrap_err();
    assert_eq!(err.message(), "invalid timestamp format: 2003.05.05");
}

#[test]
fn normalize_timestamp_rejects_bad_hour() {
    let err = normalize_timestamp("2003.05.05 24:00:00").unwrap_err();
    assert_eq!(err.message(), "invalid time format: 2003.05.05 24:00:00");
}

#[test]
fn normalize_timestamp_rejects_bad_minute() {
    let err = normalize_timestamp("2003.05.05 10:60:00").unwrap_err();
    assert_eq!(err.message(), "invalid time format: 2003.05.05 10:60:00");
}

#[test]
fn normalize_timestamp_rejects_nondigit_time() {
    let err = normalize_timestamp("2003.05.05 aa:00:00").unwrap_err();
    assert_eq!(err.message(), "invalid time format: 2003.05.05 aa:00:00");
}

#[test]
fn normalize_timestamp_rejects_short_time() {
    let err = normalize_timestamp("2003.05.05 10:30").unwrap_err();
    assert_eq!(err.message(), "invalid time format: 2003.05.05 10:30");
}

#[test]
fn normalize_timestamp_rejects_dashed_dates() {
    // the date part must be a dot-separated all-digit triple
    let err = normalize_timestamp("2003-05-05 00:01:00").unwrap_err();
    assert_eq!(err.message(), "invalid date format: 2003-05-05 00:01:00");
}

#[test]
fn normalize_timestamp_rejects_slashed_dates() {
    let err = normalize_timestamp("2003/05/05 00:01:00").unwrap_err();
    assert_eq!(err.message(), "invalid date format: 2003/05/05 00:01:00");
}
