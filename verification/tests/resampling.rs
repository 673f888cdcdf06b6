use fxdata::interval::{infer_interval, interval_from_name, Interval};
use fxdata::model::{Candle, DataSet};
use fxdata::resample::{resample_assemble, resample_plan};

fn candle(ts: &str, open: f64, high: f64, low: f64, close: f64, volume: f64) -> Candle {
    Candle {
        ts_utc: ts.to_string(),
        open: open.to_bits(),
        high: high.to_bits(),
        low: low.to_bits(),
        close: close.to_bits(),
        volume: volume.to_bits(),
    }
}

/// Folds the float fields of each planned bucket: running max, running min,
/// running sum.
fn fold_buckets(
    ds: &DataSet,
    segs: &[fxdata::resample::Segment],
) -> (Vec<u64>, Vec<u64>, Vec<u64>) {
    let mut highs = Vec::new();
    let mut lows = Vec::new();
    let mut vols = Vec::new();
    for sg in segs {
        let mut high = f64::from_bits(ds.candles[sg.start].high);
        let mut low = f64::from_bits(ds.candles[sg.start].low);
        let mut vol = f64::from_bits(ds.candles[sg.start].volume);
        for c in &ds.candles[sg.start + 1..sg.end] {
            high = high.max(f64::from_bits(c.high));
            low = low.min(f64::from_bits(c.low));
            vol += f64::from_bits(c.volume);
        }
        highs.push(high.to_bits());
        lows.push(low.to_bits());
        vols.push(vol.to_bits());
    }
    (highs, lows, vols)
}

fn resample(ds: &DataSet, target: Interval) -> DataSet {
    let segs = resample_plan(ds, target).unwrap();
    let (highs, lows, vols) = fold_buckets(ds, &segs);
    resample_assemble(ds, &segs, &highs, &lows, &vols)
}

#[test]
fn five_minutes_collapse_into_one_bucket() {
    let ds = DataSet {
        source_path: "demo".to_string(),
        candles: vec![
            candle("2003-05-05T00:00:00Z", 1.0, 1.2, 0.9, 1.1, 10.0),
            candle("2003-05-05T00:01:00Z", 1.1, 1.3, 1.0, 1.2, 10.0),
            candle("2003-05-05T00:02:00Z", 1.2, 1.6, 1.1, 1.3, 10.0),
            candle("2003-05-05T00:03:00Z", 1.3, 1.4, 0.8, 1.4, 10.0),
            candle("2003-05-05T00:04:00Z", 1.4, 1.5, 1.2, 1.5, 10.0),
        ],
    };
    let out = resample(&ds, Interval::M5);
    assert_eq!(out.candles.len(), 1);
    let c = &out.candles[0];
    assert_eq!(c.ts_utc, "2003-05-05T00:00:00Z");
    assert_eq!(f64::from_bits(c.open), 1.0);
    assert_eq!(f64::from_bits(c.close), 1.5);
    assert_eq!(f64::from_bits(c.high), 1.6);
    assert_eq!(f64::from_bits(c.low), 0.8);
    assert_eq!(f64::from_bits(c.volume), 50.0);
}

#[test]
fn buckets_align_to_interval_width() {
    let ds = DataSet {
        source_path: "demo".to_string(),
        candles: vec![
            candle("2003-05-05T00:03:00Z", 1.0, 1.0, 1.0, 1.0, 1.0),
            candle("2003-05-05T00:04:00Z", 2.0, 2.0, 2.0, 2.0, 1.0),
            candle("2003-05-05T00:05:00Z", 3.0, 3.0, 3.0, 3.0, 1.0),
            candle("2003-05-05T00:11:00Z", 4.0, 4.0, 4.0, 4.0, 1.0),
        ],
    };
    let out = resample(&ds, Interval::M5);
    assert_eq!(out.candles.len(), 3);
    assert_eq!(out.candles[0].ts_utc, "2003-05-05T00:00:00Z");
    assert_eq!(out.candles[1].ts_utc, "2003-05-05T00:05:00Z");
    assert_eq!(out.candles[2].ts_utc, "2003-05-05T00:10:00Z");
    // open of first candle in the bucket, close of the last
    assert_eq!(f64::from_bits(out.candles[0].open), 1.0);
    assert_eq!(f64::from_bits(out.candles[0].close), 2.0);
    assert_eq!(f64::from_bits(out.candles[0].volume), 2.0);
    assert_eq!(f64::from_bits(out.candles[1].open), 3.0);
    assert_eq!(f64::from_bits(out.candles[2].open), 4.0);
    // output timestamps ascend strictly and sit on multiples of the width
    let mut prev = None;
    for c in &out.candles {
        let e = fxdata::calendar::parse_ts(&c.ts_utc).unwrap();
        assert_eq!(e % 300, 0);
        if let Some(p) = prev {
            assert!(e > p);
        }
        prev = Some(e);
    }
}

#[test]
fn empty_input_resamples_to_empty() {
    let ds = DataSet { source_path: "demo".to_string(), candles: vec![] };
    let out = resample(&ds, Interval::H1);
    assert!(out.candles.is_empty());
    assert_eq!(out.source_path, "demo");
}

#[test]
fn unparseable_timestamp_aborts_resample() {
    let ds = DataSet {
        source_path: "demo".to_string(),
        candles: vec![candle("not a timestamp", 1.0, 1.0, 1.0, 1.0, 1.0)],
    };
    let err = resample_plan(&ds, Interval::M1).unwrap_err();
    assert_eq!(err.message(), "invalid timestamp");
}

#[test]
fn interval_names_resolve() {
    assert!(matches!(interval_from_name("M1"), Ok(Interval::M1)));
    assert!(matches!(interval_from_name("M5"), Ok(Interval::M5)));
    assert!(matches!(interval_from_name("M15"), Ok(Interval::M15)));
    assert!(matches!(interval_from_name("M30"), Ok(Interval::M30)));
    assert!(matches!(interval_from_name("H1"), Ok(Interval::H1)));
    assert!(matches!(interval_from_name("H4"), Ok(Interval::H4)));
    assert!(matches!(interval_from_name("D1"), Ok(Interval::D1)));
    let err = interval_from_name("W1").unwrap_err();
    assert_eq!(err.message(), "invalid interval");
}

#[test]
fn interval_widths_in_seconds() {
    assert_eq!(Interval::M1.seconds(), 60);
    assert_eq!(Interval::M5.seconds(), 300);
    assert_eq!(Interval::M15.seconds(), 900);
    assert_eq!(Interval::M30.seconds(), 1800);
    assert_eq!(Interval::H1.seconds(), 3600);
    assert_eq!(Interval::H4.seconds(), 14400);
    assert_eq!(Interval::D1.seconds(), 86400);
}

#[test]
fn infer_interval_reads_first_gap() {
    let ds = vec![
        candle("2003-05-05T00:00:00Z", 1.0, 1.0, 1.0, 1.0, 1.0),
        candle("2003-05-05T00:05:00Z", 1.0, 1.0, 1.0, 1.0, 1.0),
    ];
    assert!(matches!(infer_interval(&ds), Some(Interval::M5)));
    let short = vec![candle("2003-05-05T00:00:00Z", 1.0, 1.0, 1.0, 1.0, 1.0)];
    assert!(infer_interval(&short).is_none());
}
