use fxdata::cache::{cache_file_name, cache_key, CacheStore};
use fxdata::model::{Candle, DataSet};

fn candle(ts: &str, open: f64, high: f64, low: f64, close: f64, volume: f64) -> Candle {
    Candle {
        ts_utc: ts.to_string(),
        open: open.to_bits(),
        high: high.to_bits(),
        low: low.to_bits(),
        close: close.to_bits(),
        volume: volume.to_bits(),
    }
}

fn sample_dataset() -> DataSet {
    DataSet {
        source_path: "/data/eurusd.csv".to_string(),
        candles: vec![
            candle("2003-05-05T00:00:00Z", 1.0, 1.25, 0.75, 1.1, 100.5),
            candle("2003-05-05T00:01:00Z", 1.1, 1.5, 1.05, 1.2, 200.25),
        ],
    }
}

fn assert_candles_equal(a: &[Candle], b: &[Candle]) {
    assert_eq!(a.len(), b.len());
    for (x, y) in a.iter().zip(b.iter()) {
        assert_eq!(x.ts_utc, y.ts_utc);
        assert_eq!(x.open, y.open);
        assert_eq!(x.high, y.high);
        assert_eq!(x.low, y.low);
        assert_eq!(x.close, y.close);
        assert_eq!(x.volume, y.volume);
    }
}

#[test]
fn dataset_partition_round_trips() {
    let store = CacheStore::in_memory().unwrap();
    let ds = sample_dataset();
    store.save_to_cache(&ds).unwrap();
    let back = store.load_from_cache().unwrap();
    assert_eq!(back.source_path, ds.source_path);
    assert_candles_equal(&back.candles, &ds.candles);
}

#[test]
fn dataset_partition_overwrites_wholesale() {
    let store = CacheStore::in_memory().unwrap();
    store.save_to_cache(&sample_dataset()).unwrap();
    let smaller = DataSet {
        source_path: "other".to_string(),
        candles: vec![candle("2004-01-01T00:00:00Z", 2.0, 2.0, 2.0, 2.0, 1.0)],
    };
    store.save_to_cache(&smaller).unwrap();
    let back = store.load_from_cache().unwrap();
    assert_eq!(back.source_path, "other");
    assert_eq!(back.candles.len(), 1);
}

#[test]
fn resample_partition_round_trips_per_target() {
    let store = CacheStore::in_memory().unwrap();
    let ds = sample_dataset();
    store.save_resample_cache("M5", &ds).unwrap();
    let hit = store.load_resample_cache("/data/eurusd.csv", "M5").unwrap().unwrap();
    assert_eq!(hit.source_path, "/data/eurusd.csv");
    assert_candles_equal(&hit.candles, &ds.candles);
    // an unknown target misses without touching the stored one
    assert!(store.load_resample_cache("/data/eurusd.csv", "H1").unwrap().is_none());
}

#[test]
fn empty_resample_partition_round_trips() {
    let store = CacheStore::in_memory().unwrap();
    let empty = DataSet { source_path: "p".to_string(), candles: vec![] };
    store.save_resample_cache("M5", &empty).unwrap();
    // a stored count of zero matching zero rows is a hit
    let hit = store.load_resample_cache("p", "M5").unwrap().unwrap();
    assert_eq!(hit.source_path, "p");
    assert!(hit.candles.is_empty());
}

#[test]
fn indicator_partition_round_trips() {
    let store = CacheStore::in_memory().unwrap();
    let series: Vec<Option<u64>> = vec![None, Some(1.5f64.to_bits()), Some(2.5f64.to_bits())];
    store
        .save_indicator_cache(&vec![("ma".to_string(), series.clone())])
        .unwrap();
    let got = store
        .load_indicator_cache(3, &vec!["ma".to_string()])
        .unwrap()
        .unwrap();
    assert_eq!(got.len(), 1);
    assert_eq!(got[0], series);
}

#[test]
fn indicator_count_mismatch_is_a_miss() {
    let store = CacheStore::in_memory().unwrap();
    let series: Vec<Option<u64>> = (0..100).map(|i| Some((i as f64).to_bits())).collect();
    store
        .save_indicator_cache(&vec![("ma".to_string(), series)])
        .unwrap();
    // reading a 100-value partition with an expected length of 99 must miss
    assert!(store.load_indicator_cache(99, &vec!["ma".to_string()]).unwrap().is_none());
    assert!(store.load_indicator_cache(100, &vec!["ma".to_string()]).unwrap().is_some());
}

#[test]
fn missing_indicator_is_a_miss() {
    let store = CacheStore::in_memory().unwrap();
    assert!(store.load_indicator_cache(5, &vec!["rsi".to_string()]).unwrap().is_none());
}

#[test]
fn cache_key_joins_path_and_mtime() {
    assert_eq!(cache_key("/a/b.csv", 1700000000), "/a/b.csv_1700000000");
}

#[test]
fn cache_file_name_is_the_key_digest() {
    let name = cache_file_name("/a/b.csv_1700000000");
    let expected = format!("{}.sqlite", blake3::hash("/a/b.csv_1700000000".as_bytes()));
    assert_eq!(name, expected);
}

#[test]
fn unopenable_path_is_a_cache_io_error() {
    let err = match CacheStore::open("no_such_directory_here/sub/cache.sqlite") {
        Ok(_) => panic!("open should fail on a missing directory"),
        Err(e) => e,
    };
    assert!(matches!(err, fxdata::errors::EngineError::CacheIoError { .. }));
    assert!(!err.message().is_empty());
}
