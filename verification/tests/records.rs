use fxdata::history::update_history;
use fxdata::model::{DatasetHistory, PaneState, Preset};
use fxdata::presets::{find_preset, preset_name_valid, remove_preset, upsert_preset};

fn entry(path: &str, t: i64) -> DatasetHistory {
    DatasetHistory { path: path.to_string(), last_used: t }
}

#[test]
fn history_puts_fresh_path_first() {
    let h = vec![entry("a", 1), entry("b", 2)];
    let out = update_history(&h, "c", 3);
    assert_eq!(out.len(), 3);
    assert_eq!(out[0].path, "c");
    assert_eq!(out[0].last_used, 3);
    assert_eq!(out[1].path, "a");
    assert_eq!(out[2].path, "b");
}

#[test]
fn history_moves_known_path_to_front() {
    let h = vec![entry("a", 1), entry("b", 2), entry("a", 3)];
    let out = update_history(&h, "a", 9);
    assert_eq!(out.len(), 2);
    assert_eq!(out[0].path, "a");
    assert_eq!(out[0].last_used, 9);
    assert_eq!(out[1].path, "b");
}

#[test]
fn history_keeps_at_most_ten() {
    let h: Vec<DatasetHistory> = (0..12).map(|i| entry(&format!("p{}", i), i)).collect();
    let out = update_history(&h, "new", 99);
    assert_eq!(out.len(), 10);
    assert_eq!(out[0].path, "new");
    assert_eq!(out[9].path, "p8");
}

fn pane(id: usize) -> PaneState {
    PaneState {
        id,
        pair: "EURUSD".to_string(),
        timeframe: "M1".to_string(),
        indicator: "ma".to_string(),
        view_bars: 100,
        view_offset: 0,
        playing: false,
        speed: 1.0f64.to_bits(),
        seek: 0,
        bars: 500,
    }
}

fn preset(name: &str, split: usize) -> Preset {
    Preset { name: name.to_string(), split, panes: vec![pane(0), pane(1)] }
}

#[test]
fn upsert_replaces_same_name() {
    let list = vec![preset("day", 1), preset("night", 2)];
    let out = upsert_preset(&list, preset("day", 9));
    assert_eq!(out.len(), 2);
    assert_eq!(out[0].name, "night");
    assert_eq!(out[1].name, "day");
    assert_eq!(out[1].split, 9);
    assert_eq!(out[1].panes.len(), 2);
}

#[test]
fn remove_reports_whether_anything_went() {
    let list = vec![preset("day", 1), preset("night", 2)];
    let (rest, removed) = remove_preset(&list, "day");
    assert!(removed);
    assert_eq!(rest.len(), 1);
    let (rest2, removed2) = remove_preset(&rest, "day");
    assert!(!removed2);
    assert_eq!(rest2.len(), 1);
}

#[test]
fn find_returns_first_match() {
    let list = vec![preset("day", 1), preset("night", 2)];
    let found = find_preset(&list, "night").unwrap();
    assert_eq!(found.split, 2);
    assert_eq!(found.panes[0].pair, "EURUSD");
    assert!(find_preset(&list, "dawn").is_none());
}

#[test]
fn blank_preset_names_are_invalid() {
    assert!(!preset_name_valid("   "));
    assert!(!preset_name_valid(""));
    assert!(preset_name_valid(" day "));
}
