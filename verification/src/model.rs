use vstd::prelude::*;

verus! {

/// One open/high/low/close/volume observation. The five price fields hold the
/// IEEE-754 bit patterns of the 64-bit values; the engine never interprets
/// them arithmetically, it stores, copies and compares them as opaque words.
#[derive(Debug, Clone)]
pub struct Candle {
    pub ts_utc: String,
    pub open: u64,
    pub high: u64,
    pub low: u64,
    pub close: u64,
    pub volume: u64,
}

/// The mathematical image of a candle: the timestamp's characters and the
/// five price words.
pub ghost struct CandleModel {
    pub ts: Seq<char>,
    pub open: u64,
    pub high: u64,
    pub low: u64,
    pub close: u64,
    pub volume: u64,
}

impl View for Candle {
    type V = CandleModel;

    open spec fn view(&self) -> CandleModel {
        CandleModel {
            ts: self.ts_utc@,
            open: self.open,
            high: self.high,
            low: self.low,
            close: self.close,
            volume: self.volume,
        }
    }
}

/// An identity string plus an ordered candle sequence.
#[derive(Debug, Clone)]
pub struct DataSet {
    pub source_path: String,
    pub candles: Vec<Candle>,
}

impl DataSet {
    pub open spec fn spec_candles(self) -> Seq<CandleModel> {
        self.candles@.map_values(|c: Candle| c@)
    }
}

/// What ingestion hands back: the dataset and whether it came from the cache.
#[derive(Debug, Clone)]
pub struct IngestResult {
    pub dataset: DataSet,
    pub used_cache: bool,
}

/// A summary of the cache directory: its path, how many cache files it holds
/// and their total size in bytes.
#[derive(Debug, Clone)]
pub struct CacheStatus {
    pub path: String,
    pub files: u64,
    pub bytes: u64,
}

/// One recently used dataset path with the time it was last opened.
#[derive(Debug, Clone)]
pub struct DatasetHistory {
    pub path: String,
    pub last_used: i64,
}

/// One parsed data line: the normalized timestamp and the raw numeric field
/// texts, still undecoded. `line` is the 1-based line number.
#[derive(Debug, Clone)]
pub struct ParsedRow {
    pub line: u64,
    pub ts_utc: String,
    pub open_text: String,
    pub high_text: String,
    pub low_text: String,
    pub close_text: String,
    pub volume_text: Option<String>,
}

/// Per-pane view state of a chart preset. `speed` holds the bit pattern of
/// the 64-bit playback speed value.
#[derive(Debug, Clone)]
pub struct PaneState {
    pub id: usize,
    pub pair: String,
    pub timeframe: String,
    pub indicator: String,
    pub view_bars: i64,
    pub view_offset: i64,
    pub playing: bool,
    pub speed: u64,
    pub seek: i64,
    pub bars: i64,
}

/// A named layout of chart panes.
#[derive(Debug, Clone)]
pub struct Preset {
    pub name: String,
    pub split: usize,
    pub panes: Vec<PaneState>,
}

/// The mathematical image of a history record.
pub ghost struct HistoryModel {
    pub path: Seq<char>,
    pub last_used: i64,
}

impl View for DatasetHistory {
    type V = HistoryModel;

    open spec fn view(&self) -> HistoryModel {
        HistoryModel { path: self.path@, last_used: self.last_used }
    }
}

/// The mathematical image of a pane's state.
pub ghost struct PaneModel {
    pub id: int,
    pub pair: Seq<char>,
    pub timeframe: Seq<char>,
    pub indicator: Seq<char>,
    pub view_bars: i64,
    pub view_offset: i64,
    pub playing: bool,
    pub speed: u64,
    pub seek: i64,
    pub bars: i64,
}

impl View for PaneState {
    type V = PaneModel;

    open spec fn view(&self) -> PaneModel {
        PaneModel {
            id: self.id as int,
            pair: self.pair@,
            timeframe: self.timeframe@,
            indicator: self.indicator@,
            view_bars: self.view_bars,
            view_offset: self.view_offset,
            playing: self.playing,
            speed: self.speed,
            seek: self.seek,
            bars: self.bars,
        }
    }
}

/// The mathematical image of a preset.
pub ghost struct PresetModel {
    pub name: Seq<char>,
    pub split: int,
    pub panes: Seq<PaneModel>,
}

impl View for Preset {
    type V = PresetModel;

    open spec fn view(&self) -> PresetModel {
        PresetModel {
            name: self.name@,
            split: self.split as int,
            panes: self.panes@.map_values(|p: PaneState| p@),
        }
    }
}

pub fn clone_pane(p: &PaneState) -> (r: PaneState)
    ensures
        r@ == p@,
{
    PaneState {
        id: p.id,
        pair: p.pair.clone(),
        timeframe: p.timeframe.clone(),
        indicator: p.indicator.clone(),
        view_bars: p.view_bars,
        view_offset: p.view_offset,
        playing: p.playing,
        speed: p.speed,
        seek: p.seek,
        bars: p.bars,
    }
}

pub fn clone_preset(p: &Preset) -> (r: Preset)
    ensures
        r@ == p@,
{
    let mut panes: Vec<PaneState> = Vec::new();
    let mut i: usize = 0;
    while i < p.panes.len()
        invariant
            i <= p.panes@.len(),
            panes@.len() == i,
            forall|k: int| 0 <= k < i ==> (#[trigger] panes@[k])@ == p.panes@[k]@,
        decreases p.panes@.len() - i,
    {
        panes.push(clone_pane(&p.panes[i]));
        i = i + 1;
    }
    let r = Preset { name: p.name.clone(), split: p.split, panes };
    proof {
        assert(r.panes@.map_values(|q: PaneState| q@) =~= p.panes@.map_values(
            |q: PaneState| q@,
        ));
    }
    r
}

pub fn clone_history(d: &DatasetHistory) -> (r: DatasetHistory)
    ensures
        r@ == d@,
{
    DatasetHistory { path: d.path.clone(), last_used: d.last_used }
}

} // verus!
