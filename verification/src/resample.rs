use vstd::prelude::*;
use vstd::arithmetic::div_mod::{lemma_div_is_ordered, lemma_mod_multiples_basic};
use crate::calendar::{div_tr, div_tr_exec, format_ts, format_ts_spec, lemma_div_tr,
    lemma_format_parse_round_trip, parse_ts, parse_ts_err, parse_ts_spec, EPOCH_BOUND, FE_BOUND};
use crate::errors::EngineError;
use crate::interval::{ts_eval, Interval};
use crate::model::{Candle, CandleModel, DataSet};

verus! {

/// The start of the bucket holding epoch `e`: `e` brought down to a multiple
/// of the width `w` by Rust's truncating remainder, as `e - e % w` computes.
pub open spec fn bucket_of(e: int, w: int) -> int {
    w * div_tr(e, w)
}

pub fn bucket_exec(e: i64, w: i64) -> (r: i64)
    requires
        1 <= w <= 86400,
        -EPOCH_BOUND <= e <= EPOCH_BOUND,
    ensures
        r == bucket_of(e as int, w as int),
        -EPOCH_BOUND - 86400 <= r <= EPOCH_BOUND + 86400,
{
    let q = div_tr_exec(e, w);
    proof {
        lemma_div_tr(e as int, w as int);
    }
    w * q
}

/// Whether index `i` opens a new bucket: it is the first candle, or its
/// bucket start differs from its predecessor's.
pub open spec fn is_start(es: Seq<int>, w: int, i: int) -> bool {
    i == 0 || bucket_of(es[i], w) != bucket_of(es[i - 1], w)
}

/// The bucket-opening indices among the first `n`, in ascending order.
pub open spec fn starts_upto(es: Seq<int>, w: int, n: int) -> Seq<int>
    decreases n,
{
    if n <= 0 {
        Seq::empty()
    } else if is_start(es, w, n - 1) {
        starts_upto(es, w, n - 1).push(n - 1)
    } else {
        starts_upto(es, w, n - 1)
    }
}

pub open spec fn starts_of(es: Seq<int>, w: int) -> Seq<int> {
    starts_upto(es, w, es.len() as int)
}

/// The epochs the candles' timestamps denote.
pub open spec fn epochs_of(c: Seq<CandleModel>) -> Seq<int> {
    Seq::new(c.len(), |i: int| ts_eval(c[i].ts))
}

pub open spec fn all_ts_parse(c: Seq<CandleModel>) -> bool {
    forall|i: int| 0 <= i < c.len() ==> parse_ts_spec(#[trigger] c[i].ts) is Some
}

/// The least index whose timestamp does not parse.
pub open spec fn first_bad(c: Seq<CandleModel>) -> int
    decreases c.len(),
{
    if c.len() == 0 {
        0
    } else if parse_ts_spec(c[0].ts) is None {
        0
    } else {
        1 + first_bad(c.drop_first())
    }
}

proof fn lemma_first_bad_at(c: Seq<CandleModel>, i: int)
    requires
        0 <= i < c.len(),
        forall|k: int| 0 <= k < i ==> parse_ts_spec(#[trigger] c[k].ts) is Some,
        parse_ts_spec(c[i].ts) is None,
    ensures
        first_bad(c) == i,
    decreases i,
{
    if i > 0 {
        let d = c.drop_first();
        assert(forall|k: int| 0 <= k < i - 1 ==> #[trigger] d[k].ts == c[k + 1].ts);
        lemma_first_bad_at(d, i - 1);
    }
}

/// One output bucket: the half-open input index range it covers and its
/// bucket start epoch.
#[derive(Debug, Clone, Copy, PartialEq, Eq, Structural)]
pub struct Segment {
    pub start: usize,
    pub end: usize,
    pub bucket: i64,
}

/// How a segment list renders the run structure of the input: one segment
/// per bucket-opening index, each ending where the next begins, each
/// carrying its first candle's bucket start.
pub open spec fn plan_matches(c: Seq<CandleModel>, w: int, segs: Seq<Segment>) -> bool {
    let es = epochs_of(c);
    let st = starts_of(es, w);
    &&& segs.len() == st.len()
    &&& (forall|j: int| 0 <= j < segs.len() ==> (#[trigger] segs[j]).start as int == st[j])
    &&& (forall|j: int|
        0 <= j < segs.len() ==> (#[trigger] segs[j]).end as int == (if j + 1 < segs.len() {
            st[j + 1]
        } else {
            c.len() as int
        }))
    &&& (forall|j: int|
        0 <= j < segs.len() ==> (#[trigger] segs[j]).bucket as int == bucket_of(
            es[segs[j].start as int],
            w,
        ))
}

pub proof fn lemma_starts_props(es: Seq<int>, w: int, n: int)
    requires
        0 <= n <= es.len(),
    ensures
        forall|j: int|
            0 <= j < starts_upto(es, w, n).len() ==> 0 <= #[trigger] starts_upto(es, w, n)[j] < n,
        forall|j: int|
            0 <= j < starts_upto(es, w, n).len() - 1 ==> #[trigger] starts_upto(es, w, n)[j]
                < starts_upto(es, w, n)[j + 1],
        n > 0 ==> starts_upto(es, w, n).len() > 0 && starts_upto(es, w, n)[0] == 0,
        forall|i: int|
            0 <= i < n ==> (is_start(es, w, i) <==> starts_upto(es, w, n).contains(i)),
    decreases n,
{
    if n > 0 {
        lemma_starts_props(es, w, n - 1);
        let prev = starts_upto(es, w, n - 1);
        let cur = starts_upto(es, w, n);
        if is_start(es, w, n - 1) {
            assert(cur == prev.push(n - 1));
            assert forall|i: int| 0 <= i < n implies (is_start(es, w, i) <==> cur.contains(i)) by {
                if i < n - 1 {
                    if prev.contains(i) {
                        let k = choose|k: int| 0 <= k < prev.len() && prev[k] == i;
                        assert(cur[k] == i);
                    }
                    if cur.contains(i) {
                        let k = choose|k: int| 0 <= k < cur.len() && cur[k] == i;
                        if k < prev.len() {
                            assert(prev[k] == i);
                        }
                    }
                } else {
                    assert(cur[cur.len() - 1] == n - 1);
                }
            }
        } else {
            assert(cur == prev);
            assert forall|i: int| 0 <= i < n implies (is_start(es, w, i) <==> cur.contains(i)) by {
                if i < n - 1 {
                    if cur.contains(i) {
                        let k = choose|k: int| 0 <= k < cur.len() && cur[k] == i;
                        assert(prev[k] == i);
                    }
                    if prev.contains(i) {
                        let k = choose|k: int| 0 <= k < prev.len() && prev[k] == i;
                        assert(cur[k] == i);
                    }
                } else {
                    if cur.contains(i) {
                        let k = choose|k: int| 0 <= k < cur.len() && cur[k] == i;
                        assert(0 <= prev[k] < n - 1);
                    }
                }
            }
        }
    }
}

/// Splits the dataset into its bucket runs for the target granularity. The
/// first unparseable timestamp aborts the whole operation.
#[verifier::rlimit(100)]
pub fn resample_plan(ds: &DataSet, target: Interval) -> (r: Result<Vec<Segment>, EngineError>)
    ensures
        (match r {
            Ok(segs) => {
                &&& all_ts_parse(ds.spec_candles())
                &&& plan_matches(
                    ds.spec_candles(),
                    target.spec_seconds() as int,
                    segs@,
                )
                &&& (forall|j: int|
                    0 <= j < segs@.len() ==> -FE_BOUND <= (#[trigger] segs@[j]).bucket
                        <= FE_BOUND)
            },
            Err(e) => {
                &&& !all_ts_parse(ds.spec_candles())
                &&& (e matches EngineError::InvalidTimestamp { detail } && detail@ == parse_ts_err(
                    ds.spec_candles()[first_bad(ds.spec_candles())].ts,
                ))
            },
        }),
{
    let ghost c = ds.spec_candles();
    let ghost w = target.spec_seconds() as int;
    let ghost es = epochs_of(c);
    let n = ds.candles.len();
    let wid = target.seconds();

    let mut epochs: Vec<i64> = Vec::new();
    let mut i: usize = 0;
    while i < n
        invariant
            n == c.len(),
            c == ds.spec_candles(),
            es == epochs_of(c),
            i <= n,
            epochs@.len() == i,
            forall|k: int| 0 <= k < i ==> parse_ts_spec(#[trigger] c[k].ts) is Some,
            forall|k: int|
                0 <= k < i ==> #[trigger] epochs@[k] as int == es[k] && -EPOCH_BOUND <= epochs@[k]
                    <= EPOCH_BOUND,
        decreases n - i,
    {
        proof {
            assert(c[i as int].ts == ds.candles@[i as int].ts_utc@);
        }
        match parse_ts(ds.candles[i].ts_utc.as_str()) {
            Ok(e) => {
                epochs.push(e);
            },
            Err(err) => {
                proof {
                    lemma_first_bad_at(c, i as int);
                }
                return Err(err);
            },
        }
        i = i + 1;
    }

    let mut starts: Vec<usize> = Vec::new();
    let mut i: usize = 0;
    while i < n
        invariant
            n == c.len(),
            c == ds.spec_candles(),
            es == epochs_of(c),
            i <= n,
            epochs@.len() == n,
            60 <= wid <= 86400,
            wid == target.spec_seconds(),
            w == wid as int,
            forall|k: int| 0 <= k < n ==> parse_ts_spec(#[trigger] c[k].ts) is Some,
            forall|k: int|
                0 <= k < n ==> #[trigger] epochs@[k] as int == es[k] && -EPOCH_BOUND <= epochs@[k]
                    <= EPOCH_BOUND,
            starts@.map_values(|u: usize| u as int) == starts_upto(es, w, i as int),
            forall|k: int| 0 <= k < starts@.len() ==> #[trigger] starts@[k] < n,
        decreases n - i,
    {
        let b = bucket_exec(epochs[i], wid);
        let open_new: bool = if i == 0 {
            true
        } else {
            let pb = bucket_exec(epochs[i - 1], wid);
            b != pb
        };
        let ghost old_starts = starts@;
        if open_new {
            starts.push(i);
            proof {
                assert(is_start(es, w, i as int));
                assert(starts@.map_values(|u: usize| u as int) =~= old_starts.map_values(
                    |u: usize| u as int,
                ).push(i as int));
            }
        } else {
            proof {
                assert(!is_start(es, w, i as int));
            }
        }
        i = i + 1;
    }

    let m = starts.len();
    proof {
        assert(es.len() == n);
        assert(starts_upto(es, w, n as int) == starts_of(es, w));
        lemma_starts_props(es, w, n as int);
    }
    let mut segs: Vec<Segment> = Vec::new();
    let mut j: usize = 0;
    while j < m
        invariant
            n == c.len(),
            es == epochs_of(c),
            m == starts@.len(),
            j <= m,
            epochs@.len() == n,
            60 <= wid <= 86400,
            wid == target.spec_seconds(),
            w == wid as int,
            forall|k: int|
                0 <= k < n ==> #[trigger] epochs@[k] as int == es[k] && -EPOCH_BOUND <= epochs@[k]
                    <= EPOCH_BOUND,
            starts@.map_values(|u: usize| u as int) == starts_of(es, w),
            forall|k: int| 0 <= k < m ==> 0 <= #[trigger] starts@[k] < n,
            segs@.len() == j,
            forall|k: int| 0 <= k < j ==> (#[trigger] segs@[k]).start as int == starts_of(es, w)[k],
            forall|k: int|
                0 <= k < j ==> (#[trigger] segs@[k]).end as int == (if k + 1 < m {
                    starts_of(es, w)[k + 1]
                } else {
                    n as int
                }),
            forall|k: int|
                0 <= k < j ==> (#[trigger] segs@[k]).bucket as int == bucket_of(
                    es[segs@[k].start as int],
                    w,
                ) && -FE_BOUND <= segs@[k].bucket <= FE_BOUND,
        decreases m - j,
    {
        let st = starts[j];
        let en = if j + 1 < m {
            starts[j + 1]
        } else {
            n
        };
        proof {
            assert(epochs@[st as int] as int == es[st as int]);
        }
        let b = bucket_exec(epochs[st], wid);
        segs.push(Segment { start: st, end: en, bucket: b });
        j = j + 1;
        proof {
            assert((segs@[j - 1]).start == st);
            assert((segs@[j - 1]).bucket as int == bucket_of(es[st as int], w));
        }
    }
    Ok(segs)
}

/// Builds the resampled dataset from the bucket runs and, for each run, the
/// folded high, low and volume words supplied by the caller: each output
/// candle carries its bucket's canonical timestamp, the first candle's open
/// and the last candle's close of its run, and the supplied folds.
pub fn resample_assemble(
    ds: &DataSet,
    segs: &Vec<Segment>,
    highs: &Vec<u64>,
    lows: &Vec<u64>,
    vols: &Vec<u64>,
) -> (r: DataSet)
    requires
        forall|j: int|
            0 <= j < segs@.len() ==> 0 <= (#[trigger] segs@[j]).start < segs@[j].end
                <= ds.spec_candles().len(),
        forall|j: int|
            0 <= j < segs@.len() ==> -FE_BOUND <= (#[trigger] segs@[j]).bucket <= FE_BOUND,
        highs@.len() == segs@.len(),
        lows@.len() == segs@.len(),
        vols@.len() == segs@.len(),
    ensures
        r.source_path@ == ds.source_path@,
        r.spec_candles().len() == segs@.len(),
        forall|j: int|
            0 <= j < segs@.len() ==> {
                let oc = #[trigger] r.spec_candles()[j];
                let c = ds.spec_candles();
                &&& oc.ts == format_ts_spec(segs@[j].bucket as int)
                &&& oc.open == c[segs@[j].start as int].open
                &&& oc.close == c[segs@[j].end as int - 1].close
                &&& oc.high == highs@[j]
                &&& oc.low == lows@[j]
                &&& oc.volume == vols@[j]
            },
{
    let ghost c = ds.spec_candles();
    let mut out: Vec<Candle> = Vec::new();
    let mut j: usize = 0;
    while j < segs.len()
        invariant
            c == ds.spec_candles(),
            j <= segs@.len(),
            highs@.len() == segs@.len(),
            lows@.len() == segs@.len(),
            vols@.len() == segs@.len(),
            forall|k: int|
                0 <= k < segs@.len() ==> 0 <= (#[trigger] segs@[k]).start < segs@[k].end
                    <= c.len(),
            forall|k: int|
                0 <= k < segs@.len() ==> -FE_BOUND <= (#[trigger] segs@[k]).bucket <= FE_BOUND,
            out@.len() == j,
            forall|k: int|
                0 <= k < j ==> {
                    let oc = (#[trigger] out@[k])@;
                    &&& oc.ts == format_ts_spec(segs@[k].bucket as int)
                    &&& oc.open == c[segs@[k].start as int].open
                    &&& oc.close == c[segs@[k].end as int - 1].close
                    &&& oc.high == highs@[k]
                    &&& oc.low == lows@[k]
                    &&& oc.volume == vols@[k]
                },
        decreases segs@.len() - j,
    {
        let sg = segs[j];
        let ts = format_ts(sg.bucket);
        let open = ds.candles[sg.start].open;
        let close = ds.candles[sg.end - 1].close;
        let ghost old_out = out@;
        out.push(
            Candle {
                ts_utc: ts,
                open,
                high: highs[j],
                low: lows[j],
                close,
                volume: vols[j],
            },
        );
        j = j + 1;
        proof {
            assert(out@.map_values(|cd: Candle| cd@) =~= old_out.map_values(|cd: Candle| cd@).push(
                out@[j - 1]@,
            ));
            assert(c[sg.start as int].open == ds.candles@[sg.start as int]@.open);
            assert(c[sg.end as int - 1].close == ds.candles@[sg.end as int - 1]@.close);
        }
    }
    DataSet { source_path: ds.source_path.clone(), candles: out }
}

proof fn lemma_div_tr_monotone(a1: int, a2: int, b: int)
    requires
        a1 <= a2,
        b > 0,
    ensures
        div_tr(a1, b) <= div_tr(a2, b),
{
    if a1 >= 0 {
        lemma_div_is_ordered(a1, a2, b);
    } else if a2 < 0 {
        lemma_div_is_ordered(-a2, -a1, b);
    } else {
        lemma_div_tr(a1, b);
        lemma_div_tr(a2, b);
    }
}

proof fn lemma_bucket_monotone(a1: int, a2: int, b: int)
    requires
        a1 <= a2,
        b > 0,
    ensures
        bucket_of(a1, b) <= bucket_of(a2, b),
{
    lemma_div_tr_monotone(a1, a2, b);
    let d1 = div_tr(a1, b);
    let d2 = div_tr(a2, b);
    assert(b * d1 <= b * d2) by (nonlinear_arith)
        requires
            d1 <= d2,
            b > 0,
    ;
}

proof fn lemma_epochs_sorted(es: Seq<int>, i1: int, i2: int)
    requires
        forall|i: int| 0 <= i < es.len() - 1 ==> #[trigger] es[i] < es[i + 1],
        0 <= i1 <= i2 < es.len(),
    ensures
        es[i1] <= es[i2],
    decreases i2 - i1,
{
    if i1 < i2 {
        lemma_epochs_sorted(es, i1 + 1, i2);
        assert(es[i1] < es[i1 + 1]);
    }
}

/// Law: over strictly time-ascending input, the resampling plan's bucket
/// starts ascend strictly and each is an exact multiple of the bucket width.
pub proof fn lemma_resample_buckets(c: Seq<CandleModel>, w: int, segs: Seq<Segment>)
    requires
        w >= 1,
        all_ts_parse(c),
        forall|i: int|
            0 <= i < c.len() - 1 ==> #[trigger] ts_eval(c[i].ts) < ts_eval(c[i + 1].ts),
        plan_matches(c, w, segs),
    ensures
        forall|j: int| 0 <= j < segs.len() ==> (#[trigger] segs[j]).bucket as int % w == 0,
        forall|j: int|
            0 <= j < segs.len() - 1 ==> ((#[trigger] segs[j]).bucket as int)
                < segs[j + 1].bucket as int,
{
    let es = epochs_of(c);
    let st = starts_of(es, w);
    lemma_starts_props(es, w, es.len() as int);
    assert(forall|i: int| 0 <= i < es.len() - 1 ==> #[trigger] es[i] < es[i + 1]) by {
        assert forall|i: int| 0 <= i < es.len() - 1 implies #[trigger] es[i] < es[i + 1] by {
            assert(ts_eval(c[i].ts) < ts_eval(c[i + 1].ts));
        }
    }
    assert forall|j: int| 0 <= j < segs.len() implies (#[trigger] segs[j]).bucket as int % w
        == 0 by {
        let e = es[segs[j].start as int];
        lemma_mod_multiples_basic(div_tr(e, w), w);
        assert(div_tr(e, w) * w == w * div_tr(e, w)) by (nonlinear_arith);
    }
    assert forall|j: int| 0 <= j < segs.len() - 1 implies ((#[trigger] segs[j]).bucket as int)
        < segs[j + 1].bucket as int by {
        let s1 = st[j];
        let s2 = st[j + 1];
        assert(segs[j].start as int == s1);
        assert(segs[j + 1].start as int == s2);
        assert(0 <= s1 < es.len());
        assert(0 <= s2 < es.len());
        assert(s1 < s2);
        // the opener of the next run differs from its predecessor's bucket
        assert(st.contains(s2)) by {
            assert(st[j + 1] == s2);
        }
        assert(is_start(es, w, s2));
        assert(bucket_of(es[s2 - 1], w) != bucket_of(es[s2], w));
        // buckets never decrease along the input
        lemma_epochs_sorted(es, s1, s2 - 1);
        lemma_bucket_monotone(es[s1], es[s2 - 1], w);
        lemma_epochs_sorted(es, s2 - 1, s2);
        lemma_bucket_monotone(es[s2 - 1], es[s2], w);
    }
}

/// Law: the plan's segments partition the input exactly: they are non-empty,
/// contiguous, start at the first candle and end at the last.
pub proof fn lemma_plan_partition(c: Seq<CandleModel>, w: int, segs: Seq<Segment>)
    requires
        w >= 1,
        plan_matches(c, w, segs),
    ensures
        c.len() == 0 ==> segs.len() == 0,
        c.len() > 0 ==> segs.len() > 0 && segs[0].start == 0,
        forall|j: int|
            0 <= j < segs.len() ==> (#[trigger] segs[j]).start < segs[j].end <= c.len(),
        forall|j: int| 0 <= j < segs.len() - 1 ==> (#[trigger] segs[j]).end == segs[j + 1].start,
        segs.len() > 0 ==> segs[segs.len() - 1].end == c.len(),
{
    let es = epochs_of(c);
    lemma_starts_props(es, w, es.len() as int);
}

/// Law: when the input candles ascend strictly in time and their epochs are
/// non-negative and within the canonical-text range, the assembled output's
/// timestamps parse back to exactly the plan's bucket starts - so the output
/// ascends strictly and sits on multiples of the bucket width, read straight
/// off its text.
pub proof fn lemma_resample_output_timestamps(
    c: Seq<CandleModel>,
    w: int,
    segs: Seq<Segment>,
    out: Seq<CandleModel>,
)
    requires
        w >= 1,
        all_ts_parse(c),
        forall|i: int|
            0 <= i < c.len() ==> 0 <= #[trigger] ts_eval(c[i].ts) <= 30_000_000_000_000_000,
        forall|i: int|
            0 <= i < c.len() - 1 ==> #[trigger] ts_eval(c[i].ts) < ts_eval(c[i + 1].ts),
        plan_matches(c, w, segs),
        out.len() == segs.len(),
        forall|j: int|
            0 <= j < out.len() ==> (#[trigger] out[j]).ts == format_ts_spec(segs[j].bucket as int),
    ensures
        forall|j: int|
            0 <= j < out.len() ==> parse_ts_spec((#[trigger] out[j]).ts) == Some(
                segs[j].bucket as int,
            ),
        forall|j: int| 0 <= j < segs.len() ==> (#[trigger] segs[j]).bucket as int % w == 0,
        forall|j: int|
            0 <= j < segs.len() - 1 ==> ((#[trigger] segs[j]).bucket as int)
                < segs[j + 1].bucket as int,
{
    lemma_resample_buckets(c, w, segs);
    let es = epochs_of(c);
    lemma_starts_props(es, w, es.len() as int);
    assert forall|j: int| 0 <= j < out.len() implies parse_ts_spec((#[trigger] out[j]).ts)
        == Some(segs[j].bucket as int) by {
        let st = starts_of(es, w)[j];
        assert(segs[j].start as int == st);
        assert(0 <= st < c.len());
        let e = es[st];
        assert(e == ts_eval(c[st].ts));
        assert(0 <= e <= 30_000_000_000_000_000);
        lemma_div_tr(e, w);
        assert(segs[j].bucket as int == w * div_tr(e, w));
        assert(0 <= segs[j].bucket as int <= e);
        lemma_format_parse_round_trip(segs[j].bucket as int);
    }
}

} // verus!
