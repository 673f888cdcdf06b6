use vstd::prelude::*;
use crate::model::{clone_history, DatasetHistory, HistoryModel};
use crate::text::{eq_chars, to_chars};

verus! {

/// The history without any record whose path equals `p`, order kept.
pub open spec fn drop_pathed(h: Seq<HistoryModel>, p: Seq<char>) -> Seq<HistoryModel>
    decreases h.len(),
{
    if h.len() == 0 {
        h
    } else if h.last().path == p {
        drop_pathed(h.drop_last(), p)
    } else {
        drop_pathed(h.drop_last(), p).push(h.last())
    }
}

/// Law: the filtered history holds no record for the dropped path.
pub proof fn lemma_drop_pathed_excludes(h: Seq<HistoryModel>, p: Seq<char>)
    ensures
        forall|k: int|
            0 <= k < drop_pathed(h, p).len() ==> (#[trigger] drop_pathed(h, p)[k]).path != p,
    decreases h.len(),
{
    if h.len() > 0 {
        lemma_drop_pathed_excludes(h.drop_last(), p);
        if h.last().path != p {
            assert forall|k: int| 0 <= k < drop_pathed(h, p).len() implies (#[trigger] drop_pathed(
                h,
                p,
            )[k]).path != p by {
                if k < drop_pathed(h, p).len() - 1 {
                    assert(drop_pathed(h, p)[k] == drop_pathed(h.drop_last(), p)[k]);
                }
            }
        }
    }
}

/// How many history records are kept at most.
pub const HISTORY_LIMIT: usize = 10;

/// The most-recently-used update: prior records for `path` go, a fresh record
/// for it comes first, and at most ten records stay.
pub fn update_history(history: &Vec<DatasetHistory>, path: &str, now: i64) -> (r: Vec<
    DatasetHistory,
>)
    ensures
        ({
            let hm = history@.map_values(|d: DatasetHistory| d@);
            let kept = drop_pathed(hm, path@);
            &&& r@.len() == (if 1 + kept.len() as int <= HISTORY_LIMIT as int {
                1 + kept.len() as int
            } else {
                HISTORY_LIMIT as int
            })
            &&& r@[0]@.path == path@ && r@[0]@.last_used == now
            &&& (forall|k: int| 1 <= k < r@.len() ==> (#[trigger] r@[k])@ == kept[k - 1])
        }),
{
    let ghost hm = history@.map_values(|d: DatasetHistory| d@);
    let pv = to_chars(path);
    let mut kept: Vec<DatasetHistory> = Vec::new();
    let mut i: usize = 0;
    while i < history.len()
        invariant
            pv@ == path@,
            i <= history@.len(),
            hm == history@.map_values(|d: DatasetHistory| d@),
            kept@.map_values(|d: DatasetHistory| d@) == drop_pathed(
                hm.subrange(0, i as int),
                path@,
            ),
        decreases history@.len() - i,
    {
        proof {
            let a = hm.subrange(0, i as int);
            let b = hm.subrange(0, i as int + 1);
            assert(b.drop_last() =~= a);
            assert(b.last() == hm[i as int]);
            assert(hm[i as int] == history@[i as int]@);
        }
        let ghost old_kept = kept@;
        let entry = &history[i];
        let ev = to_chars(entry.path.as_str());
        if !eq_chars(&ev, &pv) {
            kept.push(clone_history(entry));
            proof {
                assert(kept@.map_values(|d: DatasetHistory| d@) =~= old_kept.map_values(
                    |d: DatasetHistory| d@,
                ).push(hm[i as int]));
            }
        }
        i = i + 1;
    }
    proof {
        assert(hm.subrange(0, hm.len() as int) =~= hm);
    }
    let mut out: Vec<DatasetHistory> = Vec::new();
    out.push(DatasetHistory { path: String::from_str(path), last_used: now });
    let mut k: usize = 0;
    while k < kept.len() && out.len() < HISTORY_LIMIT
        invariant
            k <= kept@.len(),
            out@.len() == 1 + k,
            out@.len() <= HISTORY_LIMIT as int,
            out@[0]@.path == path@ && out@[0]@.last_used == now,
            kept@.map_values(|d: DatasetHistory| d@) == drop_pathed(hm, path@),
            forall|j: int| 1 <= j < out@.len() ==> (#[trigger] out@[j])@ == drop_pathed(
                hm,
                path@,
            )[j - 1],
        decreases kept@.len() - k,
    {
        proof {
            assert(kept@[k as int]@ == drop_pathed(hm, path@)[k as int]);
        }
        out.push(clone_history(&kept[k]));
        k = k + 1;
    }
    out
}

} // verus!
