use vstd::prelude::*;
use crate::model::{clone_preset, Preset, PresetModel};
use crate::text::{eq_chars, to_chars, trim_chars, trim_spec};

verus! {

/// The list without any preset whose name equals `n`, order kept.
pub open spec fn drop_named(h: Seq<PresetModel>, n: Seq<char>) -> Seq<PresetModel>
    decreases h.len(),
{
    if h.len() == 0 {
        h
    } else if h.last().name == n {
        drop_named(h.drop_last(), n)
    } else {
        drop_named(h.drop_last(), n).push(h.last())
    }
}

/// Law: the filtered list holds no preset of the dropped name.
pub proof fn lemma_drop_named_excludes(h: Seq<PresetModel>, n: Seq<char>)
    ensures
        forall|k: int|
            0 <= k < drop_named(h, n).len() ==> (#[trigger] drop_named(h, n)[k]).name != n,
    decreases h.len(),
{
    if h.len() > 0 {
        lemma_drop_named_excludes(h.drop_last(), n);
        if h.last().name != n {
            assert forall|k: int| 0 <= k < drop_named(h, n).len() implies (#[trigger] drop_named(
                h,
                n,
            )[k]).name != n by {
                if k < drop_named(h, n).len() - 1 {
                    assert(drop_named(h, n)[k] == drop_named(h.drop_last(), n)[k]);
                }
            }
        }
    }
}

/// The first preset carrying the name, scanning from the front.
pub open spec fn first_named(h: Seq<PresetModel>, n: Seq<char>) -> Option<PresetModel>
    decreases h.len(),
{
    if h.len() == 0 {
        None
    } else if h[0].name == n {
        Some(h[0])
    } else {
        first_named(h.drop_first(), n)
    }
}

/// Whether a preset name is acceptable: not blank once trimmed.
pub fn preset_name_valid(name: &str) -> (r: bool)
    ensures
        r == (trim_spec(name@).len() > 0),
{
    let v = to_chars(name);
    let t = trim_chars(&v);
    t.len() > 0
}

fn drop_named_exec(presets: &Vec<Preset>, name: &Vec<char>) -> (r: Vec<Preset>)
    ensures
        r@.map_values(|p: Preset| p@) == drop_named(
            presets@.map_values(|p: Preset| p@),
            name@,
        ),
{
    let ghost pm = presets@.map_values(|p: Preset| p@);
    let mut kept: Vec<Preset> = Vec::new();
    let mut i: usize = 0;
    while i < presets.len()
        invariant
            i <= presets@.len(),
            pm == presets@.map_values(|p: Preset| p@),
            kept@.map_values(|p: Preset| p@) == drop_named(pm.subrange(0, i as int), name@),
        decreases presets@.len() - i,
    {
        proof {
            let a = pm.subrange(0, i as int);
            let b = pm.subrange(0, i as int + 1);
            assert(b.drop_last() =~= a);
            assert(b.last() == pm[i as int]);
            assert(pm[i as int] == presets@[i as int]@);
        }
        let ghost old_kept = kept@;
        let entry = &presets[i];
        let ev = to_chars(entry.name.as_str());
        if !eq_chars(&ev, name) {
            kept.push(clone_preset(entry));
            proof {
                assert(kept@.map_values(|p: Preset| p@) =~= old_kept.map_values(
                    |p: Preset| p@,
                ).push(pm[i as int]));
            }
        }
        i = i + 1;
    }
    proof {
        assert(pm.subrange(0, pm.len() as int) =~= pm);
    }
    kept
}

/// Replaces any preset of the same name and appends the new one at the end.
pub fn upsert_preset(presets: &Vec<Preset>, preset: Preset) -> (r: Vec<Preset>)
    ensures
        r@.map_values(|p: Preset| p@) == drop_named(
            presets@.map_values(|p: Preset| p@),
            preset.name@,
        ).push(preset@),
{
    let nv = to_chars(preset.name.as_str());
    let ghost old_name = preset.name@;
    let mut kept = drop_named_exec(presets, &nv);
    let ghost before = kept@;
    kept.push(preset);
    proof {
        assert(kept@.map_values(|p: Preset| p@) =~= before.map_values(|p: Preset| p@).push(
            kept@[kept@.len() - 1]@,
        ));
    }
    kept
}

/// Removes every preset of the name; the flag says whether any was there.
pub fn remove_preset(presets: &Vec<Preset>, name: &str) -> (r: (Vec<Preset>, bool))
    ensures
        r.0@.map_values(|p: Preset| p@) == drop_named(
            presets@.map_values(|p: Preset| p@),
            name@,
        ),
        r.1 == (drop_named(presets@.map_values(|p: Preset| p@), name@).len()
            != presets@.len()),
{
    let nv = to_chars(name);
    let n0 = presets.len();
    let kept = drop_named_exec(presets, &nv);
    proof {
        assert(kept@.map_values(|p: Preset| p@).len() == kept@.len());
    }
    let changed = kept.len() != n0;
    (kept, changed)
}

/// Finds the first preset of the name, scanning from the front.
pub fn find_preset(presets: &Vec<Preset>, name: &str) -> (r: Option<Preset>)
    ensures
        (match r {
            Some(p) => first_named(presets@.map_values(|q: Preset| q@), name@) == Some(p@),
            None => first_named(presets@.map_values(|q: Preset| q@), name@) is None,
        }),
{
    let ghost pm = presets@.map_values(|q: Preset| q@);
    let nv = to_chars(name);
    proof {
        assert(pm.subrange(0, pm.len() as int) =~= pm);
    }
    let mut i: usize = 0;
    while i < presets.len()
        invariant
            nv@ == name@,
            i <= presets@.len(),
            pm == presets@.map_values(|q: Preset| q@),
            first_named(pm, name@) == first_named(
                pm.subrange(i as int, pm.len() as int),
                name@,
            ),
        decreases presets@.len() - i,
    {
        proof {
            let rest = pm.subrange(i as int, pm.len() as int);
            assert(rest.len() > 0);
            assert(rest[0] == pm[i as int]);
            assert(pm[i as int] == presets@[i as int]@);
            assert(rest.drop_first() =~= pm.subrange(i as int + 1, pm.len() as int));
        }
        let entry = &presets[i];
        let ev = to_chars(entry.name.as_str());
        if eq_chars(&ev, &nv) {
            return Some(clone_preset(entry));
        }
        i = i + 1;
    }
    proof {
        assert(pm.subrange(pm.len() as int, pm.len() as int) =~= Seq::<PresetModel>::empty());
    }
    None
}

} // verus!
