//! The flat preset projection of a catalog, and the writes that applying a
//! preset to a catalog makes.
use vstd::prelude::*;

use crate::catalog::views;
use crate::models::{
    copy_strings, strings_view, ControlDescriptor, DescriptorModel, PresetControlValue, PresetFile,
};

verus! {

/// The preset format version that this library writes.
pub const PRESET_SCHEMA_VERSION: u32 = 1;

/// Projects a catalog onto a preset: the card's name and, for each control in
/// catalog order, its numid and values.
pub fn to_preset(card_name: &str, controls: &[ControlDescriptor]) -> (r: PresetFile)
    ensures
        r.schema_version == PRESET_SCHEMA_VERSION,
        r.card_name@ == card_name@,
        r.controls@.len() == controls@.len(),
        forall|i: int|
            0 <= i < controls@.len() ==> (#[trigger] r.controls@[i]).numid == controls@[i].numid
                && strings_view(r.controls@[i].values@) == controls@[i]@.values,
{
    let mut out: Vec<PresetControlValue> = Vec::new();
    let mut i: usize = 0;
    while i < controls.len()
        invariant
            i <= controls@.len(),
            out@.len() == i,
            forall|j: int|
                0 <= j < i ==> (#[trigger] out@[j]).numid == controls@[j].numid && strings_view(
                    out@[j].values@,
                ) == controls@[j]@.values,
        decreases controls@.len() - i,
    {
        out.push(PresetControlValue { numid: controls[i].numid, values: copy_strings(&controls[i].values) });
        i = i + 1;
    }
    PresetFile {
        schema_version: PRESET_SCHEMA_VERSION,
        card_name: String::from_str(card_name),
        controls: out,
    }
}

/// The position of the last of the first `n` preset entries with this numid.
pub open spec fn last_entry(entries: Seq<PresetControlValue>, numid: u32, n: int) -> Option<int>
    decreases n,
{
    if n <= 0 {
        None
    } else if entries[n - 1].numid == numid {
        Some(n - 1)
    } else {
        last_entry(entries, numid, n - 1)
    }
}

/// The writes that applying a preset to the first `n` controls makes: one for
/// each control whose numid the preset holds, in catalog order, with the values
/// of the preset's last entry for that numid.
pub open spec fn preset_plan(
    controls: Seq<DescriptorModel>,
    entries: Seq<PresetControlValue>,
    n: int,
) -> Seq<(u32, Seq<Seq<char>>)>
    decreases n,
{
    if n <= 0 {
        Seq::empty()
    } else {
        let earlier = preset_plan(controls, entries, n - 1);
        let numid = controls[n - 1].numid;
        match last_entry(entries, numid, entries.len() as int) {
            Some(k) => earlier.push((numid, strings_view(entries[k].values@))),
            None => earlier,
        }
    }
}

pub open spec fn plan_view(v: Seq<PresetControlValue>) -> Seq<(u32, Seq<Seq<char>>)> {
    v.map_values(|p: PresetControlValue| (p.numid, strings_view(p.values@)))
}

fn last_preset_entry(entries: &Vec<PresetControlValue>, numid: u32) -> (r: Option<usize>)
    ensures
        match r {
            Some(k) => last_entry(entries@, numid, entries@.len() as int) == Some(k as int) && k
                < entries@.len(),
            None => last_entry(entries@, numid, entries@.len() as int) is None,
        },
{
    let mut i: usize = entries.len();
    while i > 0
        invariant
            i <= entries@.len(),
            last_entry(entries@, numid, entries@.len() as int) == last_entry(entries@, numid, i as int),
        decreases i,
    {
        if entries[i - 1].numid == numid {
            return Some(i - 1);
        }
        i = i - 1;
    }
    None
}

/// The writes that applying `preset` to the catalog `controls` makes, in catalog
/// order: for each control whose numid the preset holds, that numid with the
/// values of the preset's last entry for it. Controls that the preset does not
/// name are left alone.
pub fn preset_writes(preset: &PresetFile, controls: &Vec<ControlDescriptor>) -> (r: Vec<
    PresetControlValue,
>)
    ensures
        plan_view(r@) == preset_plan(views(controls@), preset.controls@, controls@.len() as int),
{
    let ghost cs = views(controls@);
    let mut out: Vec<PresetControlValue> = Vec::new();
    let mut i: usize = 0;
    while i < controls.len()
        invariant
            i <= controls@.len(),
            cs == views(controls@),
            plan_view(out@) == preset_plan(cs, preset.controls@, i as int),
        decreases controls@.len() - i,
    {
        let numid = controls[i].numid;
        assert(cs[i as int].numid == numid);
        match last_preset_entry(&preset.controls, numid) {
            Some(k) => {
                let entry = PresetControlValue {
                    numid,
                    values: copy_strings(&preset.controls[k].values),
                };
                let ghost before = out@;
                out.push(entry);
                assert(plan_view(out@) =~= plan_view(before).push(
                    (numid, strings_view(preset.controls@[k as int].values@)),
                ));
            },
            None => {},
        }
        i = i + 1;
    }
    out
}

} // verus!
