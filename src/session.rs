//! What the backend session decides on plain values: which card to open, the
//! kind cache, re-reading values into an existing catalog, and carrying the
//! caller's flags across a rebuild.
use std::collections::HashMap;

use vstd::prelude::*;

use crate::catalog::{catalog_of, described, is_bijection, views, ElemSnapshot};
use crate::routing::spec_group_label;
use crate::codec::{decoded_values, read_values_for_kind, RawValues};
use crate::models::{CardInfo, ControlDescriptor, ControlKind, DescriptorModel, KindModel};
use crate::text::{contains_lowercased, lower_contains, format_u64};

verus! {

broadcast use vstd::std_specs::hash::group_hash_axioms;

/// The failures that the library reports.
#[derive(Debug, Clone, Copy, PartialEq, Eq, Structural)]
pub enum MixerError {
    /// The native handles are not open.
    BackendUnavailable,
    /// No sound card is present.
    DeviceEnumerationFailed,
    /// The requested card index is not among the cards present.
    CardNotFound { index: u32 },
    /// No live element has this numid.
    ControlNotFound { numid: u32 },
    /// A write protocol was handed an event that its current step does not expect.
    UnexpectedEvent,
}

impl MixerError {
    /// A sentence that describes the failure.
    pub fn message(&self) -> (r: String) {
        match self {
            MixerError::BackendUnavailable => String::from_str("native backend not initialized"),
            MixerError::DeviceEnumerationFailed => String::from_str("no sound cards detected"),
            MixerError::CardNotFound { index } => {
                let mut s = String::from_str("requested card index ");
                let n = format_u64(*index as u64);
                s.append(n.as_str());
                s.append(" not found");
                s
            },
            MixerError::ControlNotFound { numid } => {
                let mut s = String::from_str("control numid=");
                let n = format_u64(*numid as u64);
                s.append(n.as_str());
                s.append(" not found in native backend");
                s
            },
            MixerError::UnexpectedEvent => String::from_str("write protocol received an unexpected event"),
        }
    }
}

// ---- card choice ----

pub open spec fn card_token_ultra() -> Seq<char> {
    seq!['u', 'l', 't', 'r', 'a']
}

pub open spec fn card_token_f8r() -> Seq<char> {
    seq!['f', '8', 'r']
}

pub open spec fn card_token_fast_track() -> Seq<char> {
    seq!['f', 'a', 's', 't', ' ', 't', 'r', 'a', 'c', 'k']
}

/// A card whose lowered name names the product.
pub open spec fn is_preferred_card(name: Seq<char>) -> bool {
    lower_contains(name, card_token_ultra()) || lower_contains(name, card_token_f8r())
        || lower_contains(name, card_token_fast_track())
}

pub open spec fn is_first_card_with_index(cards: Seq<CardInfo>, index: u32, i: int) -> bool {
    0 <= i < cards.len() && cards[i].index == index && forall|j: int|
        0 <= j < i ==> (#[trigger] cards[j]).index != index
}

pub open spec fn is_first_preferred(cards: Seq<CardInfo>, i: int) -> bool {
    0 <= i < cards.len() && is_preferred_card(cards[i].name@) && forall|j: int|
        0 <= j < i ==> !is_preferred_card((#[trigger] cards[j]).name@)
}

/// Whether a card's name names the product.
pub fn preferred_card(name: &str) -> (r: bool)
    ensures
        r == is_preferred_card(name@),
{
    proof {
        reveal_strlit("ultra");
        reveal_strlit("f8r");
        reveal_strlit("fast track");
    }
    assert("ultra"@ =~= card_token_ultra());
    assert("f8r"@ =~= card_token_f8r());
    assert("fast track"@ =~= card_token_fast_track());
    contains_lowercased(name, "ultra") || contains_lowercased(name, "f8r")
        || contains_lowercased(name, "fast track")
}

/// Chooses the card to open: the one with the requested index, where one is
/// requested; else the first whose name names the product, else the first card.
pub fn choose_card(cards: &Vec<CardInfo>, card_override: Option<u32>) -> (r: Result<
    CardInfo,
    MixerError,
>)
    ensures
        cards@.len() == 0 ==> r == Err::<CardInfo, MixerError>(MixerError::DeviceEnumerationFailed),
        cards@.len() > 0 && card_override is Some ==> match r {
            Ok(c) => exists|i: int|
                is_first_card_with_index(cards@, card_override->0, i) && c.index == cards@[i].index
                    && c.name@ == cards@[i].name@,
            Err(e) => e == MixerError::CardNotFound { index: card_override->0 } && forall|i: int|
                0 <= i < cards@.len() ==> (#[trigger] cards@[i]).index != card_override->0,
        },
        cards@.len() > 0 && card_override is None ==> match r {
            Ok(c) => {
                ||| exists|i: int|
                    is_first_preferred(cards@, i) && c.index == cards@[i].index && c.name@
                        == cards@[i].name@
                ||| (forall|i: int|
                    0 <= i < cards@.len() ==> !is_preferred_card((#[trigger] cards@[i]).name@))
                    && c.index == cards@[0].index && c.name@ == cards@[0].name@
            },
            Err(_) => false,
        },
{
    if cards.len() == 0 {
        return Err(MixerError::DeviceEnumerationFailed);
    }
    match card_override {
        Some(idx) => {
            let mut i: usize = 0;
            while i < cards.len()
                invariant
                    i <= cards@.len(),
                    card_override == Some(idx),
                    forall|j: int| 0 <= j < i ==> (#[trigger] cards@[j]).index != idx,
                decreases cards@.len() - i,
            {
                if cards[i].index == idx {
                    assert(is_first_card_with_index(cards@, card_override->0, i as int));
                    return Ok(CardInfo { index: cards[i].index, name: cards[i].name.clone() });
                }
                i = i + 1;
            }
            Err(MixerError::CardNotFound { index: idx })
        },
        None => {
            let mut i: usize = 0;
            while i < cards.len()
                invariant
                    i <= cards@.len(),
                    card_override is None,
                    forall|j: int| 0 <= j < i ==> !is_preferred_card((#[trigger] cards@[j]).name@),
                decreases cards@.len() - i,
            {
                if preferred_card(cards[i].name.as_str()) {
                    assert(is_first_preferred(cards@, i as int));
                    return Ok(CardInfo { index: cards[i].index, name: cards[i].name.clone() });
                }
                i = i + 1;
            }
            Ok(CardInfo { index: cards[0].index, name: cards[0].name.clone() })
        },
    }
}

// ---- lookups by numid ----

/// The position of the last of the first `n` descriptors with this numid.
pub open spec fn last_with_numid(s: Seq<DescriptorModel>, numid: u32, n: int) -> Option<int>
    decreases n,
{
    if n <= 0 {
        None
    } else if s[n - 1].numid == numid {
        Some(n - 1)
    } else {
        last_with_numid(s, numid, n - 1)
    }
}

proof fn lemma_last_with_numid_found(s: Seq<DescriptorModel>, numid: u32, n: int)
    ensures
        last_with_numid(s, numid, n) is Some ==> 0 <= last_with_numid(s, numid, n)->0 < n
            && s[last_with_numid(s, numid, n)->0].numid == numid,
        (exists|j: int| 0 <= j < n && #[trigger] s[j].numid == numid) ==> last_with_numid(s, numid, n) is Some,
    decreases n,
{
    if n > 0 {
        lemma_last_with_numid_found(s, numid, n - 1);
        if s[n - 1].numid != numid {
            if exists|j: int| 0 <= j < n && #[trigger] s[j].numid == numid {
                let j = choose|j: int| 0 <= j < n && #[trigger] s[j].numid == numid;
                assert(j < n - 1);
            }
        }
    }
}

/// No two descriptors share a numid.
pub open spec fn distinct_numids(s: Seq<DescriptorModel>) -> bool {
    forall|a: int, b: int|
        0 <= a < s.len() && 0 <= b < s.len() && a != b ==> #[trigger] s[a].numid != #[trigger] s[b].numid
}

/// One reading of a live element, keyed by its numid.
#[derive(Debug, Clone)]
pub struct LiveReading {
    pub numid: u32,
    pub reading: RawValues,
}

/// The position of the first live reading with this numid, from `start` on.
pub open spec fn find_live_from(live: Seq<LiveReading>, numid: u32, start: int) -> Option<int>
    decreases live.len() - start,
{
    if start < 0 || start >= live.len() {
        None
    } else if live[start].numid == numid {
        Some(start)
    } else {
        find_live_from(live, numid, start + 1)
    }
}

pub open spec fn find_live(live: Seq<LiveReading>, numid: u32) -> Option<int> {
    find_live_from(live, numid, 0)
}

/// Finds the first live reading of the element with this numid.
pub fn find_live_reading(live: &Vec<LiveReading>, numid: u32) -> (r: Option<usize>)
    ensures
        r matches Some(j) ==> find_live(live@, numid) == Some(j as int),
        r is None ==> find_live(live@, numid) is None,
        r matches Some(j) ==> j < live@.len() && live@[j as int].numid == numid,
{
    let mut i: usize = 0;
    while i < live.len()
        invariant
            i <= live@.len(),
            find_live(live@, numid) == find_live_from(live@, numid, i as int),
        decreases live@.len() - i,
    {
        if live[i].numid == numid {
            return Some(i);
        }
        i = i + 1;
    }
    None
}

/// Re-reads one control's values from the live elements: every other field is
/// kept, and the values are those of its kind read from the element with its
/// numid; fails where no live element has that numid.
pub fn reload_control(control: &ControlDescriptor, live: &Vec<LiveReading>) -> (r: Result<
    ControlDescriptor,
    MixerError,
>)
    ensures
        match find_live(live@, control.numid) {
            Some(j) => r matches Ok(d) && d@ == (DescriptorModel {
                values: decoded_values(control.kind@, &live@[j].reading),
                ..control@
            }),
            None => r == Err::<ControlDescriptor, MixerError>(
                MixerError::ControlNotFound { numid: control.numid },
            ),
        },
        r matches Ok(d) ==> d@.values.len() == d@.kind.channels(),
{
    match find_live_reading(live, control.numid) {
        Some(j) => {
            let mut out = control.duplicate();
            out.values = read_values_for_kind(&control.kind, &live[j].reading);
            Ok(out)
        },
        None => Err(MixerError::ControlNotFound { numid: control.numid }),
    }
}

/// The values a control has after a refresh pass: read afresh where a live
/// element has its numid, else as they were.
pub open spec fn refreshed_values(c: DescriptorModel, live: Seq<LiveReading>) -> Seq<Seq<char>> {
    match find_live(live, c.numid) {
        Some(j) => decoded_values(c.kind, &live[j].reading),
        None => c.values,
    }
}

/// How many of the first `n` controls a refresh pass changes.
pub open spec fn changed_count(s: Seq<DescriptorModel>, live: Seq<LiveReading>, n: int) -> nat
    decreases n,
{
    if n <= 0 {
        0
    } else {
        changed_count(s, live, n - 1) + if refreshed_values(s[n - 1], live) != s[n - 1].values {
            1nat
        } else {
            0nat
        }
    }
}

/// One read-only pass over the live elements: each control whose numid has a
/// live reading gets that reading's values for its kind; the result is the
/// number of controls whose values changed.
pub fn refresh_control_values(controls: &mut Vec<ControlDescriptor>, live: &Vec<LiveReading>) -> (r:
    usize)
    ensures
        final(controls)@.len() == old(controls)@.len(),
        forall|i: int|
            0 <= i < old(controls)@.len() ==> (#[trigger] final(controls)@[i])@ == (DescriptorModel {
                values: refreshed_values(old(controls)@[i]@, live@),
                ..old(controls)@[i]@
            }),
        r == changed_count(views(old(controls)@), live@, old(controls)@.len() as int),
        forall|i: int|
            0 <= i < old(controls)@.len() && (#[trigger] old(controls)@[i])@.values.len()
                == old(controls)@[i]@.kind.channels() ==> final(controls)@[i]@.values.len()
                == final(controls)@[i]@.kind.channels(),
{
    let ghost before = views(controls@);
    let n = controls.len();
    let mut updated: usize = 0;
    let mut i: usize = 0;
    while i < n
        invariant
            n == controls@.len(),
            before.len() == n,
            i <= n,
            before == views(old(controls)@),
            forall|k: int|
                0 <= k < i ==> (#[trigger] controls@[k])@ == (DescriptorModel {
                    values: refreshed_values(before[k], live@),
                    ..before[k]
                }),
            forall|k: int| i <= k < n ==> (#[trigger] controls@[k])@ == before[k],
            updated == changed_count(before, live@, i as int),
            updated <= i,
        decreases n - i,
    {
        assert(controls@[i as int]@ == before[i as int]);
        match find_live_reading(live, controls[i].numid) {
            Some(j) => {
                let fresh = read_values_for_kind(&controls[i].kind, &live[j].reading);
                if !crate::models::same_strings(&controls[i].values, &fresh) {
                    controls[i].values = fresh;
                    updated = updated + 1;
                }
            },
            None => {},
        }
        i = i + 1;
    }
    updated
}

/// The favourite flag and grouping label that a freshly built descriptor takes
/// from the previous catalog: those of the last previous descriptor with its
/// numid, else not a favourite and the label it was built with.
pub open spec fn carried(fresh: DescriptorModel, previous: Seq<DescriptorModel>) -> DescriptorModel {
    match last_with_numid(previous, fresh.numid, previous.len() as int) {
        Some(j) => DescriptorModel {
            favorite: previous[j].favorite,
            grouped_label: previous[j].grouped_label,
            ..fresh
        },
        None => DescriptorModel { favorite: false, ..fresh },
    }
}

fn last_previous(previous: &Vec<ControlDescriptor>, numid: u32) -> (r: Option<usize>)
    ensures
        match r {
            Some(j) => last_with_numid(views(previous@), numid, previous@.len() as int) == Some(
                j as int,
            ) && j < previous@.len() && previous@[j as int].numid == numid,
            None => last_with_numid(views(previous@), numid, previous@.len() as int) is None,
        },
{
    let mut i: usize = previous.len();
    while i > 0
        invariant
            i <= previous@.len(),
            last_with_numid(views(previous@), numid, previous@.len() as int) == last_with_numid(
                views(previous@),
                numid,
                i as int,
            ),
        decreases i,
    {
        assert(views(previous@)[i - 1] == previous@[i - 1]@);
        if previous[i - 1].numid == numid {
            return Some(i - 1);
        }
        i = i - 1;
    }
    None
}

/// Carries the caller's favourite flags and grouping labels from the previous
/// catalog into a freshly built one, by numid; a numid seen for the first time
/// is not a favourite and keeps the label it was built with. Nothing else
/// changes.
pub fn carry_forward(previous: &Vec<ControlDescriptor>, fresh: &mut Vec<ControlDescriptor>)
    ensures
        final(fresh)@.len() == old(fresh)@.len(),
        forall|i: int|
            0 <= i < old(fresh)@.len() ==> (#[trigger] final(fresh)@[i])@ == carried(
                old(fresh)@[i]@,
                views(previous@),
            ),
{
    let ghost before = views(fresh@);
    let n = fresh.len();
    let mut i: usize = 0;
    while i < n
        invariant
            n == fresh@.len(),
            before.len() == n,
            before == views(old(fresh)@),
            i <= n,
            forall|k: int|
                0 <= k < i ==> (#[trigger] fresh@[k])@ == carried(before[k], views(previous@)),
            forall|k: int| i <= k < n ==> (#[trigger] fresh@[k])@ == before[k],
        decreases n - i,
    {
        assert(fresh@[i as int]@ == before[i as int]);
        match last_previous(previous, fresh[i].numid) {
            Some(j) => {
                assert(views(previous@)[j as int] == previous@[j as int]@);
                let fav = previous[j].favorite;
                let label = previous[j].grouped_label.clone();
                fresh[i].favorite = fav;
                fresh[i].grouped_label = label;
            },
            None => {
                fresh[i].favorite = false;
            },
        }
        i = i + 1;
    }
}

/// Across a rebuild, a control whose numid the previous catalog held keeps that
/// catalog's favourite flag and grouping label (those of its last entry with
/// the numid); a control whose numid is new is not a favourite and has the label
/// that its name suggests.
pub proof fn lemma_rebuild_keeps_flags(
    elems: Seq<ElemSnapshot>,
    built: Seq<DescriptorModel>,
    previous: Seq<DescriptorModel>,
    after: Seq<DescriptorModel>,
)
    requires
        catalog_of(elems, built),
        after.len() == built.len(),
        forall|i: int| 0 <= i < built.len() ==> #[trigger] after[i] == carried(built[i], previous),
    ensures
        forall|i: int|
            0 <= i < after.len() ==> match last_with_numid(
                previous,
                (#[trigger] after[i]).numid,
                previous.len() as int,
            ) {
                Some(j) => after[i].favorite == previous[j].favorite && after[i].grouped_label
                    == previous[j].grouped_label,
                None => !after[i].favorite && after[i].grouped_label == spec_group_label(
                    after[i].name,
                ),
            },
        distinct_numids(previous) ==> forall|i: int, j: int|
            0 <= i < after.len() && 0 <= j < previous.len() && (#[trigger] after[i]).numid
                == (#[trigger] previous[j]).numid ==> after[i].favorite == previous[j].favorite
                && after[i].grouped_label == previous[j].grouped_label,
{
    let (src, dst) = choose|src: Seq<int>, dst: Seq<int>|
        #[trigger] is_bijection(src, dst, built.len() as int) && forall|j: int|
            0 <= j < built.len() ==> #[trigger] built[j] == described(elems[src[j]]);
    assert forall|i: int| 0 <= i < after.len() implies match last_with_numid(
        previous,
        (#[trigger] after[i]).numid,
        previous.len() as int,
    ) {
        Some(j) => after[i].favorite == previous[j].favorite && after[i].grouped_label
            == previous[j].grouped_label,
        None => !after[i].favorite && after[i].grouped_label == spec_group_label(after[i].name),
    } by {
        assert(built[i] == described(elems[src[i]]));
        assert(after[i] == carried(built[i], previous));
    }
    if distinct_numids(previous) {
        assert forall|i: int, j: int|
            0 <= i < after.len() && 0 <= j < previous.len() && (#[trigger] after[i]).numid
                == (#[trigger] previous[j]).numid implies after[i].favorite == previous[j].favorite
            && after[i].grouped_label == previous[j].grouped_label by {
            lemma_last_with_numid_found(previous, after[i].numid, previous.len() as int);
            assert(after[i] == carried(built[i], previous));
            assert(previous[j].numid == after[i].numid);
            let k = last_with_numid(previous, after[i].numid, previous.len() as int)->0;
            assert(k == j);
        }
    }
}

/// Whether a rebuilt catalog differs from the previous one: in length, or at
/// some common position in numid or values.
pub open spec fn catalog_differs(previous: Seq<DescriptorModel>, fresh: Seq<DescriptorModel>) -> bool {
    previous.len() != fresh.len() || exists|i: int|
        0 <= i < previous.len() && 0 <= i < fresh.len() && ((#[trigger] fresh[i]).numid
            != previous[i].numid || fresh[i].values != previous[i].values)
}

/// Whether a rebuilt catalog differs from the previous one, so that the
/// caller knows whether to redraw.
pub fn catalog_changed(previous: &Vec<ControlDescriptor>, fresh: &Vec<ControlDescriptor>) -> (r:
    bool)
    ensures
        r == catalog_differs(views(previous@), views(fresh@)),
{
    if previous.len() != fresh.len() {
        return true;
    }
    let mut i: usize = 0;
    while i < fresh.len()
        invariant
            previous@.len() == fresh@.len(),
            i <= fresh@.len(),
            forall|j: int|
                0 <= j < i ==> (#[trigger] views(fresh@)[j]).numid == views(previous@)[j].numid
                    && views(fresh@)[j].values == views(previous@)[j].values,
        decreases fresh@.len() - i,
    {
        assert(views(fresh@)[i as int] == fresh@[i as int]@);
        assert(views(previous@)[i as int] == previous@[i as int]@);
        if fresh[i].numid != previous[i].numid || !crate::models::same_strings(
            &fresh[i].values,
            &previous[i].values,
        ) {
            return true;
        }
        i = i + 1;
    }
    false
}

// ---- kind cache ----

/// The kind of every control of the last fully built catalog, by numid.
pub struct KindCache {
    kinds: HashMap<u32, ControlKind>,
}

impl View for KindCache {
    type V = Map<u32, KindModel>;

    closed spec fn view(&self) -> Map<u32, KindModel> {
        self.kinds@.map_values(|k: ControlKind| k@)
    }
}

impl KindCache {
    pub fn new() -> (r: KindCache)
        ensures
            r@ == Map::<u32, KindModel>::empty(),
    {
        let r = KindCache { kinds: HashMap::new() };
        assert(r@ =~= Map::<u32, KindModel>::empty());
        r
    }

    /// Replaces the whole cache with the kinds of a catalog: a numid is in the
    /// cache exactly when some control has it, with the kind of the last such
    /// control.
    pub fn rebuild(&mut self, controls: &Vec<ControlDescriptor>)
        ensures
            forall|numid: u32|
                #![trigger final(self)@.contains_key(numid)]
                final(self)@.contains_key(numid) <==> last_with_numid(
                    views(controls@),
                    numid,
                    controls@.len() as int,
                ) is Some,
            forall|numid: u32|
                #![trigger final(self)@[numid]]
                last_with_numid(views(controls@), numid, controls@.len() as int) matches Some(j)
                    ==> final(self)@[numid] == views(controls@)[j].kind,
    {
        let mut kinds: HashMap<u32, ControlKind> = HashMap::new();
        let ghost vs = views(controls@);
        let mut i: usize = 0;
        while i < controls.len()
            invariant
                i <= controls@.len(),
                vs == views(controls@),
                forall|numid: u32|
                    #![trigger kinds@.contains_key(numid)]
                    kinds@.contains_key(numid) <==> last_with_numid(vs, numid, i as int) is Some,
                forall|numid: u32|
                    #![trigger kinds@[numid]]
                    last_with_numid(vs, numid, i as int) matches Some(j) ==> kinds@[numid]@
                        == vs[j].kind,
            decreases controls@.len() - i,
        {
            let numid = controls[i].numid;
            let kind = controls[i].kind.duplicate();
            assert(vs[i as int] == controls@[i as int]@);
            kinds.insert(numid, kind);
            proof {
                assert forall|m: u32| #![trigger kinds@[m]]
                    last_with_numid(vs, m, i + 1) is Some implies kinds@[m]@ == vs[last_with_numid(
                        vs,
                        m,
                        i + 1,
                    )->0].kind by {
                    if m != numid {
                        assert(last_with_numid(vs, m, i + 1) == last_with_numid(vs, m, i as int));
                    }
                }
                assert forall|m: u32| #![trigger kinds@.contains_key(m)]
                    kinds@.contains_key(m) <==> last_with_numid(vs, m, i + 1) is Some by {
                    if m != numid {
                        assert(last_with_numid(vs, m, i + 1) == last_with_numid(vs, m, i as int));
                    }
                }
            }
            i = i + 1;
        }
        self.kinds = kinds;
    }

    /// The cached kind of a numid, where there is one.
    pub fn lookup(&self, numid: u32) -> (r: Option<ControlKind>)
        ensures
            match r {
                Some(k) => self@.contains_key(numid) && k@ == self@[numid],
                None => !self@.contains_key(numid),
            },
    {
        match self.kinds.get(&numid) {
            Some(k) => Some(k.duplicate()),
            None => None,
        }
    }
}

} // verus!
