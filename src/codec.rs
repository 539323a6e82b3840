//! Kind inference from an element's reported metadata, and the value codec that
//! turns a raw element reading into per-channel text and text input into the raw
//! values to write.
use vstd::prelude::*;

use crate::models::{strings_view, ControlKind, KindModel};
use crate::text::{
    eq_ignore_ascii_case, format_i64, format_u64, parse_i64, parse_unsigned,
    seq_eq_ignore_case, spec_decimal, spec_parse_i64, spec_parse_unsigned,
};

verus! {

/// The native type tag that the device reports for an element.
#[derive(Debug, Clone, Copy, PartialEq, Eq, Structural)]
pub enum ElemTypeTag {
    Integer,
    Integer64,
    Boolean,
    Enumerated,
    Other,
}

/// The metadata that the device reports for an element: its type tag (with a
/// printable name for the tags that have no variant here), its channel count,
/// its integer range and step, and its number of enumerated items.
#[derive(Debug, Clone)]
pub struct ElemInfo {
    pub elem_type: ElemTypeTag,
    pub type_label: String,
    pub count: u32,
    pub min: i64,
    pub max: i64,
    pub step: i64,
    pub items: u32,
}

/// What the device answered about an integer element's decibel span, in
/// hundredths of a decibel: the direct range query, and the conversions of the
/// element's lowest and highest raw values (each `None` where the query failed).
#[derive(Debug, Clone, Copy, PartialEq, Eq)]
pub struct DbReport {
    pub direct: Option<(i64, i64)>,
    pub at_min: Option<i64>,
    pub at_max: Option<i64>,
}

/// One reading of an element: the values of its channels, in the native type
/// of the element.
#[derive(Debug, Clone)]
pub enum RawValues {
    Integer(Vec<i32>),
    Integer64(Vec<i64>),
    Boolean(Vec<bool>),
    Enumerated(Vec<u32>),
    Other,
}

pub open spec fn int_at(r: &RawValues, ch: int) -> Option<i32> {
    match r {
        RawValues::Integer(v) => if 0 <= ch < v@.len() {
            Some(v@[ch])
        } else {
            None
        },
        _ => None,
    }
}

pub open spec fn int64_at(r: &RawValues, ch: int) -> Option<i64> {
    match r {
        RawValues::Integer64(v) => if 0 <= ch < v@.len() {
            Some(v@[ch])
        } else {
            None
        },
        _ => None,
    }
}

pub open spec fn bool_at(r: &RawValues, ch: int) -> Option<bool> {
    match r {
        RawValues::Boolean(v) => if 0 <= ch < v@.len() {
            Some(v@[ch])
        } else {
            None
        },
        _ => None,
    }
}

pub open spec fn enum_at(r: &RawValues, ch: int) -> Option<u32> {
    match r {
        RawValues::Enumerated(v) => if 0 <= ch < v@.len() {
            Some(v@[ch])
        } else {
            None
        },
        _ => None,
    }
}

// ---- kind inference ----

/// The upper bound of an integer range: never equal to or below the lower one.
pub open spec fn spec_range_max(min: i64, max: i64) -> int {
    if max <= min {
        min + 1
    } else {
        max as int
    }
}

pub open spec fn spec_step(step: i64) -> i64 {
    if step < 1 {
        1
    } else {
        step
    }
}

pub open spec fn spec_channels(count: u32) -> usize {
    if count == 0 {
        1
    } else {
        count as usize
    }
}

/// The decibel span to keep: the direct answer where it is increasing, else the
/// two converted endpoints where both exist and increase, else none.
pub open spec fn spec_db_range(db: DbReport) -> Option<(i64, i64)> {
    if db.direct is Some && (db.direct->0).1 > (db.direct->0).0 {
        db.direct
    } else if db.at_min is Some && db.at_max is Some && db.at_max->0 > db.at_min->0 {
        Some((db.at_min->0, db.at_max->0))
    } else {
        None
    }
}

/// The labels of `n` enumerated items that carry no names: their ordinals.
pub open spec fn ordinal_labels(n: nat) -> Seq<Seq<char>> {
    Seq::new(n, |i: int| spec_decimal(i))
}

pub open spec fn inferred_kind(info: ElemInfo, db: DbReport) -> KindModel {
    let channels = spec_channels(info.count);
    match info.elem_type {
        ElemTypeTag::Integer => KindModel::Integer {
            min: info.min,
            max: spec_range_max(info.min, info.max) as i64,
            step: spec_step(info.step),
            channels,
            db_range: spec_db_range(db),
        },
        ElemTypeTag::Integer64 => KindModel::Integer {
            min: info.min,
            max: spec_range_max(info.min, info.max) as i64,
            step: spec_step(info.step),
            channels,
            db_range: spec_db_range(db),
        },
        ElemTypeTag::Boolean => KindModel::Boolean { channels },
        ElemTypeTag::Enumerated => KindModel::Enumerated {
            items: ordinal_labels(if info.items == 0 {
                1
            } else {
                info.items as nat
            }),
            channels,
        },
        ElemTypeTag::Other => KindModel::Unknown { type_label: info.type_label@, channels },
    }
}

/// The integer range to use for a reported one: `max` becomes `min + 1` where it
/// is not above `min`. The decibel conversions are asked at these endpoints.
pub fn normalized_range(min: i64, max: i64) -> (r: (i64, i64))
    requires
        min < i64::MAX,
    ensures
        r.0 == min,
        r.1 == spec_range_max(min, max),
        r.0 < r.1,
{
    if max <= min {
        (min, min + 1)
    } else {
        (min, max)
    }
}

/// Whether the direct range answer settles the decibel span, so that the
/// endpoint conversions need not be asked.
pub fn db_direct_usable(db: &DbReport) -> (r: bool)
    ensures
        r == (db.direct is Some && (db.direct->0).1 > (db.direct->0).0),
        r ==> spec_db_range(*db) == db.direct,
{
    match db.direct {
        Some((lo, hi)) => hi > lo,
        None => false,
    }
}

/// Chooses the decibel span of an integer element from the device's answers.
pub fn resolve_db_range(db: &DbReport) -> (r: Option<(i64, i64)>)
    ensures
        r == spec_db_range(*db),
        r matches Some(p) ==> p.0 < p.1,
{
    if let Some((lo, hi)) = db.direct {
        if hi > lo {
            return Some((lo, hi));
        }
    }
    match (db.at_min, db.at_max) {
        (Some(lo), Some(hi)) => if hi > lo {
            Some((lo, hi))
        } else {
            None
        },
        _ => None,
    }
}

fn ordinal_items(n: u32) -> (r: Vec<String>)
    ensures
        strings_view(r@) == ordinal_labels(n as nat),
{
    let mut r: Vec<String> = Vec::new();
    let mut i: u32 = 0;
    while i < n
        invariant
            i <= n,
            r@.len() == i,
            forall|j: int| 0 <= j < i ==> #[trigger] r@[j]@ == spec_decimal(j),
        decreases n - i,
    {
        r.push(format_u64(i as u64));
        i = i + 1;
    }
    assert(strings_view(r@) =~= ordinal_labels(n as nat));
    r
}

/// An integer element's lower bound leaves room for an upper one.
pub open spec fn range_ok(info: ElemInfo) -> bool {
    (info.elem_type == ElemTypeTag::Integer || info.elem_type == ElemTypeTag::Integer64) ==> info.min
        < i64::MAX
}

/// Classifies an element from its reported metadata and decibel answers. An
/// integer element (32- or 64-bit) takes its decibel span from the answers.
pub fn infer_control_kind(info: &ElemInfo, db: &DbReport) -> (r: ControlKind)
    requires
        range_ok(*info),
    ensures
        r@ == inferred_kind(*info, *db),
        r@.well_formed(),
        r@.channels() >= 1,
        (info.elem_type == ElemTypeTag::Integer || info.elem_type == ElemTypeTag::Integer64)
            && info.max <= info.min ==> (r@ matches KindModel::Integer { min, max, .. } && min
            == info.min && max == info.min + 1),
{
    let channels: usize = if info.count == 0 {
        1
    } else {
        info.count as usize
    };
    let step = if info.step < 1 {
        1
    } else {
        info.step
    };
    match info.elem_type {
        ElemTypeTag::Integer => {
            let (min, max) = normalized_range(info.min, info.max);
            ControlKind::Integer { min, max, step, channels, db_range: resolve_db_range(db) }
        },
        ElemTypeTag::Integer64 => {
            let (min, max) = normalized_range(info.min, info.max);
            ControlKind::Integer { min, max, step, channels, db_range: resolve_db_range(db) }
        },
        ElemTypeTag::Boolean => ControlKind::Boolean { channels },
        ElemTypeTag::Enumerated => {
            let n = if info.items == 0 {
                1
            } else {
                info.items
            };
            ControlKind::Enumerated { items: ordinal_items(n), channels }
        },
        ElemTypeTag::Other => ControlKind::Unknown {
            type_label: info.type_label.clone(),
            channels,
        },
    }
}

// ---- reading ----

pub open spec fn on_off(b: bool) -> Seq<char> {
    if b {
        seq!['o', 'n']
    } else {
        seq!['o', 'f', 'f']
    }
}

/// The text of one channel of a reading for a kind, where the reading has that
/// channel in a type that the kind reads.
pub open spec fn decoded_channel(kind: KindModel, r: &RawValues, ch: int) -> Option<Seq<char>> {
    match kind {
        KindModel::Integer { .. } => if int_at(r, ch) is Some {
            Some(spec_decimal(int_at(r, ch)->0 as int))
        } else if int64_at(r, ch) is Some {
            Some(spec_decimal(int64_at(r, ch)->0 as int))
        } else {
            None
        },
        KindModel::Boolean { .. } => if bool_at(r, ch) is Some {
            Some(on_off(bool_at(r, ch)->0))
        } else {
            None
        },
        KindModel::Enumerated { items, .. } => if enum_at(r, ch) is Some {
            let idx = enum_at(r, ch)->0;
            if idx < items.len() {
                Some(items[idx as int])
            } else {
                Some(spec_decimal(idx as int))
            }
        } else {
            None
        },
        KindModel::Unknown { .. } => if int_at(r, ch) is Some {
            Some(spec_decimal(int_at(r, ch)->0 as int))
        } else if bool_at(r, ch) is Some {
            Some(on_off(bool_at(r, ch)->0))
        } else if enum_at(r, ch) is Some {
            Some(spec_decimal(enum_at(r, ch)->0 as int))
        } else {
            None
        },
    }
}

/// The value that stands for a channel that could not be read.
pub open spec fn kind_default_value(kind: KindModel) -> Seq<char> {
    match kind {
        KindModel::Boolean { .. } => seq!['o', 'f', 'f'],
        _ => seq!['0'],
    }
}

/// The text of every channel of a kind from one reading.
pub open spec fn decoded_values(kind: KindModel, r: &RawValues) -> Seq<Seq<char>> {
    Seq::new(
        kind.channels() as nat,
        |ch: int|
            if decoded_channel(kind, r, ch) is Some {
                decoded_channel(kind, r, ch)->0
            } else {
                kind_default_value(kind)
            },
    )
}

fn on_off_text(b: bool) -> (r: String)
    ensures
        r@ == on_off(b),
{
    proof {
        reveal_strlit("on");
        reveal_strlit("off");
    }
    if b {
        String::from_str("on")
    } else {
        String::from_str("off")
    }
}

fn default_text(kind: &ControlKind) -> (r: String)
    ensures
        r@ == kind_default_value(kind@),
{
    proof {
        reveal_strlit("off");
        reveal_strlit("0");
    }
    match kind {
        ControlKind::Boolean { .. } => String::from_str("off"),
        _ => String::from_str("0"),
    }
}

fn decode_channel(kind: &ControlKind, r: &RawValues, ch: usize) -> (out: Option<String>)
    ensures
        match out {
            Some(s) => decoded_channel(kind@, r, ch as int) == Some(s@),
            None => decoded_channel(kind@, r, ch as int) is None,
        },
{
    let iv: Option<i32> = match r {
        RawValues::Integer(v) => if ch < v.len() {
            Some(v[ch])
        } else {
            None
        },
        _ => None,
    };
    let i64v: Option<i64> = match r {
        RawValues::Integer64(v) => if ch < v.len() {
            Some(v[ch])
        } else {
            None
        },
        _ => None,
    };
    let bv: Option<bool> = match r {
        RawValues::Boolean(v) => if ch < v.len() {
            Some(v[ch])
        } else {
            None
        },
        _ => None,
    };
    let ev: Option<u32> = match r {
        RawValues::Enumerated(v) => if ch < v.len() {
            Some(v[ch])
        } else {
            None
        },
        _ => None,
    };
    assert(iv == int_at(r, ch as int));
    assert(i64v == int64_at(r, ch as int));
    assert(bv == bool_at(r, ch as int));
    assert(ev == enum_at(r, ch as int));
    match kind {
        ControlKind::Integer { .. } => match (iv, i64v) {
            (Some(v), _) => Some(format_i64(v as i64)),
            (None, Some(v)) => Some(format_i64(v)),
            _ => None,
        },
        ControlKind::Boolean { .. } => match bv {
            Some(b) => Some(on_off_text(b)),
            None => None,
        },
        ControlKind::Enumerated { items, .. } => match ev {
            Some(idx) => if (idx as usize) < items.len() {
                Some(items[idx as usize].clone())
            } else {
                Some(format_u64(idx as u64))
            },
            None => None,
        },
        ControlKind::Unknown { .. } => match (iv, bv, ev) {
            (Some(v), _, _) => Some(format_i64(v as i64)),
            (None, Some(b), _) => Some(on_off_text(b)),
            (None, None, Some(idx)) => Some(format_u64(idx as u64)),
            _ => None,
        },
    }
}

/// Reads the text of every channel of a kind from one reading of its element:
/// one entry per channel, the kind's default where a channel is missing.
pub fn read_values_for_kind(kind: &ControlKind, r: &RawValues) -> (out: Vec<String>)
    ensures
        out@.len() == kind@.channels(),
        strings_view(out@) == decoded_values(kind@, r),
{
    let n = crate::models::channels_from_kind(kind);
    let mut out: Vec<String> = Vec::new();
    let mut ch: usize = 0;
    while ch < n
        invariant
            n == kind@.channels(),
            ch <= n,
            out@.len() == ch,
            forall|j: int|
                0 <= j < ch ==> #[trigger] out@[j]@ == decoded_values(kind@, r)[j],
        decreases n - ch,
    {
        let text = match decode_channel(kind, r, ch) {
            Some(s) => s,
            None => default_text(kind),
        };
        out.push(text);
        ch = ch + 1;
    }
    assert(strings_view(out@) =~= decoded_values(kind@, r));
    out
}

// ---- writing ----

pub open spec fn kind_opt_view(kind: Option<&ControlKind>) -> Option<KindModel> {
    match kind {
        Some(k) => Some(k@),
        None => None,
    }
}

/// The input text for a channel: its own entry, else the first entry, else the
/// default.
pub open spec fn input_for_channel(inputs: Seq<Seq<char>>, ch: int, default: Seq<char>) -> Seq<
    char,
> {
    if 0 <= ch < inputs.len() {
        inputs[ch]
    } else if inputs.len() > 0 {
        inputs[0]
    } else {
        default
    }
}

pub open spec fn spec_clamp(v: int, lo: int, hi: int) -> int {
    if v < lo {
        lo
    } else if v > hi {
        hi
    } else {
        v
    }
}

/// The integer that an input asks for: its value (0 where it does not parse),
/// clamped to the range of a known integer kind.
pub open spec fn integer_target(raw: Seq<char>, kind: Option<KindModel>) -> int {
    let parsed: int = match spec_parse_i64(raw) {
        Some(v) => v,
        None => 0,
    };
    match kind {
        Some(KindModel::Integer { min, max, .. }) => spec_clamp(parsed, min as int, max as int),
        _ => parsed,
    }
}

pub open spec fn saturate_i32(v: int) -> i32 {
    if v < i32::MIN {
        i32::MIN
    } else if v > i32::MAX {
        i32::MAX
    } else {
        v as i32
    }
}

/// A switch input is on where it reads `on`, `true` (ASCII case ignored) or `1`.
pub open spec fn boolean_target(raw: Seq<char>) -> bool {
    seq_eq_ignore_case(raw, seq!['o', 'n']) || seq_eq_ignore_case(raw, seq!['t', 'r', 'u', 'e'])
        || raw == seq!['1']
}

pub open spec fn is_first_match(items: Seq<Seq<char>>, raw: Seq<char>, i: int) -> bool {
    0 <= i < items.len() && seq_eq_ignore_case(items[i], raw) && forall|j: int|
        0 <= j < i ==> !seq_eq_ignore_case(#[trigger] items[j], raw)
}

/// The position of the first item that equals `raw`, ASCII case ignored.
pub open spec fn first_label_match(items: Seq<Seq<char>>, raw: Seq<char>) -> Option<int> {
    if exists|i: int| is_first_match(items, raw, i) {
        Some(choose|i: int| is_first_match(items, raw, i))
    } else {
        None
    }
}

pub open spec fn truncate_u32(n: int) -> u32 {
    (n % 0x1_0000_0000) as u32
}

/// The item ordinal that an input asks for: the first label that matches it,
/// else its value as an ordinal, else 0.
pub open spec fn enum_target(raw: Seq<char>, kind: Option<KindModel>) -> u32 {
    match kind {
        Some(KindModel::Enumerated { items, .. }) => if first_label_match(items, raw) is Some {
            truncate_u32(first_label_match(items, raw)->0)
        } else if spec_parse_unsigned(raw) is Some && spec_parse_unsigned(raw)->0 <= usize::MAX {
            truncate_u32(spec_parse_unsigned(raw)->0 as int)
        } else {
            0
        },
        _ => if spec_parse_unsigned(raw) is Some && spec_parse_unsigned(raw)->0 <= u32::MAX {
            spec_parse_unsigned(raw)->0 as u32
        } else {
            0
        },
    }
}

/// The raw values that writing `inputs` to an element of the given type puts in
/// place, channel by channel; `None` for a type that is left as it is.
pub open spec fn encoded_values(
    elem_type: ElemTypeTag,
    count: nat,
    inputs: Seq<Seq<char>>,
    kind: Option<KindModel>,
) -> Option<RawValuesModel> {
    match elem_type {
        ElemTypeTag::Integer => Some(
            RawValuesModel::Integer(
                Seq::new(
                    count,
                    |ch: int| saturate_i32(integer_target(input_for_channel(inputs, ch, seq!['0']), kind)),
                ),
            ),
        ),
        ElemTypeTag::Integer64 => Some(
            RawValuesModel::Integer64(
                Seq::new(
                    count,
                    |ch: int| integer_target(input_for_channel(inputs, ch, seq!['0']), kind) as i64,
                ),
            ),
        ),
        ElemTypeTag::Boolean => Some(
            RawValuesModel::Boolean(
                Seq::new(
                    count,
                    |ch: int| boolean_target(input_for_channel(inputs, ch, seq!['o', 'f', 'f'])),
                ),
            ),
        ),
        ElemTypeTag::Enumerated => Some(
            RawValuesModel::Enumerated(
                Seq::new(
                    count,
                    |ch: int| enum_target(input_for_channel(inputs, ch, seq!['0']), kind),
                ),
            ),
        ),
        ElemTypeTag::Other => None,
    }
}

/// The view of a reading.
pub enum RawValuesModel {
    Integer(Seq<i32>),
    Integer64(Seq<i64>),
    Boolean(Seq<bool>),
    Enumerated(Seq<u32>),
    Other,
}

impl View for RawValues {
    type V = RawValuesModel;

    open spec fn view(&self) -> RawValuesModel {
        match self {
            RawValues::Integer(v) => RawValuesModel::Integer(v@),
            RawValues::Integer64(v) => RawValuesModel::Integer64(v@),
            RawValues::Boolean(v) => RawValuesModel::Boolean(v@),
            RawValues::Enumerated(v) => RawValuesModel::Enumerated(v@),
            RawValues::Other => RawValuesModel::Other,
        }
    }
}

/// Whether the first channel of a reading taken after a write holds what the
/// write asked for; a failed reading never matches, an element of another type
/// always does.
pub open spec fn first_channel_matches(
    after: Option<&RawValues>,
    elem_type: ElemTypeTag,
    inputs: Seq<Seq<char>>,
    kind: Option<KindModel>,
) -> bool {
    match after {
        None => false,
        Some(r) => match elem_type {
            ElemTypeTag::Integer => (if int_at(r, 0) is Some {
                int_at(r, 0)->0
            } else {
                0
            }) == saturate_i32(integer_target(input_for_channel(inputs, 0, seq!['0']), kind)),
            ElemTypeTag::Integer64 => (if int64_at(r, 0) is Some {
                int64_at(r, 0)->0 as int
            } else {
                0
            }) == integer_target(input_for_channel(inputs, 0, seq!['0']), kind),
            ElemTypeTag::Boolean => (if bool_at(r, 0) is Some {
                bool_at(r, 0)->0
            } else {
                false
            }) == boolean_target(input_for_channel(inputs, 0, seq!['o', 'f', 'f'])),
            ElemTypeTag::Enumerated => (if enum_at(r, 0) is Some {
                enum_at(r, 0)->0
            } else {
                0
            }) == enum_target(input_for_channel(inputs, 0, seq!['0']), kind),
            ElemTypeTag::Other => true,
        },
    }
}

/// The input text for a channel: its own entry, else the first one, else
/// `default`.
pub fn value_at_or_first_or_default<'a>(inputs: &'a Vec<String>, ch: usize, default: &'a str) -> (r:
    &'a str)
    ensures
        r@ == input_for_channel(strings_view(inputs@), ch as int, default@),
{
    if ch < inputs.len() {
        inputs[ch].as_str()
    } else if inputs.len() > 0 {
        inputs[0].as_str()
    } else {
        default
    }
}

/// The integer that an input asks for, clamped to a known integer kind's range.
pub fn integer_input_target(raw: &str, kind: Option<&ControlKind>) -> (r: i64)
    ensures
        r as int == integer_target(raw@, kind_opt_view(kind)),
{
    let parsed = match parse_i64(raw) {
        Some(v) => v,
        None => 0,
    };
    match kind {
        Some(ControlKind::Integer { min, max, .. }) => if parsed < *min {
            *min
        } else if parsed > *max {
            *max
        } else {
            parsed
        },
        _ => parsed,
    }
}

fn saturating_i32(v: i64) -> (r: i32)
    ensures
        r == saturate_i32(v as int),
{
    if v < i32::MIN as i64 {
        i32::MIN
    } else if v > i32::MAX as i64 {
        i32::MAX
    } else {
        v as i32
    }
}

/// Whether a switch input asks for on.
pub fn boolean_input_target(raw: &str) -> (r: bool)
    ensures
        r == boolean_target(raw@),
{
    proof {
        reveal_strlit("on");
        reveal_strlit("true");
    }
    let one = raw.unicode_len() == 1 && raw.get_char(0) == '1';
    assert(one == (raw@ == seq!['1'])) by {
        if raw@.len() == 1 && raw@[0] == '1' {
            assert(raw@ =~= seq!['1']);
        }
    }
    eq_ignore_ascii_case(raw, "on") || eq_ignore_ascii_case(raw, "true") || one
}

/// The item ordinal that an input asks for.
pub fn parse_enum_value_index(raw: &str, kind: Option<&ControlKind>) -> (r: u32)
    ensures
        r == enum_target(raw@, kind_opt_view(kind)),
{
    match kind {
        Some(ControlKind::Enumerated { items, .. }) => {
            assert(kind_opt_view(kind) matches Some(KindModel::Enumerated { items: its, .. }) && its
                == strings_view(items@));
            let mut i: usize = 0;
            while i < items.len()
                invariant
                    kind_opt_view(kind) matches Some(KindModel::Enumerated { items: its, .. }) && its
                        == strings_view(items@),
                    i <= items@.len(),
                    forall|j: int|
                        0 <= j < i ==> !seq_eq_ignore_case(
                            #[trigger] strings_view(items@)[j],
                            raw@,
                        ),
                decreases items@.len() - i,
            {
                if eq_ignore_ascii_case(items[i].as_str(), raw) {
                    let ghost labels = strings_view(items@);
                    assert(is_first_match(labels, raw@, i as int));
                    assert forall|k: int| is_first_match(labels, raw@, k) implies k == i by {
                        if k > i {
                            assert(seq_eq_ignore_case(labels[i as int], raw@));
                        }
                    }
                    assert(first_label_match(labels, raw@) == Some(i as int));
                    let t = (i as u64 % 0x1_0000_0000) as u32;
                    assert(t == truncate_u32(i as int));
                    return t;
                }
                i = i + 1;
            }
            assert(first_label_match(strings_view(items@), raw@) is None);
            match parse_unsigned(raw, usize::MAX as u64) {
                Some(n) => (n % 0x1_0000_0000) as u32,
                None => 0,
            }
        },
        _ => match parse_unsigned(raw, u32::MAX as u64) {
            Some(n) => n as u32,
            None => 0,
        },
    }
}

/// The raw values that writing `inputs` to an element puts in place: every one
/// of its `count` channels set from its input (or the first input, or the type's
/// default), integers clamped to a known integer kind's range and saturated to
/// the native width; `None` for a type that is written back as it was read.
pub fn encode_input(
    elem_type: ElemTypeTag,
    count: u32,
    inputs: &Vec<String>,
    kind: Option<&ControlKind>,
) -> (r: Option<RawValues>)
    ensures
        match r {
            Some(v) => encoded_values(elem_type, count as nat, strings_view(inputs@), kind_opt_view(kind)) == Some(v@),
            None => encoded_values(elem_type, count as nat, strings_view(inputs@), kind_opt_view(kind)) is None,
        },
{
    let ghost ins = strings_view(inputs@);
    let ghost k = kind_opt_view(kind);
    proof {
        reveal_strlit("0");
        reveal_strlit("off");
    }
    match elem_type {
        ElemTypeTag::Integer => {
            let mut v: Vec<i32> = Vec::new();
            let mut ch: u32 = 0;
            while ch < count
                invariant
                    ch <= count,
                    v@.len() == ch,
                    forall|j: int|
                        0 <= j < ch ==> #[trigger] v@[j] == saturate_i32(
                            integer_target(input_for_channel(ins, j, seq!['0']), k),
                        ),
                    ins == strings_view(inputs@),
                    k == kind_opt_view(kind),
                    "0"@ == seq!['0'],
                    "off"@ == seq!['o', 'f', 'f'],
                decreases count - ch,
            {
                let raw = value_at_or_first_or_default(inputs, ch as usize, "0");
                v.push(saturating_i32(integer_input_target(raw, kind)));
                ch = ch + 1;
            }
            let r = RawValues::Integer(v);
            assert(encoded_values(elem_type, count as nat, ins, k) == Some(r@)) by {
                if let Some(RawValuesModel::Integer(s)) = encoded_values(elem_type, count as nat, ins, k) {
                    assert(s =~= v@);
                }
            }
            Some(r)
        },
        ElemTypeTag::Integer64 => {
            let mut v: Vec<i64> = Vec::new();
            let mut ch: u32 = 0;
            while ch < count
                invariant
                    ch <= count,
                    v@.len() == ch,
                    forall|j: int|
                        0 <= j < ch ==> #[trigger] v@[j] == integer_target(
                            input_for_channel(ins, j, seq!['0']),
                            k,
                        ) as i64,
                    ins == strings_view(inputs@),
                    k == kind_opt_view(kind),
                    "0"@ == seq!['0'],
                    "off"@ == seq!['o', 'f', 'f'],
                decreases count - ch,
            {
                let raw = value_at_or_first_or_default(inputs, ch as usize, "0");
                v.push(integer_input_target(raw, kind));
                ch = ch + 1;
            }
            let r = RawValues::Integer64(v);
            assert(encoded_values(elem_type, count as nat, ins, k) == Some(r@)) by {
                if let Some(RawValuesModel::Integer64(s)) = encoded_values(elem_type, count as nat, ins, k) {
                    assert(s =~= v@);
                }
            }
            Some(r)
        },
        ElemTypeTag::Boolean => {
            let mut v: Vec<bool> = Vec::new();
            let mut ch: u32 = 0;
            while ch < count
                invariant
                    ch <= count,
                    v@.len() == ch,
                    forall|j: int|
                        0 <= j < ch ==> #[trigger] v@[j] == boolean_target(
                            input_for_channel(ins, j, seq!['o', 'f', 'f']),
                        ),
                    ins == strings_view(inputs@),
                    k == kind_opt_view(kind),
                    "0"@ == seq!['0'],
                    "off"@ == seq!['o', 'f', 'f'],
                decreases count - ch,
            {
                let raw = value_at_or_first_or_default(inputs, ch as usize, "off");
                v.push(boolean_input_target(raw));
                ch = ch + 1;
            }
            let r = RawValues::Boolean(v);
            assert(encoded_values(elem_type, count as nat, ins, k) == Some(r@)) by {
                if let Some(RawValuesModel::Boolean(s)) = encoded_values(elem_type, count as nat, ins, k) {
                    assert(s =~= v@);
                }
            }
            Some(r)
        },
        ElemTypeTag::Enumerated => {
            let mut v: Vec<u32> = Vec::new();
            let mut ch: u32 = 0;
            while ch < count
                invariant
                    ch <= count,
                    v@.len() == ch,
                    forall|j: int|
                        0 <= j < ch ==> #[trigger] v@[j] == enum_target(
                            input_for_channel(ins, j, seq!['0']),
                            k,
                        ),
                    ins == strings_view(inputs@),
                    k == kind_opt_view(kind),
                    "0"@ == seq!['0'],
                    "off"@ == seq!['o', 'f', 'f'],
                decreases count - ch,
            {
                let raw = value_at_or_first_or_default(inputs, ch as usize, "0");
                v.push(parse_enum_value_index(raw, kind));
                ch = ch + 1;
            }
            let r = RawValues::Enumerated(v);
            assert(encoded_values(elem_type, count as nat, ins, k) == Some(r@)) by {
                if let Some(RawValuesModel::Enumerated(s)) = encoded_values(elem_type, count as nat, ins, k) {
                    assert(s =~= v@);
                }
            }
            Some(r)
        },
        ElemTypeTag::Other => None,
    }
}

fn first_of_reading(r: &RawValues) -> (out: (i32, i64, bool, u32))
    ensures
        out.0 == (if int_at(r, 0) is Some {
            int_at(r, 0)->0
        } else {
            0
        }),
        out.1 == (if int64_at(r, 0) is Some {
            int64_at(r, 0)->0
        } else {
            0
        }),
        out.2 == (if bool_at(r, 0) is Some {
            bool_at(r, 0)->0
        } else {
            false
        }),
        out.3 == (if enum_at(r, 0) is Some {
            enum_at(r, 0)->0
        } else {
            0
        }),
{
    match r {
        RawValues::Integer(v) => (if v.len() > 0 {
            v[0]
        } else {
            0
        }, 0, false, 0),
        RawValues::Integer64(v) => (0, if v.len() > 0 {
            v[0]
        } else {
            0
        }, false, 0),
        RawValues::Boolean(v) => (0, 0, if v.len() > 0 {
            v[0]
        } else {
            false
        }, 0),
        RawValues::Enumerated(v) => (0, 0, false, if v.len() > 0 {
            v[0]
        } else {
            0
        }),
        RawValues::Other => (0, 0, false, 0),
    }
}

/// Whether the first channel of a reading taken after a write holds the value
/// that the write asked for (clamped as the write clamped it).
pub fn first_channel_matches_target(
    after: Option<&RawValues>,
    elem_type: ElemTypeTag,
    inputs: &Vec<String>,
    kind: Option<&ControlKind>,
) -> (r: bool)
    ensures
        r == first_channel_matches(after, elem_type, strings_view(inputs@), kind_opt_view(kind)),
{
    proof {
        reveal_strlit("0");
        reveal_strlit("off");
    }
    let ghost ins = strings_view(inputs@);
    let reading = match after {
        None => {
            return false;
        },
        Some(r) => r,
    };
    let (got_int, got_int64, got_bool, got_enum) = first_of_reading(reading);
    match elem_type {
        ElemTypeTag::Integer => {
            let raw = value_at_or_first_or_default(inputs, 0, "0");
            assert(raw@ == input_for_channel(ins, 0, seq!['0']));
            got_int == saturating_i32(integer_input_target(raw, kind))
        },
        ElemTypeTag::Integer64 => {
            let raw = value_at_or_first_or_default(inputs, 0, "0");
            assert(raw@ == input_for_channel(ins, 0, seq!['0']));
            got_int64 == integer_input_target(raw, kind)
        },
        ElemTypeTag::Boolean => {
            let raw = value_at_or_first_or_default(inputs, 0, "off");
            assert(raw@ == input_for_channel(ins, 0, seq!['o', 'f', 'f']));
            got_bool == boolean_input_target(raw)
        },
        ElemTypeTag::Enumerated => {
            let raw = value_at_or_first_or_default(inputs, 0, "0");
            assert(raw@ == input_for_channel(ins, 0, seq!['0']));
            got_enum == parse_enum_value_index(raw, kind)
        },
        ElemTypeTag::Other => true,
    }
}

} // verus!
