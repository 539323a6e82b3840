//! The domain model: control kinds, control descriptors, routing references and
//! the flat preset shape, each with its mathematical view.
use vstd::prelude::*;

verus! {

/// The character sequences that a vector of strings holds.
pub open spec fn strings_view(v: Seq<String>) -> Seq<Seq<char>> {
    v.map_values(|s: String| s@)
}

/// A copy of a vector of strings.
pub fn copy_strings(v: &Vec<String>) -> (r: Vec<String>)
    ensures
        strings_view(r@) == strings_view(v@),
{
    let mut r: Vec<String> = Vec::new();
    let mut i: usize = 0;
    while i < v.len()
        invariant
            i <= v@.len(),
            r@.len() == i,
            forall|j: int| 0 <= j < i ==> #[trigger] r@[j]@ == v@[j]@,
        decreases v@.len() - i,
    {
        r.push(v[i].clone());
        i = i + 1;
    }
    assert(strings_view(r@) =~= strings_view(v@));
    r
}

/// Whether two vectors of strings hold the same character sequences.
pub fn same_strings(a: &Vec<String>, b: &Vec<String>) -> (r: bool)
    ensures
        r == (strings_view(a@) == strings_view(b@)),
{
    if a.len() != b.len() {
        assert(strings_view(a@).len() != strings_view(b@).len());
        return false;
    }
    let mut i: usize = 0;
    while i < a.len()
        invariant
            a@.len() == b@.len(),
            i <= a@.len(),
            forall|j: int| 0 <= j < i ==> #[trigger] a@[j]@ == b@[j]@,
        decreases a@.len() - i,
    {
        if a[i] != b[i] {
            assert(strings_view(a@)[i as int] != strings_view(b@)[i as int]);
            return false;
        }
        i = i + 1;
    }
    assert(strings_view(a@) =~= strings_view(b@));
    true
}

/// What a control is and how many channels it has.
#[derive(Debug, Clone, PartialEq, Eq)]
pub enum ControlKind {
    Integer { min: i64, max: i64, step: i64, channels: usize, db_range: Option<(i64, i64)> },
    Boolean { channels: usize },
    Enumerated { items: Vec<String>, channels: usize },
    Unknown { type_label: String, channels: usize },
}

/// The view of a `ControlKind`, with strings as character sequences.
pub enum KindModel {
    Integer { min: i64, max: i64, step: i64, channels: usize, db_range: Option<(i64, i64)> },
    Boolean { channels: usize },
    Enumerated { items: Seq<Seq<char>>, channels: usize },
    Unknown { type_label: Seq<char>, channels: usize },
}

impl KindModel {
    pub open spec fn channels(self) -> usize {
        match self {
            KindModel::Integer { channels, .. } => channels,
            KindModel::Boolean { channels } => channels,
            KindModel::Enumerated { channels, .. } => channels,
            KindModel::Unknown { channels, .. } => channels,
        }
    }

    /// A kind as inference produces it: at least one channel, and an integer
    /// range that is neither empty nor inverted, with a positive step.
    pub open spec fn well_formed(self) -> bool {
        &&& self.channels() >= 1
        &&& match self {
            KindModel::Integer { min, max, step, .. } => min < max && step >= 1,
            KindModel::Enumerated { items, .. } => items.len() >= 1,
            _ => true,
        }
    }
}

impl View for ControlKind {
    type V = KindModel;

    open spec fn view(&self) -> KindModel {
        match self {
            ControlKind::Integer { min, max, step, channels, db_range } => KindModel::Integer {
                min: *min,
                max: *max,
                step: *step,
                channels: *channels,
                db_range: *db_range,
            },
            ControlKind::Boolean { channels } => KindModel::Boolean { channels: *channels },
            ControlKind::Enumerated { items, channels } => KindModel::Enumerated {
                items: strings_view(items@),
                channels: *channels,
            },
            ControlKind::Unknown { type_label, channels } => KindModel::Unknown {
                type_label: type_label@,
                channels: *channels,
            },
        }
    }
}

impl ControlKind {
    /// A copy of this kind.
    pub fn duplicate(&self) -> (r: ControlKind)
        ensures
            r@ == self@,
    {
        match self {
            ControlKind::Integer { min, max, step, channels, db_range } => ControlKind::Integer {
                min: *min,
                max: *max,
                step: *step,
                channels: *channels,
                db_range: *db_range,
            },
            ControlKind::Boolean { channels } => ControlKind::Boolean { channels: *channels },
            ControlKind::Enumerated { items, channels } => ControlKind::Enumerated {
                items: copy_strings(items),
                channels: *channels,
            },
            ControlKind::Unknown { type_label, channels } => ControlKind::Unknown {
                type_label: type_label.clone(),
                channels: *channels,
            },
        }
    }
}

/// The number of channels of a kind.
pub fn channels_from_kind(kind: &ControlKind) -> (r: usize)
    ensures
        r == kind@.channels(),
{
    match kind {
        ControlKind::Integer { channels, .. } => *channels,
        ControlKind::Boolean { channels } => *channels,
        ControlKind::Enumerated { channels, .. } => *channels,
        ControlKind::Unknown { channels, .. } => *channels,
    }
}

/// One mixer control: its identity, its addressing, its kind and one value per
/// channel, with the caller's grouping label and favourite flag.
#[derive(Debug, Clone)]
pub struct ControlDescriptor {
    pub numid: u32,
    pub name: String,
    pub iface: String,
    pub index: u32,
    pub device: u32,
    pub subdevice: u32,
    pub kind: ControlKind,
    pub values: Vec<String>,
    pub grouped_label: String,
    pub favorite: bool,
}

pub struct DescriptorModel {
    pub numid: u32,
    pub name: Seq<char>,
    pub iface: Seq<char>,
    pub index: u32,
    pub device: u32,
    pub subdevice: u32,
    pub kind: KindModel,
    pub values: Seq<Seq<char>>,
    pub grouped_label: Seq<char>,
    pub favorite: bool,
}

impl View for ControlDescriptor {
    type V = DescriptorModel;

    open spec fn view(&self) -> DescriptorModel {
        DescriptorModel {
            numid: self.numid,
            name: self.name@,
            iface: self.iface@,
            index: self.index,
            device: self.device,
            subdevice: self.subdevice,
            kind: self.kind@,
            values: strings_view(self.values@),
            grouped_label: self.grouped_label@,
            favorite: self.favorite,
        }
    }
}

impl ControlDescriptor {
    /// A copy of this descriptor.
    pub fn duplicate(&self) -> (r: ControlDescriptor)
        ensures
            r@ == self@,
    {
        ControlDescriptor {
            numid: self.numid,
            name: self.name.clone(),
            iface: self.iface.clone(),
            index: self.index,
            device: self.device,
            subdevice: self.subdevice,
            kind: self.kind.duplicate(),
            values: copy_strings(&self.values),
            grouped_label: self.grouped_label.clone(),
            favorite: self.favorite,
        }
    }
}

/// One cell of a routing matrix: the control at `control_index` of the catalog
/// routes `input` to `output` (both counted from zero).
#[derive(Debug, Clone, Copy, PartialEq, Eq)]
pub struct RouteRef {
    pub output: usize,
    pub input: usize,
    pub control_index: usize,
}

/// The analog and digital routing cells found in a catalog, in catalog order.
#[derive(Debug, Clone)]
pub struct RoutingIndex {
    pub analog_routes: Vec<RouteRef>,
    pub digital_routes: Vec<RouteRef>,
}

impl RoutingIndex {
    pub fn new() -> (r: RoutingIndex)
        ensures
            r.analog_routes@.len() == 0,
            r.digital_routes@.len() == 0,
    {
        RoutingIndex { analog_routes: Vec::new(), digital_routes: Vec::new() }
    }
}

impl Default for RoutingIndex {
    fn default() -> (r: RoutingIndex)
        ensures
            r.analog_routes@.len() == 0,
            r.digital_routes@.len() == 0,
    {
        RoutingIndex::new()
    }
}

/// The values of one control in a preset.
#[derive(Debug, Clone)]
pub struct PresetControlValue {
    pub numid: u32,
    pub values: Vec<String>,
}

/// A preset: the values of every control of one card.
#[derive(Debug, Clone)]
pub struct PresetFile {
    pub schema_version: u32,
    pub card_name: String,
    pub controls: Vec<PresetControlValue>,
}

/// A sound card that the host reports.
#[derive(Debug, Clone)]
pub struct CardInfo {
    pub index: u32,
    pub name: String,
}

/// The native backend in use.
#[derive(Debug, Clone, Copy, PartialEq, Eq)]
pub enum BackendKind {
    Alsa,
}

} // verus!
