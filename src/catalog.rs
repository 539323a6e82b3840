//! The control catalog: one descriptor per element that the device exposes,
//! sorted by (name, numid), with the order-stability law of that sort.
use vstd::prelude::*;

use crate::codec::{decoded_values, infer_control_kind, inferred_kind, read_values_for_kind};
use crate::codec::{DbReport, ElemInfo, RawValues};
use crate::models::{ControlDescriptor, DescriptorModel};
use crate::routing::{group_label, spec_group_label};
use crate::text::{format_u64, spec_decimal};

verus! {

/// What the device reports of one element in one pass: its identity and
/// addressing (its name, where it has one), its metadata, its decibel answers and
/// one reading of its value.
#[derive(Debug, Clone)]
pub struct ElemSnapshot {
    pub numid: u32,
    pub name: Option<String>,
    pub iface: String,
    pub index: u32,
    pub device: u32,
    pub subdevice: u32,
    pub info: ElemInfo,
    pub db: DbReport,
    pub reading: RawValues,
}

/// The name of an element that reports none: `numid=<numid>`.
pub open spec fn fallback_name(numid: u32) -> Seq<char> {
    seq!['n', 'u', 'm', 'i', 'd', '='] + spec_decimal(numid as int)
}

pub open spec fn snapshot_name(e: ElemSnapshot) -> Seq<char> {
    match e.name {
        Some(n) => n@,
        None => fallback_name(e.numid),
    }
}

/// The descriptor of one element: its inferred kind, its values read for that
/// kind (one per channel), the group its name suggests, and not a favourite.
pub open spec fn described(e: ElemSnapshot) -> DescriptorModel {
    let kind = inferred_kind(e.info, e.db);
    DescriptorModel {
        numid: e.numid,
        name: snapshot_name(e),
        iface: e.iface@,
        index: e.index,
        device: e.device,
        subdevice: e.subdevice,
        kind,
        values: decoded_values(kind, &e.reading),
        grouped_label: spec_group_label(snapshot_name(e)),
        favorite: false,
    }
}

/// The metadata of an element whose range can be normalised: an integer
/// element's lower bound leaves room for an upper one.
pub open spec fn snapshot_ok(e: ElemSnapshot) -> bool {
    crate::codec::range_ok(e.info)
}

pub open spec fn views(s: Seq<ControlDescriptor>) -> Seq<DescriptorModel> {
    s.map_values(|c: ControlDescriptor| c@)
}

/// Builds the descriptor of one element.
pub fn describe_element(e: &ElemSnapshot) -> (r: ControlDescriptor)
    requires
        snapshot_ok(*e),
    ensures
        r@ == described(*e),
        r@.values.len() == r@.kind.channels(),
        r@.kind.well_formed(),
{
    proof {
        reveal_strlit("numid=");
    }
    let name = match &e.name {
        Some(n) => n.clone(),
        None => {
            let mut s = String::from_str("numid=");
            let digits = format_u64(e.numid as u64);
            s.append(digits.as_str());
            assert(s@ =~= fallback_name(e.numid));
            s
        },
    };
    let kind = infer_control_kind(&e.info, &e.db);
    let values = read_values_for_kind(&kind, &e.reading);
    let grouped_label = group_label(name.as_str());
    ControlDescriptor {
        numid: e.numid,
        name,
        iface: e.iface.clone(),
        index: e.index,
        device: e.device,
        subdevice: e.subdevice,
        kind,
        values,
        grouped_label,
        favorite: false,
    }
}

// ---- ordering ----

/// Lexicographic order of character sequences by code point, as `str`'s own
/// order (UTF-8 byte order) ranks them.
pub open spec fn chars_lt(a: Seq<char>, b: Seq<char>) -> bool
    decreases a.len(),
{
    if a.len() == 0 {
        b.len() > 0
    } else if b.len() == 0 {
        false
    } else if a[0] != b[0] {
        a[0] < b[0]
    } else {
        chars_lt(a.drop_first(), b.drop_first())
    }
}

pub proof fn lemma_chars_lt_irreflexive(a: Seq<char>)
    ensures
        !chars_lt(a, a),
    decreases a.len(),
{
    if a.len() > 0 {
        lemma_chars_lt_irreflexive(a.drop_first());
    }
}

pub proof fn lemma_chars_lt_transitive(a: Seq<char>, b: Seq<char>, c: Seq<char>)
    requires
        chars_lt(a, b),
        chars_lt(b, c),
    ensures
        chars_lt(a, c),
    decreases a.len(),
{
    if a.len() > 0 && b.len() > 0 && c.len() > 0 && a[0] == b[0] && b[0] == c[0] {
        lemma_chars_lt_transitive(a.drop_first(), b.drop_first(), c.drop_first());
    }
}

pub proof fn lemma_chars_lt_total(a: Seq<char>, b: Seq<char>)
    requires
        a != b,
    ensures
        chars_lt(a, b) || chars_lt(b, a),
    decreases a.len(),
{
    if a.len() > 0 && b.len() > 0 && a[0] == b[0] {
        if a.drop_first() == b.drop_first() {
            assert(a =~= seq![a[0]] + a.drop_first());
            assert(b =~= seq![b[0]] + b.drop_first());
        }
        lemma_chars_lt_total(a.drop_first(), b.drop_first());
    } else if a.len() == 0 && b.len() == 0 {
        assert(a =~= b);
    }
}

/// The catalog order: by name, then by numid.
pub open spec fn key_lt(x: DescriptorModel, y: DescriptorModel) -> bool {
    chars_lt(x.name, y.name) || (x.name == y.name && x.numid < y.numid)
}

pub proof fn lemma_key_lt_transitive(x: DescriptorModel, y: DescriptorModel, z: DescriptorModel)
    requires
        key_lt(x, y),
        key_lt(y, z),
    ensures
        key_lt(x, z),
{
    if chars_lt(x.name, y.name) && chars_lt(y.name, z.name) {
        lemma_chars_lt_transitive(x.name, y.name, z.name);
    }
}

pub proof fn lemma_key_lt_irreflexive(x: DescriptorModel)
    ensures
        !key_lt(x, x),
{
    lemma_chars_lt_irreflexive(x.name);
}

/// Two distinct keys are ordered one way or the other.
pub proof fn lemma_key_lt_total(x: DescriptorModel, y: DescriptorModel)
    requires
        x.name != y.name || x.numid != y.numid,
    ensures
        key_lt(x, y) || key_lt(y, x),
{
    if x.name != y.name {
        lemma_chars_lt_total(x.name, y.name);
    }
}

/// No later entry comes before an earlier one.
pub open spec fn sorted_by_key(s: Seq<DescriptorModel>) -> bool {
    forall|i: int, j: int| 0 <= i < j < s.len() ==> !key_lt(#[trigger] s[j], #[trigger] s[i])
}

/// Whether `a` comes before `b` in code point order.
pub fn name_less(a: &str, b: &str) -> (r: bool)
    ensures
        r == chars_lt(a@, b@),
{
    let la = a.unicode_len();
    let lb = b.unicode_len();
    let mut i: usize = 0;
    assert(a@.subrange(0, la as int) =~= a@);
    assert(b@.subrange(0, lb as int) =~= b@);
    while i < la && i < lb
        invariant
            la == a@.len(),
            lb == b@.len(),
            i <= la,
            i <= lb,
            chars_lt(a@, b@) == chars_lt(a@.subrange(i as int, la as int), b@.subrange(i as int, lb as int)),
        decreases la - i,
    {
        let ca = a.get_char(i);
        let cb = b.get_char(i);
        let ghost sa = a@.subrange(i as int, la as int);
        let ghost sb = b@.subrange(i as int, lb as int);
        assert(sa[0] == ca && sb[0] == cb);
        if ca != cb {
            return ca < cb;
        }
        assert(sa.drop_first() =~= a@.subrange(i + 1, la as int));
        assert(sb.drop_first() =~= b@.subrange(i + 1, lb as int));
        i = i + 1;
    }
    i == la && i < lb
}

/// Whether descriptor `a` comes before `b` in the catalog order.
pub fn descriptor_less(a: &ControlDescriptor, b: &ControlDescriptor) -> (r: bool)
    ensures
        r == key_lt(a@, b@),
{
    if name_less(a.name.as_str(), b.name.as_str()) {
        true
    } else {
        a.name == b.name && a.numid < b.numid
    }
}

/// `src` and `dst` are inverse maps between positions `0..n`.
pub open spec fn is_bijection(src: Seq<int>, dst: Seq<int>, n: int) -> bool {
    &&& src.len() == n
    &&& dst.len() == n
    &&& forall|j: int| 0 <= j < n ==> 0 <= #[trigger] src[j] < n && dst[src[j]] == j
    &&& forall|k: int| 0 <= k < n ==> 0 <= #[trigger] dst[k] < n && src[dst[k]] == k
}

/// `out` is a catalog of `elems`: the descriptions of the elements, each one
/// once, in catalog order.
pub open spec fn catalog_of(elems: Seq<ElemSnapshot>, out: Seq<DescriptorModel>) -> bool {
    &&& out.len() == elems.len()
    &&& exists|src: Seq<int>, dst: Seq<int>|
        #[trigger] is_bijection(src, dst, out.len() as int) && forall|j: int|
            0 <= j < out.len() ==> #[trigger] out[j] == described(elems[src[j]])
    &&& sorted_by_key(out)
}

/// Builds the catalog of the elements that one pass over the device reported:
/// one descriptor per element, with one value per channel of its kind, sorted by
/// (name, numid); elements of equal key keep the order in which they came.
pub fn build_catalog(elems: &Vec<ElemSnapshot>) -> (r: Vec<ControlDescriptor>)
    requires
        forall|k: int| 0 <= k < elems@.len() ==> snapshot_ok(#[trigger] elems@[k]),
    ensures
        catalog_of(elems@, views(r@)),
        forall|j: int|
            0 <= j < r@.len() ==> (#[trigger] r@[j])@.values.len() == r@[j]@.kind.channels()
                && r@[j]@.kind.well_formed(),
{
    let n = elems.len();
    let mut out: Vec<ControlDescriptor> = Vec::new();
    let ghost mut src: Seq<int> = Seq::empty();
    let ghost mut dst: Seq<int> = Seq::empty();
    let mut i: usize = 0;
    while i < n
        invariant
            n == elems@.len(),
            forall|k: int| 0 <= k < elems@.len() ==> snapshot_ok(#[trigger] elems@[k]),
            i <= n,
            out@.len() == i,
            src.len() == i,
            dst.len() == i,
            forall|j: int|
                0 <= j < i ==> 0 <= #[trigger] src[j] < i && out@[j]@ == described(elems@[src[j]])
                    && dst[src[j]] == j,
            forall|k: int| 0 <= k < i ==> 0 <= #[trigger] dst[k] < i && src[dst[k]] == k,
            sorted_by_key(views(out@)),
            forall|j: int|
                0 <= j < i ==> (#[trigger] out@[j])@.values.len() == out@[j]@.kind.channels()
                    && out@[j]@.kind.well_formed(),
        decreases n - i,
    {
        let d = describe_element(&elems[i]);
        let mut p: usize = 0;
        let mut stop = false;
        while !stop && p < out.len()
            invariant
                p <= out@.len(),
                forall|q: int| 0 <= q < p ==> !key_lt(d@, #[trigger] out@[q]@),
                stop ==> p < out@.len() && key_lt(d@, out@[p as int]@),
            decreases out@.len() - p + (if stop {
                0int
            } else {
                1int
            }),
        {
            if descriptor_less(&d, &out[p]) {
                stop = true;
            } else {
                p = p + 1;
            }
        }
        assert(p < out@.len() ==> key_lt(d@, out@[p as int]@));
        let ghost old_out = out@;
        let ghost new_view = d@;
        out.insert(p, d);
        proof {
            let pi = p as int;
            let ii = i as int;
            assert(out@ == old_out.insert(pi, d));
            let nsrc = src.insert(pi, ii);
            let ndst = Seq::new(
                (ii + 1) as nat,
                |k: int|
                    if k == ii {
                        pi
                    } else if dst[k] >= pi {
                        dst[k] + 1
                    } else {
                        dst[k]
                    },
            );
            assert forall|j: int| 0 <= j < ii + 1 implies 0 <= #[trigger] nsrc[j] < ii + 1
                && out@[j]@ == described(elems@[nsrc[j]]) && ndst[nsrc[j]] == j by {
                if j < pi {
                    assert(nsrc[j] == src[j]);
                    assert(out@[j] == old_out[j]);
                } else if j == pi {
                    assert(nsrc[j] == ii);
                } else {
                    assert(nsrc[j] == src[j - 1]);
                    assert(out@[j] == old_out[j - 1]);
                }
            }
            assert forall|k: int| 0 <= k < ii + 1 implies 0 <= #[trigger] ndst[k] < ii + 1
                && nsrc[ndst[k]] == k by {
                if k < ii {
                    let dk = dst[k];
                    if dk >= pi {
                        assert(nsrc[dk + 1] == src[dk]);
                    } else {
                        assert(nsrc[dk] == src[dk]);
                    }
                }
            }
            assert forall|a: int, b: int| 0 <= a < b < views(out@).len() implies !key_lt(
                #[trigger] views(out@)[b],
                #[trigger] views(out@)[a],
            ) by {
                let va = views(out@)[a];
                let vb = views(out@)[b];
                assert(va == out@[a]@);
                assert(vb == out@[b]@);
                if a < pi && b < pi {
                    assert(views(old_out)[a] == va && views(old_out)[b] == vb);
                } else if a < pi && b == pi {
                    assert(out@[a] == old_out[a]);
                } else if a < pi && b > pi {
                    assert(views(old_out)[a] == va && views(old_out)[b - 1] == vb);
                } else if a == pi {
                    // b > p: the element after the insertion point is not below it
                    assert(out@[b] == old_out[b - 1]);
                    let vp = old_out[pi]@;
                    assert(views(old_out)[pi] == vp);
                    assert(key_lt(new_view, vp));
                    if key_lt(vb, new_view) {
                        lemma_key_lt_transitive(vb, new_view, vp);
                        if b - 1 > pi {
                            assert(views(old_out)[b - 1] == vb);
                        } else {
                            lemma_key_lt_irreflexive(vp);
                        }
                    }
                } else {
                    assert(views(old_out)[a - 1] == va && views(old_out)[b - 1] == vb);
                }
            }
            src = nsrc;
            dst = ndst;
        }
        i = i + 1;
    }
    proof {
        assert(is_bijection(src, dst, n as int));
        assert forall|j: int| 0 <= j < views(out@).len() implies #[trigger] views(out@)[j]
            == described(elems@[src[j]]) by {
            assert(views(out@)[j] == out@[j]@);
        }
    }
    out
}

pub open spec fn same_key(x: DescriptorModel, y: DescriptorModel) -> bool {
    x.name == y.name && x.numid == y.numid
}

/// Some entry of `r` has the name and numid of `x`.
pub open spec fn has_key_in(x: DescriptorModel, r: Seq<DescriptorModel>) -> bool {
    exists|j: int| 0 <= j < r.len() && same_key(x, #[trigger] r[j])
}

/// No two elements share a numid.
pub open spec fn unique_numids(elems: Seq<ElemSnapshot>) -> bool {
    forall|a: int, b: int|
        0 <= a < elems.len() && 0 <= b < elems.len() && a != b ==> #[trigger] elems[a].numid
            != #[trigger] elems[b].numid
}

/// Every element of `e1` has an element of `e2` with the same name and numid.
pub open spec fn keys_covered(e1: Seq<ElemSnapshot>, e2: Seq<ElemSnapshot>) -> bool {
    forall|k: int| 0 <= k < e1.len() ==> element_key_in(#[trigger] e1[k], e2)
}

/// Some element of `es` has the name and numid of `e`.
pub open spec fn element_key_in(e: ElemSnapshot, es: Seq<ElemSnapshot>) -> bool {
    exists|m: int| 0 <= m < es.len() && same_key(described(e), described(#[trigger] es[m]))
}

proof fn lemma_catalog_strict(elems: Seq<ElemSnapshot>, out: Seq<DescriptorModel>)
    requires
        catalog_of(elems, out),
        unique_numids(elems),
    ensures
        forall|a: int, b: int| 0 <= a < b < out.len() ==> key_lt(#[trigger] out[a], #[trigger] out[b]),
{
    let (src, dst) = choose|src: Seq<int>, dst: Seq<int>|
        #[trigger] is_bijection(src, dst, out.len() as int) && forall|j: int|
            0 <= j < out.len() ==> #[trigger] out[j] == described(elems[src[j]]);
    assert forall|a: int, b: int| 0 <= a < b < out.len() implies key_lt(
        #[trigger] out[a],
        #[trigger] out[b],
    ) by {
        assert(out[a] == described(elems[src[a]]));
        assert(out[b] == described(elems[src[b]]));
        assert(src[a] != src[b]);
        assert(elems[src[a]].numid != elems[src[b]].numid);
        lemma_key_lt_total(out[a], out[b]);
    }
}

proof fn lemma_catalog_covers(
    e1: Seq<ElemSnapshot>,
    e2: Seq<ElemSnapshot>,
    r1: Seq<DescriptorModel>,
    r2: Seq<DescriptorModel>,
)
    requires
        catalog_of(e1, r1),
        catalog_of(e2, r2),
        keys_covered(e1, e2),
    ensures
        forall|i: int| 0 <= i < r1.len() ==> has_key_in(#[trigger] r1[i], r2),
{
    let (s1, d1) = choose|src: Seq<int>, dst: Seq<int>|
        #[trigger] is_bijection(src, dst, r1.len() as int) && forall|j: int|
            0 <= j < r1.len() ==> #[trigger] r1[j] == described(e1[src[j]]);
    let (s2, d2) = choose|src: Seq<int>, dst: Seq<int>|
        #[trigger] is_bijection(src, dst, r2.len() as int) && forall|j: int|
            0 <= j < r2.len() ==> #[trigger] r2[j] == described(e2[src[j]]);
    assert forall|i: int| 0 <= i < r1.len() implies has_key_in(#[trigger] r1[i], r2) by {
        let k = s1[i];
        assert(r1[i] == described(e1[k]));
        assert(element_key_in(e1[k], e2));
        let m = choose|m: int| 0 <= m < e2.len() && same_key(described(e1[k]), described(#[trigger] e2[m]));
        let j = d2[m];
        assert(r2[j] == described(e2[s2[j]]));
        assert(same_key(r1[i], r2[j]));
    }
}

proof fn lemma_same_key_at(r1: Seq<DescriptorModel>, r2: Seq<DescriptorModel>, i: int)
    requires
        r1.len() == r2.len(),
        0 <= i < r1.len(),
        forall|a: int, b: int| 0 <= a < b < r1.len() ==> key_lt(#[trigger] r1[a], #[trigger] r1[b]),
        forall|a: int, b: int| 0 <= a < b < r2.len() ==> key_lt(#[trigger] r2[a], #[trigger] r2[b]),
        forall|x: int| 0 <= x < r1.len() ==> has_key_in(#[trigger] r1[x], r2),
        forall|x: int| 0 <= x < r2.len() ==> has_key_in(#[trigger] r2[x], r1),
        forall|x: int| 0 <= x < i ==> same_key(#[trigger] r1[x], r2[x]),
    ensures
        same_key(r1[i], r2[i]),
{
    assert(has_key_in(r1[i], r2));
    assert(has_key_in(r2[i], r1));
    let j = choose|j: int| 0 <= j < r2.len() && same_key(r1[i], #[trigger] r2[j]);
    let jj = choose|j: int| 0 <= j < r1.len() && same_key(r2[i], #[trigger] r1[j]);
    if j < i {
        assert(same_key(r1[j], r2[j]));
        assert(key_lt(r1[j], r1[i]));
        lemma_key_lt_irreflexive(r1[i]);
    } else if j > i && jj < i {
        assert(same_key(r1[jj], r2[jj]));
        assert(key_lt(r2[jj], r2[i]));
        lemma_key_lt_irreflexive(r2[i]);
    } else if j > i && jj > i {
        assert(key_lt(r2[i], r2[j]));
        assert(key_lt(r1[i], r1[jj]));
        assert(key_lt(r1[jj], r1[i]));
        lemma_key_lt_transitive(r1[i], r1[jj], r1[i]);
        lemma_key_lt_irreflexive(r1[i]);
    }
}

proof fn lemma_same_keys_upto(r1: Seq<DescriptorModel>, r2: Seq<DescriptorModel>, i: int)
    requires
        r1.len() == r2.len(),
        0 <= i <= r1.len(),
        forall|a: int, b: int| 0 <= a < b < r1.len() ==> key_lt(#[trigger] r1[a], #[trigger] r1[b]),
        forall|a: int, b: int| 0 <= a < b < r2.len() ==> key_lt(#[trigger] r2[a], #[trigger] r2[b]),
        forall|x: int| 0 <= x < r1.len() ==> has_key_in(#[trigger] r1[x], r2),
        forall|x: int| 0 <= x < r2.len() ==> has_key_in(#[trigger] r2[x], r1),
    ensures
        forall|x: int| 0 <= x < i ==> same_key(#[trigger] r1[x], r2[x]),
    decreases i,
{
    if i > 0 {
        lemma_same_keys_upto(r1, r2, i - 1);
        lemma_same_key_at(r1, r2, i - 1);
    }
}

/// Two catalog builds over the same elements list them in the same (name,
/// numid) order, whatever order the device reported them in: where the two
/// passes report the same names and numids, and no numid repeats, the two
/// catalogs agree position by position on name and numid.
pub proof fn lemma_catalog_order_stable(
    e1: Seq<ElemSnapshot>,
    e2: Seq<ElemSnapshot>,
    r1: Seq<DescriptorModel>,
    r2: Seq<DescriptorModel>,
)
    requires
        catalog_of(e1, r1),
        catalog_of(e2, r2),
        e1.len() == e2.len(),
        unique_numids(e1),
        unique_numids(e2),
        keys_covered(e1, e2),
        keys_covered(e2, e1),
    ensures
        r1.len() == r2.len(),
        forall|i: int| 0 <= i < r1.len() ==> #[trigger] r1[i].name == r2[i].name && r1[i].numid == r2[i].numid,
{
    lemma_catalog_strict(e1, r1);
    lemma_catalog_strict(e2, r2);
    lemma_catalog_covers(e1, e2, r1, r2);
    lemma_catalog_covers(e2, e1, r2, r1);
    lemma_same_keys_upto(r1, r2, r1.len() as int);
    assert forall|i: int| 0 <= i < r1.len() implies #[trigger] r1[i].name == r2[i].name && r1[i].numid
        == r2[i].numid by {
        assert(same_key(r1[i], r2[i]));
    }
}

/// Two catalog builds over an unchanged device (the same elements, numids
/// unique, as numids are) list the descriptors in the same (name, numid) order.
pub proof fn lemma_rebuild_same_order(
    elems: Seq<ElemSnapshot>,
    r1: Seq<DescriptorModel>,
    r2: Seq<DescriptorModel>,
)
    requires
        catalog_of(elems, r1),
        catalog_of(elems, r2),
        unique_numids(elems),
    ensures
        r1.len() == r2.len(),
        forall|i: int| 0 <= i < r1.len() ==> #[trigger] r1[i].name == r2[i].name && r1[i].numid == r2[i].numid,
{
    assert forall|k: int| 0 <= k < elems.len() implies element_key_in(#[trigger] elems[k], elems) by {
        assert(same_key(described(elems[k]), described(elems[k])));
    }
    lemma_catalog_order_stable(elems, elems, r1, r2);
}

} // verus!
