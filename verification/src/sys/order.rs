//! The order in which enumeration lists devices.

use crate::sys::{DeviceInfo, DeviceInfoView};
use vstd::prelude::*;

verus! {

/// Whether a device comes before or with another in an enumeration.
pub open spec fn in_order(a: DeviceInfoView, b: DeviceInfoView) -> bool {
    a.bus_number < b.bus_number || (a.bus_number == b.bus_number && a.address <= b.address)
}

/// A device at its place among sorted ones: behind all that come before it or
/// with it.
pub open spec fn placed(v: Seq<DeviceInfoView>, d: DeviceInfoView) -> Seq<DeviceInfoView>
    decreases v.len(),
{
    if v.len() == 0 || in_order(v.last(), d) {
        v.push(d)
    } else {
        placed(v.drop_last(), d).push(v.last())
    }
}

/// Devices by bus number and address; those that agree in both keep their
/// order.
pub open spec fn sorted(v: Seq<DeviceInfoView>) -> Seq<DeviceInfoView>
    decreases v.len(),
{
    if v.len() == 0 {
        v
    } else {
        placed(sorted(v.drop_last()), v.last())
    }
}

/// The snapshots as mathematical values.
pub open spec fn info_views(v: Seq<DeviceInfo>) -> Seq<DeviceInfoView> {
    v.map_values(|d: DeviceInfo| d@)
}

/// Puts a device at its place among sorted ones.
fn place(v: &mut Vec<DeviceInfo>, d: DeviceInfo)
    ensures
        info_views(final(v)@) == placed(info_views(old(v)@), d@),
{
    let ghost all = info_views(v@);
    let n: usize = v.len();
    let mut i: usize = n;
    let ghost mut tail = Seq::<DeviceInfoView>::empty();
    proof {
        assert(all.take(n as int) =~= all);
        assert(placed(all, d@) =~= placed(all.take(n as int), d@) + tail);
    }
    while i > 0 && !(v[i - 1].bus_number < d.bus_number || (v[i - 1].bus_number == d.bus_number && v[i - 1].address
        <= d.address))
        invariant
            i <= n,
            n == v@.len(),
            all == info_views(v@),
            tail == all.skip(i as int),
            placed(all, d@) == placed(all.take(i as int), d@) + tail,
        decreases i,
    {
        proof {
            let t = all.take(i as int);
            assert(t.last() == v@[i - 1]@);
            assert(t.drop_last() =~= all.take(i - 1));
            let more = seq![t.last()] + tail;
            assert(placed(t, d@) + tail =~= placed(all.take(i - 1), d@) + more);
            assert(more =~= all.skip(i - 1));
            tail = more;
        }
        i -= 1;
    }
    proof {
        let t = all.take(i as int);
        if i > 0 {
            assert(t.last() == v@[i - 1]@);
        }
        assert(placed(t, d@) =~= t.push(d@));
    }
    let ghost dv = d@;
    v.insert(i, d);
    assert(info_views(v@) =~= all.take(i as int).push(dv) + all.skip(i as int));
}

/// Sorts devices by bus number and address; those that agree in both keep
/// their order.
pub fn sort_devices(v: Vec<DeviceInfo>) -> (r: Vec<DeviceInfo>)
    ensures
        info_views(r@) == sorted(info_views(v@)),
{
    let mut out: Vec<DeviceInfo> = Vec::new();
    let mut i: usize = 0;
    let ghost all = info_views(v@);
    proof {
        assert(all.take(0) =~= Seq::<DeviceInfoView>::empty());
        assert(info_views(out@) =~= Seq::<DeviceInfoView>::empty());
    }
    while i < v.len()
        invariant
            i <= v@.len(),
            all == info_views(v@),
            info_views(out@) == sorted(all.take(i as int)),
        decreases v@.len() - i,
    {
        proof {
            assert(all.take(i + 1).drop_last() =~= all.take(i as int));
            assert(all.take(i + 1).last() == v@[i as int]@);
        }
        place(&mut out, v[i].duplicate());
        i += 1;
    }
    assert(all.take(i as int) =~= all);
    out
}

/// Sorting puts every device before or with those behind it.
pub proof fn lemma_sorted_is_in_order(v: Seq<DeviceInfoView>, i: int, j: int)
    requires
        0 <= i < j < sorted(v).len(),
    ensures
        in_order(sorted(v)[i], sorted(v)[j]),
{
    lemma_sorted(v);
}

spec fn is_sorted(v: Seq<DeviceInfoView>) -> bool {
    forall|i: int, j: int| 0 <= i < j < v.len() ==> in_order(#[trigger] v[i], #[trigger] v[j])
}

proof fn lemma_placed(v: Seq<DeviceInfoView>, d: DeviceInfoView)
    requires
        is_sorted(v),
    ensures
        is_sorted(placed(v, d)),
        placed(v, d).len() == v.len() + 1,
        placed(v, d).to_multiset() == v.to_multiset().insert(d),
        forall|i: int| 0 <= i < placed(v, d).len() ==> #[trigger] placed(v, d)[i] == d || v.contains(placed(v, d)[i]),
    decreases v.len(),
{
    broadcast use vstd::seq_lib::group_to_multiset_ensures;

    if v.len() == 0 || in_order(v.last(), d) {
        let p = v.push(d);
        assert forall|i: int, j: int| 0 <= i < j < p.len() implies in_order(#[trigger] p[i], #[trigger] p[j]) by {
            if j == v.len() && i < v.len() - 1 {
                assert(in_order(v[i], v[v.len() - 1]));
            }
        }
    } else {
        let rest = v.drop_last();
        assert forall|i: int, j: int| 0 <= i < j < rest.len() implies in_order(
            #[trigger] rest[i],
            #[trigger] rest[j],
        ) by {
            assert(in_order(v[i], v[j]));
        }
        lemma_placed(rest, d);
        let q = placed(rest, d);
        let p = q.push(v.last());
        assert forall|i: int, j: int| 0 <= i < j < p.len() implies in_order(#[trigger] p[i], #[trigger] p[j]) by {
            if j == q.len() {
                if q[i] != d {
                    let k = choose|k: int| 0 <= k < rest.len() && rest[k] == q[i];
                    assert(in_order(v[k], v[v.len() - 1]));
                }
            }
        }
        assert(rest.push(v.last()) =~= v);
        assert(p.to_multiset() =~= v.to_multiset().insert(d));
        assert forall|i: int| 0 <= i < p.len() implies #[trigger] p[i] == d || v.contains(p[i]) by {
            if i < q.len() {
                if q[i] != d {
                    let k = choose|k: int| 0 <= k < rest.len() && rest[k] == q[i];
                    assert(v[k] == q[i]);
                }
            } else {
                assert(v[v.len() - 1] == p[i]);
            }
        }
    }
}

proof fn lemma_sorted(v: Seq<DeviceInfoView>)
    ensures
        is_sorted(sorted(v)),
        sorted(v).to_multiset() == v.to_multiset(),
    decreases v.len(),
{
    broadcast use vstd::seq_lib::group_to_multiset_ensures;

    if v.len() > 0 {
        lemma_sorted(v.drop_last());
        lemma_placed(sorted(v.drop_last()), v.last());
        assert(v.drop_last().push(v.last()) =~= v);
    }
}

/// Sorting keeps every device, as often as it is there.
pub proof fn lemma_sorted_keeps_devices(v: Seq<DeviceInfoView>)
    ensures
        sorted(v).to_multiset() == v.to_multiset(),
{
    lemma_sorted(v);
}

/// Devices are ordered by bus and, on one bus, by address.
pub proof fn lemma_device_order(a: DeviceInfoView, b: DeviceInfoView)
    ensures
        a.bus_number < b.bus_number ==> in_order(a, b) && !in_order(b, a),
        a.bus_number == b.bus_number && a.address < b.address ==> in_order(a, b) && !in_order(b, a),
        a.bus_number == b.bus_number && a.address == b.address ==> in_order(a, b) && in_order(b, a),
{
}

} // verus!
