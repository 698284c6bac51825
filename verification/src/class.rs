//! Plumbing shared by the class helpers: walking class-specific descriptors
//! and picking interfaces and endpoints of a configuration.

use crate::descriptors::{main_alt, ConfigDescriptor, EndpointDescriptor, Interface, InterfaceDescriptor};
use crate::error::{message, Error, ErrorKind, ErrorView, Result};
use crate::types::{direction_of, transfer_type_of, Direction, TransferType};
use vstd::prelude::*;
use vstd::slice::slice_subrange;

pub mod claim;

verus! {

/// Whether `b` starts with a descriptor that fits: its first byte is its
/// length, at least two.
pub open spec fn starts_with_descriptor(b: Seq<u8>) -> bool {
    b.len() >= 2 && 2 <= b[0] <= b.len()
}

/// The descriptors laid end to end in `b`, up to the first malformed one.
pub open spec fn walk(b: Seq<u8>) -> Seq<Seq<u8>>
    decreases b.len(),
{
    if starts_with_descriptor(b) {
        seq![b.take(b[0] as int)] + walk(b.skip(b[0] as int))
    } else {
        Seq::empty()
    }
}

/// The descriptors laid end to end, joined again.
pub open spec fn joined(ds: Seq<Seq<u8>>) -> Seq<u8>
    decreases ds.len(),
{
    if ds.len() == 0 {
        Seq::empty()
    } else {
        joined(ds.drop_last()) + ds.last()
    }
}

/// The descriptors in `extra` as `(bDescriptorType, whole descriptor)` pairs,
/// stopping at malformed data.
pub fn descriptors(extra: &[u8]) -> (r: Vec<(u8, &[u8])>)
    ensures
        r@.len() == walk(extra@).len(),
        forall|i: int|
            #![trigger r@[i]]
            0 <= i < r@.len() ==> r@[i].1@ == walk(extra@)[i] && r@[i].0 == walk(extra@)[i][1] && r@[i].1@.len() >= 2,
{
    let mut out: Vec<(u8, &[u8])> = Vec::new();
    let mut pos: usize = 0;
    assert(extra@.skip(0) =~= extra@);
    while extra.len() - pos >= 2 && 2 <= extra[pos] && extra[pos] as usize <= extra.len() - pos
        invariant
            pos <= extra@.len(),
            out@.len() + walk(extra@.skip(pos as int)).len() == walk(extra@).len(),
            walk(extra@) =~= Seq::new(out@.len(), |i: int| out@[i].1@) + walk(extra@.skip(pos as int)),
            forall|i: int| #![trigger out@[i]] 0 <= i < out@.len() ==> out@[i].0 == out@[i].1@[1] && out@[i].1@.len() >= 2,
        decreases extra@.len() - pos,
    {
        let len: usize = extra[pos] as usize;
        let d = slice_subrange(extra, pos, pos + len);
        let ghost rest = extra@.skip(pos as int);
        let ghost before = out@;
        assert(rest[0] == extra@[pos as int]);
        assert(rest.take(len as int) =~= d@);
        assert(rest.skip(len as int) =~= extra@.skip(pos + len));
        out.push((d[1], d));
        pos += len;
        assert(Seq::new(out@.len(), |i: int| out@[i].1@) =~= Seq::new(before.len(), |i: int| before[i].1@).push(d@));
        assert(walk(rest) == seq![d@] + walk(extra@.skip(pos as int)));
    }
    assert(walk(extra@.skip(pos as int)) =~= Seq::empty()) by {
        let rest = extra@.skip(pos as int);
        if rest.len() >= 2 {
            assert(rest[0] == extra@[pos as int]);
        }
    }
    proof {
        assert(walk(extra@) =~= Seq::new(out@.len(), |i: int| out@[i].1@));
    }
    out
}

/// The descriptors found are a prefix of the bytes they were found in.
pub proof fn lemma_walk_is_prefix(b: Seq<u8>)
    ensures
        joined(walk(b)).is_prefix_of(b),
    decreases b.len(),
{
    if starts_with_descriptor(b) {
        let n = b[0] as int;
        lemma_walk_is_prefix(b.skip(n));
        lemma_joined_first(b.take(n), walk(b.skip(n)));
        let j = joined(walk(b.skip(n)));
        assert(joined(walk(b)) =~= b.take(n) + j);
        assert(b =~= b.take(n) + b.skip(n));
    }
}

proof fn lemma_joined_first(d: Seq<u8>, ds: Seq<Seq<u8>>)
    ensures
        joined(seq![d] + ds) == d + joined(ds),
    decreases ds.len(),
{
    let all = seq![d] + ds;
    if ds.len() == 0 {
        assert(all.drop_last() =~= Seq::empty());
        assert(all.last() == d);
        assert(joined(all.drop_last()) =~= Seq::empty());
        assert(joined(ds) =~= Seq::empty());
        assert(joined(all) =~= d + joined(ds));
    } else {
        assert(all.drop_last() =~= seq![d] + ds.drop_last());
        assert(all.last() == ds.last());
        lemma_joined_first(d, ds.drop_last());
        assert(joined(all) =~= d + joined(ds));
    }
}

// ----- picking interfaces and endpoints ----------------------------------------

/// Whether an endpoint has the given direction and type.
pub open spec fn endpoint_is(e: EndpointDescriptor, direction: Direction, kind: TransferType) -> bool {
    direction_of(e.address) == direction && transfer_type_of(e.attributes) == kind
}

/// The first endpoint of the given direction and type.
pub open spec fn first_endpoint(
    es: Seq<EndpointDescriptor>,
    direction: Direction,
    kind: TransferType,
) -> Option<EndpointDescriptor>
    decreases es.len(),
{
    if es.len() == 0 {
        None
    } else if endpoint_is(es[0], direction, kind) {
        Some(es[0])
    } else {
        first_endpoint(es.skip(1), direction, kind)
    }
}

proof fn lemma_first_endpoint(es: Seq<EndpointDescriptor>, direction: Direction, kind: TransferType, k: int)
    requires
        0 <= k <= es.len(),
        forall|j: int| 0 <= j < k ==> !endpoint_is(#[trigger] es[j], direction, kind),
        k < es.len() ==> endpoint_is(es[k], direction, kind),
    ensures
        first_endpoint(es, direction, kind) == (if k < es.len() { Some(es[k]) } else { None }),
    decreases es.len(),
{
    if k > 0 {
        assert(!endpoint_is(es[0], direction, kind));
        let w = es.skip(1);
        assert forall|j: int| 0 <= j < k - 1 implies !endpoint_is(#[trigger] w[j], direction, kind) by {
            assert(w[j] == es[j + 1]);
        }
        lemma_first_endpoint(w, direction, kind, k - 1);
    }
}

/// The first endpoint of the given direction and type.
pub fn endpoint(iface: &InterfaceDescriptor, direction: Direction, kind: TransferType) -> (r: Option<
    &EndpointDescriptor,
>)
    ensures
        match first_endpoint(iface.endpoints@, direction, kind) {
            Some(e) => r == Some(&e),
            None => r is None,
        },
{
    let mut i: usize = 0;
    while i < iface.endpoints.len()
        invariant
            i <= iface.endpoints@.len(),
            forall|j: int| 0 <= j < i ==> !endpoint_is(#[trigger] iface.endpoints@[j], direction, kind),
        decreases iface.endpoints@.len() - i,
    {
        let e = &iface.endpoints[i];
        if e.direction() == direction && e.transfer_type() == kind {
            proof {
                lemma_first_endpoint(iface.endpoints@, direction, kind, i as int);
            }
            return Some(e);
        }
        i += 1;
    }
    proof {
        lemma_first_endpoint(iface.endpoints@, direction, kind, i as int);
    }
    None
}

/// The descriptors that stand for the given interfaces and satisfy `p`, in
/// order.
pub open spec fn settings_where(v: Seq<Interface>, p: spec_fn(InterfaceDescriptor) -> bool) -> Seq<InterfaceDescriptor>
    decreases v.len(),
{
    if v.len() == 0 {
        Seq::empty()
    } else if p(main_alt(v.last())) {
        settings_where(v.drop_last(), p).push(main_alt(v.last()))
    } else {
        settings_where(v.drop_last(), p)
    }
}

/// The descriptors that a list refers to.
pub open spec fn settings(v: Seq<&InterfaceDescriptor>) -> Seq<InterfaceDescriptor> {
    Seq::new(v.len(), |i: int| *v[i])
}

/// Every interface (alternate setting 0) of a configuration that satisfies
/// `pred`, in descriptor order; `p` is what `pred` decides.
pub fn interfaces_where<'a, F: Fn(&InterfaceDescriptor) -> bool>(
    cfg: &'a ConfigDescriptor,
    pred: F,
    Ghost(p): Ghost<spec_fn(InterfaceDescriptor) -> bool>,
) -> (r: Vec<&'a InterfaceDescriptor>)
    requires
        cfg.wf(),
        forall|a: &InterfaceDescriptor| call_requires(pred, (a,)),
        forall|a: &InterfaceDescriptor, b: bool| #[trigger] call_ensures(pred, (a,), b) ==> b == p(*a),
    ensures
        settings(r@) == settings_where(cfg.interfaces@, p),
{
    let mut out: Vec<&'a InterfaceDescriptor> = Vec::new();
    let mut i: usize = 0;
    let ghost all = cfg.interfaces@;
    assert(all.take(0) =~= Seq::empty());
    assert(settings(out@) =~= settings_where(all.take(0), p));
    while i < cfg.interfaces.len()
        invariant
            cfg.wf(),
            forall|a: &InterfaceDescriptor| call_requires(pred, (a,)),
            forall|a: &InterfaceDescriptor, b: bool| #[trigger] call_ensures(pred, (a,), b) ==> b == p(*a),
            i <= cfg.interfaces@.len(),
            all == cfg.interfaces@,
            settings(out@) == settings_where(all.take(i as int), p),
        decreases cfg.interfaces@.len() - i,
    {
        assert(all.take(i + 1).drop_last() =~= all.take(i as int));
        let a = cfg.interfaces[i].main_setting();
        let ghost before = settings(out@);
        if pred(a) {
            out.push(a);
            assert(settings(out@) =~= before.push(*a));
        }
        i += 1;
    }
    assert(all.take(i as int) =~= all);
    out
}

/// The descriptor that stands for interface `number`, or the error of a
/// configuration without it.
pub open spec fn setting_of(v: Seq<Interface>, number: u8) -> std::result::Result<InterfaceDescriptor, ErrorView> {
    match interface_numbered(v, number) {
        Some(i) => Ok(main_alt(i)),
        None => Err(message(ErrorKind::NotFound, "no such interface in the active configuration"@)),
    }
}

/// Alternate setting 0 of interface `number` of a configuration.
pub fn interface(cfg: &ConfigDescriptor, number: u8) -> (r: Result<&InterfaceDescriptor>)
    requires
        cfg.wf(),
    ensures
        match setting_of(cfg.interfaces@, number) {
            Ok(a) => r is Ok && *r->Ok_0 == a,
            Err(e) => r is Err && r->Err_0@ == e,
        },
{
    match cfg.interface(number) {
        Some(i) => {
            proof {
                lemma_interface_numbered(cfg.interfaces@, number, *i);
            }
            Ok(i.main_setting())
        },
        None => {
            proof {
                lemma_no_interface_numbered(cfg.interfaces@, number);
            }
            Err(Error::with_message(ErrorKind::NotFound, "no such interface in the active configuration"))
        },
    }
}

/// The first interface with the given number.
pub open spec fn interface_numbered(v: Seq<Interface>, number: u8) -> Option<Interface>
    decreases v.len(),
{
    if v.len() == 0 {
        None
    } else if v[0].number == number {
        Some(v[0])
    } else {
        interface_numbered(v.skip(1), number)
    }
}

/// An interface found before any other of its number is the first one.
pub proof fn lemma_interface_numbered(v: Seq<Interface>, number: u8, x: Interface)
    requires
        exists|k: int|
            0 <= k < v.len() && x == #[trigger] v[k] && x.number == number && forall|j: int|
                0 <= j < k ==> (#[trigger] v[j]).number != number,
    ensures
        interface_numbered(v, number) == Some(x),
    decreases v.len(),
{
    let k = choose|k: int|
        0 <= k < v.len() && x == #[trigger] v[k] && x.number == number && forall|j: int|
            0 <= j < k ==> (#[trigger] v[j]).number != number;
    if k > 0 {
        assert(v[0].number != number);
        let w = v.skip(1);
        assert(w[k - 1] == x);
        assert forall|j: int| 0 <= j < k - 1 implies (#[trigger] w[j]).number != number by {
            assert(w[j] == v[j + 1]);
        }
        lemma_interface_numbered(w, number, x);
    }
}

/// Where no interface has the number, none is found.
pub proof fn lemma_no_interface_numbered(v: Seq<Interface>, number: u8)
    requires
        forall|j: int| 0 <= j < v.len() ==> (#[trigger] v[j]).number != number,
    ensures
        interface_numbered(v, number) is None,
    decreases v.len(),
{
    if v.len() > 0 {
        let w = v.skip(1);
        assert forall|j: int| 0 <= j < w.len() implies (#[trigger] w[j]).number != number by {
            assert(w[j] == v[j + 1]);
        }
        lemma_no_interface_numbered(w, number);
    }
}

/// Whether a setting has a bulk endpoint in each direction.
pub open spec fn has_bulk_pair(a: InterfaceDescriptor) -> bool {
    first_endpoint(a.endpoints@, Direction::In, TransferType::Bulk) is Some && first_endpoint(
        a.endpoints@,
        Direction::Out,
        TransferType::Bulk,
    ) is Some
}

/// The first setting with a bulk endpoint in each direction.
pub open spec fn bulk_setting(v: Seq<InterfaceDescriptor>) -> Option<InterfaceDescriptor>
    decreases v.len(),
{
    if v.len() == 0 {
        None
    } else if has_bulk_pair(v[0]) {
        Some(v[0])
    } else {
        bulk_setting(v.skip(1))
    }
}

proof fn lemma_bulk_setting(v: Seq<InterfaceDescriptor>, k: int)
    requires
        0 <= k <= v.len(),
        forall|j: int| 0 <= j < k ==> !has_bulk_pair(#[trigger] v[j]),
        k < v.len() ==> has_bulk_pair(v[k]),
    ensures
        bulk_setting(v) == (if k < v.len() { Some(v[k]) } else { None }),
    decreases v.len(),
{
    if k > 0 {
        assert(!has_bulk_pair(v[0]));
        let w = v.skip(1);
        assert forall|j: int| 0 <= j < k - 1 implies !has_bulk_pair(#[trigger] w[j]) by {
            assert(w[j] == v[j + 1]);
        }
        lemma_bulk_setting(w, k - 1);
    }
}

fn find_bulk_setting(i: &Interface) -> (r: Option<&InterfaceDescriptor>)
    ensures
        match bulk_setting(i.alt_settings@) {
            Some(a) => r == Some(&a),
            None => r is None,
        },
{
    let mut k: usize = 0;
    while k < i.alt_settings.len()
        invariant
            k <= i.alt_settings@.len(),
            forall|j: int| 0 <= j < k ==> !has_bulk_pair(#[trigger] i.alt_settings@[j]),
        decreases i.alt_settings@.len() - k,
    {
        let a = &i.alt_settings[k];
        if endpoint(a, Direction::In, TransferType::Bulk).is_some() && endpoint(
            a,
            Direction::Out,
            TransferType::Bulk,
        ).is_some() {
            proof {
                lemma_bulk_setting(i.alt_settings@, k as int);
            }
            return Some(a);
        }
        k += 1;
    }
    proof {
        lemma_bulk_setting(i.alt_settings@, k as int);
    }
    None
}

/// The setting of an interface that carries data.
pub open spec fn data_setting(v: Seq<Interface>, number: u8) -> Option<InterfaceDescriptor> {
    match interface_numbered(v, number) {
        Some(i) => bulk_setting(i.alt_settings@),
        None => None,
    }
}

/// The setting of an interface that carries data.
pub fn find_data_setting(cfg: &ConfigDescriptor, number: u8) -> (r: Option<&InterfaceDescriptor>)
    ensures
        match data_setting(cfg.interfaces@, number) {
            Some(a) => r == Some(&a),
            None => r is None,
        },
{
    match cfg.interface(number) {
        Some(i) => {
            proof {
                lemma_interface_numbered(cfg.interfaces@, number, *i);
            }
            find_bulk_setting(i)
        },
        None => {
            proof {
                lemma_no_interface_numbered(cfg.interfaces@, number);
            }
            None
        },
    }
}

proof fn lemma_bulk_setting_has_pair(v: Seq<InterfaceDescriptor>)
    ensures
        bulk_setting(v) is Some ==> has_bulk_pair(bulk_setting(v)->0),
    decreases v.len(),
{
    if v.len() > 0 && !has_bulk_pair(v[0]) {
        lemma_bulk_setting_has_pair(v.skip(1));
    }
}

/// A data setting has a bulk endpoint in each direction.
pub proof fn lemma_data_setting_has_pair(v: Seq<Interface>, number: u8)
    ensures
        data_setting(v, number) is Some ==> has_bulk_pair(data_setting(v, number)->0),
{
    if interface_numbered(v, number) is Some {
        lemma_bulk_setting_has_pair(interface_numbered(v, number)->0.alt_settings@);
    }
}

/// The descriptors after a list of endpoints.
pub open spec fn endpoint_extras(es: Seq<EndpointDescriptor>) -> Seq<Seq<u8>>
    decreases es.len(),
{
    if es.len() == 0 {
        Seq::empty()
    } else {
        endpoint_extras(es.drop_last()) + walk(es.last().extra@)
    }
}

/// The class- and vendor-specific descriptors of an interface, those after its
/// endpoints last.
pub open spec fn interface_extras(a: InterfaceDescriptor) -> Seq<Seq<u8>> {
    walk(a.extra@) + endpoint_extras(a.endpoints@)
}

/// The bytes of each descriptor in a list.
pub open spec fn slice_views(v: Seq<&[u8]>) -> Seq<Seq<u8>> {
    Seq::new(v.len(), |i: int| v[i]@)
}

fn push_descriptors<'a>(out: &mut Vec<&'a [u8]>, extra: &'a [u8])
    ensures
        slice_views(final(out)@) == slice_views(old(out)@) + walk(extra@),
{
    let list = descriptors(extra);
    let ghost before = slice_views(out@);
    let ghost ds = walk(extra@);
    let mut i: usize = 0;
    assert(slice_views(out@) =~= before + ds.take(0));
    while i < list.len()
        invariant
            i <= list@.len(),
            list@.len() == ds.len(),
            forall|j: int| #![trigger list@[j]] 0 <= j < list@.len() ==> list@[j].1@ == ds[j],
            slice_views(out@) == before + ds.take(i as int),
        decreases list@.len() - i,
    {
        let ghost now = slice_views(out@);
        out.push(list[i].1);
        assert(slice_views(out@) =~= now.push(ds[i as int]));
        assert(slice_views(out@) =~= before + ds.take(i + 1));
        i += 1;
    }
    assert(ds.take(i as int) =~= ds);
}

/// The class- and vendor-specific descriptors of an interface. Some devices
/// put them after the endpoints, where they end up in the endpoint's `extra`.
pub fn all_extras(iface: &InterfaceDescriptor) -> (r: Vec<&[u8]>)
    ensures
        slice_views(r@) == interface_extras(*iface),
{
    let mut out: Vec<&[u8]> = Vec::new();
    assert(slice_views(out@) =~= Seq::empty());
    push_descriptors(&mut out, iface.extra.as_slice());
    let ghost es = iface.endpoints@;
    let mut i: usize = 0;
    assert(es.take(0) =~= Seq::empty());
    assert(slice_views(out@) =~= walk(iface.extra@) + endpoint_extras(es.take(0)));
    while i < iface.endpoints.len()
        invariant
            i <= iface.endpoints@.len(),
            es == iface.endpoints@,
            slice_views(out@) == walk(iface.extra@) + endpoint_extras(es.take(i as int)),
        decreases iface.endpoints@.len() - i,
    {
        assert(es.take(i + 1).drop_last() =~= es.take(i as int));
        push_descriptors(&mut out, iface.endpoints[i].extra.as_slice());
        assert(slice_views(out@) =~= walk(iface.extra@) + endpoint_extras(es.take(i + 1)));
        i += 1;
    }
    assert(es.take(i as int) =~= es);
    out
}

/// The first endpoint with the given address.
pub open spec fn endpoint_at(es: Seq<EndpointDescriptor>, address: u8) -> Option<EndpointDescriptor>
    decreases es.len(),
{
    if es.len() == 0 {
        None
    } else if es[0].address == address {
        Some(es[0])
    } else {
        endpoint_at(es.skip(1), address)
    }
}

/// The endpoint of a setting with the given address.
pub fn find_endpoint(iface: &InterfaceDescriptor, address: u8) -> (r: Option<&EndpointDescriptor>)
    ensures
        match endpoint_at(iface.endpoints@, address) {
            Some(e) => r == Some(&e),
            None => r is None,
        },
{
    let ghost es = iface.endpoints@;
    let mut i: usize = 0;
    assert(es.skip(0) =~= es);
    while i < iface.endpoints.len()
        invariant
            i <= iface.endpoints@.len(),
            es == iface.endpoints@,
            endpoint_at(es, address) == endpoint_at(es.skip(i as int), address),
        decreases iface.endpoints@.len() - i,
    {
        assert(es.skip(i as int)[0] == es[i as int]);
        assert(es.skip(i as int).skip(1) =~= es.skip(i + 1));
        if iface.endpoints[i].address == address {
            return Some(&iface.endpoints[i]);
        }
        i += 1;
    }
    None
}

/// A run of descriptors is split at their lengths: what starts with a
/// descriptor, a length byte of 2 or more and as many bytes, gives that and
/// then what follows it; anything else ends the run.
pub proof fn lemma_walk_splits_at_lengths(d: Seq<u8>, rest: Seq<u8>)
    ensures
        d.len() >= 2 && d[0] == d.len() ==> walk(d + rest) == seq![d] + walk(rest),
        rest.len() < 2 || rest[0] < 2 || rest[0] > rest.len() ==> walk(rest).len() == 0,
{
    if d.len() >= 2 && d[0] == d.len() {
        assert((d + rest).take(d.len() as int) =~= d);
        assert((d + rest).skip(d.len() as int) =~= rest);
    }
}

/// Every descriptor of a run is as long as its first byte says.
pub proof fn lemma_walk_pieces(b: Seq<u8>, k: int)
    requires
        0 <= k < walk(b).len(),
    ensures
        walk(b)[k].len() >= 2,
        walk(b)[k][0] == walk(b)[k].len(),
    decreases b.len(),
{
    if k > 0 {
        let rest = b.skip(b[0] as int);
        assert(walk(b)[k] == walk(rest)[k - 1]);
        lemma_walk_pieces(rest, k - 1);
    }
}

/// The endpoint that is found is the first one with the direction and the
/// type; none is found only if there is none.
pub proof fn lemma_first_endpoint_found(es: Seq<EndpointDescriptor>, direction: Direction, kind: TransferType)
    ensures
        match first_endpoint(es, direction, kind) {
            Some(e) => exists|k: int|
                0 <= k < es.len() && e == #[trigger] es[k] && direction_of(e.address) == direction && transfer_type_of(
                    e.attributes,
                ) == kind && forall|j: int|
                    0 <= j < k ==> !(direction_of((#[trigger] es[j]).address) == direction && transfer_type_of(
                        es[j].attributes,
                    ) == kind),
            None => forall|j: int|
                0 <= j < es.len() ==> !(direction_of((#[trigger] es[j]).address) == direction && transfer_type_of(
                    es[j].attributes,
                ) == kind),
        },
    decreases es.len(),
{
    if es.len() > 0 && !(direction_of(es[0].address) == direction && transfer_type_of(es[0].attributes) == kind) {
        let w = es.skip(1);
        lemma_first_endpoint_found(w, direction, kind);
        assert forall|j: int| 1 <= j < es.len() implies w[j - 1] == #[trigger] es[j] by {
        }
        if first_endpoint(w, direction, kind) is Some {
            let e = first_endpoint(w, direction, kind)->0;
            let k = choose|k: int|
                0 <= k < w.len() && e == #[trigger] w[k] && direction_of(e.address) == direction && transfer_type_of(
                    e.attributes,
                ) == kind && forall|j: int|
                    0 <= j < k ==> !(direction_of((#[trigger] w[j]).address) == direction && transfer_type_of(
                        w[j].attributes,
                    ) == kind);
            assert(es[k + 1] == e);
            assert forall|j: int| 0 <= j < k + 1 implies !(direction_of((#[trigger] es[j]).address) == direction
                && transfer_type_of(es[j].attributes) == kind) by {
                if j > 0 {
                    assert(w[j - 1] == es[j]);
                }
            }
        }
    } else if es.len() > 0 {
        assert(es[0] == first_endpoint(es, direction, kind)->0);
    }
}

/// The endpoint with an address is the first one that has it, if any has.
pub proof fn lemma_endpoint_at(es: Seq<EndpointDescriptor>, address: u8, k: int)
    requires
        0 <= k < es.len(),
        es[k].address == address,
        forall|j: int| 0 <= j < k ==> (#[trigger] es[j]).address != address,
    ensures
        endpoint_at(es, address) == Some(es[k]),
    decreases k,
{
    if k > 0 {
        let w = es.skip(1);
        assert(w[k - 1] == es[k]);
        assert forall|j: int| 0 <= j < k - 1 implies (#[trigger] w[j]).address != address by {
            assert(w[j] == es[j + 1]);
        }
        lemma_endpoint_at(w, address, k - 1);
    }
}

/// An interface is represented by its alternate setting 0 if it has one, and
/// otherwise by its first.
pub proof fn lemma_main_setting(i: Interface)
    requires
        i.alt_settings@.len() > 0,
    ensures
        i.alt_settings@.contains(main_alt(i)),
        main_alt(i).alternate_setting == 0 || main_alt(i) == i.alt_settings@[0],
        main_alt(i).alternate_setting == 0 <==> exists|k: int|
            0 <= k < i.alt_settings@.len() && (#[trigger] i.alt_settings@[k]).alternate_setting == 0,
{
    let v = i.alt_settings@;
    crate::descriptors::lemma_alt_found(v, 0);
    let k = crate::descriptors::alt_position(v, 0);
    if k < v.len() {
        assert(v[k] == main_alt(i));
    } else {
        assert(v[0] == main_alt(i));
    }
}

/// The settings that a predicate picks are those of the interfaces whose main
/// setting satisfies it, in order: one more interface adds its setting at the
/// end, or nothing.
pub proof fn lemma_settings_where(v: Seq<Interface>, i: Interface, p: spec_fn(InterfaceDescriptor) -> bool)
    ensures
        settings_where(Seq::empty(), p).len() == 0,
        settings_where(v, p).is_prefix_of(settings_where(v.push(i), p)),
        settings_where(v.push(i), p).len() == settings_where(v, p).len() + (if p(main_alt(i)) {
            1int
        } else {
            0
        }),
        p(main_alt(i)) ==> settings_where(v.push(i), p).last() == main_alt(i),
{
    assert(v.push(i).drop_last() =~= v);
}

/// The setting that carries data is the first one with a bulk endpoint in
/// each direction.
pub proof fn lemma_data_setting_is_first(v: Seq<InterfaceDescriptor>, k: int)
    requires
        0 <= k < v.len(),
        first_endpoint(v[k].endpoints@, Direction::In, TransferType::Bulk) is Some,
        first_endpoint(v[k].endpoints@, Direction::Out, TransferType::Bulk) is Some,
        forall|j: int|
            0 <= j < k ==> first_endpoint((#[trigger] v[j]).endpoints@, Direction::In, TransferType::Bulk) is None
                || first_endpoint(v[j].endpoints@, Direction::Out, TransferType::Bulk) is None,
    ensures
        bulk_setting(v) == Some(v[k]),
    decreases k,
{
    if k > 0 {
        assert(!has_bulk_pair(v[0]));
        let w = v.skip(1);
        assert(w[k - 1] == v[k]);
        assert forall|j: int| 0 <= j < k - 1 implies first_endpoint(
            (#[trigger] w[j]).endpoints@,
            Direction::In,
            TransferType::Bulk,
        ) is None || first_endpoint(w[j].endpoints@, Direction::Out, TransferType::Bulk) is None by {
            assert(w[j] == v[j + 1]);
        }
        lemma_data_setting_is_first(w, k - 1);
    }
}

/// The class-specific descriptors of an interface are its own, and then those
/// that ended up behind each of its endpoints, in order.
pub proof fn lemma_interface_extras(a: InterfaceDescriptor, es: Seq<EndpointDescriptor>, e: EndpointDescriptor)
    ensures
        interface_extras(a) == walk(a.extra@) + endpoint_extras(a.endpoints@),
        endpoint_extras(Seq::empty()).len() == 0,
        endpoint_extras(es.push(e)) == endpoint_extras(es) + walk(e.extra@),
{
    assert(es.push(e).drop_last() =~= es);
}

} // verus!
