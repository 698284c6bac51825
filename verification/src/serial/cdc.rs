//! CDC-ACM (USB CDC 1.2 PSTN subclass) descriptors, requests and
//! notifications.

use crate::bytes::{le16, le16_at};
use crate::class::{self, interface_numbered, walk};
use crate::descriptors::{ConfigDescriptor, Interface, InterfaceDescriptor};
use crate::serial::ModemStatus;
use vstd::prelude::*;

pub mod req;

verus! {

/// Class-specific interface descriptor.
pub const CS_INTERFACE: u8 = 0x24;

/// Call management functional descriptor.
pub const SUBTYPE_CALL_MANAGEMENT: u8 = 0x01;

/// Union functional descriptor.
pub const SUBTYPE_UNION: u8 = 0x06;

/// SERIAL_STATE notification.
pub const NOTIFY_SERIAL_STATE: u8 = 0x20;

/// Whether an interface is an ACM communications interface.
pub open spec fn acm(a: InterfaceDescriptor) -> bool {
    a.class == crate::types::class::COMM && a.sub_class == 0x02
}

/// `true` for a CDC Abstract Control Model communications interface.
pub fn is_acm(a: &InterfaceDescriptor) -> (r: bool)
    ensures
        r == acm(*a),
{
    a.class == crate::types::class::COMM && a.sub_class == 0x02
}

/// Whether a setting can carry the data of a function.
pub open spec fn carries_data(a: InterfaceDescriptor) -> bool {
    a.class == crate::types::class::DATA || a.endpoints@.len() > 0
}

/// Whether some setting of an interface can carry the data of a function.
pub open spec fn has_carrier(i: Interface) -> bool {
    exists|k: int| 0 <= k < i.alt_settings@.len() && carries_data(#[trigger] i.alt_settings@[k])
}

/// Whether an interface can carry the data of a function.
pub open spec fn is_data(v: Seq<Interface>, n: u8) -> bool {
    match interface_numbered(v, n) {
        Some(i) => has_carrier(i),
        None => false,
    }
}

/// The data interfaces that the union and call management descriptors name.
pub open spec fn named(ds: Seq<Seq<u8>>) -> (Option<u8>, Option<u8>)
    decreases ds.len(),
{
    if ds.len() == 0 {
        (None, None)
    } else {
        let (union, call) = named(ds.drop_last());
        let d = ds.last();
        if d[1] != CS_INTERFACE || d.len() < 5 {
            (union, call)
        } else if d[2] == SUBTYPE_UNION {
            (Some(d[4]), call)
        } else if d[2] == SUBTYPE_CALL_MANAGEMENT {
            (union, Some(d[4]))
        } else {
            (union, call)
        }
    }
}

/// Whether a candidate is the data interface of an ACM function.
pub open spec fn suits(v: Seq<Interface>, comm: u8, n: Option<u8>) -> bool {
    n is Some && n->0 != comm && is_data(v, n->0)
}

/// The data interface that belongs to an ACM communications interface: the
/// union descriptor's first subordinate, else the call management
/// descriptor's data interface, else the next interface if it can carry data.
pub open spec fn acm_data_interface(v: Seq<Interface>, comm: InterfaceDescriptor) -> Option<u8> {
    let (union, call) = named(walk(comm.extra@));
    let next = if comm.number < 255 {
        Some((comm.number + 1) as u8)
    } else {
        None
    };
    if suits(v, comm.number, union) {
        union
    } else if suits(v, comm.number, call) {
        call
    } else if suits(v, comm.number, next) {
        next
    } else {
        None
    }
}

fn finds_carrier(i: &Interface) -> (r: bool)
    ensures
        r == has_carrier(*i),
{
    let mut k: usize = 0;
    while k < i.alt_settings.len()
        invariant
            k <= i.alt_settings@.len(),
            forall|j: int| 0 <= j < k ==> !carries_data(#[trigger] i.alt_settings@[j]),
        decreases i.alt_settings@.len() - k,
    {
        let a = &i.alt_settings[k];
        if a.class == crate::types::class::DATA || a.endpoints.len() > 0 {
            assert(carries_data(i.alt_settings@[k as int]));
            return true;
        }
        k += 1;
    }
    false
}

fn can_carry_data(cfg: &ConfigDescriptor, n: u8) -> (r: bool)
    ensures
        r == is_data(cfg.interfaces@, n),
{
    match cfg.interface(n) {
        None => {
            proof {
                class::lemma_no_interface_numbered(cfg.interfaces@, n);
            }
            false
        },
        Some(i) => {
            proof {
                class::lemma_interface_numbered(cfg.interfaces@, n, *i);
            }
            finds_carrier(i)
        },
    }
}

fn fits(cfg: &ConfigDescriptor, comm: u8, n: Option<u8>) -> (r: bool)
    ensures
        r == suits(cfg.interfaces@, comm, n),
{
    match n {
        Some(m) => m != comm && can_carry_data(cfg, m),
        None => false,
    }
}

/// Finds the data interface that belongs to an ACM communications interface:
/// the union descriptor's first subordinate, else the call management
/// descriptor's data interface, else the next interface if it is a CDC data
/// interface (as Linux does for devices with broken descriptors).
pub fn data_interface(cfg: &ConfigDescriptor, comm: &InterfaceDescriptor) -> (r: Option<u8>)
    ensures
        r == acm_data_interface(cfg.interfaces@, *comm),
{
    let list = class::descriptors(comm.extra.as_slice());
    let ghost ds = walk(comm.extra@);
    let mut union: Option<u8> = None;
    let mut call: Option<u8> = None;
    let mut k: usize = 0;
    assert(ds.take(0) =~= Seq::empty());
    while k < list.len()
        invariant
            k <= list@.len(),
            list@.len() == ds.len(),
            forall|i: int|
                #![trigger list@[i]]
                0 <= i < list@.len() ==> list@[i].1@ == ds[i] && list@[i].0 == ds[i][1] && ds[i].len() >= 2,
            (union, call) == named(ds.take(k as int)),
        decreases list@.len() - k,
    {
        assert(ds.take(k + 1).drop_last() =~= ds.take(k as int));
        let (ty, d) = list[k];
        if ty == CS_INTERFACE && d.len() >= 5 {
            match d[2] {
                SUBTYPE_UNION => {
                    union = Some(d[4]);
                },
                SUBTYPE_CALL_MANAGEMENT => {
                    call = Some(d[4]);
                },
                _ => {},
            }
        }
        k += 1;
    }
    assert(ds.take(k as int) =~= ds);
    if fits(cfg, comm.number, union) {
        return union;
    }
    if fits(cfg, comm.number, call) {
        return call;
    }
    let next: Option<u8> = if comm.number < 255 {
        Some(comm.number + 1)
    } else {
        None
    };
    if fits(cfg, comm.number, next) {
        return next;
    }
    None
}

/// Whether the bit of the given weight is set.
pub open spec fn bit16(v: u16, weight: u16) -> bool {
    (v / weight) % 2 == 1
}

/// What a SERIAL_STATE notification says.
pub open spec fn serial_state(n: Seq<u8>) -> Option<ModemStatus> {
    if n.len() < 10 || n[1] != NOTIFY_SERIAL_STATE {
        None
    } else {
        let bits = le16_at(n, 8);
        Some(
            ModemStatus {
                dcd: bit16(bits, 0x01),
                dsr: bit16(bits, 0x02),
                break_received: bit16(bits, 0x04),
                ring: bit16(bits, 0x08),
                framing_error: bit16(bits, 0x10),
                parity_error: bit16(bits, 0x20),
                overrun: bit16(bits, 0x40),
                cts: false,
            },
        )
    }
}

/// Parses a SERIAL_STATE notification. `None` for other notifications.
pub fn decode_serial_state(n: &[u8]) -> (r: Option<ModemStatus>)
    ensures
        r == serial_state(n@),
{
    if n.len() < 10 || n[1] != NOTIFY_SERIAL_STATE {
        return None;
    }
    let bits: u16 = le16(n, 8);
    Some(
        ModemStatus {
            dcd: (bits / 0x01) % 2 == 1,
            dsr: (bits / 0x02) % 2 == 1,
            break_received: (bits / 0x04) % 2 == 1,
            ring: (bits / 0x08) % 2 == 1,
            framing_error: (bits / 0x10) % 2 == 1,
            parity_error: (bits / 0x20) % 2 == 1,
            overrun: (bits / 0x40) % 2 == 1,
            cts: false,
        },
    )
}

/// A serial state notification (0x20) has its bits in bytes 8 and 9: carrier,
/// data set ready, break, ring, framing error, parity error and overrun, from
/// the lowest up. It says nothing of CTS.
pub proof fn lemma_serial_state_bits(n: Seq<u8>)
    requires
        n.len() >= 10,
    ensures
        serial_state(n) is Some <==> n[1] == 0x20,
        serial_state(n) matches Some(s) ==> {
            &&& s.dcd <==> n[8] % 2 == 1
            &&& s.dsr <==> n[8] / 2 % 2 == 1
            &&& s.break_received <==> n[8] / 4 % 2 == 1
            &&& s.ring <==> n[8] / 8 % 2 == 1
            &&& s.framing_error <==> n[8] / 16 % 2 == 1
            &&& s.parity_error <==> n[8] / 32 % 2 == 1
            &&& s.overrun <==> n[8] / 64 % 2 == 1
            &&& !s.cts
        },
{
    let v = (n[8] + 256 * n[9]) as u16;
    assert(v == n[8] + 256 * n[9]);
    assert(v / 2 == n[8] / 2 + 128 * n[9]);
    assert(v / 4 == n[8] / 4 + 64 * n[9]);
    assert(v / 8 == n[8] / 8 + 32 * n[9]);
    assert(v / 16 == n[8] / 16 + 16 * n[9]);
    assert(v / 32 == n[8] / 32 + 8 * n[9]);
    assert(v / 64 == n[8] / 64 + 4 * n[9]);
}

/// The descriptors that name a data interface: a union (6) and a call
/// management descriptor (1), of which the last counts.
pub proof fn lemma_named_interfaces(ds: Seq<Seq<u8>>, d: Seq<u8>)
    requires
        d.len() >= 3,
    ensures
        named(Seq::empty()) == (None::<u8>, None::<u8>),
        d[1] == 0x24 && d[2] == 6 && d.len() >= 5 ==> named(ds.push(d)) == (Some(d[4]), named(ds).1),
        d[1] == 0x24 && d[2] == 1 && d.len() >= 5 ==> named(ds.push(d)) == (named(ds).0, Some(d[4])),
        d[1] != 0x24 || d.len() < 5 || (d[2] != 6 && d[2] != 1) ==> named(ds.push(d)) == named(ds),
{
    assert(ds.push(d).drop_last() =~= ds);
}

/// The data interface is the first of these that is another interface and can
/// carry data: the one the union names, the one the call management names, and
/// the next one.
pub proof fn lemma_acm_data_interface(v: Seq<Interface>, comm: InterfaceDescriptor)
    ensures
        ({
            let (union, call) = named(walk(comm.extra@));
            let r = acm_data_interface(v, comm);
            let good = |n: u8|
                n != comm.number && interface_numbered(v, n) is Some && exists|k: int|
                    0 <= k < interface_numbered(v, n)->0.alt_settings@.len() && ((
                    #[trigger] interface_numbered(v, n)->0.alt_settings@[k]).class == 0x0a || interface_numbered(
                        v,
                        n,
                    )->0.alt_settings@[k].endpoints@.len() > 0);
            &&& r matches Some(n) ==> good(n)
            &&& union is Some && good(union->0) ==> r == union
            &&& !(union is Some && good(union->0)) && call is Some && good(call->0) ==> r == call
            &&& !(union is Some && good(union->0)) && !(call is Some && good(call->0)) && comm.number < 255 && good(
                (comm.number + 1) as u8,
            ) ==> r == Some((comm.number + 1) as u8)
        }),
        acm(comm) <==> comm.class == 2 && comm.sub_class == 2,
{
    let (union, call) = named(walk(comm.extra@));
    let good = |n: u8|
        n != comm.number && interface_numbered(v, n) is Some && exists|k: int|
            0 <= k < interface_numbered(v, n)->0.alt_settings@.len() && ((
            #[trigger] interface_numbered(v, n)->0.alt_settings@[k]).class == 0x0a || interface_numbered(
                v,
                n,
            )->0.alt_settings@[k].endpoints@.len() > 0);
    assert forall|n: u8| #[trigger] good(n) <==> suits(v, comm.number, Some(n)) by {
        if interface_numbered(v, n) is Some {
            let i = interface_numbered(v, n)->0;
            if has_carrier(i) {
                let k = choose|k: int| 0 <= k < i.alt_settings@.len() && carries_data(#[trigger] i.alt_settings@[k]);
                assert(i.alt_settings@[k].class == 0x0a || i.alt_settings@[k].endpoints@.len() > 0);
            }
            if exists|k: int|
                0 <= k < i.alt_settings@.len() && ((#[trigger] i.alt_settings@[k]).class == 0x0a
                    || i.alt_settings@[k].endpoints@.len() > 0) {
                let k = choose|k: int|
                    0 <= k < i.alt_settings@.len() && ((#[trigger] i.alt_settings@[k]).class == 0x0a
                        || i.alt_settings@[k].endpoints@.len() > 0);
                assert(carries_data(i.alt_settings@[k]));
            }
        }
    }
}

} // verus!
