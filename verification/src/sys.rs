//! What the platform backends decide without touching the operating system.

use crate::bytes::{self, le16, le16_at};
use crate::class::joined;
use crate::descriptors::DeviceDescriptor;
use crate::error::ErrorKind;
use crate::types::{descriptor_type, Speed};
use vstd::prelude::*;

pub mod flight;
pub mod linux;
pub mod macos;
pub mod order;
pub mod unsupported;
pub mod windows;

verus! {

/// The operating systems with a backend of their own.
#[derive(Debug, Clone, Copy, PartialEq, Eq, Hash, Structural)]
pub enum Platform {
    /// Linux and Android: usbfs.
    Linux,
    /// Windows: WinUSB.
    Windows,
    /// macOS and iOS: IOKit.
    Macos,
    /// Everything else.
    Unsupported,
}

/// The kind of a raw error code on a platform.
pub open spec fn code_kind(platform: Platform, code: i32) -> ErrorKind {
    match platform {
        Platform::Linux => linux::code_kind(code),
        Platform::Windows => windows::code_kind(code),
        Platform::Macos => macos::code_kind(code),
        Platform::Unsupported => ErrorKind::Io,
    }
}

/// Maps a raw error code of a platform to an error kind.
pub fn errno_kind(platform: Platform, code: i32) -> (r: ErrorKind)
    ensures
        r == code_kind(platform, code),
{
    match platform {
        Platform::Linux => linux::errno_kind(code),
        Platform::Windows => windows::errno_kind(code),
        Platform::Macos => macos::errno_kind(code),
        Platform::Unsupported => ErrorKind::Io,
    }
}

// ----- what enumeration learns -----------------------------------------------------

/// What enumeration learns about a device without opening it.
#[derive(Debug)]
pub struct DeviceInfo {
    /// The bus it is attached to.
    pub bus_number: u8,
    /// Its address on that bus.
    pub address: u8,
    /// The ports from the root hub down to it.
    pub port_numbers: Vec<u8>,
    /// Its speed.
    pub speed: Speed,
    /// Its device descriptor.
    pub device_descriptor: DeviceDescriptor,
    /// Raw configuration descriptor trees, in index order.
    pub configs: Vec<Vec<u8>>,
    /// `bConfigurationValue` of the active configuration, when known.
    pub active_config: Option<u8>,
}

/// What a [`DeviceInfo`] holds.
#[verifier::ext_equal]
pub struct DeviceInfoView {
    pub bus_number: u8,
    pub address: u8,
    pub port_numbers: Seq<u8>,
    pub speed: Speed,
    pub device_descriptor: DeviceDescriptor,
    pub configs: Seq<Seq<u8>>,
    pub active_config: Option<u8>,
}

/// The contents of byte vectors.
pub open spec fn byte_lists(v: Seq<Vec<u8>>) -> Seq<Seq<u8>> {
    v.map_values(|b: Vec<u8>| b@)
}

impl View for DeviceInfo {
    type V = DeviceInfoView;

    open spec fn view(&self) -> DeviceInfoView {
        DeviceInfoView {
            bus_number: self.bus_number,
            address: self.address,
            port_numbers: self.port_numbers@,
            speed: self.speed,
            device_descriptor: self.device_descriptor,
            configs: byte_lists(self.configs@),
            active_config: self.active_config,
        }
    }
}

/// Whether two enumeration snapshots describe the same attached device.
pub open spec fn same_place(a: DeviceInfoView, b: DeviceInfoView) -> bool {
    &&& a.bus_number == b.bus_number
    &&& a.address == b.address
    &&& a.port_numbers == b.port_numbers
    &&& a.device_descriptor.vendor_id == b.device_descriptor.vendor_id
    &&& a.device_descriptor.product_id == b.device_descriptor.product_id
}

/// Whether two byte vectors hold the same bytes.
pub fn same_bytes(a: &Vec<u8>, b: &Vec<u8>) -> (r: bool)
    ensures
        r == (a@ == b@),
{
    if a.len() != b.len() {
        return false;
    }
    let mut i: usize = 0;
    while i < a.len()
        invariant
            i <= a@.len(),
            a@.len() == b@.len(),
            forall|k: int| 0 <= k < i ==> a@[k] == b@[k],
        decreases a@.len() - i,
    {
        if a[i] != b[i] {
            return false;
        }
        i += 1;
    }
    assert(a@ =~= b@);
    true
}

/// Whether two enumeration snapshots describe the same attached device.
///
/// A device is identified by where it sits on the bus (its port chain) plus
/// its address and its vendor/product pair. Unplugging a device and plugging
/// a different one into the same port therefore reads as a departure and an
/// arrival, but swapping two identical devices between two ports may not.
pub fn same_device(a: &DeviceInfo, b: &DeviceInfo) -> (r: bool)
    ensures
        r == same_place(a@, b@),
{
    a.bus_number == b.bus_number && a.address == b.address && same_bytes(&a.port_numbers, &b.port_numbers)
        && a.device_descriptor.vendor_id == b.device_descriptor.vendor_id && a.device_descriptor.product_id
        == b.device_descriptor.product_id
}

impl DeviceInfo {
    /// Another copy of the snapshot.
    pub fn duplicate(&self) -> (r: Self)
        ensures
            r@ == self@,
    {
        let mut configs: Vec<Vec<u8>> = Vec::new();
        let mut i: usize = 0;
        while i < self.configs.len()
            invariant
                i <= self.configs@.len(),
                byte_lists(configs@) == byte_lists(self.configs@).take(i as int),
            decreases self.configs@.len() - i,
        {
            let ghost before = byte_lists(configs@);
            let copy = bytes::copy_range(&self.configs[i], 0, self.configs[i].len());
            assert(copy@ =~= self.configs@[i as int]@);
            configs.push(copy);
            assert(byte_lists(configs@) =~= before.push(copy@));
            assert(byte_lists(configs@) =~= byte_lists(self.configs@).take(i + 1));
            i += 1;
        }
        assert(byte_lists(self.configs@).take(i as int) =~= byte_lists(self.configs@));
        let r = DeviceInfo {
            bus_number: self.bus_number,
            address: self.address,
            port_numbers: bytes::copy_range(&self.port_numbers, 0, self.port_numbers.len()),
            speed: self.speed,
            device_descriptor: self.device_descriptor,
            configs,
            active_config: self.active_config,
        };
        assert(r@ =~= self@);
        r
    }
}

/// Whether a configuration descriptor starts at the head of `data`.
pub open spec fn starts_config(data: Seq<u8>) -> bool {
    data.len() >= 9 && data[1] == descriptor_type::CONFIG && data[0] >= 9
}

/// How much of `data` the configuration descriptor at its head takes up.
pub open spec fn config_span(data: Seq<u8>) -> int {
    if le16_at(data, 2) < 9 {
        9
    } else if le16_at(data, 2) > data.len() {
        data.len() as int
    } else {
        le16_at(data, 2) as int
    }
}

/// The configuration descriptors at the head of `data`, one after another.
pub open spec fn split_configs(data: Seq<u8>) -> Seq<Seq<u8>>
    decreases data.len(),
{
    if starts_config(data) {
        seq![data.take(config_span(data))] + split_configs(data.skip(config_span(data)))
    } else {
        Seq::empty()
    }
}

/// Splits a concatenated run of configuration descriptors (as found in the
/// Linux sysfs `descriptors` file, or read back to back from a device) into
/// one `Vec` per configuration.
pub fn split_config_descriptors(data: &[u8]) -> (r: Vec<Vec<u8>>)
    ensures
        byte_lists(r@) == split_configs(data@),
{
    let mut out: Vec<Vec<u8>> = Vec::new();
    let n: usize = data.len();
    let mut at: usize = 0;
    assert(data@.skip(0) =~= data@);
    assert(byte_lists(out@) =~= Seq::empty());
    while n - at >= 9 && data[at + 1] == descriptor_type::CONFIG && data[at] >= 9
        invariant
            n == data@.len(),
            at <= n,
            byte_lists(out@) + split_configs(data@.skip(at as int)) == split_configs(data@),
        decreases n - at,
    {
        let ghost rest = data@.skip(at as int);
        let declared: usize = le16(data, at + 2) as usize;
        let total: usize = if declared < 9 {
            9
        } else if declared > n - at {
            n - at
        } else {
            declared
        };
        proof {
            assert(rest[0] == data@[at as int]);
            assert(rest[1] == data@[at + 1]);
            assert(rest[2] == data@[at + 2]);
            assert(rest[3] == data@[at + 3]);
            assert(le16_at(rest, 2) == le16_at(data@, at + 2));
            assert(total == config_span(rest));
            assert(rest.take(total as int) =~= data@.subrange(at as int, at + total));
            assert(rest.skip(total as int) =~= data@.skip(at + total));
        }
        let ghost before = byte_lists(out@);
        out.push(bytes::copy_range(data, at, at + total));
        assert(byte_lists(out@) =~= before.push(rest.take(total as int)));
        assert(before + split_configs(rest) =~= byte_lists(out@) + split_configs(rest.skip(total as int)));
        at = at + total;
    }
    proof {
        let rest = data@.skip(at as int);
        if rest.len() >= 9 {
            assert(rest[0] == data@[at as int]);
            assert(rest[1] == data@[at + 1]);
        }
        assert(byte_lists(out@) + Seq::<Seq<u8>>::empty() =~= byte_lists(out@));
    }
    out
}

/// The pieces that a run of configuration descriptors is split into are
/// configuration descriptors, and end to end they are the start of the run.
pub proof fn lemma_split_configs(data: Seq<u8>)
    ensures
        joined(split_configs(data)).len() <= data.len(),
        joined(split_configs(data)) == data.take(joined(split_configs(data)).len() as int),
        forall|i: int| 0 <= i < split_configs(data).len() ==> starts_config(#[trigger] split_configs(data)[i]),
    decreases data.len(),
{
    if starts_config(data) {
        let span = config_span(data);
        let head = data.take(span);
        let tail = split_configs(data.skip(span));
        lemma_split_configs(data.skip(span));
        lemma_joined_first(head, tail);
        assert(split_configs(data) =~= seq![head] + tail);
        assert(joined(split_configs(data)) =~= data.take(joined(split_configs(data)).len() as int));
        assert forall|i: int| 0 <= i < split_configs(data).len() implies starts_config(
            #[trigger] split_configs(data)[i],
        ) by {
            if i > 0 {
                assert(split_configs(data)[i] == tail[i - 1]);
            } else {
                assert(head[0] == data[0] && head[1] == data[1]);
            }
        }
    } else {
        assert(joined(split_configs(data)) =~= data.take(0));
    }
}

proof fn lemma_joined_first(head: Seq<u8>, tail: Seq<Seq<u8>>)
    ensures
        joined(seq![head] + tail) == head + joined(tail),
    decreases tail.len(),
{
    let all = seq![head] + tail;
    if tail.len() == 0 {
        assert(all =~= seq![head]);
        assert(all.drop_last() =~= Seq::<Seq<u8>>::empty());
        assert(all.drop_first() =~= Seq::<Seq<u8>>::empty());
        reveal_with_fuel(joined, 2);
        assert(joined(all) =~= head + joined(tail));
    } else {
        lemma_joined_first(head, tail.drop_last());
        assert(all.drop_last() =~= seq![head] + tail.drop_last());
        assert(all.drop_first() =~= tail);
        assert(joined(all) =~= head + joined(tail));
    }
}

/// Configurations that stand one behind the other are told apart by the length
/// that each declares.
pub proof fn lemma_configs_are_split(c: Seq<u8>, rest: Seq<u8>)
    requires
        c.len() >= 9,
        c[0] >= 9,
        c[1] == 2,
        c[2] + 256 * c[3] == c.len(),
    ensures
        split_configs(c + rest) == seq![c] + split_configs(rest),
        rest.len() < 9 || rest[0] < 9 || rest[1] != 2 ==> split_configs(rest).len() == 0,
{
    let d = c + rest;
    assert(d[0] == c[0] && d[1] == c[1] && d[2] == c[2] && d[3] == c[3]);
    assert(config_span(d) == c.len());
    assert(d.take(c.len() as int) =~= c);
    assert(d.skip(c.len() as int) =~= rest);
}

/// Two devices are taken for the same where place and IDs agree.
pub proof fn lemma_same_place(a: DeviceInfoView, b: DeviceInfoView)
    ensures
        same_place(a, b) <==> a.bus_number == b.bus_number && a.address == b.address && a.port_numbers == b.port_numbers
            && a.device_descriptor.vendor_id == b.device_descriptor.vendor_id && a.device_descriptor.product_id
            == b.device_descriptor.product_id,
        same_place(a, b) == same_place(b, a),
        same_place(a, a),
{
}

} // verus!
