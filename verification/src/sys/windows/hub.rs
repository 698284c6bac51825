//! Enumeration through the hub driver: buses, port chains, and descriptor
//! requests that go through a device's parent hub.

use super::names::{first_standing, hardware_number, stands_at};
use super::names;
use crate::bytes::{self, le16, le16_at, u16_bytes, u32_bytes};
use crate::context::optional_text;
use crate::descriptors::{device_of, is_device_descriptor, DeviceDescriptor};
use crate::error::{message, Error, ErrorKind, ErrorView, Result};
use crate::sys::{byte_lists, split_config_descriptors, split_configs, DeviceInfo, DeviceInfoView};
use crate::types::{class, descriptor_type, request, ControlSetup, Speed, TransferStatus, Version};
use vstd::prelude::*;

verus! {

// ----- ioctls -------------------------------------------------------------------------

/// The control code of a USB function: that of the device type above the
/// function's number.
pub open spec fn control_code(function: u32) -> int {
    0x22_0000 + function * 4
}

/// The control code of a USB function.
pub fn ctl_code(function: u32) -> (r: u32)
    requires
        function < 0x4000,
    ensures
        r == control_code(function),
{
    0x22_0000 + function * 4
}

// ----- root hubs ----------------------------------------------------------------------

/// Whether a text comes before another, character by character.
pub open spec fn comes_before(a: Seq<char>, b: Seq<char>) -> bool
    decreases a.len(),
{
    if b.len() == 0 {
        false
    } else if a.len() == 0 {
        true
    } else if a[0] != b[0] {
        a[0] < b[0]
    } else {
        comes_before(a.skip(1), b.skip(1))
    }
}

fn is_before(a: &str, b: &str) -> (r: bool)
    ensures
        r == comes_before(a@, b@),
{
    let n: usize = a.unicode_len();
    let m: usize = b.unicode_len();
    let mut i: usize = 0;
    assert(a@.skip(0) =~= a@);
    assert(b@.skip(0) =~= b@);
    while i < n && i < m
        invariant
            i <= n,
            i <= m,
            n == a@.len(),
            m == b@.len(),
            comes_before(a@, b@) == comes_before(a@.skip(i as int), b@.skip(i as int)),
        decreases n - i,
    {
        let x = a.get_char(i);
        let y = b.get_char(i);
        assert(a@.skip(i as int)[0] == x);
        assert(b@.skip(i as int)[0] == y);
        assert(a@.skip(i as int).skip(1) =~= a@.skip(i + 1));
        assert(b@.skip(i as int).skip(1) =~= b@.skip(i + 1));
        if x != y {
            return x < y;
        }
        i += 1;
    }
    i < m
}

/// A root hub and its place among the others.
#[derive(Debug)]
pub struct RootHub {
    /// Its instance name.
    pub instance: String,
    /// Which one it was when they were listed.
    pub index: usize,
}

/// What a [`RootHub`] holds.
#[verifier::ext_equal]
pub struct RootHubView {
    pub instance: Seq<char>,
    pub index: int,
}

impl View for RootHub {
    type V = RootHubView;

    open spec fn view(&self) -> RootHubView {
        RootHubView { instance: self.instance@, index: self.index as int }
    }
}

/// Root hubs as mathematical values.
pub open spec fn hub_views(v: Seq<RootHub>) -> Seq<RootHubView> {
    v.map_values(|h: RootHub| h@)
}

/// A root hub at its place among sorted ones: behind all whose names do not
/// come after its own.
pub open spec fn hub_placed(v: Seq<RootHubView>, h: RootHubView) -> Seq<RootHubView>
    decreases v.len(),
{
    if v.len() == 0 || !comes_before(h.instance, v.last().instance) {
        v.push(h)
    } else {
        hub_placed(v.drop_last(), h).push(v.last())
    }
}

/// Root hubs by instance name.
pub open spec fn hubs_sorted(names: Seq<Seq<char>>) -> Seq<RootHubView>
    decreases names.len(),
{
    if names.len() == 0 {
        Seq::empty()
    } else {
        hub_placed(
            hubs_sorted(names.drop_last()),
            RootHubView { instance: names.last(), index: names.len() - 1 },
        )
    }
}

/// The texts of strings.
pub open spec fn texts(v: Seq<String>) -> Seq<Seq<char>> {
    v.map_values(|s: String| s@)
}

fn place_hub(v: &mut Vec<RootHub>, h: RootHub)
    ensures
        hub_views(final(v)@) == hub_placed(hub_views(old(v)@), h@),
{
    let ghost all = hub_views(v@);
    let ghost hv = h@;
    let n: usize = v.len();
    let mut i: usize = n;
    proof {
        assert(all.take(n as int) =~= all);
        assert(all.skip(n as int) =~= Seq::<RootHubView>::empty());
        assert(hub_placed(all, hv) =~= hub_placed(all.take(n as int), hv) + all.skip(n as int));
    }
    while i > 0 && is_before(h.instance.as_str(), v[i - 1].instance.as_str())
        invariant
            i <= n,
            n == v@.len(),
            all == hub_views(v@),
            hv == h@,
            hub_placed(all, hv) == hub_placed(all.take(i as int), hv) + all.skip(i as int),
        decreases i,
    {
        proof {
            let t = all.take(i as int);
            assert(t.last() == v@[i - 1]@);
            assert(t.drop_last() =~= all.take(i - 1));
            assert(hub_placed(t, hv) + all.skip(i as int) =~= hub_placed(all.take(i - 1), hv) + all.skip(i - 1));
        }
        i -= 1;
    }
    proof {
        let t = all.take(i as int);
        if i > 0 {
            assert(t.last() == v@[i - 1]@);
        }
        assert(hub_placed(t, hv) =~= t.push(hv));
    }
    v.insert(i, h);
    assert(hub_views(v@) =~= all.take(i as int).push(hv) + all.skip(i as int));
}

/// Sorts root hubs by instance name: they define the buses, numbered in a
/// stable order.
pub fn sort_root_hubs(names: &Vec<String>) -> (r: Vec<RootHub>)
    ensures
        hub_views(r@) == hubs_sorted(texts(names@)),
{
    let ghost all = texts(names@);
    let mut out: Vec<RootHub> = Vec::new();
    let mut i: usize = 0;
    proof {
        assert(all.take(0) =~= Seq::<Seq<char>>::empty());
        assert(hub_views(out@) =~= Seq::<RootHubView>::empty());
    }
    while i < names.len()
        invariant
            i <= names@.len(),
            all == texts(names@),
            hub_views(out@) == hubs_sorted(all.take(i as int)),
        decreases names@.len() - i,
    {
        proof {
            assert(all.take(i + 1).drop_last() =~= all.take(i as int));
            assert(all.take(i + 1).last() == names@[i as int]@);
        }
        place_hub(&mut out, RootHub { instance: String::from_str(names[i].as_str()), index: i });
        i += 1;
    }
    assert(all.take(i as int) =~= all);
    out
}

/// The bus of the root hub at a place: 1 for the first, at most 255.
pub open spec fn bus_at(place: int) -> u8 {
    if place + 1 > 255 {
        255
    } else {
        (place + 1) as u8
    }
}

/// The bus of the root hub at a place.
pub fn bus_number(place: usize) -> (r: u8)
    ensures
        r == bus_at(place as int),
{
    if place >= 255 {
        255
    } else {
        (place + 1) as u8
    }
}

/// The device that a root hub is taken for. It has no descriptors of its own.
pub open spec fn root_device(bus: u8, instance: Seq<char>, hwid: Option<Seq<char>>) -> DeviceInfoView {
    let fast = first_standing(instance, "ROOT_HUB3"@, 0) is Some;
    DeviceInfoView {
        bus_number: bus,
        address: 0,
        port_numbers: Seq::empty(),
        speed: if fast {
            Speed::Super
        } else {
            Speed::High
        },
        device_descriptor: DeviceDescriptor {
            usb_version: Version(
                if fast {
                    0x0300
                } else {
                    0x0200
                },
            ),
            class: class::HUB,
            sub_class: 0,
            protocol: if fast {
                3
            } else {
                1
            },
            max_packet_size_0: if fast {
                9
            } else {
                64
            },
            vendor_id: hardware_number(hwid, "VEN_"@),
            product_id: hardware_number(hwid, "DEV_"@),
            device_version: Version(0),
            manufacturer_string_index: 0,
            product_string_index: 0,
            serial_number_string_index: 0,
            num_configurations: 1,
        },
        configs: Seq::empty(),
        active_config: Some(1),
    }
}

/// Describes a root hub by its instance name and the hardware identifier of
/// its host controller.
pub fn root_hub_info(bus: u8, instance: &str, hwid: Option<&str>) -> (r: DeviceInfo)
    ensures
        r@ == root_device(bus, instance@, optional_text(hwid)),
{
    let fast = names::is_super_speed(instance);
    let (vendor_id, product_id): (u16, u16) = names::controller_ids(hwid);
    let device_descriptor = DeviceDescriptor {
        usb_version: Version(
            if fast {
                0x0300
            } else {
                0x0200
            },
        ),
        class: class::HUB,
        sub_class: 0,
        protocol: if fast {
            3
        } else {
            1
        },
        max_packet_size_0: if fast {
            9
        } else {
            64
        },
        vendor_id,
        product_id,
        device_version: Version(0),
        manufacturer_string_index: 0,
        product_string_index: 0,
        serial_number_string_index: 0,
        num_configurations: 1,
    };
    let info = DeviceInfo {
        bus_number: bus,
        address: 0,
        port_numbers: Vec::new(),
        speed: if fast {
            Speed::Super
        } else {
            Speed::High
        },
        device_descriptor,
        configs: Vec::new(),
        active_config: Some(1),
    };
    assert(info@ =~= root_device(bus, instance@, optional_text(hwid)));
    info
}

/// A device that enumeration lists: its node and, if it can be had, its
/// instance name.
#[derive(Debug)]
pub struct Candidate {
    /// The device node.
    pub node: u32,
    /// The instance name.
    pub instance: Option<String>,
}

/// The device nodes of candidates.
pub open spec fn nodes(v: Seq<Candidate>) -> Seq<u32> {
    v.map_values(|c: Candidate| c.node)
}

/// Whether the candidate at `i` is to be described: its node is not listed
/// before, and it has a name, which is not a root hub's.
pub open spec fn is_listed(v: Seq<Candidate>, i: int) -> bool {
    &&& !nodes(v).take(i).contains(v[i].node)
    &&& v[i].instance is Some
    &&& !stands_at((v[i].instance->0)@, "USB\\ROOT_HUB"@, 0)
}

/// The candidates to describe among the first `n`, by index.
pub open spec fn listed(v: Seq<Candidate>, n: int) -> Seq<usize>
    decreases n,
{
    if n <= 0 {
        Seq::empty()
    } else if is_listed(v, n - 1) {
        listed(v, n - 1).push((n - 1) as usize)
    } else {
        listed(v, n - 1)
    }
}

/// Picks the candidates to describe: each node once, and no root hubs.
pub fn enumerate(v: &Vec<Candidate>) -> (r: Vec<usize>)
    ensures
        r@ == listed(v@, v@.len() as int),
{
    let mut out: Vec<usize> = Vec::new();
    let mut seen: Vec<u32> = Vec::new();
    let mut i: usize = 0;
    assert(nodes(v@).take(0) =~= Seq::<u32>::empty());
    while i < v.len()
        invariant
            i <= v@.len(),
            out@ == listed(v@, i as int),
            forall|n: u32| seen@.contains(n) <==> #[trigger] nodes(v@).take(i as int).contains(n),
        decreases v@.len() - i,
    {
        let node: u32 = v[i].node;
        let ghost before = seen@;
        let ghost past = nodes(v@).take(i as int);
        let mut k: usize = 0;
        let mut new = true;
        while k < seen.len()
            invariant
                k <= seen@.len(),
                seen@ == before,
                new == !before.take(k as int).contains(node),
            decreases seen@.len() - k,
        {
            proof {
                lemma_push_node(before.take(k as int), before[k as int], node);
                assert(before.take(k as int).push(before[k as int]) =~= before.take(k + 1));
            }
            if seen[k] == node {
                new = false;
            }
            k += 1;
        }
        assert(before.take(k as int) =~= before);
        proof {
            assert(seen@.contains(node) <==> past.contains(node));
        }
        if new {
            seen.push(node);
            match &v[i].instance {
                Some(name) => {
                    if !names::is_root_hub(name.as_str()) {
                        out.push(i);
                    }
                },
                None => {},
            }
        }
        proof {
            assert(nodes(v@).take(i + 1) =~= past.push(node));
            assert forall|n: u32| seen@.contains(n) <==> #[trigger] nodes(v@).take(i + 1).contains(n) by {
                lemma_push_node(past, node, n);
                lemma_push_node(before, node, n);
                assert(before.contains(n) <==> past.contains(n));
            }
        }
        i += 1;
    }
    out
}

proof fn lemma_push_node(v: Seq<u32>, x: u32, y: u32)
    ensures
        v.push(x).contains(y) <==> v.contains(y) || x == y,
{
    assert(v.push(x)[v.len() as int] == x);
    if v.contains(y) {
        let k = choose|k: int| 0 <= k < v.len() && v[k] == y;
        assert(v.push(x)[k] == y);
    }
    if v.push(x).contains(y) && x != y {
        let k = choose|k: int| 0 <= k < v.push(x).len() && v.push(x)[k] == y;
        assert(v[k] == y);
    }
}

// ----- port chains ----------------------------------------------------------------------

/// The walk from a device up to its root hub.
#[derive(Debug)]
pub struct PortWalk {
    /// The ports so far, that of the device first.
    pub up: Vec<u8>,
    /// The path of the hub that requests go through, once one was found.
    pub hub: Option<String>,
}

/// The parent of a device node.
#[derive(Debug, Clone, Copy, PartialEq, Eq, Structural)]
pub enum Parent {
    /// A root hub, with its bus.
    Root(u8),
    /// Another USB hub.
    Hub,
    /// Something else, or something without a name.
    Foreign,
}

/// Where the walk goes.
#[derive(Debug)]
pub enum WalkNext {
    /// On to the parent.
    Up,
    /// It is at the root hub: the bus, the port chain from there down, and
    /// the path of the hub that requests go through.
    Done(u8, Vec<u8>, String),
    /// The device is not under a USB hub that is known.
    Lost,
}

/// What a [`WalkNext`] holds.
#[verifier::ext_equal]
pub enum WalkView {
    Up,
    Done(u8, Seq<u8>, Seq<char>),
    Lost,
}

impl View for WalkNext {
    type V = WalkView;

    open spec fn view(&self) -> WalkView {
        match *self {
            WalkNext::Up => WalkView::Up,
            WalkNext::Done(bus, ports, hub) => WalkView::Done(bus, ports@, hub@),
            WalkNext::Lost => WalkView::Lost,
        }
    }
}

/// The hub path after one step: the first path of the nearest ancestor that
/// has one.
pub open spec fn hub_path(hub: Option<Seq<char>>, paths: Seq<Seq<char>>) -> Option<Seq<char>> {
    if hub is Some {
        hub
    } else if paths.len() > 0 {
        Some(paths[0])
    } else {
        None
    }
}

/// The walk after one step: the node's port, its parent and the hub paths of
/// that, `None` for what cannot be had. The paths count only until one was
/// found. It gives up behind seven ports, or if it found no path.
pub open spec fn walk_step(
    up: Seq<u8>,
    hub: Option<Seq<char>>,
    port: Option<u32>,
    parent: Option<Parent>,
    paths: Option<Seq<Seq<char>>>,
) -> WalkView {
    if port is None || parent is None || (hub is None && paths is None) {
        WalkView::Lost
    } else {
        let ports = up.push((port->0 % 256) as u8);
        match parent->0 {
            Parent::Root(bus) => match hub_path(hub, paths->0) {
                Some(h) => WalkView::Done(bus, ports.reverse(), h),
                None => WalkView::Lost,
            },
            Parent::Foreign => WalkView::Lost,
            Parent::Hub => if ports.len() > 7 {
                WalkView::Lost
            } else {
                WalkView::Up
            },
        }
    }
}

/// A list of strings that may not be had, as mathematical values.
pub open spec fn optional_texts(v: Option<&Vec<String>>) -> Option<Seq<Seq<char>>> {
    match v {
        Some(v) => Some(texts(v@)),
        None => None,
    }
}

/// A string that may not be there, as a mathematical value.
pub open spec fn held_text(s: Option<String>) -> Option<Seq<char>> {
    match s {
        Some(s) => Some(s@),
        None => None,
    }
}

fn reversed(v: &Vec<u8>) -> (r: Vec<u8>)
    ensures
        r@ == v@.reverse(),
{
    let n: usize = v.len();
    let mut out: Vec<u8> = Vec::new();
    let mut i: usize = 0;
    while i < n
        invariant
            i <= n,
            n == v@.len(),
            out@ == v@.reverse().take(i as int),
        decreases n - i,
    {
        out.push(v[n - 1 - i]);
        assert(out@ =~= v@.reverse().take(i + 1));
        i += 1;
    }
    assert(v@.reverse().take(i as int) =~= v@.reverse());
    out
}

impl PortWalk {
    /// Starts at a device.
    pub fn new() -> (r: Self)
        ensures
            r.up@.len() == 0,
            r.hub is None,
    {
        PortWalk { up: Vec::new(), hub: None }
    }

    /// Takes the port of the node where the walk is, its parent, and the hub
    /// paths of that, which are looked at until one was found.
    pub fn step(&mut self, port: Option<u32>, parent: Option<Parent>, paths: Option<&Vec<String>>) -> (r: WalkNext)
        ensures
            r@ == walk_step(old(self).up@, held_text(old(self).hub), port, parent, optional_texts(paths)),
            r@ is Up ==> final(self).up@ == old(self).up@.push((port->0 % 256) as u8) && held_text(final(self).hub)
                == hub_path(held_text(old(self).hub), optional_texts(paths)->0),
    {
        let p: u32 = match port {
            None => {
                return WalkNext::Lost;
            },
            Some(p) => p,
        };
        let parent = match parent {
            None => {
                return WalkNext::Lost;
            },
            Some(parent) => parent,
        };
        if self.hub.is_none() {
            match paths {
                None => {
                    return WalkNext::Lost;
                },
                Some(v) => {
                    if v.len() > 0 {
                        assert(texts(v@)[0] == v@[0]@);
                        self.hub = Some(String::from_str(v[0].as_str()));
                    } else {
                        assert(texts(v@).len() == 0);
                    }
                },
            }
        }
        self.up.push((p % 256) as u8);
        match parent {
            Parent::Root(bus) => match &self.hub {
                Some(h) => WalkNext::Done(bus, reversed(&self.up), String::from_str(h.as_str())),
                None => WalkNext::Lost,
            },
            Parent::Foreign => WalkNext::Lost,
            Parent::Hub => if self.up.len() > 7 {
                WalkNext::Lost
            } else {
                WalkNext::Up
            },
        }
    }
}

/// A walk that goes on has at most seven ports behind it, so it ends.
pub proof fn lemma_walk_ends(
    up: Seq<u8>,
    hub: Option<Seq<char>>,
    port: Option<u32>,
    parent: Option<Parent>,
    paths: Option<Seq<Seq<char>>>,
)
    requires
        walk_step(up, hub, port, parent, paths) is Up,
    ensures
        up.len() < 7,
{
}

/// The port chain of a device has at least one port, and its last is the
/// device's own.
pub proof fn lemma_walk_starts_at_the_device(
    up: Seq<u8>,
    hub: Option<Seq<char>>,
    port: Option<u32>,
    parent: Option<Parent>,
    paths: Option<Seq<Seq<char>>>,
)
    requires
        walk_step(up, hub, port, parent, paths) is Done,
    ensures
        walk_step(up, hub, port, parent, paths)->Done_1.len() == up.len() + 1,
        walk_step(up, hub, port, parent, paths)->Done_1.last() == up.push((port->0 % 256) as u8)[0],
{
}

// ----- connections ------------------------------------------------------------------------

/// The speed of a connection by its speed code and, if the hub tells, its
/// extended flags.
pub open spec fn connection_speed_of(code: u8, flags: Option<u32>) -> Speed {
    let plain = match code {
        0 => Speed::Low,
        1 => Speed::Full,
        2 => Speed::High,
        3 => Speed::Super,
        _ => Speed::Unknown,
    };
    match flags {
        Some(f) => if f / 4 % 2 == 1 {
            Speed::SuperPlus
        } else if f % 2 == 1 {
            Speed::Super
        } else {
            plain
        },
        None => plain,
    }
}

/// The speed of a connection.
pub fn connection_speed(code: u8, flags: Option<u32>) -> (r: Speed)
    ensures
        r == connection_speed_of(code, flags),
{
    match flags {
        Some(f) => {
            if f / 4 % 2 == 1 {
                return Speed::SuperPlus;
            }
            if f % 2 == 1 {
                return Speed::Super;
            }
        },
        None => {},
    }
    match code {
        0 => Speed::Low,
        1 => Speed::Full,
        2 => Speed::High,
        3 => Speed::Super,
        _ => Speed::Unknown,
    }
}

/// The connection status of a port with a working device on it.
pub const DEVICE_CONNECTED: u32 = 1;

/// Whether a port has a working device on it, by whether the hub answered and
/// the connection status it gave.
pub fn connected(answered: bool, status: u32) -> (r: bool)
    ensures
        r == (answered && status == DEVICE_CONNECTED),
{
    answered && status == DEVICE_CONNECTED
}

/// What a hub says of the device on one of its ports.
#[derive(Debug)]
pub struct Connection {
    /// The device descriptor.
    pub device_descriptor: [u8; 18],
    /// The value of the active configuration.
    pub current_config: u8,
    /// The speed.
    pub speed: Speed,
    /// The device address.
    pub address: u16,
}

/// The device on a port, if its descriptor is one.
pub open spec fn connected_device(
    c: Connection,
    bus: u8,
    ports: Seq<u8>,
    configs: Seq<Seq<u8>>,
) -> Option<DeviceInfoView> {
    if is_device_descriptor(c.device_descriptor@) {
        Some(
            DeviceInfoView {
                bus_number: bus,
                address: if c.address > 255 {
                    255
                } else {
                    c.address as u8
                },
                port_numbers: ports,
                speed: c.speed,
                device_descriptor: device_of(c.device_descriptor@),
                configs,
                active_config: Some(c.current_config),
            },
        )
    } else {
        None
    }
}

/// Describes the device on a port by what its hub says of it.
pub fn describe_device(c: &Connection, bus: u8, port_numbers: Vec<u8>, configs: Vec<Vec<u8>>) -> (r: Option<DeviceInfo>)
    ensures
        match connected_device(*c, bus, port_numbers@, byte_lists(configs@)) {
            Some(d) => r is Some && (r->0)@ == d,
            None => r is None,
        },
{
    match DeviceDescriptor::from_bytes(c.device_descriptor.as_slice()) {
        Ok(device_descriptor) => {
            let address: u8 = if c.address > 255 {
                255
            } else {
                c.address as u8
            };
            Some(
                DeviceInfo {
                    bus_number: bus,
                    address,
                    port_numbers,
                    speed: c.speed,
                    device_descriptor,
                    configs,
                    active_config: Some(c.current_config),
                },
            )
        },
        Err(_) => None,
    }
}

// ----- descriptor requests ------------------------------------------------------------------

/// The length of the header of a descriptor request.
pub const DESCRIPTOR_REQUEST_SIZE: usize = 12;

/// A GET_DESCRIPTOR request for the device on a port, with room for the
/// answer behind it.
pub open spec fn request_block(port: u32, value: u16, index: u16, length: int) -> Seq<u8> {
    let len = if length > 0xffff {
        0xffff
    } else {
        length
    };
    u32_bytes(port) + seq![0x80u8, request::GET_DESCRIPTOR] + u16_bytes(value) + u16_bytes(index) + u16_bytes(
        len as u16,
    ) + bytes::zeros(len)
}

/// A GET_DESCRIPTOR request for the device on a port, with room for the
/// answer behind it.
pub fn hub_descriptor_request(port: u32, value: u16, index: u16, length: usize) -> (r: Vec<u8>)
    ensures
        r@ == request_block(port, value, index, length as int),
{
    let len: usize = if length > 0xffff {
        0xffff
    } else {
        length
    };
    let mut out: Vec<u8> = Vec::new();
    bytes::put32(&mut out, port);
    out.push(0x80);
    out.push(request::GET_DESCRIPTOR);
    bytes::put16(&mut out, value);
    bytes::put16(&mut out, index);
    bytes::put16(&mut out, len as u16);
    bytes::pad_to(&mut out, DESCRIPTOR_REQUEST_SIZE + len);
    assert(out@ =~= request_block(port, value, index, length as int));
    out
}

/// The bytes that a hub's answer of `returned` bytes carries, of those that
/// were asked for.
pub open spec fn answered(block: Seq<u8>, returned: u32, length: int) -> Seq<u8> {
    let len = if length > 0xffff {
        0xffff
    } else {
        length
    };
    let n = if returned < 12 {
        0
    } else if returned - 12 > len {
        len
    } else {
        returned - 12
    };
    block.subrange(12, 12 + n)
}

/// The bytes that a hub's answer carries.
pub fn hub_descriptor_answer(block: &[u8], returned: u32, length: usize) -> (r: Vec<u8>)
    requires
        block@.len() == 12 + (if length > 0xffff {
            0xffff
        } else {
            length as int
        }),
    ensures
        r@ == answered(block@, returned, length as int),
{
    let len: usize = block.len() - DESCRIPTOR_REQUEST_SIZE;
    let n: usize = if returned < 12 {
        0
    } else if (returned - 12) as usize > len {
        len
    } else {
        (returned - 12) as usize
    };
    bytes::copy_range(block, 12, 12 + n)
}

/// The value of a request for a configuration descriptor.
pub fn config_value(index: u8) -> (r: u16)
    ensures
        r == descriptor_type::CONFIG * 256 + index,
{
    descriptor_type::CONFIG as u16 * 256 + index as u16
}

/// How much of a configuration descriptor to ask for, given the nine bytes of
/// its header; `None` if there are not that many.
pub fn config_length(head: &[u8]) -> (r: Option<usize>)
    ensures
        r == length_by_header(head@),
{
    if head.len() != 9 {
        return None;
    }
    let total: usize = le16(head, 2) as usize;
    if total < 9 {
        Some(9)
    } else {
        Some(total)
    }
}

/// The configuration descriptor in an answer, if it starts with one.
pub open spec fn config_in(full: Seq<u8>) -> Option<Seq<u8>> {
    if split_configs(full).len() > 0 {
        Some(split_configs(full)[0])
    } else {
        None
    }
}

/// The configuration descriptor in an answer, if it starts with one.
pub fn config_of_answer(full: &[u8]) -> (r: Option<Vec<u8>>)
    ensures
        match config_in(full@) {
            Some(c) => r is Some && (r->0)@ == c,
            None => r is None,
        },
{
    let all = split_config_descriptors(full);
    proof {
        assert(byte_lists(all@).len() == all@.len());
    }
    if all.len() > 0 {
        let first = bytes::copy_range(&all[0], 0, all[0].len());
        proof {
            assert(byte_lists(all@)[0] == all@[0]@);
            assert(first@ =~= all@[0]@);
        }
        Some(first)
    } else {
        None
    }
}

/// The reading of a device's configuration descriptors through its hub: of
/// each the header first, and then as much as that says.
#[derive(Debug)]
pub struct ConfigsRead {
    /// How many configurations the device has.
    pub count: u8,
    /// The one that is being read.
    pub index: u8,
    /// Whether its header was read.
    pub whole: bool,
    /// Those that were read.
    pub configs: Vec<Vec<u8>>,
}

/// What a [`ConfigsRead`] holds.
#[verifier::ext_equal]
pub struct ConfigsReadView {
    pub count: u8,
    pub index: u8,
    pub whole: bool,
    pub configs: Seq<Seq<u8>>,
}

impl View for ConfigsRead {
    type V = ConfigsReadView;

    open spec fn view(&self) -> ConfigsReadView {
        ConfigsReadView {
            count: self.count,
            index: self.index,
            whole: self.whole,
            configs: byte_lists(self.configs@),
        }
    }
}

/// What a [`ConfigsRead`] asks for.
#[derive(Debug, Clone, Copy, PartialEq, Eq, Structural)]
pub enum ConfigsAction {
    /// Ask the hub for `length` bytes of the descriptor that `value` names.
    Ask { value: u16, length: usize },
    /// There is nothing more to read.
    Finish,
}

/// Asking for the header of a configuration, if there is one more.
pub open spec fn ask_header(s: ConfigsReadView) -> ConfigsAction {
    if s.index < s.count {
        ConfigsAction::Ask { value: (descriptor_type::CONFIG * 256 + s.index) as u16, length: 9 }
    } else {
        ConfigsAction::Finish
    }
}

/// How much of a configuration descriptor to ask for, given its header.
pub open spec fn length_by_header(head: Seq<u8>) -> Option<usize> {
    if head.len() != 9 {
        None
    } else if le16_at(head, 2) < 9 {
        Some(9usize)
    } else {
        Some(le16_at(head, 2) as usize)
    }
}

/// The reading after the answer to its last request, `None` if there was none.
/// It ends at the first header that does not come whole and at the first
/// request that fails.
pub open spec fn configs_next(s: ConfigsReadView, answer: Option<Seq<u8>>) -> (ConfigsReadView, ConfigsAction) {
    match answer {
        None => (s, ConfigsAction::Finish),
        Some(b) => if s.whole {
            let t = ConfigsReadView {
                index: (s.index + 1) as u8,
                whole: false,
                configs: match config_in(b) {
                    Some(c) => s.configs.push(c),
                    None => s.configs,
                },
                ..s
            };
            (t, ask_header(t))
        } else {
            match length_by_header(b) {
                None => (s, ConfigsAction::Finish),
                Some(length) => (
                    ConfigsReadView { whole: true, ..s },
                    ConfigsAction::Ask { value: (descriptor_type::CONFIG * 256 + s.index) as u16, length },
                ),
            }
        },
    }
}

impl ConfigsRead {
    /// What holds while there is something to read.
    pub open spec fn wf(&self) -> bool {
        self.index < self.count
    }

    /// Starts reading the descriptors of a device's `count` configurations.
    pub fn new(count: u8) -> (r: (ConfigsRead, ConfigsAction))
        ensures
            r.0@ == (ConfigsReadView { count, index: 0, whole: false, configs: Seq::empty() }),
            r.1 == ask_header(r.0@),
    {
        let s = ConfigsRead { count, index: 0, whole: false, configs: Vec::new() };
        assert(byte_lists(s.configs@) =~= Seq::empty());
        let action = s.header();
        (s, action)
    }

    fn header(&self) -> (r: ConfigsAction)
        ensures
            r == ask_header(self@),
    {
        if self.index < self.count {
            ConfigsAction::Ask { value: config_value(self.index), length: 9 }
        } else {
            ConfigsAction::Finish
        }
    }

    /// Takes the answer to the last request.
    pub fn step(self, answer: Option<&[u8]>) -> (r: (ConfigsRead, ConfigsAction))
        requires
            self.wf(),
        ensures
            (r.0@, r.1) == configs_next(
                self@,
                match answer {
                    Some(b) => Some(b@),
                    None => None,
                },
            ),
            r.1 is Ask ==> r.0.wf(),
    {
        let b = match answer {
            None => {
                return (self, ConfigsAction::Finish);
            },
            Some(b) => b,
        };
        let mut s = self;
        if s.whole {
            let ghost before = s.configs@;
            match config_of_answer(b) {
                Some(c) => {
                    s.configs.push(c);
                    assert(byte_lists(s.configs@) =~= byte_lists(before).push(c@));
                },
                None => {},
            }
            s.index = s.index + 1;
            s.whole = false;
            let action = s.header();
            (s, action)
        } else {
            match config_length(b) {
                None => (s, ConfigsAction::Finish),
                Some(length) => {
                    s.whole = true;
                    let value: u16 = config_value(s.index);
                    (s, ConfigsAction::Ask { value, length })
                },
            }
        }
    }
}

/// Reading the configuration descriptors of a device ends, and gives no more
/// than it has configurations.
pub proof fn lemma_configs_are_counted(s: ConfigsReadView, answer: Option<Seq<u8>>)
    requires
        s.index < s.count,
        s.configs.len() <= s.index,
    ensures
        ({
            let (t, action) = configs_next(s, answer);
            &&& t.count == s.count
            &&& t.configs.len() <= t.index <= t.count
            &&& action is Ask ==> 2 * (t.count - t.index) - (if t.whole {
                1int
            } else {
                0
            }) < 2 * (s.count - s.index) - (if s.whole {
                1int
            } else {
                0
            })
        }),
{
}

/// The error of a device that WinUSB does not drive.
pub open spec fn not_winusb() -> ErrorView {
    message(ErrorKind::NotSupported, "device is not bound to the WinUSB driver"@)
}

/// Checks that a control request can go through the parent hub: only standard
/// GET_DESCRIPTOR requests can, and only if there is a hub. Returns how many
/// bytes to ask for.
pub fn hub_control(setup: ControlSetup, room: usize, has_hub: bool) -> (r: Result<usize>)
    ensures
        if has_hub && setup.request_type == 0x80 && setup.request == request::GET_DESCRIPTOR {
            r == Ok::<usize, Error>(
                if room < setup.length {
                    room
                } else {
                    setup.length as usize
                },
            )
        } else {
            r is Err && r->Err_0@ == not_winusb()
        },
{
    if has_hub && setup.request_type == 0x80 && setup.request == request::GET_DESCRIPTOR {
        if room < setup.length as usize {
            Ok(room)
        } else {
            Ok(setup.length as usize)
        }
    } else {
        Err(Error::with_message(ErrorKind::NotSupported, "device is not bound to the WinUSB driver"))
    }
}

/// What a request through the hub comes to as a transfer, by the kind of its
/// error if it has one.
pub open spec fn hub_result(r: std::result::Result<usize, ErrorKind>) -> (TransferStatus, usize) {
    match r {
        Ok(n) => (TransferStatus::Completed, n),
        Err(kind) => if kind == ErrorKind::NoDevice {
            (TransferStatus::NoDevice, 0usize)
        } else {
            (TransferStatus::Stall, 0usize)
        },
    }
}

/// What a control request that went through the hub ended as.
pub fn hub_outcome(r: Result<usize>) -> (x: (TransferStatus, usize))
    ensures
        x == (match r {
            Ok(n) => hub_result(Ok(n)),
            Err(e) => hub_result(Err(e@.kind)),
        }),
{
    match r {
        Ok(n) => (TransferStatus::Completed, n),
        Err(e) => match e.kind() {
            ErrorKind::NoDevice => (TransferStatus::NoDevice, 0),
            _ => (TransferStatus::Stall, 0),
        },
    }
}

// ----- functions of a composite device -----------------------------------------------------

/// A child node of a composite device.
#[derive(Debug)]
pub struct Child {
    /// Its instance name, if it can be had.
    pub instance: Option<String>,
    /// The service name of its driver, if it has one.
    pub service: Option<String>,
    /// Whether one of its device interfaces has a path.
    pub has_path: bool,
}

/// The first interface of the function that a child is, if WinUSB drives it
/// and it can be opened.
pub open spec fn function_of(c: Child) -> Option<u8> {
    if c.instance is Some && c.service is Some && names::service_of(c.service->0@) == names::Service::WinUsb && c.has_path {
        match names::tagged_number(c.instance->0@, "&MI_"@, 2, 0xff) {
            Some(v) => Some(v as u8),
            None => None,
        }
    } else {
        None
    }
}

fn child_function(c: &Child) -> (r: Option<u8>)
    ensures
        r == function_of(*c),
{
    if !c.has_path {
        return None;
    }
    match (&c.instance, &c.service) {
        (Some(instance), Some(service)) => match names::service(service.as_str()) {
            names::Service::WinUsb => names::function_interface(instance.as_str()),
            _ => None,
        },
        _ => None,
    }
}

/// Whether a child comes before another: by its first interface, and where
/// that is the same by its place.
pub open spec fn function_before(v: Seq<Child>, a: usize, b: usize) -> bool {
    let x = function_of(v[a as int])->0;
    let y = function_of(v[b as int])->0;
    x < y || (x == y && a < b)
}

/// Whether some children are those of the first `n` that are functions, each
/// once, by their first interface.
pub open spec fn functions_among(v: Seq<Child>, r: Seq<usize>, n: int) -> bool {
    &&& forall|k: int| 0 <= k < r.len() ==> (#[trigger] r[k]) < n && function_of(v[r[k] as int]) is Some
    &&& forall|i: usize| i < n && #[trigger] function_of(v[i as int]) is Some ==> r.contains(i)
    &&& forall|j: int, k: int| 0 <= j < k < r.len() ==> function_before(v, #[trigger] r[j], #[trigger] r[k])
}

/// The functions of a composite device that WinUSB drives: the children that
/// are one and have a path, by their first interface; those that agree in it
/// keep their order.
pub fn composite_functions(v: &Vec<Child>) -> (r: Vec<usize>)
    ensures
        functions_among(v@, r@, v@.len() as int),
{
    let mut out: Vec<usize> = Vec::new();
    let mut i: usize = 0;
    while i < v.len()
        invariant
            i <= v@.len(),
            functions_among(v@, out@, i as int),
        decreases v@.len() - i,
    {
        match child_function(&v[i]) {
            Some(first) => {
                let ghost before = out@;
                let mut at: usize = out.len();
                let mut done = false;
                while !done && at > 0
                    invariant
                        at <= out@.len(),
                        i < v@.len(),
                        out@ == before,
                        functions_among(v@, before, i as int),
                        function_of(v@[i as int]) == Some(first),
                        forall|k: int| at <= k < before.len() ==> first < function_of(v@[(#[trigger] before[k]) as int])->0,
                        done ==> at > 0 && function_of(v@[before[at - 1] as int])->0 <= first,
                    decreases at + (if done {
                        0int
                    } else {
                        1
                    }),
                {
                    let place: usize = out[at - 1];
                    match child_function(&v[place]) {
                        Some(other) => {
                            if other <= first {
                                done = true;
                            } else {
                                at -= 1;
                            }
                        },
                        None => {
                            assert(false);
                            at -= 1;
                        },
                    }
                }
                out.insert(at, i);
                proof {
                    lemma_function_placed(v@, before, i, at as int);
                }
            },
            None => {},
        }
        i += 1;
    }
    out
}

proof fn lemma_function_placed(v: Seq<Child>, before: Seq<usize>, i: usize, at: int)
    requires
        i < v.len(),
        0 <= at <= before.len(),
        functions_among(v, before, i as int),
        function_of(v[i as int]) is Some,
        forall|k: int|
            at <= k < before.len() ==> function_of(v[i as int])->0 < function_of(v[(#[trigger] before[k]) as int])->0,
        at > 0 ==> function_of(v[before[at - 1] as int])->0 <= function_of(v[i as int])->0,
    ensures
        functions_among(v, before.insert(at, i), i + 1),
{
    let after = before.insert(at, i);
    assert forall|k: int| 0 <= k < after.len() implies (#[trigger] after[k]) < i + 1 && function_of(v[after[k] as int]) is Some by {
        if k < at {
            assert(after[k] == before[k]);
        } else if k > at {
            assert(after[k] == before[k - 1]);
        }
    }
    assert forall|m: usize| m < i + 1 && #[trigger] function_of(v[m as int]) is Some implies after.contains(m) by {
        if m == i {
            assert(after[at] == m);
        } else {
            assert(before.contains(m));
            let k = choose|k: int| 0 <= k < before.len() && before[k] == m;
            if k < at {
                assert(after[k] == m);
            } else {
                assert(after[k + 1] == m);
            }
        }
    }
    assert forall|j: int, k: int| 0 <= j < k < after.len() implies function_before(v, #[trigger] after[j], #[trigger] after[k]) by {
        let b = |x: int| if x < at {
            x
        } else {
            x - 1
        };
        if j != at && k != at {
            assert(after[j] == before[b(j)] && after[k] == before[b(k)]);
            assert(function_before(v, before[b(j)], before[b(k)]));
        } else if k == at {
            assert(after[j] == before[j]);
            if j < at - 1 {
                assert(function_before(v, before[j], before[at - 1]));
            }
        } else {
            assert(after[k] == before[k - 1]);
        }
    }
}

// ----- control requests --------------------------------------------------------------------

/// Which WinUSB handle a control request goes through.
#[derive(Debug, Clone, Copy, PartialEq, Eq, Structural)]
pub enum ControlVia {
    /// That of the whole device.
    Whole,
    /// That of a claimed interface.
    Claimed,
    /// That of a function that is open already.
    Opened,
    /// That of the function with this first interface, which is to be opened.
    Function(u8),
    /// None: only requests that the hub can run are possible.
    Hub,
}

/// The way of a control request: the first that there is.
pub open spec fn control_via(whole: bool, claimed: bool, opened: bool, functions: Seq<u8>) -> ControlVia {
    if whole {
        ControlVia::Whole
    } else if claimed {
        ControlVia::Claimed
    } else if opened {
        ControlVia::Opened
    } else if functions.len() > 0 {
        ControlVia::Function(functions[0])
    } else {
        ControlVia::Hub
    }
}

/// Chooses the handle for control requests: what is open already comes
/// before what would have to be opened. `functions` are the first interfaces
/// of the functions that WinUSB drives.
pub fn control_handle(whole: bool, claimed: bool, opened: bool, functions: &[u8]) -> (r: ControlVia)
    ensures
        r == control_via(whole, claimed, opened, functions@),
{
    if whole {
        ControlVia::Whole
    } else if claimed {
        ControlVia::Claimed
    } else if opened {
        ControlVia::Opened
    } else if functions.len() > 0 {
        ControlVia::Function(functions[0])
    } else {
        ControlVia::Hub
    }
}

/// The control codes of the hub driver, and the buses, which are counted from 1
/// in the order of the root hubs.
pub proof fn lemma_hub_numbers(function: u32, place: int)
    requires
        0 <= place,
        function < 0x1000,
    ensures
        control_code(function) == 0x22_0000 + 4 * function,
        place < 255 ==> bus_at(place) == place + 1,
        place >= 255 ==> bus_at(place) == 255,
{
}

/// Names are ordered by their first difference; a name that another one starts
/// with comes before it.
pub proof fn lemma_name_order(head: Seq<char>, a: char, b: char, x: Seq<char>, y: Seq<char>)
    ensures
        a < b ==> comes_before(head + seq![a] + x, head + seq![b] + y),
        a > b ==> !comes_before(head + seq![a] + x, head + seq![b] + y),
        comes_before(head, head + seq![b] + y),
        !comes_before(head + seq![b] + y, head),
        !comes_before(head, head),
    decreases head.len(),
{
    let p = head + seq![a] + x;
    let q = head + seq![b] + y;
    if head.len() == 0 {
        assert(p[0] == a && q[0] == b);
    } else {
        let w = head.skip(1);
        lemma_name_order(w, a, b, x, y);
        assert(p[0] == head[0] && q[0] == head[0]);
        assert(p.skip(1) =~= w + seq![a] + x);
        assert(q.skip(1) =~= w + seq![b] + y);
    }
}

/// The speed of a connection: the flags go before the code.
pub proof fn lemma_connection_speeds(code: u8, flags: u32)
    ensures
        connection_speed_of(code, None) == Speed::Low <==> code == 0,
        connection_speed_of(code, None) == Speed::Full <==> code == 1,
        connection_speed_of(code, None) == Speed::High <==> code == 2,
        connection_speed_of(code, None) == Speed::Super <==> code == 3,
        flags / 4 % 2 == 1 ==> connection_speed_of(code, Some(flags)) == Speed::SuperPlus,
        flags / 4 % 2 == 0 && flags % 2 == 1 ==> connection_speed_of(code, Some(flags)) == Speed::Super,
        flags / 4 % 2 == 0 && flags % 2 == 0 ==> connection_speed_of(code, Some(flags)) == connection_speed_of(code, None),
{
}

/// Where a descriptor request to a hub holds what: the port, the standard
/// request, and then room for the answer.
pub proof fn lemma_request_block_layout(port: u32, value: u16, index: u16, length: int)
    requires
        0 <= length <= 0xffff,
    ensures
        ({
            let b = request_block(port, value, index, length);
            &&& b.len() == 12 + length
            &&& b.take(4) == u32_bytes(port)
            &&& (b[4], b[5]) == (0x80u8, 6u8)
            &&& b[6] + 256 * b[7] == value
            &&& b[8] + 256 * b[9] == index
            &&& b[10] + 256 * b[11] == length
            &&& forall|i: int| 12 <= i < b.len() ==> #[trigger] b[i] == 0
        }),
{
    let b = request_block(port, value, index, length);
    bytes::lemma_written_byte_order(value, 0, 0);
    bytes::lemma_written_byte_order(index, 0, 0);
    bytes::lemma_written_byte_order(length as u16, 0, 0);
    assert(b.take(4) =~= u32_bytes(port));
    assert(b[6] == u16_bytes(value)[0] && b[7] == u16_bytes(value)[1]);
    assert(b[8] == u16_bytes(index)[0] && b[9] == u16_bytes(index)[1]);
    assert(b[10] == u16_bytes(length as u16)[0] && b[11] == u16_bytes(length as u16)[1]);
}

/// The answer stands behind the request, as much of it as came back.
pub proof fn lemma_answers(block: Seq<u8>, returned: u32, length: int)
    requires
        0 <= length <= 0xffff,
        block.len() == 12 + length,
    ensures
        returned < 12 ==> answered(block, returned, length).len() == 0,
        12 <= returned <= block.len() ==> answered(block, returned, length) == block.subrange(12, returned as int),
        returned > block.len() ==> answered(block, returned, length) == block.skip(12),
{
}

/// Configurations are read one after the other, each by its header of nine
/// bytes and then in the length that this declares.
pub proof fn lemma_configs_are_read(s: ConfigsReadView, head: Seq<u8>, full: Seq<u8>)
    requires
        s.index < s.count,
    ensures
        ask_header(s) == (ConfigsAction::Ask { value: (0x0200 + s.index) as u16, length: 9 }),
        !s.whole && head.len() == 9 && head[2] + 256 * head[3] >= 9 ==> configs_next(s, Some(head)).1
            == (ConfigsAction::Ask {
            value: (0x0200 + s.index) as u16,
            length: (head[2] + 256 * head[3]) as usize,
        }) && configs_next(s, Some(head)).0.whole,
        !s.whole && head.len() != 9 ==> configs_next(s, Some(head)).1 is Finish,
        configs_next(s, None).1 is Finish,
        s.whole && full.len() >= 9 && full[0] >= 9 && full[1] == 2 && full[2] + 256 * full[3] == full.len() ==> ({
            let t = configs_next(s, Some(full)).0;
            &&& t.configs == s.configs.push(full)
            &&& t.index == s.index + 1
            &&& !t.whole
            &&& t.index == t.count ==> configs_next(s, Some(full)).1 is Finish
        }),
{
    if full.len() >= 9 && full[0] >= 9 && full[1] == 2 && full[2] + 256 * full[3] == full.len() {
        crate::sys::lemma_configs_are_split(full, Seq::empty());
        assert(full + Seq::<u8>::empty() =~= full);
        assert(split_configs(full)[0] == full);
    }
}

/// On the way up from a device every port is noted; at the root they are turned
/// round, and the hub that is asked is the first that was passed.
pub proof fn lemma_walk_up(up: Seq<u8>, hub: Option<Seq<char>>, port: u32, bus: u8, paths: Seq<Seq<char>>)
    requires
        port < 256,
    ensures
        hub is Some ==> walk_step(up, hub, Some(port), Some(Parent::Root(bus)), None) == WalkView::Done(
            bus,
            seq![port as u8] + up.reverse(),
            hub->0,
        ),
        hub is None && paths.len() > 0 ==> walk_step(up, hub, Some(port), Some(Parent::Root(bus)), Some(paths))
            == WalkView::Done(bus, seq![port as u8] + up.reverse(), paths[0]),
        hub is Some && up.len() < 7 ==> walk_step(up, hub, Some(port), Some(Parent::Hub), None) is Up,
        walk_step(up, hub, Some(port), Some(Parent::Foreign), Some(paths)) is Lost,
        walk_step(up, hub, None, Some(Parent::Hub), Some(paths)) is Lost,
{
    assert(up.push(port as u8).reverse() =~= seq![port as u8] + up.reverse());
}

/// What a connection says of a device: its descriptor must be one, and its
/// address is cut to a byte.
pub proof fn lemma_connected_devices(c: Connection, bus: u8, ports: Seq<u8>, configs: Seq<Seq<u8>>)
    requires
        c.device_descriptor@.len() == 18,
    ensures
        ({
            let b = c.device_descriptor@;
            let r = connected_device(c, bus, ports, configs);
            let d = r->0;
            &&& r is Some <==> b[0] >= 18 && b[1] == 1
            &&& r is Some ==> {
                &&& (d.bus_number, d.port_numbers, d.speed, d.configs) == (bus, ports, c.speed, configs)
                &&& d.device_descriptor == device_of(b)
                &&& d.active_config == Some(c.current_config)
                &&& c.address <= 255 ==> d.address == c.address
            }
        }),
{
}

proof fn lemma_hub_placed(v: Seq<RootHubView>, h: RootHubView)
    ensures
        hub_placed(v, h).len() == v.len() + 1,
        hub_placed(v, h).to_multiset() == v.to_multiset().insert(h),
    decreases v.len(),
{
    broadcast use vstd::seq_lib::group_to_multiset_ensures;

    if v.len() == 0 || !comes_before(h.instance, v.last().instance) {
    } else {
        let w = v.drop_last();
        lemma_hub_placed(w, h);
        assert(w.push(v.last()) =~= v);
        assert(v.to_multiset() =~= w.to_multiset().insert(v.last()));
        assert(hub_placed(v, h).to_multiset() =~= v.to_multiset().insert(h));
    }
}

/// Every root hub is listed once, with the place that it had.
pub proof fn lemma_hubs_are_kept(names: Seq<Seq<char>>, name: Seq<char>)
    ensures
        hubs_sorted(Seq::empty()).len() == 0,
        hubs_sorted(names).len() == names.len(),
        hubs_sorted(names.push(name)).to_multiset() == hubs_sorted(names).to_multiset().insert(
            RootHubView { instance: name, index: names.len() as int },
        ),
    decreases names.len(),
{
    let w = names.push(name);
    assert(w.drop_last() =~= names);
    lemma_hub_placed(hubs_sorted(names), RootHubView { instance: name, index: names.len() as int });
    if names.len() > 0 {
        assert(names.drop_last().push(names.last()) =~= names);
        lemma_hubs_are_kept(names.drop_last(), names.last());
        lemma_hub_placed(
            hubs_sorted(names.drop_last()),
            RootHubView { instance: names.last(), index: names.len() - 1 },
        );
    }
}

/// Next to each other, root hubs stand in the order of their names.
pub proof fn lemma_hubs_are_ordered(names: Seq<Seq<char>>, k: int)
    requires
        0 <= k,
        k + 1 < hubs_sorted(names).len(),
    ensures
        !comes_before(hubs_sorted(names)[k + 1].instance, hubs_sorted(names)[k].instance),
    decreases names.len(),
{
    let w = names.drop_last();
    let h = RootHubView { instance: names.last(), index: names.len() - 1 };
    assert forall|j: int| 0 <= j && j + 1 < hubs_sorted(w).len() implies !comes_before(
        (#[trigger] hubs_sorted(w)[j + 1]).instance,
        hubs_sorted(w)[j].instance,
    ) by {
        lemma_hubs_are_ordered(w, j);
    }
    lemma_placed_order(hubs_sorted(w), h, k);
}

proof fn lemma_placed_order(v: Seq<RootHubView>, h: RootHubView, k: int)
    requires
        forall|j: int|
            0 <= j && j + 1 < v.len() ==> !comes_before((#[trigger] v[j + 1]).instance, v[j].instance),
        0 <= k,
        k + 1 < hub_placed(v, h).len(),
    ensures
        hub_placed(v, h).len() == v.len() + 1,
        !comes_before(hub_placed(v, h)[k + 1].instance, hub_placed(v, h)[k].instance),
        hub_placed(v, h).last() == h || (v.len() > 0 && hub_placed(v, h).last() == v.last()),
    decreases v.len(),
{
    let p = hub_placed(v, h);
    lemma_hub_placed(v, h);
    if v.len() == 0 || !comes_before(h.instance, v.last().instance) {
        if k + 1 < v.len() {
            assert(p[k + 1] == v[k + 1]);
        }
    } else {
        let w = v.drop_last();
        let q = hub_placed(w, h);
        lemma_hub_placed(w, h);
        assert forall|j: int| 0 <= j && j + 1 < w.len() implies !comes_before(
            (#[trigger] w[j + 1]).instance,
            w[j].instance,
        ) by {
            assert(w[j + 1] == v[j + 1]);
        }
        if k + 1 < q.len() {
            lemma_placed_order(w, h, k);
        } else {
            assert(p[k + 1] == v.last());
            assert(p[k] == q.last());
            if w.len() == 0 {
                assert(q =~= seq![h]);
                lemma_not_both(h.instance, v.last().instance);
            } else {
                lemma_placed_order(w, h, w.len() - 1);
                if q.last() == h {
                    lemma_not_both(h.instance, v.last().instance);
                } else {
                    assert(w.last() == v[v.len() - 2]);
                    assert(v[(v.len() - 2) + 1] == v.last());
                }
            }
        }
    }
}

proof fn lemma_not_both(a: Seq<char>, b: Seq<char>)
    ensures
        comes_before(a, b) ==> !comes_before(b, a),
    decreases a.len(),
{
    if a.len() > 0 && b.len() > 0 && a[0] == b[0] {
        lemma_not_both(a.skip(1), b.skip(1));
    }
}

/// What a root hub is described as: a hub on its bus, of USB 3 where its name
/// says so and of USB 2 otherwise, under the IDs of its controller.
pub proof fn lemma_root_devices(bus: u8, instance: Seq<char>, hwid: Option<Seq<char>>)
    ensures
        ({
            let d = root_device(bus, instance, hwid);
            let fast = first_standing(instance, "ROOT_HUB3"@, 0) is Some;
            &&& (d.bus_number, d.address) == (bus, 0u8)
            &&& d.port_numbers.len() == 0
            &&& d.configs.len() == 0
            &&& d.device_descriptor.class == 9
            &&& d.device_descriptor.vendor_id == hardware_number(hwid, "VEN_"@)
            &&& d.device_descriptor.product_id == hardware_number(hwid, "DEV_"@)
            &&& fast ==> d.speed == Speed::Super && d.device_descriptor.usb_version.0 == 0x0300
            &&& !fast ==> d.speed == Speed::High && d.device_descriptor.usb_version.0 == 0x0200
        }),
{
}

/// Which candidates are devices: each node once, with a name, and no root hub.
pub proof fn lemma_listed(v: Seq<Candidate>, n: int)
    requires
        0 <= n < v.len(),
        v.len() <= usize::MAX,
    ensures
        listed(v, 0).len() == 0,
        ({
            let seen = exists|j: int| 0 <= j < n && (#[trigger] v[j]).node == v[n].node;
            let good = !seen && v[n].instance is Some && !stands_at((v[n].instance->0)@, "USB\\ROOT_HUB"@, 0);
            &&& good ==> listed(v, n + 1) == listed(v, n).push(n as usize)
            &&& !good ==> listed(v, n + 1) == listed(v, n)
        }),
{
    let t = nodes(v).take(n);
    if t.contains(v[n].node) {
        let j = choose|j: int| 0 <= j < t.len() && t[j] == v[n].node;
        assert(v[j].node == v[n].node);
    }
    if exists|j: int| 0 <= j < n && (#[trigger] v[j]).node == v[n].node {
        let j = choose|j: int| 0 <= j < n && (#[trigger] v[j]).node == v[n].node;
        assert(t[j] == v[n].node);
    }
}

/// A child is a function that can be used if WinUSB drives it and it has a
/// path; its first interface is in its name.
pub proof fn lemma_function_children(c: Child)
    ensures
        function_of(c) is Some ==> c.has_path && c.service is Some && names::service_of(c.service->0@)
            == names::Service::WinUsb && c.instance is Some && names::tagged_number(c.instance->0@, "&MI_"@, 2, 0xff)
            is Some && function_of(c)->0 == names::tagged_number(c.instance->0@, "&MI_"@, 2, 0xff)->0 as u8,
        !c.has_path || c.instance is None || c.service is None ==> function_of(c) is None,
{
}

/// The nearest ancestor with a path gives the hub, by its first path.
pub proof fn lemma_hub_paths(hub: Seq<char>, path: Seq<char>, more: Seq<Seq<char>>)
    ensures
        hub_path(Some(hub), more) == Some(hub),
        hub_path(None, seq![path] + more) == Some(path),
        hub_path(None, Seq::empty()) is None,
{
    assert((seq![path] + more)[0] == path);
}

/// A whole configuration is asked for by the total length in its header, bytes
/// 2 and 3, and never less than the header.
pub proof fn lemma_config_lengths(head: Seq<u8>)
    ensures
        length_by_header(head) is Some <==> head.len() == 9,
        head.len() == 9 ==> ({
            let total = head[2] + 256 * head[3];
            length_by_header(head)->0 == if total < 9 {
                9int
            } else {
                total
            }
        }),
        not_winusb().kind == ErrorKind::NotSupported,
{
}

/// A request through the hub stalls where it fails, unless the device is gone.
pub proof fn lemma_hub_results(n: usize, kind: ErrorKind)
    ensures
        hub_result(Ok(n)) == (TransferStatus::Completed, n),
        hub_result(Err(ErrorKind::NoDevice)) == (TransferStatus::NoDevice, 0usize),
        kind != ErrorKind::NoDevice ==> hub_result(Err(kind)) == (TransferStatus::Stall, 0usize),
{
}

/// Control requests go through the whole device if it can be had, then through
/// what is claimed, what is open, the first function, and at last the hub.
pub proof fn lemma_control_ways(claimed: bool, opened: bool, functions: Seq<u8>)
    ensures
        control_via(true, claimed, opened, functions) == ControlVia::Whole,
        control_via(false, true, opened, functions) == ControlVia::Claimed,
        control_via(false, false, true, functions) == ControlVia::Opened,
        functions.len() > 0 ==> control_via(false, false, false, functions) == ControlVia::Function(functions[0]),
        functions.len() == 0 ==> control_via(false, false, false, functions) == ControlVia::Hub,
{
}

/// Functions stand in the order of their first interfaces, and those with the
/// same one in the order in which they were found.
pub proof fn lemma_functions_in_order(v: Seq<Child>, a: usize, b: usize)
    ensures
        ({
            let x = function_of(v[a as int])->0;
            let y = function_of(v[b as int])->0;
            &&& x < y ==> function_before(v, a, b) && !function_before(v, b, a)
            &&& x == y && a < b ==> function_before(v, a, b) && !function_before(v, b, a)
            &&& !function_before(v, a, a)
        }),
{
}

/// Every child that is a function is found once, and nothing else.
pub proof fn lemma_functions_are_found(v: Seq<Child>, r: Seq<usize>, i: usize)
    requires
        v.len() <= usize::MAX,
        functions_among(v, r, v.len() as int),
    ensures
        i < v.len() ==> (function_of(v[i as int]) is Some <==> r.contains(i)),
        r.contains(i) ==> i < v.len(),
        r.no_duplicates(),
{
    if r.contains(i) {
        let k = choose|k: int| 0 <= k < r.len() && r[k] == i;
        assert(function_of(v[r[k] as int]) is Some);
    }
    assert forall|j: int, k: int| 0 <= j < r.len() && 0 <= k < r.len() && j != k implies r[j] != r[k] by {
        if j < k {
            assert(function_before(v, r[j], r[k]));
        } else {
            assert(function_before(v, r[k], r[j]));
        }
    }
}

/// An address that does not fit is the largest that does.
pub proof fn lemma_large_addresses(c: Connection, bus: u8, ports: Seq<u8>, configs: Seq<Seq<u8>>)
    requires
        c.address > 255,
    ensures
        connected_device(c, bus, ports, configs) matches Some(d) ==> d.address == 255,
{
}

} // verus!
