//! Standard USB descriptors and a tolerant parser for configuration trees.
//!
//! Parsing follows libusb's rules: unknown or class-specific descriptors that
//! appear between the standard ones are preserved verbatim in the `extra`
//! field of the enclosing configuration, interface or endpoint, and malformed
//! trailing data is ignored rather than rejected.

use crate::bytes::{self, byte_at, le16, le16_at, u16_bytes};
use crate::class::{self, walk};
use crate::error::{message, Error, ErrorKind, Result};
use crate::types::{
    descriptor_type, direction_of, transfer_type_of, Direction, SyncType, TransferType, UsageType, Version,
};
use vstd::prelude::*;
use vstd::slice::slice_subrange;

verus! {

/// The standard 18-byte device descriptor.
#[derive(Debug, Clone, Copy, PartialEq, Eq, Hash, Structural)]
pub struct DeviceDescriptor {
    /// `bcdUSB`: USB specification release the device complies with.
    pub usb_version: Version,
    /// `bDeviceClass`.
    pub class: u8,
    /// `bDeviceSubClass`.
    pub sub_class: u8,
    /// `bDeviceProtocol`.
    pub protocol: u8,
    /// `bMaxPacketSize0`: maximum packet size of endpoint 0.
    pub max_packet_size_0: u8,
    /// `idVendor`.
    pub vendor_id: u16,
    /// `idProduct`.
    pub product_id: u16,
    /// `bcdDevice`: device release number.
    pub device_version: Version,
    /// `iManufacturer`: string descriptor index, 0 if none.
    pub manufacturer_string_index: u8,
    /// `iProduct`: string descriptor index, 0 if none.
    pub product_string_index: u8,
    /// `iSerialNumber`: string descriptor index, 0 if none.
    pub serial_number_string_index: u8,
    /// `bNumConfigurations`.
    pub num_configurations: u8,
}

/// The device descriptor in the first 18 bytes of `b`.
pub open spec fn device_of(b: Seq<u8>) -> DeviceDescriptor {
    DeviceDescriptor {
        usb_version: Version(le16_at(b, 2)),
        class: b[4],
        sub_class: b[5],
        protocol: b[6],
        max_packet_size_0: b[7],
        vendor_id: le16_at(b, 8),
        product_id: le16_at(b, 10),
        device_version: Version(le16_at(b, 12)),
        manufacturer_string_index: b[14],
        product_string_index: b[15],
        serial_number_string_index: b[16],
        num_configurations: b[17],
    }
}

/// A device descriptor in wire order.
pub open spec fn device_bytes(d: DeviceDescriptor) -> Seq<u8> {
    seq![18u8, descriptor_type::DEVICE] + u16_bytes(d.usb_version.0) + seq![
        d.class,
        d.sub_class,
        d.protocol,
        d.max_packet_size_0,
    ] + u16_bytes(d.vendor_id) + u16_bytes(d.product_id) + u16_bytes(d.device_version.0) + seq![
        d.manufacturer_string_index,
        d.product_string_index,
        d.serial_number_string_index,
        d.num_configurations,
    ]
}

/// Whether `b` starts with the header of a device descriptor.
pub open spec fn is_device_descriptor(b: Seq<u8>) -> bool {
    b[0] >= 18 && b[1] == descriptor_type::DEVICE
}

impl DeviceDescriptor {
    /// Length in bytes of the descriptor on the wire.
    pub const SIZE: usize = 18;

    /// Parses the descriptor from its wire encoding.
    pub fn from_bytes(b: &[u8]) -> (r: Result<Self>)
        ensures
            b@.len() < 18 ==> r is Err && r->Err_0@ == message(
                ErrorKind::InvalidParam,
                "device descriptor too short"@,
            ),
            b@.len() >= 18 && !is_device_descriptor(b@) ==> r is Err && r->Err_0@ == message(
                ErrorKind::InvalidParam,
                "not a device descriptor"@,
            ),
            b@.len() >= 18 && is_device_descriptor(b@) ==> r == Ok::<DeviceDescriptor, Error>(device_of(b@)),
    {
        if b.len() < Self::SIZE {
            return Err(Error::with_message(ErrorKind::InvalidParam, "device descriptor too short"));
        }
        if b[0] < 18 || b[1] != descriptor_type::DEVICE {
            return Err(Error::with_message(ErrorKind::InvalidParam, "not a device descriptor"));
        }
        Ok(DeviceDescriptor {
            usb_version: Version(le16(b, 2)),
            class: b[4],
            sub_class: b[5],
            protocol: b[6],
            max_packet_size_0: b[7],
            vendor_id: le16(b, 8),
            product_id: le16(b, 10),
            device_version: Version(le16(b, 12)),
            manufacturer_string_index: b[14],
            product_string_index: b[15],
            serial_number_string_index: b[16],
            num_configurations: b[17],
        })
    }

    /// Serialises the descriptor to its wire encoding.
    pub fn to_bytes(&self) -> (r: [u8; 18])
        ensures
            r@ == device_bytes(*self),
    {
        let b: [u8; 18] = [
            18,
            descriptor_type::DEVICE,
            (self.usb_version.0 % 256) as u8,
            (self.usb_version.0 / 256) as u8,
            self.class,
            self.sub_class,
            self.protocol,
            self.max_packet_size_0,
            (self.vendor_id % 256) as u8,
            (self.vendor_id / 256) as u8,
            (self.product_id % 256) as u8,
            (self.product_id / 256) as u8,
            (self.device_version.0 % 256) as u8,
            (self.device_version.0 / 256) as u8,
            self.manufacturer_string_index,
            self.product_string_index,
            self.serial_number_string_index,
            self.num_configurations,
        ];
        assert(b@ =~= device_bytes(*self));
        b
    }
}

/// Parsing gives back the device descriptor that was serialised; and an
/// 18-byte descriptor whose length byte is 18 serialises back to itself.
pub proof fn lemma_device_round_trip(d: DeviceDescriptor, b: Seq<u8>)
    ensures
        device_bytes(d).len() == 18,
        is_device_descriptor(device_bytes(d)),
        device_of(device_bytes(d)) == d,
        b.len() == 18 && b[0] == 18 && is_device_descriptor(b) ==> device_bytes(device_of(b)) == b,
{
    if b.len() == 18 && b[0] == 18 && is_device_descriptor(b) {
        assert(device_bytes(device_of(b)) =~= b);
    }
}

/// SuperSpeed endpoint companion descriptor.
#[derive(Debug, Clone, Copy, PartialEq, Eq, Hash, Structural)]
pub struct SsEndpointCompanion {
    /// `bMaxBurst`: maximum packets per burst minus one.
    pub max_burst: u8,
    /// `bmAttributes`: max streams (bulk) or mult (isochronous).
    pub attributes: u8,
    /// `wBytesPerInterval`.
    pub bytes_per_interval: u16,
}

/// An endpoint descriptor.
#[derive(Debug, Clone, PartialEq, Eq)]
pub struct EndpointDescriptor {
    /// `bEndpointAddress`: number in bits 0-3, direction in bit 7.
    pub address: u8,
    /// `bmAttributes`.
    pub attributes: u8,
    /// `wMaxPacketSize`, raw. Bits 11-12 encode extra transactions per
    /// microframe for high-speed periodic endpoints; see
    /// [`max_packet_size`](Self::max_packet_size).
    pub max_packet_size: u16,
    /// `bInterval`.
    pub interval: u8,
    /// `bRefresh` (audio endpoints only).
    pub refresh: u8,
    /// `bSynchAddress` (audio endpoints only).
    pub synch_address: u8,
    /// SuperSpeed companion, when one followed this endpoint.
    pub ss_companion: Option<SsEndpointCompanion>,
    /// Class- or vendor-specific descriptors following this endpoint
    /// (a SuperSpeed companion is included here as well as parsed).
    pub extra: Vec<u8>,
}

/// What an [`EndpointDescriptor`] holds.
#[verifier::ext_equal]
pub struct EndpointView {
    pub address: u8,
    pub attributes: u8,
    pub max_packet_size: u16,
    pub interval: u8,
    pub refresh: u8,
    pub synch_address: u8,
    pub ss_companion: Option<SsEndpointCompanion>,
    pub extra: Seq<u8>,
}

impl View for EndpointDescriptor {
    type V = EndpointView;

    open spec fn view(&self) -> EndpointView {
        EndpointView {
            address: self.address,
            attributes: self.attributes,
            max_packet_size: self.max_packet_size,
            interval: self.interval,
            refresh: self.refresh,
            synch_address: self.synch_address,
            ss_companion: self.ss_companion,
            extra: self.extra@,
        }
    }
}

/// The synchronisation type in bits 2-3 of `bmAttributes`.
pub open spec fn sync_type_of(attributes: u8) -> SyncType {
    let v = (attributes as int / 4) % 4;
    if v == 0 {
        SyncType::NoSync
    } else if v == 1 {
        SyncType::Asynchronous
    } else if v == 2 {
        SyncType::Adaptive
    } else {
        SyncType::Synchronous
    }
}

/// The usage type in bits 4-5 of `bmAttributes`.
pub open spec fn usage_type_of(attributes: u8) -> UsageType {
    let v = (attributes as int / 16) % 4;
    if v == 0 {
        UsageType::Data
    } else if v == 1 {
        UsageType::Feedback
    } else if v == 2 {
        UsageType::Implicit
    } else {
        UsageType::Reserved
    }
}

/// Bytes per (micro)frame that a raw `wMaxPacketSize` allows.
pub open spec fn bytes_per_frame(raw: u16) -> int {
    (raw as int % 2048) * ((raw as int / 2048) % 4 + 1)
}

impl EndpointDescriptor {
    /// Endpoint number (0-15), without the direction bit.
    pub fn number(&self) -> (r: u8)
        ensures
            r == endpoint_number(self.address),
    {
        self.address % 16
    }

    /// Direction of the endpoint.
    pub fn direction(&self) -> (r: Direction)
        ensures
            r == direction_of(self.address),
    {
        Direction::from_address(self.address)
    }

    /// Transfer type of the endpoint.
    pub fn transfer_type(&self) -> (r: TransferType)
        ensures
            r == transfer_type_of(self.attributes),
    {
        TransferType::from_attributes(self.attributes)
    }

    /// Synchronisation type (meaningful for isochronous endpoints).
    pub fn sync_type(&self) -> (r: SyncType)
        ensures
            r == sync_type_of(self.attributes),
    {
        match (self.attributes / 4) % 4 {
            0 => SyncType::NoSync,
            1 => SyncType::Asynchronous,
            2 => SyncType::Adaptive,
            _ => SyncType::Synchronous,
        }
    }

    /// Usage type (meaningful for isochronous and interrupt endpoints).
    pub fn usage_type(&self) -> (r: UsageType)
        ensures
            r == usage_type_of(self.attributes),
    {
        match (self.attributes / 16) % 4 {
            0 => UsageType::Data,
            1 => UsageType::Feedback,
            2 => UsageType::Implicit,
            _ => UsageType::Reserved,
        }
    }

    /// Maximum packet size in bytes, i.e. bits 0-10 of `wMaxPacketSize`.
    pub fn packet_size(&self) -> (r: u16)
        ensures
            r == packet_bytes(self.max_packet_size),
    {
        self.max_packet_size % 2048
    }

    /// Maximum bytes per (micro)frame: packet size times the number of
    /// transactions encoded in bits 11-12 (high-speed periodic endpoints).
    pub fn max_packet_size(&self) -> (r: u32)
        ensures
            r == bytes_per_frame(self.max_packet_size),
    {
        let mult: u32 = ((self.max_packet_size / 2048) % 4) as u32 + 1;
        let size: u32 = self.packet_size() as u32;
        assert(0 <= size * mult <= 2047 * 4) by (nonlinear_arith)
            requires
                size <= 2047,
                mult <= 4,
        ;
        size * mult
    }
}

/// A single interface descriptor (one alternate setting).
#[derive(Debug, Clone, PartialEq, Eq)]
pub struct InterfaceDescriptor {
    /// `bInterfaceNumber`.
    pub number: u8,
    /// `bAlternateSetting`.
    pub alternate_setting: u8,
    /// `bNumEndpoints` as declared (the `endpoints` vector is authoritative).
    pub num_endpoints: u8,
    /// `bInterfaceClass`.
    pub class: u8,
    /// `bInterfaceSubClass`.
    pub sub_class: u8,
    /// `bInterfaceProtocol`.
    pub protocol: u8,
    /// `iInterface`: string descriptor index, 0 if none.
    pub string_index: u8,
    /// Endpoints of this alternate setting.
    pub endpoints: Vec<EndpointDescriptor>,
    /// Class- or vendor-specific descriptors following this interface.
    pub extra: Vec<u8>,
}

/// What an [`InterfaceDescriptor`] holds.
#[verifier::ext_equal]
pub struct AltView {
    pub number: u8,
    pub alternate_setting: u8,
    pub num_endpoints: u8,
    pub class: u8,
    pub sub_class: u8,
    pub protocol: u8,
    pub string_index: u8,
    pub endpoints: Seq<EndpointView>,
    pub extra: Seq<u8>,
}

/// The endpoints as mathematical values.
pub open spec fn endpoint_views(v: Seq<EndpointDescriptor>) -> Seq<EndpointView> {
    Seq::new(v.len(), |i: int| v[i]@)
}

impl View for InterfaceDescriptor {
    type V = AltView;

    open spec fn view(&self) -> AltView {
        AltView {
            number: self.number,
            alternate_setting: self.alternate_setting,
            num_endpoints: self.num_endpoints,
            class: self.class,
            sub_class: self.sub_class,
            protocol: self.protocol,
            string_index: self.string_index,
            endpoints: endpoint_views(self.endpoints@),
            extra: self.extra@,
        }
    }
}

impl InterfaceDescriptor {
    /// Finds an endpoint by address (`bEndpointAddress`, direction bit included).
    pub fn endpoint(&self, address: u8) -> (r: Option<&EndpointDescriptor>)
        ensures
            match r {
                Some(e) => exists|k: int|
                    0 <= k < self.endpoints@.len() && *e == #[trigger] self.endpoints@[k] && e.address == address
                        && forall|j: int| 0 <= j < k ==> (#[trigger] self.endpoints@[j]).address != address,
                None => forall|j: int|
                    0 <= j < self.endpoints@.len() ==> (#[trigger] self.endpoints@[j]).address != address,
            },
    {
        let mut i: usize = 0;
        while i < self.endpoints.len()
            invariant
                i <= self.endpoints@.len(),
                forall|j: int| 0 <= j < i ==> (#[trigger] self.endpoints@[j]).address != address,
            decreases self.endpoints@.len() - i,
        {
            if self.endpoints[i].address == address {
                return Some(&self.endpoints[i]);
            }
            i += 1;
        }
        None
    }
}

/// One interface number together with all its alternate settings.
#[derive(Debug, Clone, PartialEq, Eq)]
pub struct Interface {
    /// `bInterfaceNumber`.
    pub number: u8,
    /// Alternate settings in the order the device listed them. Index 0 is
    /// almost always `bAlternateSetting == 0`.
    pub alt_settings: Vec<InterfaceDescriptor>,
}

/// What an [`Interface`] holds.
#[verifier::ext_equal]
pub struct InterfaceView {
    pub number: u8,
    pub alt_settings: Seq<AltView>,
}

/// The alternate settings as mathematical values.
pub open spec fn alt_views(v: Seq<InterfaceDescriptor>) -> Seq<AltView> {
    Seq::new(v.len(), |i: int| v[i]@)
}

impl View for Interface {
    type V = InterfaceView;

    open spec fn view(&self) -> InterfaceView {
        InterfaceView { number: self.number, alt_settings: alt_views(self.alt_settings@) }
    }
}

/// The position of the first alternate setting with the given value, or
/// the number of settings if there is none.
pub open spec fn alt_position(v: Seq<InterfaceDescriptor>, value: u8) -> int
    decreases v.len(),
{
    if v.len() == 0 || v[0].alternate_setting == value {
        0
    } else {
        1 + alt_position(v.skip(1), value)
    }
}

/// The alternate setting that stands for an interface: setting 0, or the
/// first listed one when the device numbers them otherwise.
pub open spec fn main_alt(i: Interface) -> InterfaceDescriptor {
    let k = alt_position(i.alt_settings@, 0);
    if k < i.alt_settings@.len() {
        i.alt_settings@[k]
    } else {
        i.alt_settings@[0]
    }
}

proof fn lemma_alt_position(v: Seq<InterfaceDescriptor>, value: u8, k: int)
    requires
        0 <= k <= v.len(),
        forall|j: int| 0 <= j < k ==> (#[trigger] v[j]).alternate_setting != value,
        k < v.len() ==> v[k].alternate_setting == value,
    ensures
        alt_position(v, value) == k,
    decreases v.len(),
{
    if k > 0 {
        assert(v[0].alternate_setting != value);
        let w = v.skip(1);
        assert forall|j: int| 0 <= j < k - 1 implies (#[trigger] w[j]).alternate_setting != value by {
            assert(w[j] == v[j + 1]);
        }
        lemma_alt_position(w, value, k - 1);
    }
}

impl Interface {
    /// The alternate setting with the given `bAlternateSetting` value.
    pub fn alt_setting(&self, value: u8) -> (r: Option<&InterfaceDescriptor>)
        ensures
            match r {
                Some(a) => alt_position(self.alt_settings@, value) < self.alt_settings@.len()
                    && *a == self.alt_settings@[alt_position(self.alt_settings@, value)]
                    && a.alternate_setting == value,
                None => alt_position(self.alt_settings@, value) == self.alt_settings@.len() && forall|j: int|
                    0 <= j < self.alt_settings@.len() ==> (#[trigger] self.alt_settings@[j]).alternate_setting
                        != value,
            },
    {
        let mut i: usize = 0;
        while i < self.alt_settings.len()
            invariant
                i <= self.alt_settings@.len(),
                forall|j: int| 0 <= j < i ==> (#[trigger] self.alt_settings@[j]).alternate_setting != value,
            decreases self.alt_settings@.len() - i,
        {
            if self.alt_settings[i].alternate_setting == value {
                proof {
                    lemma_alt_position(self.alt_settings@, value, i as int);
                }
                return Some(&self.alt_settings[i]);
            }
            i += 1;
        }
        proof {
            lemma_alt_position(self.alt_settings@, value, i as int);
        }
        None
    }

    /// The first listed alternate setting (normally alternate setting 0).
    pub fn first(&self) -> (r: &InterfaceDescriptor)
        requires
            self.alt_settings@.len() > 0,
        ensures
            *r == self.alt_settings@[0],
    {
        &self.alt_settings[0]
    }

    /// Alternate setting 0, or the first listed one when there is none.
    pub fn main_setting(&self) -> (r: &InterfaceDescriptor)
        requires
            self.alt_settings@.len() > 0,
        ensures
            *r == main_alt(*self),
    {
        match self.alt_setting(0) {
            Some(a) => a,
            None => self.first(),
        }
    }
}

/// An interface association descriptor (USB 2.0 ECN).
#[derive(Debug, Clone, Copy, PartialEq, Eq, Hash, Structural)]
pub struct InterfaceAssociation {
    /// `bFirstInterface`.
    pub first_interface: u8,
    /// `bInterfaceCount`.
    pub interface_count: u8,
    /// `bFunctionClass`.
    pub function_class: u8,
    /// `bFunctionSubClass`.
    pub function_sub_class: u8,
    /// `bFunctionProtocol`.
    pub function_protocol: u8,
    /// `iFunction`.
    pub string_index: u8,
}

/// A parsed configuration descriptor with its interfaces and endpoints.
#[derive(Debug, Clone, PartialEq, Eq)]
pub struct ConfigDescriptor {
    /// `wTotalLength` as declared by the device.
    pub total_length: u16,
    /// `bNumInterfaces` as declared by the device.
    pub num_interfaces: u8,
    /// `bConfigurationValue`: the value to pass to `SET_CONFIGURATION`.
    pub configuration_value: u8,
    /// `iConfiguration`: string descriptor index, 0 if none.
    pub string_index: u8,
    /// `bmAttributes`.
    pub attributes: u8,
    /// `bMaxPower` in units of 2 mA (8 mA for SuperSpeed devices).
    pub max_power: u8,
    /// Interfaces, grouped by interface number with their alternate settings.
    pub interfaces: Vec<Interface>,
    /// Descriptors that follow the configuration header but precede the first
    /// interface (for example interface association descriptors).
    pub extra: Vec<u8>,
    /// The bytes that were parsed.
    pub raw: Vec<u8>,
}

/// What a [`ConfigDescriptor`] holds.
#[verifier::ext_equal]
pub struct ConfigView {
    pub total_length: u16,
    pub num_interfaces: u8,
    pub configuration_value: u8,
    pub string_index: u8,
    pub attributes: u8,
    pub max_power: u8,
    pub interfaces: Seq<InterfaceView>,
    pub extra: Seq<u8>,
    pub raw: Seq<u8>,
}

/// The interfaces as mathematical values.
pub open spec fn interface_views(v: Seq<Interface>) -> Seq<InterfaceView> {
    Seq::new(v.len(), |i: int| v[i]@)
}

impl View for ConfigDescriptor {
    type V = ConfigView;

    open spec fn view(&self) -> ConfigView {
        ConfigView {
            total_length: self.total_length,
            num_interfaces: self.num_interfaces,
            configuration_value: self.configuration_value,
            string_index: self.string_index,
            attributes: self.attributes,
            max_power: self.max_power,
            interfaces: interface_views(self.interfaces@),
            extra: self.extra@,
            raw: self.raw@,
        }
    }
}

// ----- the shape of a configuration tree ---------------------------------

/// A flat reading of a configuration tree: the descriptors before the first
/// interface, and the alternate settings in the order they were listed. The
/// last setting, and its last endpoint, are the ones still open.
#[verifier::ext_equal]
pub struct Tree {
    pub extra: Seq<u8>,
    pub alts: Seq<AltView>,
}

/// Whether `d` opens an alternate setting.
pub open spec fn opens_interface(d: Seq<u8>) -> bool {
    d[1] == descriptor_type::INTERFACE && d.len() >= 9
}

/// Whether `d` opens an endpoint of the open alternate setting.
pub open spec fn opens_endpoint(t: Tree, d: Seq<u8>) -> bool {
    d[1] == descriptor_type::ENDPOINT && d.len() >= 7 && t.alts.len() > 0
}

/// Whether an endpoint is open.
pub open spec fn endpoint_open(t: Tree) -> bool {
    t.alts.len() > 0 && t.alts.last().endpoints.len() > 0
}

/// The alternate setting that an interface descriptor opens.
pub open spec fn new_alt(d: Seq<u8>) -> AltView {
    AltView {
        number: d[2],
        alternate_setting: d[3],
        num_endpoints: d[4],
        class: d[5],
        sub_class: d[6],
        protocol: d[7],
        string_index: d[8],
        endpoints: Seq::empty(),
        extra: Seq::empty(),
    }
}

/// The endpoint that an endpoint descriptor opens.
pub open spec fn new_endpoint(d: Seq<u8>) -> EndpointView {
    EndpointView {
        address: d[2],
        attributes: d[3],
        max_packet_size: le16_at(d, 4),
        interval: d[6],
        refresh: byte_at(d, 7),
        synch_address: byte_at(d, 8),
        ss_companion: None,
        extra: Seq::empty(),
    }
}

/// An endpoint with one more descriptor attached; a SuperSpeed companion is
/// also decoded.
pub open spec fn attach_to_endpoint(e: EndpointView, d: Seq<u8>) -> EndpointView {
    EndpointView {
        ss_companion: if d[1] == descriptor_type::SS_ENDPOINT_COMPANION && d.len() >= 6 {
            Some(SsEndpointCompanion { max_burst: d[2], attributes: d[3], bytes_per_interval: le16_at(d, 4) })
        } else {
            e.ss_companion
        },
        extra: e.extra + d,
        ..e
    }
}

/// The tree after one more descriptor.
pub open spec fn absorb(t: Tree, d: Seq<u8>) -> Tree {
    if opens_interface(d) {
        Tree { alts: t.alts.push(new_alt(d)), ..t }
    } else if opens_endpoint(t, d) {
        let a = t.alts.last();
        Tree { alts: t.alts.drop_last().push(AltView { endpoints: a.endpoints.push(new_endpoint(d)), ..a }), ..t }
    } else if endpoint_open(t) {
        let a = t.alts.last();
        let e = attach_to_endpoint(a.endpoints.last(), d);
        Tree { alts: t.alts.drop_last().push(AltView { endpoints: a.endpoints.drop_last().push(e), ..a }), ..t }
    } else if t.alts.len() > 0 {
        let a = t.alts.last();
        Tree { alts: t.alts.drop_last().push(AltView { extra: a.extra + d, ..a }), ..t }
    } else {
        Tree { extra: t.extra + d, ..t }
    }
}

/// The tree that a list of descriptors builds.
pub open spec fn tree_of(ds: Seq<Seq<u8>>) -> Tree
    decreases ds.len(),
{
    if ds.len() == 0 {
        Tree { extra: Seq::empty(), alts: Seq::empty() }
    } else {
        absorb(tree_of(ds.drop_last()), ds.last())
    }
}

/// Whether one of the groups has the given interface number.
pub open spec fn has_number(groups: Seq<InterfaceView>, number: u8) -> bool {
    exists|k: int| 0 <= k < groups.len() && (#[trigger] groups[k]).number == number
}

/// The groups with one more alternate setting: added to the group of its
/// interface number, or as a new group.
pub open spec fn add_alt(groups: Seq<InterfaceView>, alt: AltView) -> Seq<InterfaceView> {
    if has_number(groups, alt.number) {
        Seq::new(
            groups.len(),
            |k: int|
                if groups[k].number == alt.number {
                    InterfaceView { alt_settings: groups[k].alt_settings.push(alt), ..groups[k] }
                } else {
                    groups[k]
                },
        )
    } else {
        groups.push(InterfaceView { number: alt.number, alt_settings: seq![alt] })
    }
}

/// Alternate settings grouped by interface number, in the order in which the
/// numbers first occur.
pub open spec fn grouped(alts: Seq<AltView>) -> Seq<InterfaceView>
    decreases alts.len(),
{
    if alts.len() == 0 {
        Seq::empty()
    } else {
        add_alt(grouped(alts.drop_last()), alts.last())
    }
}

/// How many bytes of `data` belong to the configuration: what it declares,
/// at least the header and no more than there is.
pub open spec fn config_end(data: Seq<u8>) -> int {
    let total = le16_at(data, 2) as int;
    if total < 9 {
        9
    } else if total > data.len() {
        data.len() as int
    } else {
        total
    }
}

/// The descriptors that follow the configuration header.
pub open spec fn config_body(data: Seq<u8>) -> Seq<u8> {
    if data[0] <= config_end(data) {
        data.subrange(data[0] as int, config_end(data))
    } else {
        Seq::empty()
    }
}

/// Whether `data` starts with the header of a configuration descriptor.
pub open spec fn is_config_descriptor(data: Seq<u8>) -> bool {
    data[0] >= 9 && data[1] == descriptor_type::CONFIG
}

/// The configuration that `data` describes.
pub open spec fn config_of(data: Seq<u8>) -> ConfigView {
    let tree = tree_of(walk(config_body(data)));
    ConfigView {
        total_length: le16_at(data, 2),
        num_interfaces: data[4],
        configuration_value: data[5],
        string_index: data[6],
        attributes: data[7],
        max_power: data[8],
        interfaces: grouped(tree.alts),
        extra: tree.extra,
        raw: data.take(config_end(data)),
    }
}

/// Whether the interfaces are grouped: numbers differ, every group has a
/// setting, and every setting carries its group's number.
pub open spec fn well_grouped(groups: Seq<InterfaceView>) -> bool {
    &&& forall|i: int, j: int|
        0 <= i < j < groups.len() ==> (#[trigger] groups[i]).number != (#[trigger] groups[j]).number
    &&& forall|i: int| 0 <= i < groups.len() ==> (#[trigger] groups[i]).alt_settings.len() > 0
    &&& forall|i: int, k: int|
        0 <= i < groups.len() && 0 <= k < groups[i].alt_settings.len() ==> (#[trigger] groups[i].alt_settings[k]).number
            == groups[i].number
}

/// Grouping alternate settings yields distinct interface numbers, each with
/// at least one setting, all of them its own.
pub proof fn lemma_grouped(alts: Seq<AltView>)
    ensures
        well_grouped(grouped(alts)),
    decreases alts.len(),
{
    if alts.len() > 0 {
        lemma_grouped(alts.drop_last());
        lemma_add_alt(grouped(alts.drop_last()), alts.last());
    }
}

proof fn lemma_add_alt(groups: Seq<InterfaceView>, alt: AltView)
    requires
        well_grouped(groups),
    ensures
        well_grouped(add_alt(groups, alt)),
{
    let after = add_alt(groups, alt);
    if has_number(groups, alt.number) {
        assert(after.len() == groups.len());
        assert forall|i: int| 0 <= i < after.len() implies (#[trigger] after[i]).number == groups[i].number
            && after[i].alt_settings.len() > 0 by {
            assert(groups[i].alt_settings.len() > 0);
        }
        assert forall|i: int, k: int|
            0 <= i < after.len() && 0 <= k < after[i].alt_settings.len() implies (#[trigger] after[i].alt_settings[k]).number
            == after[i].number by {
            if k < groups[i].alt_settings.len() {
                assert(after[i].alt_settings[k] == groups[i].alt_settings[k]);
            }
        }
    } else {
        assert forall|i: int, j: int| 0 <= i < j < after.len() implies (#[trigger] after[i]).number != (
        #[trigger] after[j]).number by {
            if j == groups.len() {
                assert(after[i] == groups[i]);
            } else {
                assert(after[i] == groups[i] && after[j] == groups[j]);
            }
        }
        assert forall|i: int, k: int|
            0 <= i < after.len() && 0 <= k < after[i].alt_settings.len() implies (#[trigger] after[i].alt_settings[k]).number
            == after[i].number by {
            if i < groups.len() {
                assert(after[i].alt_settings[k] == groups[i].alt_settings[k]);
            }
        }
    }
}

/// A parsed configuration has one entry per interface number, each with at
/// least one alternate setting.
pub proof fn lemma_config_is_grouped(data: Seq<u8>)
    ensures
        well_grouped(config_of(data).interfaces),
{
    lemma_grouped(tree_of(walk(config_body(data))).alts);
}

/// The alternate settings of one interface, in order.
pub open spec fn settings_numbered(alts: Seq<AltView>, number: u8) -> Seq<AltView>
    decreases alts.len(),
{
    if alts.len() == 0 {
        Seq::empty()
    } else if alts.last().number == number {
        settings_numbered(alts.drop_last(), number).push(alts.last())
    } else {
        settings_numbered(alts.drop_last(), number)
    }
}

/// The interface numbers of a list of alternate settings, each once, in the
/// order in which they first occur.
pub open spec fn first_numbers(alts: Seq<AltView>) -> Seq<u8>
    decreases alts.len(),
{
    if alts.len() == 0 {
        Seq::empty()
    } else {
        let before = first_numbers(alts.drop_last());
        if before.contains(alts.last().number) {
            before
        } else {
            before.push(alts.last().number)
        }
    }
}

/// The alternate settings of some interfaces, one interface after the other.
pub open spec fn settings_in_groups(alts: Seq<AltView>, numbers: Seq<u8>) -> Seq<AltView>
    decreases numbers.len(),
{
    if numbers.len() == 0 {
        Seq::empty()
    } else {
        settings_in_groups(alts, numbers.drop_last()) + settings_numbered(alts, numbers.last())
    }
}

/// The numbers of a list of groups.
pub open spec fn group_numbers(groups: Seq<InterfaceView>) -> Seq<u8> {
    Seq::new(groups.len(), |k: int| groups[k].number)
}

proof fn lemma_group_numbers(groups: Seq<InterfaceView>, number: u8)
    ensures
        group_numbers(groups).contains(number) == has_number(groups, number),
{
    if has_number(groups, number) {
        let k = choose|k: int| 0 <= k < groups.len() && (#[trigger] groups[k]).number == number;
        assert(group_numbers(groups)[k] == number);
    }
    if group_numbers(groups).contains(number) {
        let k = choose|k: int| 0 <= k < groups.len() && group_numbers(groups)[k] == number;
        assert(groups[k].number == number);
    }
}

/// Grouping is stable: there is one interface for every number, in the order
/// in which the numbers first occur, and its settings are all those with its
/// number, in their order.
pub proof fn lemma_grouping_is_stable(alts: Seq<AltView>)
    ensures
        group_numbers(grouped(alts)) == first_numbers(alts),
        forall|k: int|
            0 <= k < grouped(alts).len() ==> (#[trigger] grouped(alts)[k]).alt_settings == settings_numbered(
                alts,
                grouped(alts)[k].number,
            ),
        forall|n: u8| #[trigger] has_number(grouped(alts), n) <==> settings_numbered(alts, n).len() > 0,
    decreases alts.len(),
{
    let groups = grouped(alts);
    if alts.len() > 0 {
        let w = alts.drop_last();
        let alt = alts.last();
        let before = grouped(w);
        lemma_grouping_is_stable(w);
        lemma_group_numbers(before, alt.number);
        assert(has_number(before, alt.number) <==> settings_numbered(w, alt.number).len() > 0);
        assert(group_numbers(groups) =~= first_numbers(alts));
        assert forall|k: int| 0 <= k < groups.len() implies (#[trigger] groups[k]).alt_settings == settings_numbered(
            alts,
            groups[k].number,
        ) by {
            if k < before.len() {
                assert(before[k].alt_settings == settings_numbered(w, before[k].number));
                if !has_number(before, alt.number) {
                    assert(before[k].number != alt.number);
                }
            } else {
                assert(settings_numbered(w, alt.number) =~= Seq::empty());
                assert(groups[k].alt_settings =~= settings_numbered(alts, alt.number));
            }
        }
        assert forall|n: u8| #[trigger] has_number(groups, n) <==> settings_numbered(alts, n).len() > 0 by {
            assert(has_number(before, n) <==> settings_numbered(w, n).len() > 0);
            if has_number(before, n) {
                let k = choose|k: int| 0 <= k < before.len() && (#[trigger] before[k]).number == n;
                assert(groups[k].number == n);
            }
            if n == alt.number && !has_number(before, n) {
                assert(groups[before.len() as int].number == n);
            }
            if has_number(groups, n) {
                let k = choose|k: int| 0 <= k < groups.len() && (#[trigger] groups[k]).number == n;
                if k < before.len() {
                    assert(before[k].number == n);
                }
            }
        }
    }
}

proof fn lemma_flat_groups(v: Seq<Interface>, alts: Seq<AltView>)
    requires
        forall|k: int|
            0 <= k < v.len() ==> alt_views((#[trigger] v[k]).alt_settings@) == settings_numbered(alts, v[k].number),
    ensures
        alt_views(flat_alts(v)) == settings_in_groups(alts, Seq::new(v.len(), |k: int| v[k].number)),
    decreases v.len(),
{
    let ns = Seq::new(v.len(), |k: int| v[k].number);
    if v.len() > 0 {
        let w = v.drop_last();
        assert forall|k: int| 0 <= k < w.len() implies alt_views((#[trigger] w[k]).alt_settings@) == settings_numbered(
            alts,
            w[k].number,
        ) by {
            assert(w[k] == v[k]);
        }
        lemma_flat_groups(w, alts);
        assert(ns.drop_last() =~= Seq::new(w.len(), |k: int| w[k].number));
        assert(v[v.len() - 1] == v.last());
        assert(alt_views(flat_alts(v)) =~= alt_views(flat_alts(w)) + alt_views(v.last().alt_settings@));
    } else {
        assert(alt_views(flat_alts(v)) =~= settings_in_groups(alts, ns));
    }
}

/// In a parsed configuration the settings of an interface are all interface
/// descriptors with its number, in wire order, and the list of all settings
/// is the wire order grouped by interface.
pub proof fn lemma_settings_are_in_wire_order(cfg: ConfigDescriptor, data: Seq<u8>)
    requires
        cfg@ == config_of(data),
    ensures
        ({
            let alts = tree_of(walk(config_body(data))).alts;
            &&& forall|k: int|
                0 <= k < cfg.interfaces@.len() ==> alt_views((#[trigger] cfg.interfaces@[k]).alt_settings@)
                    == settings_numbered(alts, cfg.interfaces@[k].number)
            &&& alt_views(flat_alts(cfg.interfaces@)) == settings_in_groups(alts, first_numbers(alts))
        }),
{
    let alts = tree_of(walk(config_body(data))).alts;
    let v = cfg.interfaces@;
    lemma_grouping_is_stable(alts);
    assert(interface_views(v) == grouped(alts));
    assert forall|k: int| 0 <= k < v.len() implies alt_views((#[trigger] v[k]).alt_settings@) == settings_numbered(
        alts,
        v[k].number,
    ) by {
        assert(interface_views(v)[k] == v[k]@);
        assert(grouped(alts)[k].alt_settings == alt_views(v[k].alt_settings@));
    }
    lemma_flat_groups(v, alts);
    assert(Seq::new(v.len(), |k: int| v[k].number) =~= group_numbers(grouped(alts))) by {
        assert forall|k: int| 0 <= k < v.len() implies v[k].number == group_numbers(grouped(alts))[k] by {
            assert(interface_views(v)[k] == v[k]@);
        }
    }
}

// ----- nothing is lost ----------------------------------------------------

/// The extra bytes of a list of endpoints, in order.
pub open spec fn endpoint_extras(es: Seq<EndpointView>) -> Seq<u8>
    decreases es.len(),
{
    if es.len() == 0 {
        Seq::empty()
    } else {
        endpoint_extras(es.drop_last()) + es.last().extra
    }
}

/// The extra bytes of a list of alternate settings, in order.
pub open spec fn alt_extras(alts: Seq<AltView>) -> Seq<u8>
    decreases alts.len(),
{
    if alts.len() == 0 {
        Seq::empty()
    } else {
        alt_extras(alts.drop_last()) + alts.last().extra + endpoint_extras(alts.last().endpoints)
    }
}

/// The descriptors of a list that open neither an interface nor an endpoint.
pub open spec fn others(ds: Seq<Seq<u8>>) -> Seq<u8>
    decreases ds.len(),
{
    if ds.len() == 0 {
        Seq::empty()
    } else {
        let d = ds.last();
        if opens_interface(d) || opens_endpoint(tree_of(ds.drop_last()), d) {
            others(ds.drop_last())
        } else {
            others(ds.drop_last()) + d
        }
    }
}

/// Every descriptor that is not itself an interface or an endpoint is kept,
/// byte for byte and in order, in the `extra` of what encloses it.
pub proof fn lemma_extras_are_kept(ds: Seq<Seq<u8>>)
    ensures
        tree_of(ds).extra + alt_extras(tree_of(ds).alts) == others(ds),
    decreases ds.len(),
{
    let t = tree_of(ds);
    if ds.len() == 0 {
        assert(t.extra + alt_extras(t.alts) =~= others(ds));
    } else {
        lemma_extras_are_kept(ds.drop_last());
        let p = tree_of(ds.drop_last());
        let d = ds.last();
        assert(t == absorb(p, d));
        if opens_interface(d) {
            assert(t.alts.drop_last() =~= p.alts);
            assert(endpoint_extras(Seq::<EndpointView>::empty()) =~= Seq::empty());
            assert(alt_extras(t.alts) =~= alt_extras(p.alts));
        } else if opens_endpoint(p, d) {
            let a = p.alts.last();
            let b = t.alts.last();
            assert(t.alts.drop_last() =~= p.alts.drop_last());
            assert(b.endpoints.drop_last() =~= a.endpoints);
            assert(endpoint_extras(b.endpoints) =~= endpoint_extras(a.endpoints));
            assert(alt_extras(t.alts) =~= alt_extras(p.alts));
        } else if endpoint_open(p) {
            let a = p.alts.last();
            let b = t.alts.last();
            assert(t.alts.drop_last() =~= p.alts.drop_last());
            assert(b.endpoints.drop_last() =~= a.endpoints.drop_last());
            assert(endpoint_extras(b.endpoints) =~= endpoint_extras(a.endpoints) + d);
            assert(t.extra + alt_extras(t.alts) =~= p.extra + alt_extras(p.alts) + d);
        } else if p.alts.len() > 0 {
            let a = p.alts.last();
            assert(t.alts.drop_last() =~= p.alts.drop_last());
            assert(endpoint_extras(a.endpoints) =~= Seq::empty());
            assert(t.extra + alt_extras(t.alts) =~= p.extra + alt_extras(p.alts) + d);
        } else {
            assert(alt_extras(t.alts) =~= Seq::empty());
            assert(t.extra + alt_extras(t.alts) =~= p.extra + alt_extras(p.alts) + d);
        }
    }
}

// ----- executable parser --------------------------------------------------

/// Adds a descriptor to the flat tree.
fn absorb_descriptor(extra: &mut Vec<u8>, alts: &mut Vec<InterfaceDescriptor>, d: &[u8])
    requires
        d@.len() >= 2,
    ensures
        (Tree { extra: final(extra)@, alts: alt_views(final(alts)@) }) == absorb(
            Tree { extra: old(extra)@, alts: alt_views(old(alts)@) },
            d@,
        ),
{
    let ghost before = Tree { extra: extra@, alts: alt_views(alts@) };
    if d[1] == descriptor_type::INTERFACE && d.len() >= 9 {
        alts.push(
            InterfaceDescriptor {
                number: d[2],
                alternate_setting: d[3],
                num_endpoints: d[4],
                class: d[5],
                sub_class: d[6],
                protocol: d[7],
                string_index: d[8],
                endpoints: Vec::new(),
                extra: Vec::new(),
            },
        );
        assert(endpoint_views(Seq::<EndpointDescriptor>::empty()) =~= Seq::<EndpointView>::empty());
        assert(alt_views(alts@) =~= before.alts.push(new_alt(d@)));
        return ;
    }
    match alts.pop() {
        None => {
            bytes::put(extra, d);
        },
        Some(mut a) => {
            let ghost rest = alts@;
            assert(before.alts.drop_last() =~= alt_views(rest));
            assert(before.alts.last() == a@);
            if d[1] == descriptor_type::ENDPOINT && d.len() >= 7 {
                let e = EndpointDescriptor {
                    address: d[2],
                    attributes: d[3],
                    max_packet_size: le16(d, 4),
                    interval: d[6],
                    refresh: bytes::byte(d, 7),
                    synch_address: bytes::byte(d, 8),
                    ss_companion: None,
                    extra: Vec::new(),
                };
                let ghost eps = endpoint_views(a.endpoints@);
                a.endpoints.push(e);
                assert(endpoint_views(a.endpoints@) =~= eps.push(new_endpoint(d@)));
            } else {
                let ghost eps = endpoint_views(a.endpoints@);
                match a.endpoints.pop() {
                    Some(mut e) => {
                        assert(eps.drop_last() =~= endpoint_views(a.endpoints@));
                        assert(eps.last() == e@);
                        let ghost old_e = e@;
                        if d[1] == descriptor_type::SS_ENDPOINT_COMPANION && d.len() >= 6 {
                            e.ss_companion = Some(
                                SsEndpointCompanion {
                                    max_burst: d[2],
                                    attributes: d[3],
                                    bytes_per_interval: le16(d, 4),
                                },
                            );
                        }
                        bytes::put(&mut e.extra, d);
                        assert(e@ =~= attach_to_endpoint(old_e, d@));
                        a.endpoints.push(e);
                        assert(endpoint_views(a.endpoints@) =~= eps.drop_last().push(e@));
                    },
                    None => {
                        assert(endpoint_views(a.endpoints@) =~= eps);
                        bytes::put(&mut a.extra, d);
                    },
                }
            }
            alts.push(a);
            assert(alt_views(alts@) =~= alt_views(rest).push(a@));
        },
    }
}

/// Groups alternate settings by interface number.
fn group_settings(alts: Vec<InterfaceDescriptor>) -> (r: Vec<Interface>)
    ensures
        interface_views(r@) == grouped(alt_views(alts@)),
{
    let ghost all = alts@;
    let mut groups: Vec<Interface> = Vec::new();
    let mut rest: Vec<InterfaceDescriptor> = Vec::new();
    let mut alts = alts;
    // Reversed, so that settings can be taken off the end in listing order.
    while alts.len() > 0
        invariant
            rest@.len() + alts@.len() == all.len(),
            forall|i: int| 0 <= i < alts@.len() ==> alts@[i] == all[i],
            forall|i: int| 0 <= i < rest@.len() ==> rest@[i] == all[all.len() - 1 - i],
        decreases alts@.len(),
    {
        match alts.pop() {
            Some(a) => rest.push(a),
            None => {},
        }
    }
    assert(alt_views(all.take(0)) =~= Seq::<AltView>::empty());
    assert(interface_views(groups@) =~= Seq::<InterfaceView>::empty());
    let ghost mut done: int = 0;
    while rest.len() > 0
        invariant
            0 <= done <= all.len(),
            rest@.len() == all.len() - done,
            forall|i: int| 0 <= i < rest@.len() ==> rest@[i] == all[all.len() - 1 - i],
            interface_views(groups@) == grouped(alt_views(all.take(done))),
        decreases rest@.len(),
    {
        match rest.pop() {
            Some(a) => {
                let ghost before = alt_views(all.take(done));
                proof {
                    assert(a == all[done]);
                    lemma_grouped(before);
                    done = done + 1;
                    assert(alt_views(all.take(done)) =~= before.push(a@));
                    assert(before.push(a@).drop_last() =~= before);
                }
                push_interface(&mut groups, a);
            },
            None => {},
        }
    }
    assert(all.take(done) =~= all);
    groups
}

/// Adds an alternate setting to the group of its interface number, or as a
/// new group.
fn push_interface(groups: &mut Vec<Interface>, alt: InterfaceDescriptor)
    requires
        well_grouped(interface_views(old(groups)@)),
    ensures
        interface_views(final(groups)@) == add_alt(interface_views(old(groups)@), alt@),
{
    let ghost views = interface_views(groups@);
    let mut i: usize = 0;
    while i < groups.len() && groups[i].number != alt.number
        invariant
            i <= groups@.len(),
            groups@ == old(groups)@,
            views == interface_views(old(groups)@),
            forall|j: int| 0 <= j < i ==> (#[trigger] views[j]).number != alt.number,
        decreases groups@.len() - i,
    {
        assert(views[i as int].number == groups@[i as int].number);
        i += 1;
    }
    if i < groups.len() {
        let mut g = groups.remove(i);
        let ghost a = alt@;
        let ghost settings = alt_views(g.alt_settings@);
        assert(views[i as int] == g@);
        assert(has_number(views, alt.number));
        g.alt_settings.push(alt);
        assert(alt_views(g.alt_settings@) =~= settings.push(a));
        groups.insert(i, g);
        assert forall|k: int| 0 <= k < views.len() && k != i implies (#[trigger] views[k]).number != a.number by {
            assert(views[i as int].number == a.number);
        }
        assert(interface_views(groups@) =~= add_alt(views, a));
    } else {
        let number: u8 = alt.number;
        let ghost a = alt@;
        assert forall|k: int| 0 <= k < views.len() implies (#[trigger] views[k]).number != number by {}
        let mut settings: Vec<InterfaceDescriptor> = Vec::new();
        settings.push(alt);
        assert(alt_views(settings@) =~= seq![a]);
        groups.push(Interface { number, alt_settings: settings });
        assert(interface_views(groups@) =~= add_alt(views, a));
    }
}

impl ConfigDescriptor {
    /// `true` if the device is self-powered in this configuration.
    pub fn self_powered(&self) -> (r: bool)
        ensures
            r == powers_itself(self.attributes),
    {
        (self.attributes / 64) % 2 == 1
    }

    /// `true` if the device supports remote wakeup in this configuration.
    pub fn remote_wakeup(&self) -> (r: bool)
        ensures
            r == wakes_host(self.attributes),
    {
        (self.attributes / 32) % 2 == 1
    }

    /// Maximum current draw in milliamps, assuming USB 2.0 units (2 mA).
    pub fn max_power_ma(&self) -> (r: u32)
        ensures
            r == power_ma(self.max_power),
    {
        self.max_power as u32 * 2
    }

    /// The raw bytes of the whole configuration descriptor tree.
    pub fn raw(&self) -> (r: &[u8])
        ensures
            r@ == self@.raw,
    {
        self.raw.as_slice()
    }

    /// Looks up an interface by `bInterfaceNumber`.
    pub fn interface(&self, number: u8) -> (r: Option<&Interface>)
        ensures
            match r {
                Some(x) => exists|k: int|
                    0 <= k < self.interfaces@.len() && *x == #[trigger] self.interfaces@[k] && x.number == number
                        && forall|j: int| 0 <= j < k ==> (#[trigger] self.interfaces@[j]).number != number,
                None => forall|j: int|
                    0 <= j < self.interfaces@.len() ==> (#[trigger] self.interfaces@[j]).number != number,
            },
    {
        let mut i: usize = 0;
        while i < self.interfaces.len()
            invariant
                i <= self.interfaces@.len(),
                forall|j: int| 0 <= j < i ==> (#[trigger] self.interfaces@[j]).number != number,
            decreases self.interfaces@.len() - i,
        {
            if self.interfaces[i].number == number {
                return Some(&self.interfaces[i]);
            }
            i += 1;
        }
        None
    }

    /// Parses a configuration descriptor tree from its wire encoding.
    ///
    /// The slice must start with the 9-byte configuration header. Data past
    /// `wTotalLength` is ignored; a truncated tree is parsed as far as it goes.
    pub fn from_bytes(data: &[u8]) -> (r: Result<Self>)
        ensures
            data@.len() < 9 ==> r is Err && r->Err_0@ == message(
                ErrorKind::InvalidParam,
                "config descriptor too short"@,
            ),
            data@.len() >= 9 && !is_config_descriptor(data@) ==> r is Err && r->Err_0@ == message(
                ErrorKind::InvalidParam,
                "not a config descriptor"@,
            ),
            data@.len() >= 9 && is_config_descriptor(data@) ==> r is Ok && r->Ok_0@ == config_of(data@),
            r is Ok ==> r->Ok_0.wf(),
    {
        if data.len() < 9 {
            return Err(Error::with_message(ErrorKind::InvalidParam, "config descriptor too short"));
        }
        if data[0] < 9 || data[1] != descriptor_type::CONFIG {
            return Err(Error::with_message(ErrorKind::InvalidParam, "not a config descriptor"));
        }
        let total_length: u16 = le16(data, 2);
        let declared: usize = total_length as usize;
        let end: usize = if declared < 9 {
            9
        } else if declared > data.len() {
            data.len()
        } else {
            declared
        };
        let first: usize = data[0] as usize;
        let body = if first <= end {
            slice_subrange(data, first, end)
        } else {
            slice_subrange(data, 0, 0)
        };
        assert(body@ =~= config_body(data@));
        let list = class::descriptors(body);
        let ghost ds = walk(body@);
        let mut extra: Vec<u8> = Vec::new();
        let mut alts: Vec<InterfaceDescriptor> = Vec::new();
        let mut k: usize = 0;
        assert(alt_views(alts@) =~= Seq::<AltView>::empty());
        assert(ds.take(0) =~= Seq::empty());
        while k < list.len()
            invariant
                k <= list@.len(),
                list@.len() == ds.len(),
                forall|i: int|
                    #![trigger list@[i]]
                    0 <= i < list@.len() ==> list@[i].1@ == ds[i] && list@[i].1@.len() >= 2,
                (Tree { extra: extra@, alts: alt_views(alts@) }) == tree_of(ds.take(k as int)),
            decreases list@.len() - k,
        {
            let d = list[k].1;
            assert(ds.take(k + 1).drop_last() =~= ds.take(k as int));
            assert(ds.take(k + 1).last() == d@);
            absorb_descriptor(&mut extra, &mut alts, d);
            k += 1;
        }
        assert(ds.take(k as int) =~= ds);
        let ghost tree = tree_of(ds);
        let interfaces = group_settings(alts);
        let raw = bytes::copy_range(data, 0, end);
        assert(raw@ =~= data@.take(end as int));
        let cfg = ConfigDescriptor {
            total_length,
            num_interfaces: data[4],
            configuration_value: data[5],
            string_index: data[6],
            attributes: data[7],
            max_power: data[8],
            interfaces,
            extra,
            raw,
        };
        proof {
            lemma_config_is_grouped(data@);
            assert(cfg@ == config_of(data@));
            cfg.lemma_wf();
        }
        Ok(cfg)
    }

    /// Every alternate setting of every interface, in order.
    pub fn all_alt_settings(&self) -> (r: Vec<&InterfaceDescriptor>)
        ensures
            r@.len() == flat_alts(self.interfaces@).len(),
            forall|i: int| 0 <= i < r@.len() ==> *(#[trigger] r@[i]) == flat_alts(self.interfaces@)[i],
    {
        let mut out: Vec<&InterfaceDescriptor> = Vec::new();
        let mut i: usize = 0;
        assert(self.interfaces@.take(0) =~= Seq::empty());
        while i < self.interfaces.len()
            invariant
                i <= self.interfaces@.len(),
                out@.len() == flat_alts(self.interfaces@.take(i as int)).len(),
                forall|j: int|
                    0 <= j < out@.len() ==> *(#[trigger] out@[j]) == flat_alts(self.interfaces@.take(i as int))[j],
            decreases self.interfaces@.len() - i,
        {
            let ghost base = flat_alts(self.interfaces@.take(i as int));
            let alts = &self.interfaces[i].alt_settings;
            let mut k: usize = 0;
            while k < alts.len()
                invariant
                    k <= alts@.len(),
                    out@.len() == base.len() + k,
                    forall|j: int| 0 <= j < out@.len() ==> *(#[trigger] out@[j]) == (base + alts@)[j],
                decreases alts@.len() - k,
            {
                out.push(&alts[k]);
                k += 1;
            }
            assert(self.interfaces@.take(i + 1).drop_last() =~= self.interfaces@.take(i as int));
            i += 1;
        }
        assert(self.interfaces@.take(i as int) =~= self.interfaces@);
        out
    }

    /// Every endpoint of every alternate setting, in order.
    pub fn all_endpoints(&self) -> (r: Vec<&EndpointDescriptor>)
        ensures
            r@.len() == flat_endpoints(flat_alts(self.interfaces@)).len(),
            forall|i: int|
                0 <= i < r@.len() ==> *(#[trigger] r@[i]) == flat_endpoints(flat_alts(self.interfaces@))[i],
    {
        let alts = self.all_alt_settings();
        let ghost flat = flat_alts(self.interfaces@);
        let mut out: Vec<&EndpointDescriptor> = Vec::new();
        let mut i: usize = 0;
        assert(flat.take(0) =~= Seq::empty());
        while i < alts.len()
            invariant
                i <= alts@.len(),
                alts@.len() == flat.len(),
                forall|j: int| 0 <= j < alts@.len() ==> *(#[trigger] alts@[j]) == flat[j],
                out@.len() == flat_endpoints(flat.take(i as int)).len(),
                forall|j: int| 0 <= j < out@.len() ==> *(#[trigger] out@[j]) == flat_endpoints(flat.take(i as int))[j],
            decreases alts@.len() - i,
        {
            let ghost base = flat_endpoints(flat.take(i as int));
            let eps = &alts[i].endpoints;
            let mut k: usize = 0;
            while k < eps.len()
                invariant
                    k <= eps@.len(),
                    out@.len() == base.len() + k,
                    forall|j: int| 0 <= j < out@.len() ==> *(#[trigger] out@[j]) == (base + eps@)[j],
                decreases eps@.len() - k,
            {
                out.push(&eps[k]);
                k += 1;
            }
            assert(flat.take(i + 1).drop_last() =~= flat.take(i as int));
            assert(flat.take(i + 1).last() == flat[i as int]);
            i += 1;
        }
        assert(flat.take(i as int) =~= flat);
        out
    }

    /// Parses the interface association descriptors found in `extra`.
    pub fn interface_associations(&self) -> (r: Vec<InterfaceAssociation>)
        ensures
            r@ == associations(walk(self.extra@)),
    {
        let list = class::descriptors(self.extra.as_slice());
        let ghost ds = walk(self.extra@);
        let mut out: Vec<InterfaceAssociation> = Vec::new();
        let mut k: usize = 0;
        assert(ds.take(0) =~= Seq::empty());
        while k < list.len()
            invariant
                k <= list@.len(),
                list@.len() == ds.len(),
                forall|i: int|
                    #![trigger list@[i]]
                    0 <= i < list@.len() ==> list@[i].1@ == ds[i] && list@[i].0 == ds[i][1] && ds[i].len() >= 2,
                out@ == associations(ds.take(k as int)),
            decreases list@.len() - k,
        {
            let d = list[k].1;
            assert(ds.take(k + 1).drop_last() =~= ds.take(k as int));
            assert(ds.take(k + 1).last() == d@);
            if d[1] == descriptor_type::INTERFACE_ASSOCIATION && d.len() >= 8 {
                out.push(
                    InterfaceAssociation {
                        first_interface: d[2],
                        interface_count: d[3],
                        function_class: d[4],
                        function_sub_class: d[5],
                        function_protocol: d[6],
                        string_index: d[7],
                    },
                );
            }
            k += 1;
        }
        assert(ds.take(k as int) =~= ds);
        out
    }

    /// Whether every interface has an alternate setting, as every parsed
    /// configuration does.
    pub open spec fn wf(&self) -> bool {
        forall|i: int| 0 <= i < self.interfaces@.len() ==> (#[trigger] self.interfaces@[i]).alt_settings@.len() > 0
    }

    proof fn lemma_wf(&self)
        requires
            well_grouped(self@.interfaces),
        ensures
            self.wf(),
    {
        assert forall|i: int| 0 <= i < self.interfaces@.len() implies (#[trigger] self.interfaces@[i]).alt_settings@.len()
            > 0 by {
            assert(self@.interfaces[i] == self.interfaces@[i]@);
        }
    }
}

/// The alternate settings of a list of interfaces, in order.
pub open spec fn flat_alts(v: Seq<Interface>) -> Seq<InterfaceDescriptor>
    decreases v.len(),
{
    if v.len() == 0 {
        Seq::empty()
    } else {
        flat_alts(v.drop_last()) + v.last().alt_settings@
    }
}

/// The endpoints of a list of alternate settings, in order.
pub open spec fn flat_endpoints(v: Seq<InterfaceDescriptor>) -> Seq<EndpointDescriptor>
    decreases v.len(),
{
    if v.len() == 0 {
        Seq::empty()
    } else {
        flat_endpoints(v.drop_last()) + v.last().endpoints@
    }
}

/// The interface associations among a list of descriptors.
pub open spec fn associations(ds: Seq<Seq<u8>>) -> Seq<InterfaceAssociation>
    decreases ds.len(),
{
    if ds.len() == 0 {
        Seq::empty()
    } else {
        let d = ds.last();
        if d[1] == descriptor_type::INTERFACE_ASSOCIATION && d.len() >= 8 {
            associations(ds.drop_last()).push(
                InterfaceAssociation {
                    first_interface: d[2],
                    interface_count: d[3],
                    function_class: d[4],
                    function_sub_class: d[5],
                    function_protocol: d[6],
                    string_index: d[7],
                },
            )
        } else {
            associations(ds.drop_last())
        }
    }
}

// ----- string descriptors -------------------------------------------------

/// Whether `data` starts with the header of a string descriptor.
pub open spec fn is_string_descriptor(data: Seq<u8>) -> bool {
    data.len() >= 2 && data[1] == descriptor_type::STRING
}

/// The 16-bit units that a string descriptor carries: whole pairs of bytes
/// after the header, within both its declared and its actual length.
pub open spec fn string_units(data: Seq<u8>) -> Seq<u16> {
    let len = if data[0] < data.len() { data[0] as int } else { data.len() as int };
    Seq::new(((len - 2) / 2) as nat, |i: int| le16_at(data, 2 + 2 * i))
}

/// Whether a UTF-16 unit is the first half of a surrogate pair.
pub open spec fn is_high(u: u16) -> bool {
    0xd800 <= u < 0xdc00
}

/// Whether a UTF-16 unit is the second half of a surrogate pair.
pub open spec fn is_low(u: u16) -> bool {
    0xdc00 <= u < 0xe000
}

/// The text that UTF-16 units encode: a surrogate pair is one character, a
/// surrogate without its other half reads as U+FFFD, and any other unit is a
/// character of its own.
pub open spec fn utf16_lossy(units: Seq<u16>) -> Seq<char>
    decreases units.len(),
{
    if units.len() == 0 {
        Seq::empty()
    } else if units.len() > 1 && is_high(units[0]) && is_low(units[1]) {
        seq![(0x1_0000 + (units[0] - 0xd800) * 0x400 + (units[1] - 0xdc00)) as char] + utf16_lossy(units.skip(2))
    } else if is_high(units[0]) || is_low(units[0]) {
        seq!['\u{fffd}'] + utf16_lossy(units.skip(1))
    } else {
        seq![units[0] as char] + utf16_lossy(units.skip(1))
    }
}

/// Decodes UTF-16 with `String::from_utf16_lossy`, which replaces what is not
/// valid, the lone surrogates, with U+FFFD.
#[verifier::external_body]
fn from_utf16_lossy(units: &[u16]) -> (r: String)
    ensures
        r@ == utf16_lossy(units@),
{
    String::from_utf16_lossy(units)
}

/// The UTF-16 units of a string descriptor.
fn units_of(data: &[u8]) -> (r: Vec<u16>)
    requires
        is_string_descriptor(data@),
        data@[0] >= 2,
    ensures
        r@ == string_units(data@),
{
    let declared: usize = data[0] as usize;
    let len: usize = if declared < data.len() { declared } else { data.len() };
    let count: usize = (len - 2) / 2;
    let mut out: Vec<u16> = Vec::new();
    let mut i: usize = 0;
    while i < count
        invariant
            i <= count,
            2 + 2 * count <= len <= data@.len(),
            len <= 255,
            out@.len() == i,
            forall|j: int| 0 <= j < i ==> #[trigger] out@[j] == le16_at(data@, 2 + 2 * j),
        decreases count - i,
    {
        out.push(le16(data, 2 + 2 * i));
        i += 1;
    }
    assert(out@ =~= string_units(data@));
    out
}

/// Decodes a string descriptor (type 3) payload into a Rust string.
///
/// Malformed UTF-16 code units are replaced with U+FFFD. The declared length
/// of a string descriptor covers its two-byte header.
pub fn decode_string_descriptor(data: &[u8]) -> (r: Result<String>)
    requires
        is_string_descriptor(data@) ==> data@[0] >= 2,
    ensures
        !is_string_descriptor(data@) ==> r is Err && r->Err_0@ == message(
            ErrorKind::Io,
            "not a string descriptor"@,
        ),
        is_string_descriptor(data@) ==> r is Ok && r->Ok_0@ == utf16_lossy(string_units(data@)),
{
    if data.len() < 2 || data[1] != descriptor_type::STRING {
        return Err(Error::with_message(ErrorKind::Io, "not a string descriptor"));
    }
    let units = units_of(data);
    Ok(from_utf16_lossy(units.as_slice()))
}

/// Decodes the language ID table of string descriptor 0.
pub fn decode_language_ids(data: &[u8]) -> (r: Result<Vec<u16>>)
    requires
        is_string_descriptor(data@) ==> data@[0] >= 2,
    ensures
        !is_string_descriptor(data@) ==> r is Err && r->Err_0@ == message(
            ErrorKind::Io,
            "not a string descriptor"@,
        ),
        is_string_descriptor(data@) ==> r is Ok && r->Ok_0@ == string_units(data@),
{
    if data.len() < 2 || data[1] != descriptor_type::STRING {
        return Err(Error::with_message(ErrorKind::Io, "not a string descriptor"));
    }
    Ok(units_of(data))
}

/// The setting with a value is the first one that has it.
pub proof fn lemma_alt_found(v: Seq<InterfaceDescriptor>, value: u8)
    ensures
        0 <= alt_position(v, value) <= v.len(),
        alt_position(v, value) < v.len() ==> v[alt_position(v, value)].alternate_setting == value,
        forall|j: int| 0 <= j < alt_position(v, value) ==> (#[trigger] v[j]).alternate_setting != value,
    decreases v.len(),
{
    if v.len() > 0 && v[0].alternate_setting != value {
        let w = v.skip(1);
        lemma_alt_found(w, value);
        let k = alt_position(v, value);
        if k < v.len() {
            assert(w[k - 1] == v[k]);
        }
        assert forall|j: int| 0 <= j < k implies (#[trigger] v[j]).alternate_setting != value by {
            if j > 0 {
                assert(w[j - 1] == v[j]);
            }
        }
    }
}

/// Where the fields of a device descriptor are.
pub proof fn lemma_device_layout(b: Seq<u8>)
    requires
        b.len() >= 18,
    ensures
        is_device_descriptor(b) <==> b[0] >= 18 && b[1] == 1,
        ({
            let d = device_of(b);
            &&& d.usb_version.0 == b[2] + 256 * b[3]
            &&& (d.class, d.sub_class, d.protocol, d.max_packet_size_0) == (b[4], b[5], b[6], b[7])
            &&& d.vendor_id == b[8] + 256 * b[9]
            &&& d.product_id == b[10] + 256 * b[11]
            &&& d.device_version.0 == b[12] + 256 * b[13]
            &&& d.manufacturer_string_index == b[14]
            &&& d.product_string_index == b[15]
            &&& d.serial_number_string_index == b[16]
            &&& d.num_configurations == b[17]
        }),
{
}

/// An interface descriptor opens a new setting, with what its bytes say and
/// nothing in it yet, and leaves those before it as they are.
pub proof fn lemma_interface_descriptor_opens(ds: Seq<Seq<u8>>, d: Seq<u8>)
    requires
        d.len() >= 9,
        d[1] == 4,
    ensures
        ({
            let before = tree_of(ds);
            let after = tree_of(ds.push(d));
            let a = after.alts.last();
            &&& after.extra == before.extra
            &&& after.alts.len() == before.alts.len() + 1
            &&& after.alts.drop_last() == before.alts
            &&& (a.number, a.alternate_setting, a.num_endpoints) == (d[2], d[3], d[4])
            &&& (a.class, a.sub_class, a.protocol, a.string_index) == (d[5], d[6], d[7], d[8])
            &&& a.endpoints.len() == 0
            &&& a.extra.len() == 0
        }),
{
    assert(ds.push(d).drop_last() =~= ds);
    assert(tree_of(ds.push(d)).alts.drop_last() =~= tree_of(ds).alts);
}

/// An endpoint descriptor adds an endpoint to the setting that was opened
/// last, with what its bytes say, and changes nothing else.
pub proof fn lemma_endpoint_descriptor_opens(ds: Seq<Seq<u8>>, d: Seq<u8>)
    requires
        d.len() >= 7,
        d[1] == 5,
        tree_of(ds).alts.len() > 0,
    ensures
        ({
            let before = tree_of(ds);
            let after = tree_of(ds.push(d));
            let a = before.alts.last();
            let b = after.alts.last();
            let e = b.endpoints.last();
            &&& after.extra == before.extra
            &&& after.alts.len() == before.alts.len()
            &&& after.alts.drop_last() == before.alts.drop_last()
            &&& b == (AltView { endpoints: b.endpoints, ..a })
            &&& b.endpoints.len() == a.endpoints.len() + 1
            &&& b.endpoints.drop_last() == a.endpoints
            &&& (e.address, e.attributes, e.interval) == (d[2], d[3], d[6])
            &&& e.max_packet_size == d[4] + 256 * d[5]
            &&& d.len() >= 9 ==> (e.refresh, e.synch_address) == (d[7], d[8])
            &&& d.len() == 7 ==> (e.refresh, e.synch_address) == (0u8, 0u8)
            &&& e.ss_companion is None
            &&& e.extra.len() == 0
        }),
{
    assert(ds.push(d).drop_last() =~= ds);
    let before = tree_of(ds);
    let after = tree_of(ds.push(d));
    assert(after.alts.drop_last() =~= before.alts.drop_last());
    assert(after.alts.last().endpoints.drop_last() =~= before.alts.last().endpoints);
}

/// Any other descriptor is kept, byte for byte, behind what was there, where
/// the last one that opened something left off; a SuperSpeed companion is
/// decoded on top.
pub proof fn lemma_other_descriptors_are_attached(ds: Seq<Seq<u8>>, d: Seq<u8>)
    requires
        d.len() >= 2,
        !(d[1] == 4 && d.len() >= 9),
        !(d[1] == 5 && d.len() >= 7),
    ensures
        ({
            let before = tree_of(ds);
            let after = tree_of(ds.push(d));
            if before.alts.len() == 0 {
                after.extra == before.extra + d && after.alts == before.alts
            } else {
                let a = before.alts.last();
                let b = after.alts.last();
                &&& after.extra == before.extra
                &&& after.alts.len() == before.alts.len()
                &&& after.alts.drop_last() == before.alts.drop_last()
                &&& if a.endpoints.len() == 0 {
                    b == (AltView { extra: a.extra + d, ..a })
                } else {
                    let e = a.endpoints.last();
                    let f = b.endpoints.last();
                    &&& b == (AltView { endpoints: b.endpoints, ..a })
                    &&& b.endpoints.len() == a.endpoints.len()
                    &&& b.endpoints.drop_last() == a.endpoints.drop_last()
                    &&& f == (EndpointView { extra: e.extra + d, ss_companion: f.ss_companion, ..e })
                    &&& d[1] == 0x30 && d.len() >= 6 ==> f.ss_companion is Some && f.ss_companion->0.max_burst == d[2]
                        && f.ss_companion->0.attributes == d[3] && f.ss_companion->0.bytes_per_interval == d[4] + 256
                        * d[5]
                    &&& !(d[1] == 0x30 && d.len() >= 6) ==> f.ss_companion == e.ss_companion
                }
            }
        }),
{
    assert(ds.push(d).drop_last() =~= ds);
    let before = tree_of(ds);
    let after = tree_of(ds.push(d));
    if before.alts.len() > 0 {
        assert(after.alts.drop_last() =~= before.alts.drop_last());
        if before.alts.last().endpoints.len() > 0 {
            assert(after.alts.last().endpoints.drop_last() =~= before.alts.last().endpoints.drop_last());
        }
    }
}

/// No descriptors, nothing opened.
pub proof fn lemma_empty_tree()
    ensures
        tree_of(Seq::empty()).alts.len() == 0,
        tree_of(Seq::empty()).extra.len() == 0,
        grouped(Seq::empty()).len() == 0,
{
}

/// A configuration is what its header says, and the descriptors from the
/// header's length up to the declared length, or to the end if there are
/// fewer bytes.
pub proof fn lemma_config_layout(data: Seq<u8>)
    requires
        data.len() >= 9,
    ensures
        is_config_descriptor(data) <==> data[0] >= 9 && data[1] == 2,
        ({
            let c = config_of(data);
            let total = data[2] + 256 * data[3];
            &&& c.total_length == total
            &&& c.num_interfaces == data[4]
            &&& c.configuration_value == data[5]
            &&& c.string_index == data[6]
            &&& c.attributes == data[7]
            &&& c.max_power == data[8]
            &&& 9 <= total <= data.len() ==> c.raw == data.take(total)
            &&& total > data.len() ==> c.raw == data
            &&& data[0] <= c.raw.len() ==> c.interfaces == grouped(tree_of(walk(c.raw.skip(data[0] as int))).alts)
                && c.extra == tree_of(walk(c.raw.skip(data[0] as int))).extra
        }),
{
    let total = data[2] + 256 * data[3];
    let c = config_of(data);
    if total > data.len() {
        assert(c.raw =~= data);
    }
    if data[0] <= c.raw.len() {
        assert(c.raw.skip(data[0] as int) =~= config_body(data));
    }
}

/// The size of a packet is in the eleven lowest bits of the field, and the
/// additional ones per microframe are in the two above.
pub proof fn lemma_bytes_per_frame(size: int, additional: int)
    requires
        0 <= size < 2048,
        0 <= additional <= 3,
    ensures
        bytes_per_frame((size + 2048 * additional) as u16) == size * (additional + 1),
{
    assert((size + 2048 * additional) as u16 as int == size + 2048 * additional);
}

/// The synchronisation of an isochronous endpoint is in bits 2 and 3 of its
/// attributes, its use in bits 4 and 5.
pub proof fn lemma_isochronous_attributes(kind: int, sync: int, usage: int)
    requires
        0 <= kind <= 3,
        0 <= sync <= 3,
        0 <= usage <= 3,
    ensures
        ({
            let a = (kind + 4 * sync + 16 * usage) as u8;
            &&& sync_type_of(a) == SyncType::NoSync <==> sync == 0
            &&& sync_type_of(a) == SyncType::Asynchronous <==> sync == 1
            &&& sync_type_of(a) == SyncType::Adaptive <==> sync == 2
            &&& sync_type_of(a) == SyncType::Synchronous <==> sync == 3
            &&& usage_type_of(a) == UsageType::Data <==> usage == 0
            &&& usage_type_of(a) == UsageType::Feedback <==> usage == 1
            &&& usage_type_of(a) == UsageType::Implicit <==> usage == 2
            &&& usage_type_of(a) == UsageType::Reserved <==> usage == 3
        }),
{
}

/// The interface associations are the descriptors of that type, in order,
/// with what their bytes say.
pub proof fn lemma_associations(ds: Seq<Seq<u8>>, d: Seq<u8>)
    requires
        d.len() >= 2,
    ensures
        associations(Seq::empty()).len() == 0,
        !(d[1] == 0x0b && d.len() >= 8) ==> associations(ds.push(d)) == associations(ds),
        d[1] == 0x0b && d.len() >= 8 ==> ({
            let v = associations(ds.push(d));
            let a = v.last();
            &&& v.drop_last() == associations(ds)
            &&& v.len() == associations(ds).len() + 1
            &&& (a.first_interface, a.interface_count) == (d[2], d[3])
            &&& (a.function_class, a.function_sub_class, a.function_protocol) == (d[4], d[5], d[6])
            &&& a.string_index == d[7]
        }),
{
    assert(ds.push(d).drop_last() =~= ds);
    if d[1] == 0x0b && d.len() >= 8 {
        assert(associations(ds.push(d)).drop_last() =~= associations(ds));
    }
}

/// A string descriptor carries the pairs of bytes behind its header, low byte
/// first, up to its declared length.
pub proof fn lemma_string_layout(data: Seq<u8>, i: int)
    requires
        data.len() >= 2,
        data[0] >= 2,
        data[0] <= data.len(),
    ensures
        is_string_descriptor(data) <==> data[1] == 3,
        string_units(data).len() == (data[0] - 2) / 2,
        0 <= i < (data[0] - 2) / 2 ==> string_units(data)[i] == data[2 + 2 * i] + 256 * data[3 + 2 * i],
{
}

/// Text outside the surrogates is encoded unit by unit, and a pair of
/// surrogates is the one character it stands for; decoding goes from left to
/// right.
pub proof fn lemma_utf16(u: u16, high: int, low: int, rest: Seq<u16>)
    requires
        u < 0xd800 || u >= 0xe000,
        0 <= high < 0x400,
        0 <= low < 0x400,
    ensures
        utf16_lossy(Seq::empty()).len() == 0,
        utf16_lossy(seq![u] + rest) == seq![u as char] + utf16_lossy(rest),
        utf16_lossy(seq![(0xd800 + high) as u16, (0xdc00 + low) as u16] + rest) == seq![
            (0x1_0000 + 0x400 * high + low) as char,
        ] + utf16_lossy(rest),
        utf16_lossy(seq![(0xdc00 + low) as u16] + rest) == seq!['\u{fffd}'] + utf16_lossy(rest),
{
    let h = (0xd800 + high) as u16;
    let l = (0xdc00 + low) as u16;
    assert((seq![u] + rest).skip(1) =~= rest);
    assert((seq![l] + rest).skip(1) =~= rest);
    assert((seq![h, l] + rest).skip(2) =~= rest);
    assert((seq![h, l] + rest)[0] == h && (seq![h, l] + rest)[1] == l);
    assert((seq![l] + rest)[0] == l);
    assert((seq![u] + rest)[0] == u);
}

/// Whether a descriptor is that of an interface of the given class.
pub open spec fn declares_class(d: Seq<u8>, class: u8) -> bool {
    d.len() >= 9 && d[1] == 4 && d[5] == class
}

/// The classes of the settings in a tree are those of the interface
/// descriptors that built it.
pub proof fn lemma_setting_classes(ds: Seq<Seq<u8>>, class: u8)
    ensures
        (exists|k: int| 0 <= k < tree_of(ds).alts.len() && (#[trigger] tree_of(ds).alts[k]).class == class) <==> (
        exists|k: int| 0 <= k < ds.len() && declares_class(#[trigger] ds[k], class)),
    decreases ds.len(),
{
    if ds.len() > 0 {
        let w = ds.drop_last();
        let d = ds.last();
        let before = tree_of(w).alts;
        let after = tree_of(ds).alts;
        lemma_setting_classes(w, class);
        assert forall|k: int| 0 <= k < before.len() implies (#[trigger] after[k]).class == before[k].class by {
        }
        if exists|k: int| 0 <= k < ds.len() && declares_class(#[trigger] ds[k], class) {
            let k = choose|k: int| 0 <= k < ds.len() && declares_class(#[trigger] ds[k], class);
            if k < w.len() {
                assert(declares_class(w[k], class));
                let j = choose|j: int| 0 <= j < before.len() && (#[trigger] before[j]).class == class;
                assert(after[j].class == class);
            } else {
                assert(after[before.len() as int].class == class);
            }
        }
        if exists|k: int| 0 <= k < after.len() && (#[trigger] after[k]).class == class {
            let k = choose|k: int| 0 <= k < after.len() && (#[trigger] after[k]).class == class;
            if k < before.len() {
                assert(before[k].class == class);
                let j = choose|j: int| 0 <= j < w.len() && declares_class(#[trigger] w[j], class);
                assert(declares_class(ds[j], class));
            } else {
                assert(declares_class(ds[ds.len() - 1], class));
            }
        }
    }
}

/// Grouping loses no setting and adds none.
pub proof fn lemma_grouping_keeps_settings(alts: Seq<AltView>, a: AltView)
    ensures
        (exists|i: int, k: int|
            0 <= i < grouped(alts).len() && 0 <= k < grouped(alts)[i].alt_settings.len() && (
            #[trigger] grouped(alts)[i].alt_settings[k]) == a) <==> alts.contains(a),
    decreases alts.len(),
{
    if alts.len() > 0 {
        let w = alts.drop_last();
        let last = alts.last();
        let before = grouped(w);
        let after = grouped(alts);
        lemma_grouping_keeps_settings(w, a);
        if alts.contains(a) && a != last {
            let j = choose|j: int| 0 <= j < alts.len() && alts[j] == a;
            assert(w[j] == a);
            assert(w.contains(a));
            let (i, k) = choose|i: int, k: int|
                0 <= i < before.len() && 0 <= k < before[i].alt_settings.len() && (
                #[trigger] before[i].alt_settings[k]) == a;
            assert(after[i].alt_settings[k] == a);
        }
        if last == a {
            assert(alts[alts.len() - 1] == a);
            if has_number(before, a.number) {
                let i = choose|i: int| 0 <= i < before.len() && (#[trigger] before[i]).number == a.number;
                assert(after[i].alt_settings[before[i].alt_settings.len() as int] == a);
            } else {
                assert(after[before.len() as int].alt_settings[0] == a);
            }
        }
        if exists|i: int, k: int|
            0 <= i < after.len() && 0 <= k < after[i].alt_settings.len() && (#[trigger] after[i].alt_settings[k]) == a {
            let (i, k) = choose|i: int, k: int|
                0 <= i < after.len() && 0 <= k < after[i].alt_settings.len() && (
                #[trigger] after[i].alt_settings[k]) == a;
            if i < before.len() && k < before[i].alt_settings.len() {
                assert(before[i].alt_settings[k] == a);
                let j = choose|j: int| 0 <= j < w.len() && w[j] == a;
                assert(alts[j] == a);
            } else {
                assert(alts[alts.len() - 1] == a);
            }
        }
    }
}

/// The settings of an interface are those with its number, in order: one more
/// with it comes last, one with another number changes nothing. A number that
/// is new comes last too.
pub proof fn lemma_settings_numbered(alts: Seq<AltView>, a: AltView, number: u8)
    ensures
        settings_numbered(Seq::empty(), number).len() == 0,
        a.number == number ==> settings_numbered(alts.push(a), number) == settings_numbered(alts, number).push(a),
        a.number != number ==> settings_numbered(alts.push(a), number) == settings_numbered(alts, number),
        first_numbers(Seq::empty()).len() == 0,
        first_numbers(alts).contains(a.number) ==> first_numbers(alts.push(a)) == first_numbers(alts),
        !first_numbers(alts).contains(a.number) ==> first_numbers(alts.push(a)) == first_numbers(alts).push(a.number),
{
    assert(alts.push(a).drop_last() =~= alts);
}

/// What a frame carries at most is never negative and fits two bytes.
pub proof fn lemma_frame_bound(raw: u16)
    ensures
        0 <= bytes_per_frame(raw) <= 0xffff,
{
    let size = raw as int % 2048;
    let count = bytes_per_frame(raw);
    let times = (raw as int / 2048) % 4 + 1;
    assert(count == size * times);
    assert(0 <= size * times <= 2047 * 4) by (nonlinear_arith)
        requires
            0 <= size <= 2047,
            1 <= times <= 4,
    ;
}

/// The number in an endpoint address.
pub open spec fn endpoint_number(address: u8) -> u8 {
    address % 16
}

/// The packet size in an endpoint's field for it.
pub open spec fn packet_bytes(raw: u16) -> u16 {
    raw % 2048
}

/// Whether a configuration with those attributes has its own power.
pub open spec fn powers_itself(attributes: u8) -> bool {
    (attributes / 64) % 2 == 1
}

/// Whether a configuration with those attributes can wake the host.
pub open spec fn wakes_host(attributes: u8) -> bool {
    (attributes / 32) % 2 == 1
}

/// The current that a configuration draws, in mA.
pub open spec fn power_ma(units: u8) -> int {
    2 * units
}

/// An endpoint's number is in the four lowest bits of its address and its
/// packet size in the eleven lowest of its field; bit 6 of the attributes means
/// own power, bit 5 wake-up, and the current is given in units of 2 mA.
pub proof fn lemma_descriptor_bits(number: u8, input: bool, size: u16, more: u16, attributes: u8, units: u8)
    requires
        number < 16,
        size < 2048,
        more < 32,
    ensures
        endpoint_number((number + (if input { 128int } else { 0 })) as u8) == number,
        packet_bytes((size + 2048 * more) as u16) == size,
        powers_itself(attributes) <==> attributes & 0x40 != 0,
        wakes_host(attributes) <==> attributes & 0x20 != 0,
        power_ma(units) == units + units,
{
    assert(attributes & 0x40 != 0 <==> (attributes / 64) % 2 == 1) by (bit_vector);
    assert(attributes & 0x20 != 0 <==> (attributes / 32) % 2 == 1) by (bit_vector);
}

/// All settings are those of the interfaces one after the other, and all
/// endpoints those of the settings.
pub proof fn lemma_flat_lists(v: Seq<Interface>, i: Interface, alts: Seq<InterfaceDescriptor>, a: InterfaceDescriptor)
    ensures
        flat_alts(Seq::empty()).len() == 0,
        flat_alts(v.push(i)) == flat_alts(v) + i.alt_settings@,
        flat_endpoints(Seq::empty()).len() == 0,
        flat_endpoints(alts.push(a)) == flat_endpoints(alts) + a.endpoints@,
{
    assert(v.push(i).drop_last() =~= v);
    assert(alts.push(a).drop_last() =~= alts);
}

/// A device descriptor that is written out has its fields where they are read.
pub proof fn lemma_device_bytes_layout(d: DeviceDescriptor)
    ensures
        ({
            let b = device_bytes(d);
            &&& b.len() == 18
            &&& (b[0], b[1]) == (18u8, 1u8)
            &&& b[2] + 256 * b[3] == d.usb_version.0
            &&& (b[4], b[5], b[6], b[7]) == (d.class, d.sub_class, d.protocol, d.max_packet_size_0)
            &&& b[8] + 256 * b[9] == d.vendor_id
            &&& b[10] + 256 * b[11] == d.product_id
            &&& b[12] + 256 * b[13] == d.device_version.0
            &&& (b[14], b[15]) == (d.manufacturer_string_index, d.product_string_index)
            &&& (b[16], b[17]) == (d.serial_number_string_index, d.num_configurations)
        }),
{
}

/// An endpoint descriptor of eight bytes ends with the refresh rate.
pub proof fn lemma_endpoint_without_synch(d: Seq<u8>)
    requires
        d.len() == 8,
    ensures
        new_endpoint(d).refresh == d[7],
        new_endpoint(d).synch_address == 0,
{
}

/// The first half of a pair without a second reads as the replacement
/// character, and what follows is read by itself.
pub proof fn lemma_lone_surrogates(high: int, u: u16, rest: Seq<u16>)
    requires
        0 <= high < 0x400,
        u < 0xdc00 || u >= 0xe000,
    ensures
        utf16_lossy(seq![(0xd800 + high) as u16]) == seq!['\u{fffd}'],
        utf16_lossy(seq![(0xd800 + high) as u16, u] + rest) == seq!['\u{fffd}'] + utf16_lossy(seq![u] + rest),
{
    let h = (0xd800 + high) as u16;
    let a = seq![h];
    let b = seq![h, u] + rest;
    assert(a.skip(1) =~= Seq::<u16>::empty());
    assert(utf16_lossy(a) =~= seq!['\u{fffd}'] + utf16_lossy(a.skip(1)));
    assert(b.skip(1) =~= seq![u] + rest);
    assert(b[0] == h && b[1] == u);
}

} // verus!
