//! Human Interface Devices (HID 1.11): keyboards, mice, game controllers,
//! FIDO tokens, UPS and PSU telemetry, vendor HID gadgets.
//!
//! [`HidDevice`] describes an open HID interface and forms the requests that
//! exchange reports the way hidapi does: the first byte of every report you
//! *send* is its report ID (0 when the device does not use IDs, in which case
//! it is not transmitted), and reports you *read* start with their ID byte
//! only when the device uses IDs. [`ReportDescriptor`] parses the report
//! descriptor so that fields can be decoded without hard-coding offsets.

use crate::bytes::{le16, le16_at};
use crate::class::{self, first_endpoint, settings, settings_where, walk};
use crate::descriptors::{bytes_per_frame, ConfigDescriptor, EndpointDescriptor, InterfaceDescriptor};
use crate::error::{message, outcome, Error, ErrorKind, ErrorView, Result};
use crate::types::{
    descriptor_type, request, setup_packet, ControlSetup, ControlType, Direction, Recipient, TransferType, Version,
};
use report::{ids_of, payload_len, ReportDescriptor, ReportDescriptorView, ReportSize};
use vstd::prelude::*;
use vstd::slice::slice_subrange;

pub mod report;
pub mod req;

verus! {

/// How long reading the report descriptor may take: 1 s.
pub const OPEN_TIMEOUT: u64 = 1_000_000_000;

/// The three report types.
#[derive(Debug, Clone, Copy, PartialEq, Eq, Hash, Structural)]
pub enum ReportType {
    /// Device to host, normally over the interrupt IN endpoint.
    Input,
    /// Host to device, over the interrupt OUT endpoint if there is one.
    Output,
    /// Configuration or status, over the control endpoint in either direction.
    Feature,
}

/// The number of a report type.
pub open spec fn report_code(kind: ReportType) -> u8 {
    match kind {
        ReportType::Input => 1,
        ReportType::Output => 2,
        ReportType::Feature => 3,
    }
}

impl ReportType {
    /// The value used in the high byte of `wValue` by GET_REPORT/SET_REPORT.
    pub fn code(self) -> (r: u8)
        ensures
            r == report_code(self),
    {
        match self {
            ReportType::Input => 1,
            ReportType::Output => 2,
            ReportType::Feature => 3,
        }
    }
}

/// The protocol a boot-capable device speaks (HID 1.11 §7.2.5).
#[derive(Debug, Clone, Copy, PartialEq, Eq, Hash, Structural)]
pub enum Protocol {
    /// The fixed boot keyboard / mouse report format.
    Boot,
    /// The format described by the report descriptor (the default).
    Report,
}

/// Boot interface kind, from `bInterfaceProtocol` of a boot-subclass interface.
#[derive(Debug, Clone, Copy, PartialEq, Eq, Hash, Structural)]
pub enum BootDevice {
    /// Boot keyboard.
    Keyboard,
    /// Boot mouse.
    Mouse,
}

/// The HID class descriptor (type 0x21) that follows a HID interface.
#[derive(Debug, Clone, PartialEq, Eq)]
pub struct HidDescriptor {
    /// `bcdHID`: HID specification release.
    pub hid_version: Version,
    /// `bCountryCode`: 0 unless the hardware is localised (keyboards).
    pub country_code: u8,
    /// `(bDescriptorType, wDescriptorLength)` of each class descriptor; the
    /// report descriptor (type 0x22) is always among them.
    pub descriptors: Vec<(u8, u16)>,
}

/// What a [`HidDescriptor`] holds.
#[verifier::ext_equal]
pub struct HidDescriptorView {
    pub hid_version: Version,
    pub country_code: u8,
    pub descriptors: Seq<(u8, u16)>,
}

impl View for HidDescriptor {
    type V = HidDescriptorView;

    open spec fn view(&self) -> HidDescriptorView {
        HidDescriptorView {
            hid_version: self.hid_version,
            country_code: self.country_code,
            descriptors: self.descriptors@,
        }
    }
}

/// Whether bytes are a HID descriptor.
pub open spec fn is_hid_descriptor(b: Seq<u8>) -> bool {
    b.len() >= 6 && b[1] == descriptor_type::HID
}

/// How many class descriptors are listed: as many as declared, or as fit.
pub open spec fn listed(b: Seq<u8>) -> int {
    if b[5] as int <= (b.len() - 6) / 3 {
        b[5] as int
    } else {
        (b.len() - 6) / 3
    }
}

/// What a HID descriptor says.
pub open spec fn hid_of(b: Seq<u8>) -> HidDescriptorView {
    HidDescriptorView {
        hid_version: Version(le16_at(b, 2)),
        country_code: b[4],
        descriptors: Seq::new(listed(b) as nat, |i: int| (b[6 + 3 * i], le16_at(b, 7 + 3 * i))),
    }
}

/// The length of the first report descriptor in a list.
pub open spec fn report_length(v: Seq<(u8, u16)>) -> Option<u16>
    decreases v.len(),
{
    if v.len() == 0 {
        None
    } else if v[0].0 == descriptor_type::HID_REPORT {
        Some(v[0].1)
    } else {
        report_length(v.skip(1))
    }
}

/// The first HID descriptor in a list.
pub open spec fn first_hid(ds: Seq<Seq<u8>>) -> Option<Seq<u8>>
    decreases ds.len(),
{
    if ds.len() == 0 {
        None
    } else if ds[0][1] == descriptor_type::HID {
        Some(ds[0])
    } else {
        first_hid(ds.skip(1))
    }
}

/// The first HID descriptor after a list of endpoints.
pub open spec fn first_hid_after(es: Seq<EndpointDescriptor>) -> Option<Seq<u8>>
    decreases es.len(),
{
    if es.len() == 0 {
        None
    } else {
        match first_hid(walk(es[0].extra@)) {
            Some(d) => Some(d),
            None => first_hid_after(es.skip(1)),
        }
    }
}

/// The HID descriptor of an interface: the first one after it or, failing
/// that, after its endpoints, if it is well formed.
pub open spec fn interface_hid(a: InterfaceDescriptor) -> Option<HidDescriptorView> {
    let d = match first_hid(walk(a.extra@)) {
        Some(d) => Some(d),
        None => first_hid_after(a.endpoints@),
    };
    match d {
        Some(b) => if is_hid_descriptor(b) {
            Some(hid_of(b))
        } else {
            None
        },
        None => None,
    }
}

fn find_hid(extra: &[u8]) -> (r: Option<&[u8]>)
    ensures
        match first_hid(walk(extra@)) {
            Some(d) => r is Some && r->0@ == d,
            None => r is None,
        },
{
    let list = class::descriptors(extra);
    let ghost ds = walk(extra@);
    let mut i: usize = 0;
    assert(ds.skip(0) =~= ds);
    while i < list.len()
        invariant
            i <= list@.len(),
            list@.len() == ds.len(),
            ds == walk(extra@),
            forall|j: int|
                #![trigger list@[j]]
                0 <= j < list@.len() ==> list@[j].1@ == ds[j] && list@[j].0 == ds[j][1] && list@[j].1@.len() >= 2,
            first_hid(ds) == first_hid(ds.skip(i as int)),
        decreases list@.len() - i,
    {
        assert(ds.skip(i as int)[0] == ds[i as int]);
        if list[i].0 == descriptor_type::HID {
            return Some(list[i].1);
        }
        assert(ds.skip(i as int).skip(1) =~= ds.skip(i + 1));
        i += 1;
    }
    None
}

impl HidDescriptor {
    /// Parses the HID descriptor from its wire encoding.
    pub fn from_bytes(b: &[u8]) -> (r: Result<HidDescriptor>)
        ensures
            is_hid_descriptor(b@) ==> r is Ok && r->Ok_0@ == hid_of(b@),
            !is_hid_descriptor(b@) ==> r is Err && r->Err_0@ == message(
                ErrorKind::InvalidParam,
                "not a HID descriptor"@,
            ),
    {
        if b.len() < 6 || b[1] != descriptor_type::HID {
            return Err(Error::with_message(ErrorKind::InvalidParam, "not a HID descriptor"));
        }
        let fit: usize = (b.len() - 6) / 3;
        let count: usize = if b[5] as usize <= fit {
            b[5] as usize
        } else {
            fit
        };
        let mut descriptors: Vec<(u8, u16)> = Vec::new();
        let mut i: usize = 0;
        while i < count
            invariant
                i <= count,
                b@.len() >= 6,
                count == listed(b@),
                6 + 3 * count <= b@.len(),
                descriptors@ =~= hid_of(b@).descriptors.take(i as int),
            decreases count - i,
        {
            let at: usize = 6 + 3 * i;
            descriptors.push((b[at], le16(b, at + 1)));
            i += 1;
        }
        Ok(HidDescriptor { hid_version: Version(le16(b, 2)), country_code: b[4], descriptors })
    }

    /// Length of the report descriptor, as declared.
    pub fn report_descriptor_length(&self) -> (r: Option<u16>)
        ensures
            r == report_length(self@.descriptors),
    {
        let ghost v = self.descriptors@;
        let mut i: usize = 0;
        assert(v.skip(0) =~= v);
        while i < self.descriptors.len()
            invariant
                i <= self.descriptors@.len(),
                v == self.descriptors@,
                report_length(v) == report_length(v.skip(i as int)),
            decreases self.descriptors@.len() - i,
        {
            assert(v.skip(i as int)[0] == v[i as int]);
            if self.descriptors[i].0 == descriptor_type::HID_REPORT {
                return Some(self.descriptors[i].1);
            }
            assert(v.skip(i as int).skip(1) =~= v.skip(i + 1));
            i += 1;
        }
        None
    }

    /// Finds the HID descriptor among an interface's class-specific
    /// descriptors (or, for a few old devices, after its endpoints).
    pub fn of_interface(iface: &InterfaceDescriptor) -> (r: Option<HidDescriptor>)
        ensures
            match interface_hid(*iface) {
                Some(h) => r is Some && r->0@ == h,
                None => r is None,
            },
    {
        let mut found = find_hid(iface.extra.as_slice());
        let ghost es = iface.endpoints@;
        let ghost own = first_hid(walk(iface.extra@));
        let mut i: usize = 0;
        assert(es.skip(0) =~= es);
        while i < iface.endpoints.len() && found.is_none()
            invariant
                i <= iface.endpoints@.len(),
                es == iface.endpoints@,
                own is Some ==> found is Some && found->0@ == own->0,
                own is None ==> match found {
                    Some(d) => first_hid_after(es) == Some(d@),
                    None => first_hid_after(es) == first_hid_after(es.skip(i as int)),
                },
            decreases iface.endpoints@.len() - i,
        {
            assert(es.skip(i as int)[0] == es[i as int]);
            assert(es.skip(i as int).skip(1) =~= es.skip(i + 1));
            found = find_hid(iface.endpoints[i].extra.as_slice());
            i += 1;
        }
        match found {
            Some(d) => match HidDescriptor::from_bytes(d) {
                Ok(h) => Some(h),
                Err(_) => None,
            },
            None => None,
        }
    }
}

// ----- the HID interfaces of a device -----------------------------------------------

/// Whether an interface is a HID interface.
pub open spec fn hid_interface(a: InterfaceDescriptor) -> bool {
    a.class == crate::types::class::HID
}

/// The HID interfaces among those of a configuration.
pub open spec fn hid_settings(cfg: ConfigDescriptor) -> Seq<InterfaceDescriptor> {
    settings_where(cfg.interfaces@, |a: InterfaceDescriptor| hid_interface(a))
}

fn is_hid(a: &InterfaceDescriptor) -> (r: bool)
    ensures
        r == hid_interface(*a),
{
    a.class == crate::types::class::HID
}

/// The HID interfaces of a configuration (alternate setting 0 of each), in
/// descriptor order. Many devices have several: a keyboard's media keys, a
/// receiver's paired devices, or a gadget's separate raw HID channels.
pub fn interfaces(cfg: &ConfigDescriptor) -> (r: Vec<&InterfaceDescriptor>)
    requires
        cfg.wf(),
    ensures
        settings(r@) == hid_settings(*cfg),
{
    class::interfaces_where(cfg, is_hid, Ghost(|a: InterfaceDescriptor| hid_interface(a)))
}

impl HidDevice {
    /// The interface that opening a device opens: its first HID interface.
    pub fn open(cfg: &ConfigDescriptor) -> (r: Result<u8>)
        requires
            cfg.wf(),
        ensures
            outcome(r) == (if hid_settings(*cfg).len() > 0 {
                Ok::<u8, ErrorView>(hid_settings(*cfg)[0].number)
            } else {
                Err(message(ErrorKind::NotFound, "device has no HID interface"@))
            }),
    {
        let all = interfaces(cfg);
        assert(settings(all@).len() == all@.len());
        if all.len() == 0 {
            return Err(Error::with_message(ErrorKind::NotFound, "device has no HID interface"));
        }
        assert(settings(all@)[0] == *all@[0]);
        Ok(all[0].number)
    }
}

// ----- an open interface -------------------------------------------------------------

/// A HID interface that can be opened: what its descriptors say.
#[derive(Debug, Clone, PartialEq, Eq)]
pub struct HidPlan {
    /// The interface number.
    pub interface: u8,
    /// `bInterfaceSubClass`
    pub sub_class: u8,
    /// `bInterfaceProtocol`
    pub protocol: u8,
    /// The HID class descriptor.
    pub hid: HidDescriptor,
    /// The interrupt IN endpoint.
    pub ep_in: u8,
    /// The size of its packets.
    pub ep_in_size: u32,
    /// The interrupt OUT endpoint.
    pub ep_out: Option<u8>,
}

/// What a [`HidPlan`] holds.
#[verifier::ext_equal]
pub struct HidPlanView {
    pub interface: u8,
    pub sub_class: u8,
    pub protocol: u8,
    pub hid: HidDescriptorView,
    pub ep_in: u8,
    pub ep_in_size: u32,
    pub ep_out: Option<u8>,
}

impl View for HidPlan {
    type V = HidPlanView;

    open spec fn view(&self) -> HidPlanView {
        HidPlanView {
            interface: self.interface,
            sub_class: self.sub_class,
            protocol: self.protocol,
            hid: self.hid@,
            ep_in: self.ep_in,
            ep_in_size: self.ep_in_size,
            ep_out: self.ep_out,
        }
    }
}

/// The plan for a HID interface, or why it cannot be opened.
pub open spec fn plan_on(a: InterfaceDescriptor) -> std::result::Result<HidPlanView, ErrorView> {
    if !hid_interface(a) {
        Err(message(ErrorKind::InvalidParam, "not a HID interface"@))
    } else {
        match interface_hid(a) {
            None => Err(message(ErrorKind::Io, "HID interface has no HID descriptor"@)),
            Some(hid) => match first_endpoint(a.endpoints@, Direction::In, TransferType::Interrupt) {
                None => Err(message(ErrorKind::Io, "HID interface has no interrupt IN endpoint"@)),
                Some(e) => Ok(
                    HidPlanView {
                        interface: a.number,
                        sub_class: a.sub_class,
                        protocol: a.protocol,
                        hid,
                        ep_in: e.address,
                        ep_in_size: bytes_per_frame(e.max_packet_size) as u32,
                        ep_out: match first_endpoint(a.endpoints@, Direction::Out, TransferType::Interrupt) {
                            Some(o) => Some(o.address),
                            None => None,
                        },
                    },
                ),
            },
        }
    }
}

/// The plan for the HID interface with the given number.
pub open spec fn hid_plan(cfg: ConfigDescriptor, interface: u8) -> std::result::Result<HidPlanView, ErrorView> {
    match class::setting_of(cfg.interfaces@, interface) {
        Err(e) => Err(e),
        Ok(a) => plan_on(a),
    }
}

/// How many bytes of the report descriptor are asked for.
pub open spec fn descriptor_request_len(h: HidDescriptorView) -> u16 {
    match report_length(h.descriptors) {
        Some(n) => if n == 0 {
            1
        } else {
            n
        },
        None => 4096,
    }
}

/// The request that reads the report descriptor of an interface.
pub open spec fn report_descriptor_setup(p: HidPlanView) -> ControlSetup {
    setup_packet(
        Direction::In,
        ControlType::Standard,
        Recipient::Interface,
        request::GET_DESCRIPTOR,
        0x2200,
        p.interface as u16,
        descriptor_request_len(p.hid),
    )
}

/// As what an interface supports the boot protocol.
pub open spec fn boot_kind(sub_class: u8, protocol: u8) -> Option<BootDevice> {
    if sub_class == 1 && protocol == 1 {
        Some(BootDevice::Keyboard)
    } else if sub_class == 1 && protocol == 2 {
        Some(BootDevice::Mouse)
    } else {
        None
    }
}

/// The request that selects a protocol.
pub open spec fn protocol_setup(interface: u8, protocol: Protocol) -> ControlSetup {
    class_setup(
        Direction::Out,
        req::SET_PROTOCOL,
        if protocol == Protocol::Boot {
            0
        } else {
            1
        },
        interface,
    )
}

/// The protocol that a byte stands for.
pub open spec fn protocol_of(b: u8) -> Protocol {
    if b == 0 {
        Protocol::Boot
    } else {
        Protocol::Report
    }
}

/// The request that sets an idle rate.
pub open spec fn idle_setup(interface: u8, rate: Option<u64>, id: u8) -> ControlSetup {
    class_setup(Direction::Out, req::SET_IDLE, idle_units(rate) * 256 + id, interface)
}

impl HidPlan {
    /// The request that reads the report descriptor.
    pub fn descriptor_request(&self) -> (r: ControlSetup)
        ensures
            r == report_descriptor_setup(self@),
    {
        let len: u16 = match self.hid.report_descriptor_length() {
            Some(n) => if n == 0 {
                1
            } else {
                n
            },
            None => 4096,
        };
        ControlSetup::new(
            Direction::In,
            ControlType::Standard,
            Recipient::Interface,
            request::GET_DESCRIPTOR,
            descriptor_type::HID_REPORT as u16 * 256,
            self.interface as u16,
            len,
        )
    }

    /// The open interface, with the report descriptor that was read.
    pub fn open(self, raw: Vec<u8>) -> (r: Result<HidDevice>)
        ensures
            match report::run(report::items_of(raw@)) {
                Ok(p) => r is Ok && r->Ok_0@ == (HidDeviceView {
                    plan: self@,
                    raw: raw@,
                    report_descriptor: report::finished(p),
                }),
                Err(m) => r is Err && r->Err_0@ == message(ErrorKind::InvalidParam, m),
            },
    {
        match ReportDescriptor::parse(raw.as_slice()) {
            Ok(report_descriptor) => Ok(HidDevice { plan: self, raw, report_descriptor }),
            Err(e) => Err(e),
        }
    }
}

/// An open HID interface. See the [module documentation](self).
#[derive(Debug)]
pub struct HidDevice {
    /// What its descriptors say.
    pub plan: HidPlan,
    /// The report descriptor as the device sent it.
    pub raw: Vec<u8>,
    /// The parsed report descriptor.
    pub report_descriptor: ReportDescriptor,
}

/// What a [`HidDevice`] holds.
#[verifier::ext_equal]
pub struct HidDeviceView {
    pub plan: HidPlanView,
    pub raw: Seq<u8>,
    pub report_descriptor: ReportDescriptorView,
}

impl View for HidDevice {
    type V = HidDeviceView;

    open spec fn view(&self) -> HidDeviceView {
        HidDeviceView { plan: self.plan@, raw: self.raw@, report_descriptor: self.report_descriptor@ }
    }
}

/// The longest payload of the reports with the given IDs.
pub open spec fn longest(reports: Seq<ReportSize>, kind: ReportType, ids: Seq<u8>) -> Option<int>
    decreases ids.len(),
{
    if ids.len() == 0 {
        None
    } else {
        let before = longest(reports, kind, ids.drop_last());
        match payload_len(reports, kind, ids.last()) {
            Some(n) => if before is Some && before->0 >= n {
                before
            } else {
                Some(n)
            },
            None => before,
        }
    }
}

/// The size of the largest input report on the wire.
pub open spec fn max_input(d: HidDeviceView) -> int {
    let r = d.report_descriptor;
    let size = d.plan.ep_in_size as int;
    match longest(r.reports, ReportType::Input, ids_of(r.reports, ReportType::Input)) {
        Some(n) => {
            let whole = if r.uses_ids {
                n + 1
            } else {
                n
            };
            if whole >= size {
                whole
            } else {
                size
            }
        },
        None => size,
    }
}

/// How a report is sent.
#[derive(Debug, Clone, Copy, PartialEq, Eq, Structural)]
pub enum Route {
    /// Over the interrupt OUT endpoint.
    Interrupt { endpoint: u8 },
    /// With a control request; its length is that of the data.
    Control { setup: ControlSetup },
}

/// A request to the class on this interface. Its length is filled in when
/// the data is known.
pub open spec fn class_setup(direction: Direction, request: u8, value: int, interface: u8) -> ControlSetup {
    setup_packet(direction, ControlType::Class, Recipient::Interface, request, value as u16, interface as u16, 0)
}

/// SET_REPORT.
pub open spec fn set_report_setup(interface: u8, kind: ReportType, id: u8) -> ControlSetup {
    class_setup(Direction::Out, req::SET_REPORT, report_code(kind) * 256 + id, interface)
}

/// GET_REPORT.
pub open spec fn get_report_setup(interface: u8, kind: ReportType, id: u8) -> ControlSetup {
    class_setup(Direction::In, req::GET_REPORT, report_code(kind) * 256 + id, interface)
}

/// The 4 ms units of an idle rate in nanoseconds; 0 stands for "only on
/// change".
pub open spec fn idle_units(rate: Option<u64>) -> int {
    match rate {
        None => 0,
        Some(d) => {
            let units = d as int / 4_000_000;
            if units < 1 {
                1
            } else if units > 255 {
                255
            } else {
                units
            }
        },
    }
}

/// The idle rate in nanoseconds that a number of units stands for.
pub open spec fn idle_rate(units: u8) -> Option<u64> {
    if units == 0 {
        None
    } else {
        Some((units * 4_000_000) as u64)
    }
}

/// What goes to the device of a report that starts with its ID.
pub open spec fn report_wire(data: Seq<u8>) -> Seq<u8> {
    if data[0] == 0 {
        data.skip(1)
    } else {
        data
    }
}

/// The outcome of a one-byte class request that transferred `n` bytes.
pub open spec fn class_byte(
    r: std::result::Result<usize, ErrorView>,
    byte: u8,
) -> std::result::Result<u8, ErrorView> {
    match r {
        Err(e) => Err(e),
        Ok(n) => if n < 1 {
            Err(message(ErrorKind::Io, "short response to a HID class request"@))
        } else {
            Ok(byte)
        },
    }
}

fn class_reply(r: Result<usize>, byte: u8) -> (x: Result<u8>)
    ensures
        outcome(x) == class_byte(outcome(r), byte),
{
    match r {
        Err(e) => Err(e),
        Ok(n) => if n < 1 {
            Err(Error::with_message(ErrorKind::Io, "short response to a HID class request"))
        } else {
            Ok(byte)
        },
    }
}

fn class_request(direction: Direction, request: u8, value: u16, interface: u8) -> (r: ControlSetup)
    ensures
        r == class_setup(direction, request, value as int, interface),
{
    ControlSetup::new(direction, ControlType::Class, Recipient::Interface, request, value, interface as u16, 0)
}

impl HidDevice {
    /// Plans the opening of a HID interface.
    pub fn open_interface(cfg: &ConfigDescriptor, interface: u8) -> (r: Result<HidPlan>)
        requires
            cfg.wf(),
        ensures
            match hid_plan(*cfg, interface) {
                Ok(p) => r is Ok && r->Ok_0@ == p,
                Err(e) => r is Err && r->Err_0@ == e,
            },
    {
        let iface = match class::interface(cfg, interface) {
            Ok(a) => a,
            Err(e) => {
                return Err(e);
            },
        };
        if !is_hid(iface) {
            return Err(Error::with_message(ErrorKind::InvalidParam, "not a HID interface"));
        }
        let hid = match HidDescriptor::of_interface(iface) {
            Some(h) => h,
            None => {
                return Err(Error::with_message(ErrorKind::Io, "HID interface has no HID descriptor"));
            },
        };
        let ep_in = match class::endpoint(iface, Direction::In, TransferType::Interrupt) {
            Some(e) => e,
            None => {
                return Err(Error::with_message(ErrorKind::Io, "HID interface has no interrupt IN endpoint"));
            },
        };
        let ep_out: Option<u8> = match class::endpoint(iface, Direction::Out, TransferType::Interrupt) {
            Some(e) => Some(e.address),
            None => None,
        };
        Ok(
            HidPlan {
                interface: iface.number,
                sub_class: iface.sub_class,
                protocol: iface.protocol,
                hid,
                ep_in: ep_in.address,
                ep_in_size: ep_in.max_packet_size(),
                ep_out,
            },
        )
    }

    /// The interface number.
    pub fn interface_number(&self) -> (r: u8)
        ensures
            r == self@.plan.interface,
    {
        self.plan.interface
    }

    /// The HID class descriptor.
    pub fn hid_descriptor(&self) -> (r: &HidDescriptor)
        ensures
            r@ == self@.plan.hid,
    {
        &self.plan.hid
    }

    /// Whether the interface supports the boot protocol, and as what.
    pub fn boot_device(&self) -> (r: Option<BootDevice>)
        ensures
            r == boot_kind(self@.plan.sub_class, self@.plan.protocol),
    {
        match (self.plan.sub_class, self.plan.protocol) {
            (1, 1) => Some(BootDevice::Keyboard),
            (1, 2) => Some(BootDevice::Mouse),
            _ => None,
        }
    }

    /// The parsed report descriptor.
    pub fn report_descriptor(&self) -> (r: &ReportDescriptor)
        ensures
            r@ == self@.report_descriptor,
    {
        &self.report_descriptor
    }

    /// The report descriptor exactly as the device sent it.
    pub fn raw_report_descriptor(&self) -> (r: &[u8])
        ensures
            r@ == self@.raw,
    {
        self.raw.as_slice()
    }

    /// Size of the largest input report on the wire, report ID included;
    /// a buffer this large never truncates a read.
    pub fn max_input_report_len(&self) -> (r: usize)
        ensures
            r == max_input(self@),
    {
        let d = &self.report_descriptor;
        let ids = d.report_ids(ReportType::Input);
        let ghost reports = d@.reports;
        let mut best: Option<usize> = None;
        let mut i: usize = 0;
        assert(ids@.take(0) =~= Seq::empty());
        while i < ids.len()
            invariant
                i <= ids@.len(),
                reports == d@.reports,
                match longest(reports, ReportType::Input, ids@.take(i as int)) {
                    Some(n) => best is Some && best->0 == n && 0 <= n <= 0x2000_0000,
                    None => best is None,
                },
            decreases ids@.len() - i,
        {
            assert(ids@.take(i + 1).drop_last() =~= ids@.take(i as int));
            match d.report_len(ReportType::Input, ids[i]) {
                Some(n) => {
                    best = match best {
                        Some(m) => if m >= n {
                            Some(m)
                        } else {
                            Some(n)
                        },
                        None => Some(n),
                    };
                },
                None => {},
            }
            i += 1;
        }
        assert(ids@.take(i as int) =~= ids@);
        let size: usize = self.plan.ep_in_size as usize;
        match best {
            Some(n) => {
                let whole: usize = if d.uses_report_ids() {
                    n + 1
                } else {
                    n
                };
                if whole >= size {
                    whole
                } else {
                    size
                }
            },
            None => size,
        }
    }

    /// The endpoint that input reports are read from.
    pub fn read(&self) -> (r: u8)
        ensures
            r == self@.plan.ep_in,
    {
        self.plan.ep_in
    }

    /// How to send an output report: over what, which bytes, and how many to
    /// add to those sent to count the ID byte. `data[0]` is the report ID;
    /// when it is 0 (the device does not use IDs) it is stripped. Uses the
    /// interrupt OUT endpoint when the interface has one, otherwise a
    /// SET_REPORT control request.
    pub fn write<'a>(&self, data: &'a [u8]) -> (r: Result<(Route, &'a [u8], usize)>)
        ensures
            data@.len() == 0 ==> r is Err && r->Err_0@ == message(
                ErrorKind::InvalidParam,
                "report must start with its ID byte"@,
            ),
            data@.len() > 0 ==> r is Ok && r->Ok_0.1@ == report_wire(data@) && r->Ok_0.2 == data@.len()
                - report_wire(data@).len() && r->Ok_0.0 == (match self@.plan.ep_out {
                Some(endpoint) => Route::Interrupt { endpoint },
                None => Route::Control { setup: set_report_setup(self@.plan.interface, ReportType::Output, data@[0]) },
            }),
    {
        if data.len() == 0 {
            return Err(Error::with_message(ErrorKind::InvalidParam, "report must start with its ID byte"));
        }
        let route = match self.plan.ep_out {
            Some(endpoint) => Route::Interrupt { endpoint },
            None => Route::Control { setup: self.set_report(ReportType::Output, data[0]) },
        };
        let (wire, extra) = without_id(data);
        Ok((route, wire, extra))
    }

    /// How to read a feature report, hidapi style, into a buffer of `len`
    /// bytes whose first is the report ID `id`: the request, and where in the
    /// buffer the answer goes. What comes before it counts as read too.
    pub fn get_feature_report(&self, len: usize, id: u8) -> (r: Result<(ControlSetup, usize)>)
        ensures
            outcome(r) == prefixed(self@.plan.interface, ReportType::Feature, len, id),
    {
        self.get_report_prefixed(ReportType::Feature, len, id)
    }

    /// How to send a feature report: the request, the bytes, and how many to
    /// add to those sent. `data[0]` is the report ID, stripped when 0.
    pub fn send_feature_report<'a>(&self, data: &'a [u8]) -> (r: Result<(ControlSetup, &'a [u8], usize)>)
        ensures
            data@.len() == 0 ==> r is Err && r->Err_0@ == message(
                ErrorKind::InvalidParam,
                "report must start with its ID byte"@,
            ),
            data@.len() > 0 ==> r is Ok && r->Ok_0.0 == set_report_setup(
                self@.plan.interface,
                ReportType::Feature,
                data@[0],
            ) && r->Ok_0.1@ == report_wire(data@) && r->Ok_0.2 == data@.len() - report_wire(data@).len(),
    {
        if data.len() == 0 {
            return Err(Error::with_message(ErrorKind::InvalidParam, "report must start with its ID byte"));
        }
        let setup = self.set_report(ReportType::Feature, data[0]);
        let (wire, extra) = without_id(data);
        Ok((setup, wire, extra))
    }

    /// How to poll an input report over the control endpoint, hidapi style
    /// (see [`get_feature_report`](Self::get_feature_report)).
    pub fn get_input_report(&self, len: usize, id: u8) -> (r: Result<(ControlSetup, usize)>)
        ensures
            outcome(r) == prefixed(self@.plan.interface, ReportType::Input, len, id),
    {
        self.get_report_prefixed(ReportType::Input, len, id)
    }

    fn get_report_prefixed(&self, kind: ReportType, len: usize, id: u8) -> (r: Result<(ControlSetup, usize)>)
        ensures
            outcome(r) == prefixed(self@.plan.interface, kind, len, id),
    {
        if len == 0 {
            return Err(Error::with_message(ErrorKind::InvalidParam, "buffer must have room for the ID byte"));
        }
        Ok((self.get_report(kind, id), if id == 0 { 1 } else { 0 }))
    }

    /// Raw GET_REPORT: the report exactly as the device returns it (starting
    /// with the ID byte when the device uses report IDs).
    pub fn get_report(&self, kind: ReportType, report_id: u8) -> (r: ControlSetup)
        ensures
            r == get_report_setup(self@.plan.interface, kind, report_id),
    {
        class_request(
            Direction::In,
            req::GET_REPORT,
            kind.code() as u16 * 256 + report_id as u16,
            self.plan.interface,
        )
    }

    /// Raw SET_REPORT: the data is sent unchanged (it must start with the ID
    /// byte when the device uses report IDs).
    pub fn set_report(&self, kind: ReportType, report_id: u8) -> (r: ControlSetup)
        ensures
            r == set_report_setup(self@.plan.interface, kind, report_id),
    {
        class_request(
            Direction::Out,
            req::SET_REPORT,
            kind.code() as u16 * 256 + report_id as u16,
            self.plan.interface,
        )
    }

    /// SET_IDLE: limits how often the device repeats an unchanged input
    /// report. `None` means only on change; otherwise the rate, in
    /// nanoseconds, is rounded to 4 ms units (max 1.02 s). `report_id` 0
    /// applies to every report.
    pub fn set_idle(&self, rate: Option<u64>, report_id: u8) -> (r: ControlSetup)
        ensures
            r == idle_setup(self@.plan.interface, rate, report_id),
    {
        let units: u16 = match rate {
            None => 0,
            Some(d) => {
                let units: u64 = d / 4_000_000;
                if units < 1 {
                    1
                } else if units > 255 {
                    255
                } else {
                    units as u16
                }
            },
        };
        class_request(Direction::Out, req::SET_IDLE, units * 256 + report_id as u16, self.plan.interface)
    }

    /// GET_IDLE, a one-byte read whose outcome goes to [`idle_outcome`].
    pub fn get_idle(&self, report_id: u8) -> (r: ControlSetup)
        ensures
            r == class_setup(Direction::In, req::GET_IDLE, report_id as int, self@.plan.interface),
    {
        class_request(Direction::In, req::GET_IDLE, report_id as u16, self.plan.interface)
    }

    /// SET_PROTOCOL: switches a boot-capable device between boot and report
    /// protocol.
    pub fn set_protocol(&self, protocol: Protocol) -> (r: ControlSetup)
        ensures
            r == protocol_setup(self@.plan.interface, protocol),
    {
        let value: u16 = match protocol {
            Protocol::Boot => 0,
            Protocol::Report => 1,
        };
        class_request(Direction::Out, req::SET_PROTOCOL, value, self.plan.interface)
    }

    /// GET_PROTOCOL, a one-byte read whose outcome goes to
    /// [`protocol_outcome`].
    pub fn get_protocol(&self) -> (r: ControlSetup)
        ensures
            r == class_setup(Direction::In, req::GET_PROTOCOL, 0, self@.plan.interface),
    {
        class_request(Direction::In, req::GET_PROTOCOL, 0, self.plan.interface)
    }
}

/// How a report is read into a buffer that starts with its ID.
pub open spec fn prefixed(
    interface: u8,
    kind: ReportType,
    len: usize,
    id: u8,
) -> std::result::Result<(ControlSetup, usize), ErrorView> {
    if len == 0 {
        Err(message(ErrorKind::InvalidParam, "buffer must have room for the ID byte"@))
    } else {
        Ok(
            (
                get_report_setup(interface, kind, id),
                if id == 0 {
                    1
                } else {
                    0
                },
            ),
        )
    }
}

fn without_id<'a>(data: &'a [u8]) -> (r: (&'a [u8], usize))
    requires
        data@.len() > 0,
    ensures
        r.0@ == report_wire(data@),
        r.1 == data@.len() - report_wire(data@).len(),
{
    if data[0] == 0 {
        let wire = slice_subrange(data, 1, data.len());
        assert(wire@ =~= data@.skip(1));
        (wire, 1)
    } else {
        (data, 0)
    }
}

/// Interprets the outcome of GET_IDLE: the idle rate in nanoseconds; `None`
/// means "only on change".
pub fn idle_outcome(r: Result<usize>, byte: u8) -> (x: Result<Option<u64>>)
    ensures
        outcome(x) == (match class_byte(outcome(r), byte) {
            Ok(b) => Ok::<Option<u64>, ErrorView>(idle_rate(b)),
            Err(e) => Err(e),
        }),
{
    match class_reply(r, byte) {
        Ok(b) => if b == 0 {
            Ok(None)
        } else {
            Ok(Some(b as u64 * 4_000_000))
        },
        Err(e) => Err(e),
    }
}

/// Interprets the outcome of GET_PROTOCOL.
pub fn protocol_outcome(r: Result<usize>, byte: u8) -> (x: Result<Protocol>)
    ensures
        outcome(x) == (match class_byte(outcome(r), byte) {
            Ok(b) => Ok::<Protocol, ErrorView>(protocol_of(b)),
            Err(e) => Err(e),
        }),
{
    match class_reply(r, byte) {
        Ok(b) => if b == 0 {
            Ok(Protocol::Boot)
        } else {
            Ok(Protocol::Report)
        },
        Err(e) => Err(e),
    }
}

/// A buffer as long as the largest input report never truncates one: every
/// declared input report fits, its ID byte counted, and so does a packet.
pub proof fn lemma_input_reports_fit(d: HidDeviceView, id: u8)
    requires
        ids_of(d.report_descriptor.reports, ReportType::Input).contains(id),
        payload_len(d.report_descriptor.reports, ReportType::Input, id) is Some,
    ensures
        payload_len(d.report_descriptor.reports, ReportType::Input, id)->0 + (if d.report_descriptor.uses_ids {
            1int
        } else {
            0
        }) <= max_input(d),
        d.plan.ep_in_size <= max_input(d),
{
    let ids = ids_of(d.report_descriptor.reports, ReportType::Input);
    let k = choose|k: int| 0 <= k < ids.len() && ids[k] == id;
    lemma_longest(d.report_descriptor.reports, ReportType::Input, ids, k);
}

proof fn lemma_longest(reports: Seq<ReportSize>, kind: ReportType, ids: Seq<u8>, k: int)
    requires
        0 <= k < ids.len(),
        payload_len(reports, kind, ids[k]) is Some,
    ensures
        longest(reports, kind, ids) is Some,
        longest(reports, kind, ids)->0 >= payload_len(reports, kind, ids[k])->0,
    decreases ids.len(),
{
    if k < ids.len() - 1 {
        lemma_longest(reports, kind, ids.drop_last(), k);
    }
}

/// An idle rate of whole units reads back as it was set.
pub proof fn lemma_idle_round_trip(rate: u64)
    requires
        rate % 4_000_000 == 0,
        4_000_000 <= rate <= 1_020_000_000,
    ensures
        idle_rate(idle_units(Some(rate)) as u8) == Some(rate),
{
}

/// "Only on change" reads back as it was set.
pub proof fn lemma_no_idle_round_trip()
    ensures
        idle_rate(idle_units(None) as u8) is None,
{
}

/// The length of the report descriptor is that of the first descriptor of type
/// 0x22 that is listed, if one is.
pub proof fn lemma_report_length(v: Seq<(u8, u16)>, k: int)
    requires
        0 <= k <= v.len(),
        forall|j: int| 0 <= j < k ==> !((#[trigger] v[j]).0 == 0x22),
    ensures
        k == v.len() ==> report_length(v) is None,
        k < v.len() && v[k].0 == 0x22 ==> report_length(v) == Some(v[k].1),
    decreases k,
{
    if k > 0 {
        let w = v.skip(1);
        assert(!(v[0].0 == 0x22));
        assert forall|j: int| 0 <= j < k - 1 implies !((#[trigger] w[j]).0 == 0x22) by {
            assert(w[j] == v[j + 1]);
        }
        if k < v.len() {
            assert(w[k - 1] == v[k]);
        }
        lemma_report_length(w, k - 1);
    }
}

/// The HID descriptor of a run is the first one of type 0x21, if there is one.
pub proof fn lemma_first_hid(v: Seq<Seq<u8>>, k: int)
    requires
        0 <= k <= v.len(),
        forall|j: int| 0 <= j < k ==> !((#[trigger] v[j])[1] == 0x21),
    ensures
        k == v.len() ==> first_hid(v) is None,
        k < v.len() && v[k][1] == 0x21 ==> first_hid(v) == Some(v[k]),
    decreases k,
{
    if k > 0 {
        let w = v.skip(1);
        assert(!(v[0][1] == 0x21));
        assert forall|j: int| 0 <= j < k - 1 implies !((#[trigger] w[j])[1] == 0x21) by {
            assert(w[j] == v[j + 1]);
        }
        if k < v.len() {
            assert(w[k - 1] == v[k]);
        }
        lemma_first_hid(w, k - 1);
    }
}

/// Where a HID descriptor holds its version, its country and the descriptors
/// that it lists, three bytes each, as many as it counts and as there are.
pub proof fn lemma_hid_layout(b: Seq<u8>, i: int)
    requires
        b.len() >= 6,
    ensures
        is_hid_descriptor(b) <==> b[1] == 0x21,
        hid_of(b).hid_version.0 == b[2] + 256 * b[3],
        hid_of(b).country_code == b[4],
        6 + 3 * b[5] <= b.len() ==> hid_of(b).descriptors.len() == b[5],
        hid_of(b).descriptors.len() <= b[5],
        6 + 3 * hid_of(b).descriptors.len() <= b.len(),
        0 <= i < hid_of(b).descriptors.len() ==> hid_of(b).descriptors[i].0 == b[6 + 3 * i] && hid_of(b).descriptors[i].1
            == b[7 + 3 * i] + 256 * b[8 + 3 * i],
{
}

/// The HID descriptor of an interface stands behind the interface itself or,
/// where there is none, behind one of its endpoints.
pub proof fn lemma_interface_hid(a: InterfaceDescriptor)
    ensures
        first_hid(walk(a.extra@)) matches Some(b) ==> interface_hid(a) == (if b.len() >= 6 && b[1] == 0x21 {
            Some(hid_of(b))
        } else {
            None
        }),
        first_hid(walk(a.extra@)) is None && a.endpoints@.len() == 0 ==> interface_hid(a) is None,
        first_hid(walk(a.extra@)) is None && a.endpoints@.len() > 0 ==> (first_hid(
            walk(a.endpoints@[0].extra@),
        ) matches Some(b) ==> interface_hid(a) == (if b.len() >= 6 && b[1] == 0x21 {
            Some(hid_of(b))
        } else {
            None
        })),
        hid_interface(a) <==> a.class == 3,
{
}

/// A HID interface is read through its first interrupt IN endpoint, which it
/// must have, and written through its first interrupt OUT endpoint, if it has
/// one.
pub proof fn lemma_hid_plan(a: InterfaceDescriptor)
    ensures
        ({
            let i = first_endpoint(a.endpoints@, Direction::In, TransferType::Interrupt);
            let o = first_endpoint(a.endpoints@, Direction::Out, TransferType::Interrupt);
            let p = plan_on(a)->Ok_0;
            &&& plan_on(a) is Ok <==> a.class == 3 && interface_hid(a) is Some && i is Some
            &&& a.class != 3 ==> plan_on(a)->Err_0.kind == ErrorKind::InvalidParam
            &&& a.class == 3 && plan_on(a) is Err ==> plan_on(a)->Err_0.kind == ErrorKind::Io
            &&& plan_on(a) is Ok ==> {
                &&& (p.interface, p.sub_class, p.protocol) == (a.number, a.sub_class, a.protocol)
                &&& p.hid == interface_hid(a)->0
                &&& p.ep_in == i->0.address
                &&& p.ep_in_size == bytes_per_frame(i->0.max_packet_size) as u32
                &&& p.ep_out is Some <==> o is Some
                &&& o is Some ==> p.ep_out->0 == o->0.address
            }
        }),
{
}

/// The report descriptor is read from the interface by the standard request,
/// as descriptor 0x22 number 0, with the length that is declared, or 4096 where
/// none is.
pub proof fn lemma_report_descriptor_request(p: HidPlanView)
    ensures
        ({
            let s = report_descriptor_setup(p);
            let n = report_length(p.hid.descriptors);
            &&& s.request_type == 0x81
            &&& s.request == 6
            &&& s.value == 0x2200
            &&& s.index == p.interface
            &&& n is None ==> s.length == 4096
            &&& n is Some && n->0 > 0 ==> s.length == n->0
            &&& s.length > 0
        }),
{
}

/// Reports are numbered by kind and ID: input reports are 1, output reports 2
/// and feature reports 3; they are read by request 1 and written by request 9.
pub proof fn lemma_report_requests(interface: u8, kind: ReportType, id: u8)
    ensures
        ({
            let g = get_report_setup(interface, kind, id);
            let s = set_report_setup(interface, kind, id);
            &&& g.request_type == 0xa1
            &&& g.request == 1
            &&& s.request_type == 0x21
            &&& s.request == 9
            &&& g.index == interface
            &&& s.index == interface
            &&& g.value == s.value
            &&& s.value % 256 == id
            &&& s.value / 256 == 1 <==> kind == ReportType::Input
            &&& s.value / 256 == 2 <==> kind == ReportType::Output
            &&& s.value / 256 == 3 <==> kind == ReportType::Feature
        }),
{
}

/// An idle rate is set in units of 4 ms, 0 meaning that reports come only when
/// something changes; what does not fit is cut to 4 ms or 1020 ms.
pub proof fn lemma_idle_request(interface: u8, rate: Option<u64>, id: u8)
    ensures
        ({
            let s = idle_setup(interface, rate, id);
            &&& s.request_type == 0x21
            &&& s.request == 0x0a
            &&& s.index == interface
            &&& s.value % 256 == id
            &&& rate is None <==> s.value / 256 == 0
            &&& rate is Some && 4_000_000 <= rate->0 <= 1_020_000_000 ==> (s.value / 256) * 4_000_000 <= rate->0 < (s.value
                / 256 + 1) * 4_000_000
            &&& rate is Some && rate->0 < 4_000_000 ==> s.value / 256 == 1
            &&& rate is Some && rate->0 > 1_020_000_000 ==> s.value / 256 == 255
        }),
        idle_rate(0) is None,
        id > 0 ==> idle_rate(id) is Some && idle_rate(id)->0 == id * 4_000_000,
{
    let n = idle_units(rate);
    assert(0 <= n <= 255);
    assert((n * 256 + id) / 256 == n && (n * 256 + id) % 256 == id);
}

/// The protocol is selected by request 0x0b: 0 for the boot protocol, 1 for
/// reports; a byte is read back the same way.
pub proof fn lemma_protocol_request(interface: u8, protocol: Protocol)
    ensures
        protocol_setup(interface, protocol).request_type == 0x21,
        protocol_setup(interface, protocol).request == 0x0b,
        protocol_setup(interface, protocol).index == interface,
        protocol_setup(interface, protocol).value == 0 <==> protocol == Protocol::Boot,
        protocol_setup(interface, protocol).value <= 1,
        protocol_of(protocol_setup(interface, protocol).value as u8) == protocol,
{
}

/// Only an interface of the boot subclass is a boot device: protocol 1 is a
/// keyboard, protocol 2 a mouse.
pub proof fn lemma_boot_kinds(sub_class: u8, protocol: u8)
    ensures
        boot_kind(sub_class, protocol) == Some(BootDevice::Keyboard) <==> sub_class == 1 && protocol == 1,
        boot_kind(sub_class, protocol) == Some(BootDevice::Mouse) <==> sub_class == 1 && protocol == 2,
{
}

/// A report is sent with its ID in front, unless the ID is 0, which is not
/// sent.
pub proof fn lemma_report_on_the_wire(id: u8, payload: Seq<u8>)
    ensures
        id == 0 ==> report_wire(seq![id] + payload) == payload,
        id != 0 ==> report_wire(seq![id] + payload) == seq![id] + payload,
{
    assert((seq![id] + payload).skip(1) =~= payload);
}

/// A report is read behind its ID where that is 0, so that the first byte is
/// always the ID; without room for it nothing is read.
pub proof fn lemma_prefixed_reads(interface: u8, kind: ReportType, len: usize, id: u8)
    ensures
        prefixed(interface, kind, len, id) is Ok <==> len > 0,
        prefixed(interface, kind, len, id) matches Ok(x) ==> x.0 == get_report_setup(interface, kind, id) && (x.1 == 1
            <==> id == 0) && x.1 <= 1,
        prefixed(interface, kind, len, id) matches Err(e) ==> e.kind == ErrorKind::InvalidParam,
{
}

/// A class request that brings no byte back has failed.
pub proof fn lemma_class_bytes(n: usize, e: ErrorView, b: u8)
    ensures
        class_byte(Err(e), b) == Err::<u8, ErrorView>(e),
        n > 0 ==> class_byte(Ok(n), b) == Ok::<u8, ErrorView>(b),
        n == 0 ==> class_byte(Ok(n), b) is Err && class_byte(Ok(n), b)->Err_0.kind == ErrorKind::Io,
{
}

/// The room for input reports is no larger than it must be: it is that of the
/// endpoint's packets, or that of one of the reports with its ID.
pub proof fn lemma_input_room_is_tight(d: HidDeviceView)
    ensures
        ({
            let r = d.report_descriptor;
            let ids = ids_of(r.reports, ReportType::Input);
            let extra = if r.uses_ids {
                1int
            } else {
                0
            };
            max_input(d) == d.plan.ep_in_size || exists|k: int|
                0 <= k < ids.len() && payload_len(r.reports, ReportType::Input, #[trigger] ids[k]) == Some(
                    max_input(d) - extra,
                )
        }),
{
    let r = d.report_descriptor;
    lemma_longest_is_one(r.reports, ReportType::Input, ids_of(r.reports, ReportType::Input));
}

proof fn lemma_longest_is_one(reports: Seq<ReportSize>, kind: ReportType, ids: Seq<u8>)
    ensures
        longest(reports, kind, ids) matches Some(n) ==> exists|k: int|
            0 <= k < ids.len() && payload_len(reports, kind, #[trigger] ids[k]) == Some(n),
    decreases ids.len(),
{
    if ids.len() > 0 {
        let w = ids.drop_last();
        lemma_longest_is_one(reports, kind, w);
        if longest(reports, kind, ids) is Some {
            let n = longest(reports, kind, ids)->0;
            if payload_len(reports, kind, ids.last()) == Some(n) {
                assert(ids[ids.len() - 1] == ids.last());
            } else {
                let k = choose|k: int| 0 <= k < w.len() && payload_len(reports, kind, #[trigger] w[k]) == Some(n);
                assert(ids[k] == w[k]);
            }
        }
    }
}

/// The numbers of the report types.
pub proof fn lemma_report_codes()
    ensures
        report_code(ReportType::Input) == 1,
        report_code(ReportType::Output) == 2,
        report_code(ReportType::Feature) == 3,
{
}

/// An interface is opened by its number, in its main setting.
pub proof fn lemma_plan_by_number(cfg: ConfigDescriptor, interface: u8)
    ensures
        class::setting_of(cfg.interfaces@, interface) matches Ok(a) ==> hid_plan(cfg, interface) == plan_on(a),
        class::setting_of(cfg.interfaces@, interface) matches Err(e) ==> hid_plan(cfg, interface) == Err::<
            HidPlanView,
            ErrorView,
        >(e),
{
}

/// Behind the endpoints the HID descriptor is the first one that there is.
pub proof fn lemma_hid_after_endpoints(es: Seq<EndpointDescriptor>, k: int)
    requires
        0 <= k <= es.len(),
        forall|j: int| 0 <= j < k ==> first_hid(walk((#[trigger] es[j]).extra@)) is None,
    ensures
        k == es.len() ==> first_hid_after(es) is None,
        k < es.len() && first_hid(walk(es[k].extra@)) is Some ==> first_hid_after(es) == first_hid(walk(es[k].extra@)),
    decreases k,
{
    if k > 0 {
        let w = es.skip(1);
        assert(first_hid(walk(es[0].extra@)) is None);
        assert forall|j: int| 0 <= j < k - 1 implies first_hid(walk((#[trigger] w[j]).extra@)) is None by {
            assert(w[j] == es[j + 1]);
        }
        if k < es.len() {
            assert(w[k - 1] == es[k]);
        }
        lemma_hid_after_endpoints(w, k - 1);
    }
}

} // verus!
