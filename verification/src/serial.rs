//! USB serial adapters: CDC-ACM devices (Arduino-style boards, modems, most
//! microcontroller USB stacks) and FTDI chips, behind one [`SerialPort`] type.
//!
//! A [`SerialPort`] keeps what is known of an open port and forms the requests
//! that change it. Opening a port does not change its line settings or modem
//! lines. Many CDC-ACM devices only start talking once DTR is asserted.

use crate::bytes::{self, le32, le32_at, u32_bytes};
use crate::class::{self, first_endpoint, has_bulk_pair};
use crate::descriptors::{bytes_per_frame, ConfigDescriptor, Interface, InterfaceDescriptor};
use crate::error::{message, outcome, plain, Error, ErrorKind, ErrorView, Result};
use crate::handle::{transfer_outcome, write_transfer, DeviceHandle};
use crate::transfer::Transfer;
use crate::types::{
    setup_packet, ControlSetup, ControlType, Direction, Recipient, TransferStatus, TransferType, NO_TIMEOUT,
};
use ftdi::FtdiChip;
use std::collections::VecDeque;
use vstd::prelude::*;
use vstd::slice::*;

pub mod cdc;
pub mod ftdi;

verus! {

/// How long a control request may take: 1 s.
pub const CONTROL_TIMEOUT: u64 = 1_000_000_000;

/// Number of data bits per character.
#[derive(Debug, Clone, Copy, PartialEq, Eq, Hash, Structural)]
pub enum DataBits {
    /// 5 bits.
    Five,
    /// 6 bits.
    Six,
    /// 7 bits.
    Seven,
    /// 8 bits.
    Eight,
}

/// The number of data bits.
pub open spec fn bit_count(d: DataBits) -> u8 {
    match d {
        DataBits::Five => 5,
        DataBits::Six => 6,
        DataBits::Seven => 7,
        DataBits::Eight => 8,
    }
}

impl DataBits {
    /// The number of data bits.
    pub fn count(self) -> (r: u8)
        ensures
            r == bit_count(self),
    {
        match self {
            DataBits::Five => 5,
            DataBits::Six => 6,
            DataBits::Seven => 7,
            DataBits::Eight => 8,
        }
    }
}

/// Parity bit.
#[derive(Debug, Clone, Copy, PartialEq, Eq, Hash, Structural)]
pub enum Parity {
    /// No parity bit.
    NoParity,
    /// Odd parity.
    Odd,
    /// Even parity.
    Even,
    /// Parity bit always 1.
    Mark,
    /// Parity bit always 0.
    Space,
}

/// The encoding of a parity.
pub open spec fn parity_code(p: Parity) -> u8 {
    match p {
        Parity::NoParity => 0,
        Parity::Odd => 1,
        Parity::Even => 2,
        Parity::Mark => 3,
        Parity::Space => 4,
    }
}

impl Parity {
    /// The encoding shared by CDC `bParityType` and FTDI SET_DATA.
    pub fn code(self) -> (r: u8)
        ensures
            r == parity_code(self),
    {
        match self {
            Parity::NoParity => 0,
            Parity::Odd => 1,
            Parity::Even => 2,
            Parity::Mark => 3,
            Parity::Space => 4,
        }
    }
}

/// Number of stop bits.
#[derive(Debug, Clone, Copy, PartialEq, Eq, Hash, Structural)]
pub enum StopBits {
    /// 1 stop bit.
    One,
    /// 1.5 stop bits.
    OnePointFive,
    /// 2 stop bits.
    Two,
}

/// The encoding of a number of stop bits.
pub open spec fn stop_code(s: StopBits) -> u8 {
    match s {
        StopBits::One => 0,
        StopBits::OnePointFive => 1,
        StopBits::Two => 2,
    }
}

impl StopBits {
    /// The encoding shared by CDC `bCharFormat` and FTDI SET_DATA.
    pub fn code(self) -> (r: u8)
        ensures
            r == stop_code(self),
    {
        match self {
            StopBits::One => 0,
            StopBits::OnePointFive => 1,
            StopBits::Two => 2,
        }
    }
}

/// Line settings: baud rate and character framing.
#[derive(Debug, Clone, Copy, PartialEq, Eq, Hash, Structural)]
pub struct LineConfig {
    /// Bits per second.
    pub baud_rate: u32,
    /// Data bits per character.
    pub data_bits: DataBits,
    /// Parity.
    pub parity: Parity,
    /// Stop bits.
    pub stop_bits: StopBits,
}

/// A baud rate with 8 data bits, no parity, 1 stop bit.
pub open spec fn line_8n1(baud_rate: u32) -> LineConfig {
    LineConfig { baud_rate, data_bits: DataBits::Eight, parity: Parity::NoParity, stop_bits: StopBits::One }
}

impl LineConfig {
    /// `baud_rate` with 8 data bits, no parity, 1 stop bit.
    pub fn new(baud_rate: u32) -> (r: LineConfig)
        ensures
            r == line_8n1(baud_rate),
    {
        LineConfig { baud_rate, data_bits: DataBits::Eight, parity: Parity::NoParity, stop_bits: StopBits::One }
    }
}

impl Default for LineConfig {
    /// 9600 8N1, the traditional default.
    fn default() -> (r: Self)
        ensures
            r == line_8n1(9600),
    {
        LineConfig::new(9600)
    }
}

/// Hardware or software flow control.
#[derive(Debug, Clone, Copy, PartialEq, Eq, Hash, Structural)]
pub enum FlowControl {
    /// None.
    NoFlow,
    /// RTS/CTS hardware handshake.
    RtsCts,
    /// DTR/DSR hardware handshake.
    DtrDsr,
    /// XON/XOFF software flow control with the given characters
    /// (conventionally 0x11 and 0x13).
    XonXoff {
        /// Resume character.
        xon: u8,
        /// Pause character.
        xoff: u8,
    },
}

/// Modem input lines and line errors.
///
/// The error and break flags latch: they report whether the condition
/// occurred since the previous [`SerialPort::modem_status`] call.
#[derive(Debug, Clone, Copy, PartialEq, Eq, Hash, Structural)]
pub struct ModemStatus {
    /// Clear To Send. CDC-ACM has no way to report it and always reads false.
    pub cts: bool,
    /// Data Set Ready.
    pub dsr: bool,
    /// Ring Indicator.
    pub ring: bool,
    /// Data Carrier Detect.
    pub dcd: bool,
    /// Received data was lost.
    pub overrun: bool,
    /// A character arrived with bad parity.
    pub parity_error: bool,
    /// A character arrived with a bad stop bit.
    pub framing_error: bool,
    /// A break condition was received.
    pub break_received: bool,
}

/// No line asserted and nothing seen.
pub open spec fn quiet() -> ModemStatus {
    ModemStatus {
        cts: false,
        dsr: false,
        ring: false,
        dcd: false,
        overrun: false,
        parity_error: false,
        framing_error: false,
        break_received: false,
    }
}

impl Default for ModemStatus {
    fn default() -> (r: Self)
        ensures
            r == quiet(),
    {
        ModemStatus {
            cts: false,
            dsr: false,
            ring: false,
            dcd: false,
            overrun: false,
            parity_error: false,
            framing_error: false,
            break_received: false,
        }
    }
}

/// Fresh line state on top of a latched status: lines are replaced, events
/// accumulate.
pub open spec fn latched(s: ModemStatus, new: ModemStatus) -> ModemStatus {
    ModemStatus {
        overrun: s.overrun || new.overrun,
        parity_error: s.parity_error || new.parity_error,
        framing_error: s.framing_error || new.framing_error,
        break_received: s.break_received || new.break_received,
        ..new
    }
}

/// A status whose events were reported.
pub open spec fn reported(s: ModemStatus) -> ModemStatus {
    ModemStatus { overrun: false, parity_error: false, framing_error: false, break_received: false, ..s }
}

impl ModemStatus {
    /// Merges fresh line state into the latched status: lines are replaced,
    /// events accumulate.
    pub fn update(&mut self, new: ModemStatus)
        ensures
            *final(self) == latched(*old(self), new),
    {
        let events = ModemStatus {
            overrun: self.overrun || new.overrun,
            parity_error: self.parity_error || new.parity_error,
            framing_error: self.framing_error || new.framing_error,
            break_received: self.break_received || new.break_received,
            ..new
        };
        *self = events;
    }

    /// The status, with its events taken out.
    pub fn take_events(&mut self) -> (r: ModemStatus)
        ensures
            r == *old(self),
            *final(self) == reported(*old(self)),
    {
        let out = *self;
        self.overrun = false;
        self.parity_error = false;
        self.framing_error = false;
        self.break_received = false;
        out
    }
}

/// A serial port a device offers, as listed by [`ports`].
#[derive(Debug, Clone, Copy, PartialEq, Eq, Hash, Structural)]
pub struct PortInfo {
    /// The communications interface of a CDC-ACM function, or an FTDI port's
    /// interface.
    pub interface: u8,
    /// Which protocol the port speaks.
    pub kind: PortKind,
}

/// The protocol of a [`PortInfo`].
#[derive(Debug, Clone, Copy, PartialEq, Eq, Hash, Structural)]
pub enum PortKind {
    /// CDC Abstract Control Model.
    CdcAcm,
    /// An FTDI chip's port.
    Ftdi,
}

/// The port on an interface, if there is one.
pub open spec fn port_on(a: InterfaceDescriptor, vendor_id: u16) -> Option<PortInfo> {
    if cdc::acm(a) {
        Some(PortInfo { interface: a.number, kind: PortKind::CdcAcm })
    } else if vendor_id == ftdi::VENDOR_ID && has_bulk_pair(a) {
        Some(PortInfo { interface: a.number, kind: PortKind::Ftdi })
    } else {
        None
    }
}

/// The serial ports on a list of interfaces.
pub open spec fn ports_on(v: Seq<Interface>, vendor_id: u16) -> Seq<PortInfo>
    decreases v.len(),
{
    if v.len() == 0 {
        Seq::empty()
    } else {
        match port_on(crate::descriptors::main_alt(v.last()), vendor_id) {
            Some(p) => ports_on(v.drop_last(), vendor_id).push(p),
            None => ports_on(v.drop_last(), vendor_id),
        }
    }
}

fn find_port(a: &InterfaceDescriptor, vendor_id: u16) -> (r: Option<PortInfo>)
    ensures
        r == port_on(*a, vendor_id),
{
    if cdc::is_acm(a) {
        return Some(PortInfo { interface: a.number, kind: PortKind::CdcAcm });
    }
    if vendor_id == ftdi::VENDOR_ID && class::endpoint(a, Direction::In, TransferType::Bulk).is_some()
        && class::endpoint(a, Direction::Out, TransferType::Bulk).is_some() {
        return Some(PortInfo { interface: a.number, kind: PortKind::Ftdi });
    }
    None
}

/// The serial ports of a device, in descriptor order: every CDC-ACM
/// function, and on FTDI devices (vendor ID 0x0403) every port. Composite
/// devices often have several (a debug probe with two UARTs, a modem with
/// AT and diagnostic ports).
pub fn ports(cfg: &ConfigDescriptor, vendor_id: u16) -> (r: Vec<PortInfo>)
    requires
        cfg.wf(),
    ensures
        r@ == ports_on(cfg.interfaces@, vendor_id),
{
    let mut out: Vec<PortInfo> = Vec::new();
    let mut i: usize = 0;
    let ghost all = cfg.interfaces@;
    assert(all.take(0) =~= Seq::empty());
    while i < cfg.interfaces.len()
        invariant
            cfg.wf(),
            i <= cfg.interfaces@.len(),
            all == cfg.interfaces@,
            out@ == ports_on(all.take(i as int), vendor_id),
        decreases cfg.interfaces@.len() - i,
    {
        assert(all.take(i + 1).drop_last() =~= all.take(i as int));
        match find_port(cfg.interfaces[i].main_setting(), vendor_id) {
            Some(p) => {
                out.push(p);
            },
            None => {},
        }
        i += 1;
    }
    assert(all.take(i as int) =~= all);
    out
}

impl SerialPort {
    /// The port that opening a device opens: its first.
    pub fn open(cfg: &ConfigDescriptor, vendor_id: u16) -> (r: Result<PortInfo>)
        requires
            cfg.wf(),
        ensures
            outcome(r) == (if ports_on(cfg.interfaces@, vendor_id).len() > 0 {
                Ok::<PortInfo, ErrorView>(ports_on(cfg.interfaces@, vendor_id)[0])
            } else {
                Err(message(ErrorKind::NotSupported, "not a recognised USB serial adapter (CDC-ACM or FTDI)"@))
            }),
    {
        let all = ports(cfg, vendor_id);
        if all.len() == 0 {
            return Err(
                Error::with_message(
                    ErrorKind::NotSupported,
                    "not a recognised USB serial adapter (CDC-ACM or FTDI)",
                ),
            );
        }
        Ok(all[0])
    }
}

/// The first port in a list on the given interface.
pub open spec fn port_at(v: Seq<PortInfo>, interface: u8) -> Option<PortInfo>
    decreases v.len(),
{
    if v.len() == 0 {
        None
    } else if v[0].interface == interface {
        Some(v[0])
    } else {
        port_at(v.skip(1), interface)
    }
}

impl SerialPort {
    /// The port that opening an interface opens, whichever kind it is.
    pub fn open_interface(cfg: &ConfigDescriptor, vendor_id: u16, interface: u8) -> (r: Result<PortInfo>)
        requires
            cfg.wf(),
        ensures
            outcome(r) == (match port_at(ports_on(cfg.interfaces@, vendor_id), interface) {
                Some(p) => Ok::<PortInfo, ErrorView>(p),
                None => Err(message(ErrorKind::InvalidParam, "no serial port on that interface"@)),
            }),
    {
        let all = ports(cfg, vendor_id);
        let mut i: usize = 0;
        assert(all@.skip(0) =~= all@);
        while i < all.len()
            invariant
                i <= all@.len(),
                all@ == ports_on(cfg.interfaces@, vendor_id),
                port_at(all@, interface) == port_at(all@.skip(i as int), interface),
            decreases all@.len() - i,
        {
            assert(all@.skip(i as int)[0] == all@[i as int]);
            assert(all@.skip(i as int).skip(1) =~= all@.skip(i + 1));
            if all[i].interface == interface {
                return Ok(all[i]);
            }
            i += 1;
        }
        Err(Error::with_message(ErrorKind::InvalidParam, "no serial port on that interface"))
    }
}

/// Which kind of adapter a [`SerialPort`] drives.
#[derive(Debug, Clone, Copy, PartialEq, Eq, Hash, Structural)]
pub enum SerialKind {
    /// A CDC Abstract Control Model device.
    CdcAcm,
    /// An FTDI chip.
    Ftdi(FtdiChip),
}

/// What requests of a port are addressed to.
#[derive(Debug, Clone, Copy, PartialEq, Eq, Structural)]
pub enum Backend {
    /// A CDC-ACM communications interface.
    Acm { comm: u8 },
    /// A port of an FTDI chip.
    Ftdi {
        chip: FtdiChip,
        channel: u16,
        /// Current SET_DATA word, kept to toggle the break bit.
        data_word: u16,
    },
}

// ----- opening a port ----------------------------------------------------------------

/// What opening a CDC-ACM port needs to know of its descriptors.
#[derive(Debug, Clone, Copy, PartialEq, Eq)]
pub struct AcmPlan {
    /// The communications interface.
    pub comm: u8,
    /// The data interface.
    pub data_interface: u8,
    /// The alternate setting of the data interface with endpoints; it is
    /// selected unless it is 0.
    pub data_alternate: u8,
    /// The bulk IN endpoint.
    pub ep_in: u8,
    /// The size of its packets.
    pub ep_in_packet: u32,
    /// The bulk OUT endpoint.
    pub ep_out: u8,
    /// The notification endpoint and the size of the transfer to listen on it.
    pub notify: Option<(u8, u32)>,
}

/// The plan for a communications interface and the data setting that belongs
/// to it.
pub open spec fn acm_plan_with(
    comm_interface: u8,
    comm: InterfaceDescriptor,
    number: u8,
    data: InterfaceDescriptor,
) -> AcmPlan {
    let i = first_endpoint(data.endpoints@, Direction::In, TransferType::Bulk)->0;
    let o = first_endpoint(data.endpoints@, Direction::Out, TransferType::Bulk)->0;
    AcmPlan {
        comm: comm_interface,
        data_interface: number,
        data_alternate: data.alternate_setting,
        ep_in: i.address,
        ep_in_packet: bytes_per_frame(i.max_packet_size) as u32,
        ep_out: o.address,
        notify: match first_endpoint(comm.endpoints@, Direction::In, TransferType::Interrupt) {
            Some(e) => {
                let size = bytes_per_frame(e.max_packet_size) as u32;
                Some(
                    (
                        e.address,
                        if size < 16 {
                            16
                        } else {
                            size
                        },
                    ),
                )
            },
            None => None,
        },
    }
}

/// The plan for opening a CDC-ACM port, or why it cannot be opened.
pub open spec fn acm_plan(v: Seq<Interface>, comm_interface: u8) -> std::result::Result<AcmPlan, ErrorView> {
    match class::setting_of(v, comm_interface) {
        Err(e) => Err(e),
        Ok(comm) => if !cdc::acm(comm) {
            Err(message(ErrorKind::InvalidParam, "not a CDC-ACM communications interface"@))
        } else {
            match cdc::acm_data_interface(v, comm) {
                None => Err(message(ErrorKind::Io, "CDC-ACM function has no data interface"@)),
                Some(number) => match class::data_setting(v, number) {
                    None => Err(message(ErrorKind::Io, "CDC data interface lacks bulk endpoints"@)),
                    Some(data) => Ok(acm_plan_with(comm_interface, comm, number, data)),
                },
            }
        },
    }
}

impl SerialPort {
    /// Plans the opening of a CDC-ACM port given its communications interface.
    /// The matching data interface is found from the class descriptors; both are
    /// to be claimed.
    pub fn open_cdc_acm(cfg: &ConfigDescriptor, comm_interface: u8) -> (r: Result<AcmPlan>)
        requires
            cfg.wf(),
        ensures
            outcome(r) == acm_plan(cfg.interfaces@, comm_interface),
    {
        let comm = match class::interface(cfg, comm_interface) {
            Ok(a) => a,
            Err(e) => {
                return Err(e);
            },
        };
        if !cdc::is_acm(comm) {
            return Err(Error::with_message(ErrorKind::InvalidParam, "not a CDC-ACM communications interface"));
        }
        let number: u8 = match cdc::data_interface(cfg, comm) {
            Some(n) => n,
            None => {
                return Err(Error::with_message(ErrorKind::Io, "CDC-ACM function has no data interface"));
            },
        };
        // Some devices put the data endpoints on a non-zero alternate setting.
        let data = match class::find_data_setting(cfg, number) {
            Some(a) => a,
            None => {
                return Err(Error::with_message(ErrorKind::Io, "CDC data interface lacks bulk endpoints"));
            },
        };
        proof {
            class::lemma_data_setting_has_pair(cfg.interfaces@, number);
        }
        let notify = match class::endpoint(comm, Direction::In, TransferType::Interrupt) {
            Some(e) => {
                let size: u32 = e.max_packet_size();
                Some((e.address, if size < 16 { 16 } else { size }))
            },
            None => None,
        };
        let ep_in = class::endpoint(data, Direction::In, TransferType::Bulk);
        let ep_out = class::endpoint(data, Direction::Out, TransferType::Bulk);
        match (ep_in, ep_out) {
            (Some(i), Some(o)) => Ok(
                AcmPlan {
                    comm: comm_interface,
                    data_interface: number,
                    data_alternate: data.alternate_setting,
                    ep_in: i.address,
                    ep_in_packet: i.max_packet_size(),
                    ep_out: o.address,
                    notify,
                },
            ),
            _ => Err(Error::new(ErrorKind::Io)),
        }
    }
}

/// What opening an FTDI port needs to know of its descriptors.
#[derive(Debug, Clone, Copy, PartialEq, Eq, Structural)]
pub struct FtdiPlan {
    /// The port's interface.
    pub interface: u8,
    /// The bulk IN endpoint.
    pub ep_in: u8,
    /// The size of its packets, at least 3.
    pub ep_in_packet: u32,
    /// The bulk OUT endpoint.
    pub ep_out: u8,
}

/// The plan for opening an FTDI port, or why it cannot be opened.
pub open spec fn ftdi_plan(v: Seq<Interface>, interface: u8) -> std::result::Result<FtdiPlan, ErrorView> {
    match class::setting_of(v, interface) {
        Err(e) => Err(e),
        Ok(a) => match first_endpoint(a.endpoints@, Direction::In, TransferType::Bulk) {
            None => Err(message(ErrorKind::Io, "FTDI interface lacks a bulk IN endpoint"@)),
            Some(i) => match first_endpoint(a.endpoints@, Direction::Out, TransferType::Bulk) {
                None => Err(message(ErrorKind::Io, "FTDI interface lacks a bulk OUT endpoint"@)),
                Some(o) => Ok(
                    FtdiPlan {
                        interface,
                        ep_in: i.address,
                        ep_in_packet: if bytes_per_frame(i.max_packet_size) < 3 {
                            3
                        } else {
                            bytes_per_frame(i.max_packet_size) as u32
                        },
                        ep_out: o.address,
                    },
                ),
            },
        },
    }
}

impl SerialPort {
    /// Plans the opening of one port of an FTDI chip. Multi-port chips (FT2232,
    /// FT4232) expose one interface per port. Works for any vendor ID, for
    /// rebranded FTDI devices.
    pub fn open_ftdi(cfg: &ConfigDescriptor, interface: u8) -> (r: Result<FtdiPlan>)
        requires
            cfg.wf(),
        ensures
            outcome(r) == ftdi_plan(cfg.interfaces@, interface),
    {
        let iface = match class::interface(cfg, interface) {
            Ok(a) => a,
            Err(e) => {
                return Err(e);
            },
        };
        let ep_in = match class::endpoint(iface, Direction::In, TransferType::Bulk) {
            Some(e) => e,
            None => {
                return Err(Error::with_message(ErrorKind::Io, "FTDI interface lacks a bulk IN endpoint"));
            },
        };
        let ep_out = match class::endpoint(iface, Direction::Out, TransferType::Bulk) {
            Some(e) => e,
            None => {
                return Err(Error::with_message(ErrorKind::Io, "FTDI interface lacks a bulk OUT endpoint"));
            },
        };
        let size: u32 = ep_in.max_packet_size();
        Ok(
            FtdiPlan {
                interface,
                ep_in: ep_in.address,
                ep_in_packet: if size < 3 { 3 } else { size },
                ep_out: ep_out.address,
            },
        )
    }
}

// ----- an open port -------------------------------------------------------------------

/// A request to a port: a control request and the bytes that go with it.
#[derive(Debug)]
pub struct PortRequest {
    pub setup: ControlSetup,
    pub data: Vec<u8>,
}

/// What a [`PortRequest`] holds.
#[verifier::ext_equal]
pub struct PortRequestView {
    pub setup: ControlSetup,
    pub data: Seq<u8>,
}

impl View for PortRequest {
    type V = PortRequestView;

    open spec fn view(&self) -> PortRequestView {
        PortRequestView { setup: self.setup, data: self.data@ }
    }
}

/// What several requests hold.
pub open spec fn request_views(v: Seq<PortRequest>) -> Seq<PortRequestView> {
    Seq::new(v.len(), |i: int| v[i]@)
}

/// A USB serial port. See the [module documentation](self).
#[derive(Debug)]
pub struct SerialPort {
    /// Which kind of adapter this is.
    pub kind: SerialKind,
    /// The bulk IN endpoint.
    pub ep_in: u8,
    /// The size of its packets.
    pub ep_in_packet: usize,
    /// The bulk OUT endpoint.
    pub ep_out: u8,
    /// What requests are addressed to.
    pub backend: Backend,
    /// The line settings last set.
    pub line: Option<LineConfig>,
    /// Whether DTR is asserted.
    pub dtr: bool,
    /// Whether RTS is asserted.
    pub rts: bool,
    /// Data received but not yet read.
    pub rx: VecDeque<u8>,
    /// The latched modem status.
    pub status: ModemStatus,
    /// The timeout of reads, in nanoseconds.
    pub read_timeout: u64,
    /// The timeout of writes, in nanoseconds.
    pub write_timeout: u64,
}

/// What a [`SerialPort`] holds.
#[verifier::ext_equal]
pub struct SerialPortView {
    pub kind: SerialKind,
    pub ep_in: u8,
    pub ep_in_packet: usize,
    pub ep_out: u8,
    pub backend: Backend,
    pub line: Option<LineConfig>,
    pub dtr: bool,
    pub rts: bool,
    pub rx: Seq<u8>,
    pub status: ModemStatus,
    pub read_timeout: u64,
    pub write_timeout: u64,
}

impl View for SerialPort {
    type V = SerialPortView;

    open spec fn view(&self) -> SerialPortView {
        SerialPortView {
            kind: self.kind,
            ep_in: self.ep_in,
            ep_in_packet: self.ep_in_packet,
            ep_out: self.ep_out,
            backend: self.backend,
            line: self.line,
            dtr: self.dtr,
            rts: self.rts,
            rx: self.rx@,
            status: self.status,
            read_timeout: self.read_timeout,
            write_timeout: self.write_timeout,
        }
    }
}

/// A port that was just opened.
pub open spec fn fresh_port(kind: SerialKind, backend: Backend, ep_in: u8, packet: u32, ep_out: u8) -> SerialPortView {
    SerialPortView {
        kind,
        ep_in,
        ep_in_packet: packet as usize,
        ep_out,
        backend,
        line: None,
        dtr: false,
        rts: false,
        rx: Seq::empty(),
        status: quiet(),
        read_timeout: NO_TIMEOUT,
        write_timeout: NO_TIMEOUT,
    }
}

/// What holds of every open port: its kind is that of what requests go to,
/// and an FTDI packet has room for its two status bytes and some data.
pub open spec fn port_ok(p: SerialPortView) -> bool {
    &&& p.ep_in_packet <= 0xffff
    &&& match p.backend {
        Backend::Acm { .. } => p.kind == SerialKind::CdcAcm,
        Backend::Ftdi { chip, .. } => p.kind == SerialKind::Ftdi(chip) && p.ep_in_packet >= 3,
    }
}

/// A class request to a communications interface.
pub open spec fn acm_setup(comm: u8, request: u8, value: u16, length: u16) -> ControlSetup {
    setup_packet(
        Direction::Out,
        ControlType::Class,
        Recipient::Interface,
        request,
        value,
        comm as u16,
        length,
    )
}

/// A vendor request to an FTDI port.
pub open spec fn ftdi_setup(request: u8, value: u16, index: u16) -> ControlSetup {
    setup_packet(Direction::Out, ControlType::Vendor, Recipient::Device, request, value, index, 0)
}

/// A vendor request that reads from an FTDI port.
pub open spec fn ftdi_read_setup(request: u8, channel: u16, length: u16) -> ControlSetup {
    setup_packet(Direction::In, ControlType::Vendor, Recipient::Device, request, 0, channel, length)
}

/// The error of asking another adapter what only an FTDI chip can do.
pub open spec fn not_ftdi_error() -> ErrorView {
    message(ErrorKind::NotSupported, "only FTDI chips support this request"@)
}

/// A vendor request to the FTDI port of a backend.
pub open spec fn ftdi_request_of(b: Backend, request: u8, value: u16, index_high: u16) -> std::result::Result<
    ControlSetup,
    ErrorView,
> {
    match b {
        Backend::Ftdi { channel, .. } => Ok(ftdi_setup(request, value, index_high | channel)),
        Backend::Acm { .. } => Err(not_ftdi_error()),
    }
}

/// A vendor request that reads from the FTDI port of a backend.
pub open spec fn ftdi_read_of(b: Backend, request: u8, length: u16) -> std::result::Result<ControlSetup, ErrorView> {
    match b {
        Backend::Ftdi { channel, .. } => Ok(ftdi_read_setup(request, channel, length)),
        Backend::Acm { .. } => Err(not_ftdi_error()),
    }
}

/// A line coding on the wire.
pub open spec fn coding_bytes(c: LineConfig) -> Seq<u8> {
    u32_bytes(c.baud_rate) + seq![stop_code(c.stop_bits), parity_code(c.parity), bit_count(c.data_bits)]
}

/// The line settings that a line coding stands for.
pub open spec fn coding_of(b: Seq<u8>) -> LineConfig {
    LineConfig {
        baud_rate: le32_at(b, 0),
        data_bits: if b[6] == 5 {
            DataBits::Five
        } else if b[6] == 6 {
            DataBits::Six
        } else if b[6] == 7 {
            DataBits::Seven
        } else {
            DataBits::Eight
        },
        parity: if b[5] == 1 {
            Parity::Odd
        } else if b[5] == 2 {
            Parity::Even
        } else if b[5] == 3 {
            Parity::Mark
        } else if b[5] == 4 {
            Parity::Space
        } else {
            Parity::NoParity
        },
        stop_bits: if b[4] == 1 {
            StopBits::OnePointFive
        } else if b[4] == 2 {
            StopBits::Two
        } else {
            StopBits::One
        },
    }
}

/// The SET_DATA word of line settings.
pub open spec fn data_word_of(c: LineConfig) -> u16 {
    (bit_count(c.data_bits) + parity_code(c.parity) * 256 + stop_code(c.stop_bits) * 2048) as u16
}

/// The requests that set line settings, and the backend after they were
/// formed.
pub open spec fn line_requests(b: Backend, c: LineConfig) -> (
    Backend,
    std::result::Result<Seq<PortRequestView>, ErrorView>,
) {
    match b {
        Backend::Acm { comm } => (
            b,
            Ok(
                seq![
                    PortRequestView {
                        setup: acm_setup(comm, cdc::req::SET_LINE_CODING, 0, 7),
                        data: coding_bytes(c),
                    },
                ],
            ),
        ),
        Backend::Ftdi { chip, channel, data_word } => if c.data_bits == DataBits::Five || c.data_bits
            == DataBits::Six {
            (b, Err(message(ErrorKind::NotSupported, "FTDI chips only support 7 or 8 data bits"@)))
        } else {
            match ftdi::divisor_for(chip, c.baud_rate) {
                None => (
                    b,
                    Err(message(ErrorKind::InvalidParam, "baud rate out of range for this FTDI chip"@)),
                ),
                Some(d) => (
                    Backend::Ftdi { chip, channel, data_word: data_word_of(c) },
                    Ok(
                        seq![
                            PortRequestView {
                                setup: ftdi_setup(
                                    ftdi::req::SET_BAUD_RATE,
                                    (d % 0x1_0000) as u16,
                                    ftdi::baud_index((d / 0x1_0000) as u16, channel),
                                ),
                                data: Seq::empty(),
                            },
                            PortRequestView {
                                setup: ftdi_setup(ftdi::req::SET_DATA, data_word_of(c), 0 | channel),
                                data: Seq::empty(),
                            },
                        ],
                    ),
                ),
            }
        },
    }
}

/// What asking for the line settings comes to.
#[derive(Debug)]
pub enum LineQuery {
    /// They are known (or never were set).
    Known(Option<LineConfig>),
    /// Read 7 bytes; the outcome goes to [`line_coding_outcome`].
    Ask(ControlSetup),
}

/// The bits that DTR and RTS stand for.
pub open spec fn line_bits(dtr: bool, rts: bool) -> u16 {
    ((if dtr {
        1int
    } else {
        0
    }) + (if rts {
        2int
    } else {
        0
    })) as u16
}

/// A line that may be changed.
pub open spec fn changed(new: Option<bool>, now: bool) -> bool {
    match new {
        Some(on) => on,
        None => now,
    }
}

/// The request that changes DTR or RTS.
pub open spec fn lines_setup(p: SerialPortView, dtr: Option<bool>, rts: Option<bool>) -> ControlSetup {
    let value = line_bits(changed(dtr, p.dtr), changed(rts, p.rts));
    match p.backend {
        Backend::Acm { comm } => acm_setup(comm, cdc::req::SET_CONTROL_LINE_STATE, value, 0),
        // High byte: which lines to change; low byte: their values.
        Backend::Ftdi { channel, .. } => ftdi_setup(
            ftdi::req::SET_MODEM_CTRL,
            (line_bits(dtr is Some, rts is Some) * 256 + value) as u16,
            0 | channel,
        ),
    }
}

/// The `wValue` and mode of SET_FLOW_CTRL.
pub open spec fn flow_value(flow: FlowControl) -> (u16, u16) {
    match flow {
        FlowControl::NoFlow => (0, 0),
        FlowControl::RtsCts => (0, 0x0100),
        FlowControl::DtrDsr => (0, 0x0200),
        FlowControl::XonXoff { xon, xoff } => ((xoff * 256 + xon) as u16, 0x0400),
    }
}

/// The request that sets the flow control, if it takes one.
pub open spec fn flow_setup(b: Backend, flow: FlowControl) -> std::result::Result<Option<ControlSetup>, ErrorView> {
    match b {
        Backend::Acm { .. } => if flow == FlowControl::NoFlow {
            Ok(None)
        } else {
            Err(message(ErrorKind::NotSupported, "CDC-ACM has no flow-control request"@))
        },
        Backend::Ftdi { channel, .. } => Ok(
            Some(ftdi_setup(ftdi::req::SET_FLOW_CTRL, flow_value(flow).0, flow_value(flow).1 | channel)),
        ),
    }
}

/// The request that starts or ends a break.
pub open spec fn break_setup(b: Backend, on: bool) -> ControlSetup {
    match b {
        Backend::Acm { comm } => acm_setup(
            comm,
            cdc::req::SEND_BREAK,
            if on {
                0xffff
            } else {
                0
            },
            0,
        ),
        Backend::Ftdi { channel, data_word, .. } => ftdi_setup(
            ftdi::req::SET_DATA,
            if on {
                data_word | 0x4000
            } else {
                data_word
            },
            0 | channel,
        ),
    }
}

/// The request that switches the pins to another mode.
pub open spec fn bitmode_setup(b: Backend, mask: u8, mode: u8) -> std::result::Result<ControlSetup, ErrorView> {
    ftdi_request_of(b, ftdi::req::SET_BITMODE, (mode * 256 + mask) as u16, 0)
}

/// The requests that discard buffered data.
pub open spec fn purge_requests(b: Backend, input: bool, output: bool) -> Seq<ControlSetup> {
    match b {
        Backend::Acm { .. } => Seq::empty(),
        Backend::Ftdi { channel, .. } => {
            let i = if input {
                seq![ftdi_setup(ftdi::req::RESET, ftdi::reset::FLUSH_INPUT, 0 | channel)]
            } else {
                Seq::empty()
            };
            let o = if output {
                seq![ftdi_setup(ftdi::req::RESET, ftdi::reset::FLUSH_OUTPUT, 0 | channel)]
            } else {
                Seq::empty()
            };
            i + o
        },
    }
}

/// The payload of the FTDI packets in a transfer: each packet starts with two
/// status bytes.
pub open spec fn ftdi_payload(data: Seq<u8>, packet: int) -> Seq<u8>
    decreases data.len(),
{
    if data.len() == 0 || packet < 1 {
        Seq::empty()
    } else {
        let n = if packet < data.len() {
            packet
        } else {
            data.len() as int
        };
        let head = if n >= 2 {
            data.subrange(2, n)
        } else {
            Seq::empty()
        };
        head + ftdi_payload(data.skip(n), packet)
    }
}

/// The modem status after the FTDI packets in a transfer.
pub open spec fn ftdi_status(s: ModemStatus, data: Seq<u8>, packet: int) -> ModemStatus
    decreases data.len(),
{
    if data.len() == 0 || packet < 1 {
        s
    } else {
        let n = if packet < data.len() {
            packet
        } else {
            data.len() as int
        };
        let t = if n >= 2 {
            latched(s, ftdi::status_of(data[0], data[1]))
        } else {
            s
        };
        ftdi_status(t, data.skip(n), packet)
    }
}

/// A port after it received the data of one transfer.
pub open spec fn port_received(p: SerialPortView, data: Seq<u8>) -> SerialPortView {
    match p.backend {
        Backend::Acm { .. } => SerialPortView { rx: p.rx + data, ..p },
        Backend::Ftdi { .. } => SerialPortView {
            rx: p.rx + ftdi_payload(data, p.ep_in_packet as int),
            status: ftdi_status(p.status, data, p.ep_in_packet as int),
            ..p
        },
    }
}

/// How many bytes can be drained into a buffer of `len` bytes.
pub open spec fn drainable(rx: Seq<u8>, len: int) -> int {
    if rx.len() < len {
        rx.len() as int
    } else {
        len
    }
}

/// The size of a transfer that reads `want` bytes: whole packets, so that the
/// device never overruns the buffer, and no more than 64.
pub open spec fn fetch_len(p: SerialPortView, want: int) -> int {
    let packet = p.ep_in_packet as int;
    let payload = match p.backend {
        Backend::Acm { .. } => packet,
        Backend::Ftdi { .. } => packet - 2,
    };
    let packets = if want % payload == 0 {
        want / payload
    } else {
        want / payload + 1
    };
    if packets < 1 {
        packet
    } else if packets > 64 {
        64 * packet
    } else {
        packets * packet
    }
}

/// What a read asks for.
#[derive(Debug, Clone, Copy, PartialEq, Eq, Structural)]
pub enum ReadStep {
    /// The read is over; that many bytes are in the buffer.
    Done(usize),
    /// Read up to that many bytes from the bulk IN endpoint and hand them to
    /// [`SerialPort::received`].
    Fetch(usize),
}

/// Moves received data into a buffer.
pub fn drain(rx: &mut VecDeque<u8>, buf: &mut [u8]) -> (n: usize)
    ensures
        n == drainable(old(rx)@, old(buf)@.len() as int),
        final(rx)@ == old(rx)@.skip(n as int),
        final(buf)@ == old(rx)@.take(n as int) + old(buf)@.skip(n as int),
{
    let ghost all = rx@;
    let ghost before = buf@;
    let n: usize = if rx.len() < buf.len() {
        rx.len()
    } else {
        buf.len()
    };
    let mut i: usize = 0;
    assert(buf@ =~= all.take(0) + before.skip(0));
    assert(rx@ =~= all.skip(0));
    while i < n
        invariant
            i <= n,
            n <= all.len(),
            n <= before.len(),
            buf@.len() == before.len(),
            rx@ == all.skip(i as int),
            buf@ =~= all.take(i as int) + before.skip(i as int),
        decreases n - i,
    {
        match rx.pop_front() {
            Some(b) => {
                buf.set(i, b);
                assert(rx@ =~= all.skip(i + 1));
            },
            None => {},
        }
        i += 1;
    }
    n
}

impl SerialPort {
    /// An open CDC-ACM port.
    pub fn cdc_acm(plan: &AcmPlan) -> (r: SerialPort)
        requires
            plan.ep_in_packet <= 0xffff,
        ensures
            r@ == fresh_port(
                SerialKind::CdcAcm,
                Backend::Acm { comm: plan.comm },
                plan.ep_in,
                plan.ep_in_packet,
                plan.ep_out,
            ),
            port_ok(r@),
    {
        Self::fresh(
            SerialKind::CdcAcm,
            Backend::Acm { comm: plan.comm },
            plan.ep_in,
            plan.ep_in_packet,
            plan.ep_out,
        )
    }

    /// An open FTDI port, and the request that resets its state machine, as
    /// the Linux driver does on open.
    pub fn ftdi(plan: &FtdiPlan, chip: FtdiChip) -> (r: (SerialPort, ControlSetup))
        requires
            3 <= plan.ep_in_packet <= 0xffff,
        ensures
            r.0@ == fresh_port(
                SerialKind::Ftdi(chip),
                Backend::Ftdi { chip, channel: ftdi::channel_of(chip, plan.interface), data_word: 8 },
                plan.ep_in,
                plan.ep_in_packet,
                plan.ep_out,
            ),
            r.1 == ftdi_setup(
                ftdi::req::RESET,
                ftdi::reset::SIO,
                0 | ftdi::channel_of(chip, plan.interface),
            ),
            port_ok(r.0@),
    {
        let channel: u16 = chip.channel(plan.interface);
        let port = Self::fresh(
            SerialKind::Ftdi(chip),
            Backend::Ftdi { chip, channel, data_word: 8 },
            plan.ep_in,
            plan.ep_in_packet,
            plan.ep_out,
        );
        (port, vendor_request(ftdi::req::RESET, ftdi::reset::SIO, 0 | channel))
    }

    fn fresh(kind: SerialKind, backend: Backend, ep_in: u8, packet: u32, ep_out: u8) -> (r: SerialPort)
        ensures
            r@ == fresh_port(kind, backend, ep_in, packet, ep_out),
    {
        let p = SerialPort {
            kind,
            ep_in,
            ep_in_packet: packet as usize,
            ep_out,
            backend,
            line: None,
            dtr: false,
            rts: false,
            rx: VecDeque::new(),
            status: ModemStatus::default(),
            read_timeout: NO_TIMEOUT,
            write_timeout: NO_TIMEOUT,
        };
        assert(p@ =~= fresh_port(kind, backend, ep_in, packet, ep_out));
        p
    }

    /// Which kind of adapter this is.
    pub fn kind(&self) -> (r: SerialKind)
        ensures
            r == self@.kind,
    {
        self.kind
    }

    // ----- control ---------------------------------------------------------

    fn ftdi_request(&self, request: u8, value: u16, index_high: u16) -> (r: Result<ControlSetup>)
        ensures
            outcome(r) == ftdi_request_of(self@.backend, request, value, index_high),
    {
        match self.backend {
            Backend::Ftdi { channel, .. } => Ok(vendor_request(request, value, index_high | channel)),
            Backend::Acm { .. } => Err(not_ftdi()),
        }
    }

    fn ftdi_read(&self, request: u8, length: u16) -> (r: Result<ControlSetup>)
        ensures
            outcome(r) == ftdi_read_of(self@.backend, request, length),
    {
        match self.backend {
            Backend::Ftdi { channel, .. } => Ok(
                ControlSetup::new(
                    Direction::In,
                    ControlType::Vendor,
                    Recipient::Device,
                    request,
                    0,
                    channel,
                    length,
                ),
            ),
            Backend::Acm { .. } => Err(not_ftdi()),
        }
    }

    /// The requests that set baud rate and framing. Once they succeeded, call
    /// [`line_config_set`](Self::line_config_set).
    pub fn set_line_config(&mut self, config: &LineConfig) -> (r: Result<Vec<PortRequest>>)
        ensures
            ({
                let (backend, requests) = line_requests(old(self)@.backend, *config);
                &&& final(self)@ == (SerialPortView { backend, ..old(self)@ })
                &&& match requests {
                    Ok(v) => r is Ok && request_views(r->Ok_0@) == v,
                    Err(e) => r is Err && r->Err_0@ == e,
                }
            }),
    {
        let mut out: Vec<PortRequest> = Vec::new();
        match self.backend {
            Backend::Acm { comm } => {
                let mut data: Vec<u8> = Vec::new();
                bytes::put32(&mut data, config.baud_rate);
                data.push(config.stop_bits.code());
                data.push(config.parity.code());
                data.push(config.data_bits.count());
                assert(data@ =~= coding_bytes(*config));
                let setup = class_request(comm, cdc::req::SET_LINE_CODING, 0, 7);
                out.push(PortRequest { setup, data });
                assert(request_views(out@) =~= line_requests(self.backend, *config).1->Ok_0);
                Ok(out)
            },
            Backend::Ftdi { chip, channel, .. } => {
                if !matches!(config.data_bits, DataBits::Seven | DataBits::Eight) {
                    return Err(
                        Error::with_message(
                            ErrorKind::NotSupported,
                            "FTDI chips only support 7 or 8 data bits",
                        ),
                    );
                }
                let (value, index) = match ftdi::baud_request(chip, channel, config.baud_rate) {
                    Ok(p) => p,
                    Err(e) => {
                        return Err(e);
                    },
                };
                let word: u16 = config.data_bits.count() as u16 + config.parity.code() as u16 * 256
                    + config.stop_bits.code() as u16 * 2048;
                self.backend = Backend::Ftdi { chip, channel, data_word: word };
                let empty: Vec<u8> = Vec::new();
                let none: Vec<u8> = Vec::new();
                assert(empty@ =~= Seq::<u8>::empty() && none@ =~= Seq::<u8>::empty());
                out.push(
                    PortRequest { setup: vendor_request(ftdi::req::SET_BAUD_RATE, value, index), data: empty },
                );
                out.push(
                    PortRequest { setup: vendor_request(ftdi::req::SET_DATA, word, 0 | channel), data: none },
                );
                assert(request_views(out@) =~= line_requests(old(self)@.backend, *config).1->Ok_0);
                Ok(out)
            },
        }
    }

    /// Notes that line settings were set.
    pub fn line_config_set(&mut self, config: &LineConfig)
        ensures
            final(self)@ == (SerialPortView { line: Some(*config), ..old(self)@ }),
    {
        self.line = Some(*config);
    }

    /// Shortcut for [`set_line_config`](Self::set_line_config) with 8N1: the
    /// line settings to set.
    pub fn set_baud_rate(&self, baud_rate: u32) -> (r: LineConfig)
        ensures
            r == line_8n1(baud_rate),
    {
        LineConfig::new(baud_rate)
    }

    /// The line settings. For CDC-ACM the device is asked; for FTDI (which
    /// cannot report them) it is the last configuration set through this
    /// port, or `None` if there was none.
    pub fn line_config(&self) -> (r: LineQuery)
        ensures
            r == (match self@.backend {
                Backend::Ftdi { .. } => LineQuery::Known(self@.line),
                Backend::Acm { comm } => LineQuery::Ask(
                    setup_packet(
                        Direction::In,
                        ControlType::Class,
                        Recipient::Interface,
                        cdc::req::GET_LINE_CODING,
                        0,
                        comm as u16,
                        7,
                    ),
                ),
            }),
    {
        match self.backend {
            Backend::Ftdi { .. } => LineQuery::Known(self.line),
            Backend::Acm { comm } => LineQuery::Ask(
                ControlSetup::new(
                    Direction::In,
                    ControlType::Class,
                    Recipient::Interface,
                    cdc::req::GET_LINE_CODING,
                    0,
                    comm as u16,
                    7,
                ),
            ),
        }
    }

    /// The request that sets flow control, if one is needed. CDC-ACM has no
    /// flow-control request, so anything but [`FlowControl::NoFlow`] fails
    /// with [`ErrorKind::NotSupported`] there.
    pub fn set_flow_control(&self, flow: FlowControl) -> (r: Result<Option<ControlSetup>>)
        ensures
            outcome(r) == flow_setup(self@.backend, flow),
    {
        match self.backend {
            Backend::Acm { .. } => match flow {
                FlowControl::NoFlow => Ok(None),
                _ => Err(Error::with_message(ErrorKind::NotSupported, "CDC-ACM has no flow-control request")),
            },
            Backend::Ftdi { channel, .. } => {
                let value: u16 = match flow {
                    FlowControl::XonXoff { xon, xoff } => xoff as u16 * 256 + xon as u16,
                    _ => 0,
                };
                let mode: u16 = match flow {
                    FlowControl::NoFlow => 0,
                    FlowControl::RtsCts => 0x0100,
                    FlowControl::DtrDsr => 0x0200,
                    FlowControl::XonXoff { .. } => 0x0400,
                };
                Ok(Some(vendor_request(ftdi::req::SET_FLOW_CTRL, value, mode | channel)))
            },
        }
    }

    /// The request that asserts or clears DTR (Data Terminal Ready). Once it
    /// succeeded, call [`lines_set`](Self::lines_set).
    pub fn set_dtr(&self, on: bool) -> (r: ControlSetup)
        ensures
            r == lines_setup(self@, Some(on), None),
    {
        self.set_lines(Some(on), None)
    }

    /// The request that asserts or clears RTS (Request To Send). Once it
    /// succeeded, call [`lines_set`](Self::lines_set).
    pub fn set_rts(&self, on: bool) -> (r: ControlSetup)
        ensures
            r == lines_setup(self@, None, Some(on)),
    {
        self.set_lines(None, Some(on))
    }

    fn set_lines(&self, dtr: Option<bool>, rts: Option<bool>) -> (r: ControlSetup)
        ensures
            r == lines_setup(self@, dtr, rts),
    {
        let new_dtr = match dtr {
            Some(on) => on,
            None => self.dtr,
        };
        let new_rts = match rts {
            Some(on) => on,
            None => self.rts,
        };
        let value: u16 = (if new_dtr {
            1u16
        } else {
            0
        }) + (if new_rts {
            2u16
        } else {
            0
        });
        match self.backend {
            Backend::Acm { comm } => class_request(comm, cdc::req::SET_CONTROL_LINE_STATE, value, 0),
            Backend::Ftdi { channel, .. } => {
                let mask: u16 = (if dtr.is_some() {
                    1u16
                } else {
                    0
                }) + (if rts.is_some() {
                    2u16
                } else {
                    0
                });
                vendor_request(ftdi::req::SET_MODEM_CTRL, mask * 256 + value, 0 | channel)
            },
        }
    }

    /// Notes that DTR or RTS was changed.
    pub fn lines_set(&mut self, dtr: Option<bool>, rts: Option<bool>)
        ensures
            final(self)@ == (SerialPortView {
                dtr: changed(dtr, old(self)@.dtr),
                rts: changed(rts, old(self)@.rts),
                ..old(self)@
            }),
    {
        match dtr {
            Some(on) => {
                self.dtr = on;
            },
            None => {},
        }
        match rts {
            Some(on) => {
                self.rts = on;
            },
            None => {},
        }
    }

    /// The request that starts (`true`) or stops sending a break condition.
    pub fn set_break(&self, on: bool) -> (r: ControlSetup)
        ensures
            r == break_setup(self@.backend, on),
    {
        match self.backend {
            Backend::Acm { comm } => class_request(
                comm,
                cdc::req::SEND_BREAK,
                if on {
                    0xffff
                } else {
                    0
                },
                0,
            ),
            Backend::Ftdi { channel, data_word, .. } => {
                let word: u16 = if on {
                    data_word | 0x4000
                } else {
                    data_word
                };
                vendor_request(ftdi::req::SET_DATA, word, 0 | channel)
            },
        }
    }

    /// The request to make before [`modem_status`](Self::modem_status): FTDI
    /// chips are asked directly, for two bytes. CDC-ACM devices report changes
    /// through their notification endpoint.
    pub fn modem_status_request(&self) -> (r: Option<ControlSetup>)
        ensures
            r == (match self@.backend {
                Backend::Ftdi { channel, .. } => Some(ftdi_read_setup(ftdi::req::GET_MODEM_STATUS, channel, 2)),
                Backend::Acm { .. } => None,
            }),
    {
        match self.ftdi_read(ftdi::req::GET_MODEM_STATUS, 2) {
            Ok(setup) => Some(setup),
            Err(_) => None,
        }
    }

    /// The modem input lines, plus line errors and breaks seen since the last
    /// call. `asked` is what an FTDI chip answered, the outcome and the bytes;
    /// for a CDC-ACM device it is `None`.
    pub fn modem_status(&mut self, asked: Option<(Result<usize>, [u8; 2])>) -> (r: Result<ModemStatus>)
        ensures
            match asked {
                None => outcome(r) == Ok::<ModemStatus, ErrorView>(old(self)@.status) && final(self)@
                    == (SerialPortView { status: reported(old(self)@.status), ..old(self)@ }),
                Some((n, b)) => match short_outcome(outcome(n), 2) {
                    Err(e) => outcome(r) == Err::<ModemStatus, ErrorView>(e) && final(self)@ == old(self)@,
                    Ok(_) => {
                        let s = latched(old(self)@.status, ftdi::status_of(b@[0], b@[1]));
                        outcome(r) == Ok::<ModemStatus, ErrorView>(s) && final(self)@ == (SerialPortView {
                            status: reported(s),
                            ..old(self)@
                        })
                    },
                },
            },
    {
        match asked {
            None => {},
            Some((n, b)) => {
                match whole_answer(n, 2) {
                    Ok(()) => {},
                    Err(e) => {
                        return Err(e);
                    },
                }
                self.status.update(ftdi::decode_status(b[0], b[1]));
            },
        }
        Ok(self.status.take_events())
    }

    /// Takes a notification's status and data; whether to listen on.
    pub fn notified(&mut self, status: TransferStatus, data: &[u8]) -> (r: bool)
        ensures
            r == (status == TransferStatus::Completed),
            final(self)@ == (match cdc::serial_state(data@) {
                Some(s) => if r {
                    SerialPortView { status: latched(old(self)@.status, s), ..old(self)@ }
                } else {
                    old(self)@
                },
                None => old(self)@,
            }),
    {
        match status {
            TransferStatus::Completed => {},
            // cancelled, unplugged, or stalled: stop listening
            _ => {
                return false;
            },
        }
        match cdc::decode_serial_state(data) {
            Some(s) => {
                self.status.update(s);
            },
            None => {},
        }
        true
    }

    /// Discards buffered data: `input` drops data received but not yet read,
    /// `output` data written but not yet sent. CDC-ACM has no such request,
    /// so there only this side's receive buffer is dropped. What is returned
    /// are the requests to make.
    pub fn purge(&mut self, input: bool, output: bool) -> (r: Vec<ControlSetup>)
        ensures
            r@ == purge_requests(old(self)@.backend, input, output),
            final(self)@ == (if input {
                SerialPortView { rx: Seq::empty(), ..old(self)@ }
            } else {
                old(self)@
            }),
    {
        if input {
            self.rx = VecDeque::new();
            assert(self@.rx =~= Seq::empty());
        }
        let mut out: Vec<ControlSetup> = Vec::new();
        match self.backend {
            Backend::Acm { .. } => {},
            Backend::Ftdi { channel, .. } => {
                if input {
                    out.push(vendor_request(ftdi::req::RESET, ftdi::reset::FLUSH_INPUT, 0 | channel));
                }
                if output {
                    out.push(vendor_request(ftdi::req::RESET, ftdi::reset::FLUSH_OUTPUT, 0 | channel));
                }
            },
        }
        assert(out@ =~= purge_requests(self.backend, input, output));
        out
    }

    // ----- FTDI-specific ---------------------------------------------------

    /// FTDI only: the request that sets how long the chip holds a partly
    /// filled packet before sending it (1-255 ms, 16 by default). Lower means
    /// less latency for small messages at the cost of more USB traffic.
    pub fn set_latency_timer(&self, ms: u8) -> (r: Result<ControlSetup>)
        ensures
            outcome(r) == (if ms == 0 {
                Err::<ControlSetup, ErrorView>(
                    message(ErrorKind::InvalidParam, "latency timer must be at least 1 ms"@),
                )
            } else {
                ftdi_request_of(self@.backend, ftdi::req::SET_LATENCY_TIMER, ms as u16, 0)
            }),
    {
        if ms == 0 {
            return Err(Error::with_message(ErrorKind::InvalidParam, "latency timer must be at least 1 ms"));
        }
        self.ftdi_request(ftdi::req::SET_LATENCY_TIMER, ms as u16, 0)
    }

    /// FTDI only: the request that reads the latency timer in milliseconds, a
    /// byte whose outcome goes to [`byte_outcome`].
    pub fn latency_timer(&self) -> (r: Result<ControlSetup>)
        ensures
            outcome(r) == ftdi_read_of(self@.backend, ftdi::req::GET_LATENCY_TIMER, 1),
    {
        self.ftdi_read(ftdi::req::GET_LATENCY_TIMER, 1)
    }

    /// FTDI only: the request that switches the pins to another mode (see
    /// [`ftdi::bitmode`]); `mask` selects outputs for the bit-bang modes. Use
    /// [`ftdi::bitmode::RESET`] to return to UART mode.
    pub fn set_bitmode(&self, mask: u8, mode: u8) -> (r: Result<ControlSetup>)
        ensures
            outcome(r) == bitmode_setup(self@.backend, mask, mode),
    {
        self.ftdi_request(ftdi::req::SET_BITMODE, mode as u16 * 256 + mask as u16, 0)
    }

    /// FTDI only: the request that reads the instantaneous state of the data
    /// pins (bit-bang modes), a byte whose outcome goes to [`byte_outcome`].
    pub fn read_pins(&self) -> (r: Result<ControlSetup>)
        ensures
            outcome(r) == ftdi_read_of(self@.backend, ftdi::req::READ_PINS, 1),
    {
        self.ftdi_read(ftdi::req::READ_PINS, 1)
    }

    // ----- data ------------------------------------------------------------

    /// Sets the timeout that reads use unless told otherwise. [`NO_TIMEOUT`]
    /// (the default) blocks until data arrives.
    pub fn set_read_timeout(&mut self, timeout: u64)
        ensures
            final(self)@ == (SerialPortView { read_timeout: timeout, ..old(self)@ }),
    {
        self.read_timeout = timeout;
    }

    /// Sets the timeout that writes use unless told otherwise.
    pub fn set_write_timeout(&mut self, timeout: u64)
        ensures
            final(self)@ == (SerialPortView { write_timeout: timeout, ..old(self)@ }),
    {
        self.write_timeout = timeout;
    }

    /// The transfer that sends data through the port's handle.
    pub fn write_with_timeout(&self, handle: &DeviceHandle, data: &[u8], timeout: u64) -> (r: Result<Transfer>)
        ensures
            transfer_outcome(r) == write_transfer(TransferType::Bulk, self@.ep_out, data@, timeout),
    {
        handle.bulk_write(self.ep_out, data, timeout)
    }

    /// Starts reading whatever is available: takes what was received already,
    /// or says how much to read from the device.
    pub fn read_with_timeout(&mut self, buf: &mut [u8]) -> (r: ReadStep)
        requires
            port_ok(old(self)@),
            old(self)@.ep_in_packet > 0,
        ensures
            port_ok(final(self)@),
            old(buf)@.len() == 0 ==> r == ReadStep::Done(0) && final(self)@ == old(self)@ && final(buf)@ == old(
                buf,
            )@,
            old(buf)@.len() > 0 && old(self)@.rx.len() > 0 ==> ({
                let n = drainable(old(self)@.rx, old(buf)@.len() as int);
                &&& r == ReadStep::Done(n as usize)
                &&& n > 0
                &&& final(self)@ == (SerialPortView { rx: old(self)@.rx.skip(n), ..old(self)@ })
                &&& final(buf)@ == old(self)@.rx.take(n) + old(buf)@.skip(n)
            }),
            old(buf)@.len() > 0 && old(self)@.rx.len() == 0 ==> r == ReadStep::Fetch(
                fetch_len(old(self)@, old(buf)@.len() as int) as usize,
            ) && final(self)@ == old(self)@ && final(buf)@ == old(buf)@,
    {
        if buf.len() == 0 {
            return ReadStep::Done(0);
        }
        if self.rx.len() > 0 {
            let n: usize = drain(&mut self.rx, buf);
            return ReadStep::Done(n);
        }
        let packet: usize = self.ep_in_packet;
        let payload: usize = match self.backend {
            Backend::Acm { .. } => packet,
            Backend::Ftdi { .. } => packet - 2,
        };
        let want: usize = buf.len();
        let whole: usize = want / payload;
        let packets: usize = if whole > 64 {
            64
        } else if want % payload == 0 {
            if whole < 1 {
                1
            } else {
                whole
            }
        } else if whole == 64 {
            64
        } else {
            whole + 1
        };
        assert(1 <= packets <= 64);
        assert(packets * packet <= 64 * 0xffff) by (nonlinear_arith)
            requires
                packets <= 64,
                packet <= 0xffff,
        ;
        ReadStep::Fetch(packets * packet)
    }

    /// Takes the data of a transfer from the device and what it fills of the
    /// buffer. An FTDI chip sends a status-only packet every latency period
    /// even when idle: a read that got none is not over yet and the transfer
    /// is to be repeated.
    pub fn received(&mut self, data: &[u8], buf: &mut [u8]) -> (r: Option<usize>)
        requires
            port_ok(old(self)@),
        ensures
            port_ok(final(self)@),
            ({
                let p = port_received(old(self)@, data@);
                let n = drainable(p.rx, old(buf)@.len() as int);
                if p.rx.len() == 0 {
                    r is None && final(self)@ == p && final(buf)@ == old(buf)@
                } else {
                    &&& r == Some(n as usize)
                    &&& final(self)@ == (SerialPortView { rx: p.rx.skip(n), ..p })
                    &&& final(buf)@ == p.rx.take(n) + old(buf)@.skip(n)
                }
            }),
    {
        match self.backend {
            Backend::Acm { .. } => {
                append(&mut self.rx, data);
            },
            Backend::Ftdi { .. } => {
                let packet: usize = self.ep_in_packet;
                unpack(&mut self.rx, &mut self.status, data, packet);
            },
        }
        assert(self@ =~= port_received(old(self)@, data@));
        if self.rx.len() > 0 {
            let n: usize = drain(&mut self.rx, buf);
            return Some(n);
        }
        None
    }
}

fn unpack(rx: &mut VecDeque<u8>, status: &mut ModemStatus, data: &[u8], packet: usize)
    requires
        packet >= 3,
    ensures
        final(rx)@ == old(rx)@ + ftdi_payload(data@, packet as int),
        *final(status) == ftdi_status(*old(status), data@, packet as int),
{
    let mut pos: usize = 0;
    let ghost p = packet as int;
    let ghost start = rx@;
    let ghost first = *status;
    assert(data@.skip(0) =~= data@);
    while pos < data.len()
        invariant
            pos <= data@.len(),
            p == packet,
            packet >= 3,
            start + ftdi_payload(data@, p) =~= rx@ + ftdi_payload(data@.skip(pos as int), p),
            ftdi_status(first, data@, p) == ftdi_status(*status, data@.skip(pos as int), p),
        decreases data@.len() - pos,
    {
        let ghost rest = data@.skip(pos as int);
        let ghost before = rx@;
        let left: usize = data.len() - pos;
        let n: usize = if packet < left {
            packet
        } else {
            left
        };
        let ghost head = if n >= 2 {
            rest.subrange(2, n as int)
        } else {
            Seq::<u8>::empty()
        };
        if n >= 2 {
            status.update(ftdi::decode_status(data[pos], data[pos + 1]));
            let part = slice_subrange(data, pos + 2, pos + n);
            assert(part@ =~= head);
            append(rx, part);
        }
        assert(rx@ =~= before + head);
        assert(rest.skip(n as int) =~= data@.skip(pos + n));
        assert(ftdi_payload(rest, p) == head + ftdi_payload(rest.skip(n as int), p));
        proof {
            lemma_regroup(before, head, ftdi_payload(rest.skip(n as int), p));
        }
        pos = pos + n;
    }
    assert(data@.skip(pos as int).len() == 0);
    assert(rx@ + ftdi_payload(data@.skip(pos as int), p) =~= rx@);
}

proof fn lemma_regroup(a: Seq<u8>, b: Seq<u8>, c: Seq<u8>)
    ensures
        a + (b + c) == a + b + c,
{
    assert(a + (b + c) =~= a + b + c);
}

fn append(rx: &mut VecDeque<u8>, data: &[u8])
    ensures
        final(rx)@ == old(rx)@ + data@,
{
    let ghost before = rx@;
    let mut i: usize = 0;
    while i < data.len()
        invariant
            i <= data@.len(),
            rx@ =~= before + data@.take(i as int),
        decreases data@.len() - i,
    {
        rx.push_back(data[i]);
        i += 1;
    }
}

fn not_ftdi() -> (r: Error)
    ensures
        r@ == not_ftdi_error(),
{
    Error::with_message(ErrorKind::NotSupported, "only FTDI chips support this request")
}

fn class_request(comm: u8, request: u8, value: u16, length: u16) -> (r: ControlSetup)
    ensures
        r == acm_setup(comm, request, value, length),
{
    ControlSetup::new(
        Direction::Out,
        ControlType::Class,
        Recipient::Interface,
        request,
        value,
        comm as u16,
        length,
    )
}

fn vendor_request(request: u8, value: u16, index: u16) -> (r: ControlSetup)
    ensures
        r == ftdi_setup(request, value, index),
{
    ControlSetup::new(Direction::Out, ControlType::Vendor, Recipient::Device, request, value, index, 0)
}

/// The outcome of a request that an FTDI chip must answer with `want` bytes.
pub open spec fn short_outcome(r: std::result::Result<usize, ErrorView>, want: int) -> std::result::Result<
    (),
    ErrorView,
> {
    match r {
        Err(e) => Err(e),
        Ok(n) => if n < want {
            Err(message(ErrorKind::Io, "short response from FTDI chip"@))
        } else {
            Ok(())
        },
    }
}

fn whole_answer(r: Result<usize>, want: usize) -> (x: Result<()>)
    ensures
        outcome(x) == short_outcome(outcome(r), want as int),
{
    match r {
        Err(e) => Err(e),
        Ok(n) => if n < want {
            Err(Error::with_message(ErrorKind::Io, "short response from FTDI chip"))
        } else {
            Ok(())
        },
    }
}

/// Interprets the outcome of reading one byte from an FTDI chip.
pub fn byte_outcome(r: Result<usize>, byte: u8) -> (x: Result<u8>)
    ensures
        outcome(x) == (match short_outcome(outcome(r), 1) {
            Ok(_) => Ok::<u8, ErrorView>(byte),
            Err(e) => Err(e),
        }),
{
    match whole_answer(r, 1) {
        Ok(()) => Ok(byte),
        Err(e) => Err(e),
    }
}

/// Interprets the outcome of GET_LINE_CODING.
pub fn line_coding_outcome(r: Result<usize>, b: &[u8]) -> (x: Result<Option<LineConfig>>)
    requires
        b@.len() >= 7,
    ensures
        outcome(x) == (match outcome(r) {
            Err(e) => Err::<Option<LineConfig>, ErrorView>(e),
            Ok(n) => if n < 7 {
                Err(message(ErrorKind::Io, "short GET_LINE_CODING response"@))
            } else {
                Ok(Some(coding_of(b@)))
            },
        }),
{
    match r {
        Err(e) => {
            return Err(e);
        },
        Ok(n) => {
            if n < 7 {
                return Err(Error::with_message(ErrorKind::Io, "short GET_LINE_CODING response"));
            }
        },
    }
    let data_bits = match b[6] {
        5 => DataBits::Five,
        6 => DataBits::Six,
        7 => DataBits::Seven,
        _ => DataBits::Eight,
    };
    let parity = match b[5] {
        1 => Parity::Odd,
        2 => Parity::Even,
        3 => Parity::Mark,
        4 => Parity::Space,
        _ => Parity::NoParity,
    };
    let stop_bits = match b[4] {
        1 => StopBits::OnePointFive,
        2 => StopBits::Two,
        _ => StopBits::One,
    };
    Ok(Some(LineConfig { baud_rate: le32(b, 0), data_bits, parity, stop_bits }))
}

/// How long a read that has waited `waited` of its `timeout` (both in
/// nanoseconds) waits for the next transfer: fails with
/// [`ErrorKind::Timeout`] once less than a millisecond is left.
pub fn fetch_wait(timeout: u64, waited: u64) -> (r: Result<u64>)
    ensures
        outcome(r) == (if timeout == NO_TIMEOUT {
            Ok::<u64, ErrorView>(NO_TIMEOUT)
        } else if timeout - waited >= 1_000_000 {
            Ok((timeout - waited) as u64)
        } else {
            Err(plain(ErrorKind::Timeout))
        }),
{
    if timeout == NO_TIMEOUT {
        return Ok(NO_TIMEOUT);
    }
    if timeout >= waited && timeout - waited >= 1_000_000 {
        Ok(timeout - waited)
    } else {
        Err(Error::new(ErrorKind::Timeout))
    }
}

// ----- what holds of ports ------------------------------------------------------------

/// Line settings read back from a line coding as they were set.
pub proof fn lemma_line_coding_round_trip(c: LineConfig)
    ensures
        coding_bytes(c).len() == 7,
        coding_of(coding_bytes(c)) == c,
{
    let tail = seq![stop_code(c.stop_bits), parity_code(c.parity), bit_count(c.data_bits)];
    bytes::lemma_le_round_trip(0, c.baud_rate, Seq::empty(), tail);
    assert(Seq::<u8>::empty() + u32_bytes(c.baud_rate) + tail =~= coding_bytes(c));
}

/// Error and break flags latch: an event that was seen stays until it is
/// reported, whatever comes after it, while the lines are those last seen.
pub proof fn lemma_events_latch(s: ModemStatus, a: ModemStatus, b: ModemStatus)
    ensures
        a.overrun ==> latched(latched(s, a), b).overrun,
        a.parity_error ==> latched(latched(s, a), b).parity_error,
        a.framing_error ==> latched(latched(s, a), b).framing_error,
        a.break_received ==> latched(latched(s, a), b).break_received,
        latched(latched(s, a), b).cts == b.cts,
        latched(latched(s, a), b).dsr == b.dsr,
        latched(latched(s, a), b).ring == b.ring,
        latched(latched(s, a), b).dcd == b.dcd,
        latched(reported(s), b) == b,
{
}

/// Only the lines that are changed are touched: setting DTR leaves RTS as it
/// was, and the other way round.
pub proof fn lemma_lines_are_independent(p: SerialPortView, on: bool)
    ensures
        changed(None, p.rts) == p.rts,
        changed(None, p.dtr) == p.dtr,
        changed(Some(on), p.dtr) == on,
        p.backend matches Backend::Ftdi { .. } ==> lines_setup(p, Some(on), None).value / 256 == 1 && lines_setup(
            p,
            None,
            Some(on),
        ).value / 256 == 2,
{
}

/// A transfer that reads from a port is a whole number of packets, at least
/// one and at most 64.
pub proof fn lemma_fetch_is_whole_packets(p: SerialPortView, want: int)
    requires
        port_ok(p),
        p.ep_in_packet > 0,
        want > 0,
    ensures
        fetch_len(p, want) % (p.ep_in_packet as int) == 0,
        p.ep_in_packet <= fetch_len(p, want) <= 64 * p.ep_in_packet,
{
    let packet = p.ep_in_packet as int;
    let payload = match p.backend {
        Backend::Acm { .. } => packet,
        Backend::Ftdi { .. } => packet - 2,
    };
    let packets = if want % payload == 0 {
        want / payload
    } else {
        want / payload + 1
    };
    let n = if packets < 1 {
        1
    } else if packets > 64 {
        64
    } else {
        packets
    };
    assert(1 * packet == packet);
    assert(fetch_len(p, want) == n * packet);
    vstd::arithmetic::div_mod::lemma_mod_multiples_basic(n, packet);
    assert(packet <= n * packet <= 64 * packet) by (nonlinear_arith)
        requires
            1 <= n <= 64,
            packet > 0,
    ;
}

/// The port on an interface is the first one that is, if any is.
pub proof fn lemma_port_at(v: Seq<PortInfo>, interface: u8, k: int)
    requires
        0 <= k <= v.len(),
        forall|j: int| 0 <= j < k ==> !((#[trigger] v[j]).interface == interface),
    ensures
        k == v.len() ==> port_at(v, interface) is None,
        k < v.len() && v[k].interface == interface ==> port_at(v, interface) == Some(v[k]),
    decreases k,
{
    if k > 0 {
        let w = v.skip(1);
        assert(!(v[0].interface == interface));
        assert forall|j: int| 0 <= j < k - 1 implies !((#[trigger] w[j]).interface == interface) by {
            assert(w[j] == v[j + 1]);
        }
        if k < v.len() {
            assert(w[k - 1] == v[k]);
        }
        lemma_port_at(w, interface, k - 1);
    }
}

/// What a line configuration looks like on the wire of a CDC-ACM port: the
/// rate, low byte first, then the stop bits, the parity and the data bits.
pub proof fn lemma_line_coding_layout(c: LineConfig)
    ensures
        ({
            let b = coding_bytes(c);
            &&& b.len() == 7
            &&& le32_at(b, 0) == c.baud_rate
            &&& b[4] == 0 <==> c.stop_bits == StopBits::One
            &&& b[4] == 1 <==> c.stop_bits == StopBits::OnePointFive
            &&& b[4] == 2 <==> c.stop_bits == StopBits::Two
            &&& b[5] == 0 <==> c.parity == Parity::NoParity
            &&& b[5] == 1 <==> c.parity == Parity::Odd
            &&& b[5] == 2 <==> c.parity == Parity::Even
            &&& b[5] == 3 <==> c.parity == Parity::Mark
            &&& b[5] == 4 <==> c.parity == Parity::Space
            &&& b[6] == 5 <==> c.data_bits == DataBits::Five
            &&& b[6] == 6 <==> c.data_bits == DataBits::Six
            &&& b[6] == 7 <==> c.data_bits == DataBits::Seven
            &&& b[6] == 8 <==> c.data_bits == DataBits::Eight
        }),
        line_8n1(c.baud_rate).baud_rate == c.baud_rate,
        line_8n1(c.baud_rate).data_bits == DataBits::Eight,
        line_8n1(c.baud_rate).parity == Parity::NoParity,
        line_8n1(c.baud_rate).stop_bits == StopBits::One,
{
    let b = coding_bytes(c);
    let r = u32_bytes(c.baud_rate);
    assert(b[0] == r[0] && b[1] == r[1] && b[2] == r[2] && b[3] == r[3]);
    bytes::lemma_written_byte_order(0, c.baud_rate, 0);
}

/// A CDC-ACM port takes its line configuration in one request, 0x20 with seven
/// bytes, to its communications interface.
pub proof fn lemma_acm_line_request(comm: u8, c: LineConfig)
    ensures
        ({
            let (b, r) = line_requests(Backend::Acm { comm }, c);
            let s = r->Ok_0[0].setup;
            &&& b == (Backend::Acm { comm })
            &&& r is Ok
            &&& r->Ok_0.len() == 1
            &&& r->Ok_0[0].data == coding_bytes(c)
            &&& s.request_type == 0x21
            &&& s.request == 0x20
            &&& s.value == 0
            &&& s.index == comm
            &&& s.length == 7
        }),
{
}

/// An FTDI chip takes the rate by request 3 and the data format by request 4,
/// in that order, both to the device; it has seven or eight data bits. The
/// format has the data bits in its low byte, then the parity and, from bit 11
/// on, the stop bits; it is kept for the break.
pub proof fn lemma_ftdi_line_requests(chip: FtdiChip, channel: u16, word: u16, c: LineConfig)
    ensures
        ({
            let before = Backend::Ftdi { chip, channel, data_word: word };
            let (b, r) = line_requests(before, c);
            let v = r->Ok_0;
            let w = v[1].setup.value;
            &&& r is Ok <==> (c.data_bits == DataBits::Seven || c.data_bits == DataBits::Eight) && ftdi::divisor_for(
                chip,
                c.baud_rate,
            ) is Some
            &&& r is Err ==> b == before
            &&& c.data_bits == DataBits::Five || c.data_bits == DataBits::Six ==> r->Err_0.kind == ErrorKind::NotSupported
            &&& r is Ok ==> {
                &&& v.len() == 2
                &&& (v[0].setup.request_type, v[0].setup.request) == (0x40u8, 3u8)
                &&& v[0].setup.value == ftdi::divisor_for(chip, c.baud_rate)->0 % 0x1_0000
                &&& (v[1].setup.request_type, v[1].setup.request) == (0x40u8, 4u8)
                &&& v[0].data.len() == 0 && v[1].data.len() == 0
                &&& w % 256 == 7 <==> c.data_bits == DataBits::Seven
                &&& w % 256 == 8 <==> c.data_bits == DataBits::Eight
                &&& w / 256 % 8 == parity_code(c.parity)
                &&& w / 2048 == stop_code(c.stop_bits)
                &&& b == (Backend::Ftdi { chip, channel, data_word: w })
            }
        }),
{
}

/// DTR is bit 0 and RTS is bit 1 of the control lines; setting one leaves the
/// other as it was.
pub proof fn lemma_control_lines(p: SerialPortView, on: bool)
    ensures
        p.backend matches Backend::Acm { comm } ==> {
            let d = lines_setup(p, Some(on), None);
            let r = lines_setup(p, None, Some(on));
            &&& (d.request_type, d.request) == (0x21u8, 0x22u8)
            &&& d.index == comm
            &&& d.length == 0
            &&& (d.value % 2 == 1 <==> on) && (d.value / 2 % 2 == 1 <==> p.rts) && d.value < 4
            &&& (r.value % 2 == 1 <==> p.dtr) && (r.value / 2 % 2 == 1 <==> on) && r.value < 4
        },
        p.backend is Ftdi ==> {
            let d = lines_setup(p, Some(on), None);
            let r = lines_setup(p, None, Some(on));
            &&& (d.request_type, d.request) == (0x40u8, 1u8)
            &&& (d.value % 2 == 1 <==> on) && d.value / 256 == 1
            &&& (r.value / 2 % 2 == 1 <==> on) && r.value / 256 == 2
        },
{
}

/// The flow control of an FTDI chip is set by request 2: the mode is in the
/// high byte of the index, and the two characters are in the value. A CDC-ACM
/// port has none to set.
pub proof fn lemma_flow_requests(b: Backend, flow: FlowControl)
    ensures
        b is Acm && flow == FlowControl::NoFlow ==> flow_setup(b, flow) == Ok::<Option<ControlSetup>, ErrorView>(None),
        b is Acm && flow != FlowControl::NoFlow ==> flow_setup(b, flow) is Err && flow_setup(b, flow)->Err_0.kind
            == ErrorKind::NotSupported,
        b matches Backend::Ftdi { channel, .. } ==> {
            let s = flow_setup(b, flow)->Ok_0->0;
            &&& flow_setup(b, flow) is Ok
            &&& flow_setup(b, flow)->Ok_0 is Some
            &&& (s.request_type, s.request) == (0x40u8, 2u8)
            &&& flow is NoFlow ==> s.index == 0 | channel && s.value == 0
            &&& flow is RtsCts ==> s.index == 0x0100 | channel && s.value == 0
            &&& flow is DtrDsr ==> s.index == 0x0200 | channel && s.value == 0
            &&& flow matches FlowControl::XonXoff { xon, xoff } ==> s.index == 0x0400 | channel && s.value % 256 == xon
                && s.value / 256 == xoff
        },
{
}

/// A break on a CDC-ACM port lasts until it is ended; on an FTDI chip it is bit
/// 14 of the data format, which is otherwise kept.
pub proof fn lemma_break_requests(b: Backend)
    ensures
        b matches Backend::Acm { comm } ==> {
            let on = break_setup(b, true);
            let off = break_setup(b, false);
            &&& (on.request_type, on.request, on.index) == (0x21u8, 0x23u8, comm as u16)
            &&& on.value == 0xffff
            &&& off == (ControlSetup { value: 0, ..on })
        },
        b matches Backend::Ftdi { data_word, .. } ==> {
            let on = break_setup(b, true);
            let off = break_setup(b, false);
            &&& (on.request_type, on.request) == (0x40u8, 4u8)
            &&& on.value == data_word | 0x4000
            &&& off == (ControlSetup { value: data_word, ..on })
        },
{
}

/// The pins are switched by request 0x0b, with the mode above the mask; only
/// FTDI chips have that.
pub proof fn lemma_bitmode_requests(b: Backend, mask: u8, mode: u8)
    ensures
        bitmode_setup(b, mask, mode) is Ok <==> b is Ftdi,
        b is Acm ==> bitmode_setup(b, mask, mode)->Err_0.kind == ErrorKind::NotSupported,
        bitmode_setup(b, mask, mode) matches Ok(s) ==> s.request_type == 0x40 && s.request == 0x0b && s.value / 256 == mode
            && s.value % 256 == mask && s.length == 0,
{
}

/// What is purged on the chip: the input by value 2 and the output by value 1
/// of request 0.
pub proof fn lemma_purge_requests(b: Backend, input: bool, output: bool)
    ensures
        ({
            let v = purge_requests(b, input, output);
            let n = (if input { 1int } else { 0 }) + (if output { 1int } else { 0 });
            &&& b is Acm ==> v.len() == 0
            &&& b is Ftdi ==> v.len() == n
            &&& b is Ftdi && input ==> v[0].value == 2 && v[0].request == 0 && v[0].request_type == 0x40
            &&& b is Ftdi && output ==> v.last().value == 1 && v.last().request == 0 && v.last().request_type == 0x40
        }),
{
}

/// Every packet of an FTDI chip starts with two status bytes; what follows them
/// is data.
pub proof fn lemma_ftdi_packets(s: ModemStatus, head: Seq<u8>, rest: Seq<u8>, packet: int)
    requires
        packet >= 2,
        head.len() >= 2,
        head.len() == packet || (head.len() < packet && rest.len() == 0),
    ensures
        ftdi_payload(head + rest, packet) == head.skip(2) + ftdi_payload(rest, packet),
        ftdi_status(s, head + rest, packet) == ftdi_status(
            latched(s, ftdi::status_of(head[0], head[1])),
            rest,
            packet,
        ),
        ftdi_payload(Seq::empty(), packet).len() == 0,
        ftdi_status(s, Seq::empty(), packet) == s,
{
    let d = head + rest;
    let n = if packet < d.len() {
        packet
    } else {
        d.len() as int
    };
    assert(n == head.len());
    assert(d.subrange(2, n) =~= head.skip(2));
    assert(d.skip(n) =~= rest);
    assert(d[0] == head[0] && d[1] == head[1]);
}

/// What a CDC-ACM port receives is data throughout.
pub proof fn lemma_received_data(p: SerialPortView, data: Seq<u8>)
    ensures
        p.backend is Acm ==> port_received(p, data).rx == p.rx + data && port_received(p, data).status == p.status,
        p.rx.is_prefix_of(port_received(p, data).rx),
{
}

/// As much is drained as there is and as fits.
pub proof fn lemma_drained(rx: Seq<u8>, len: int)
    requires
        0 <= len,
    ensures
        drainable(rx, len) <= len,
        drainable(rx, len) <= rx.len(),
        drainable(rx, len) == len || drainable(rx, len) == rx.len(),
{
}

/// As many whole packets are fetched as hold what is wanted, but 64 at most.
pub proof fn lemma_fetch_covers_want(p: SerialPortView, want: int)
    requires
        port_ok(p),
        p.ep_in_packet > 0,
        want > 0,
    ensures
        ({
            let packet = p.ep_in_packet as int;
            let payload = if p.backend is Ftdi { packet - 2 } else { packet };
            let n = fetch_len(p, want);
            n == 64 * packet || exists|k: int| n == #[trigger] (k * packet) && k >= 1 && k * payload >= want && (k - 1)
                * payload < want
        }),
{
    let packet = p.ep_in_packet as int;
    let payload = if p.backend is Ftdi { packet - 2 } else { packet };
    let q = want / payload;
    assert(q * payload <= want < (q + 1) * payload && q >= 0) by (nonlinear_arith)
        requires
            q == want / payload,
            want > 0,
            payload > 0,
    ;
    assert(want == payload * q + want % payload) by (nonlinear_arith)
        requires
            q == want / payload,
            payload > 0,
    ;
    let k = if want % payload == 0 { q } else { q + 1 };
    if want % payload == 0 {
        assert(q * payload == want) by (nonlinear_arith)
            requires
                want == payload * q + want % payload,
                want % payload == 0,
        ;
        assert((q - 1) * payload < want) by (nonlinear_arith)
            requires
                q * payload == want,
                payload > 0,
        ;
        assert(q >= 1) by (nonlinear_arith)
            requires
                q * payload == want,
                want > 0,
                payload > 0,
        ;
    } else {
        assert(q * payload < want) by (nonlinear_arith)
            requires
                want == payload * q + want % payload,
                want % payload != 0,
                0 <= want % payload,
        ;
        assert((k - 1) * payload < want);
    }
    assert(k * payload >= want);
    if k <= 64 {
        assert(fetch_len(p, want) == k * packet);
    }
}

/// Which ports a configuration has: its interfaces in order, those of class 2
/// and subclass 2 as CDC-ACM ports, and on a device of FTDI those with a bulk
/// pair.
pub proof fn lemma_ports(v: Seq<Interface>, i: Interface, vendor_id: u16)
    ensures
        ports_on(Seq::empty(), vendor_id).len() == 0,
        ({
            let a = crate::descriptors::main_alt(i);
            let acm = a.class == 2 && a.sub_class == 2;
            let chip = vendor_id == 0x0403 && has_bulk_pair(a);
            &&& acm ==> ports_on(v.push(i), vendor_id) == ports_on(v, vendor_id).push(
                PortInfo { interface: a.number, kind: PortKind::CdcAcm },
            )
            &&& !acm && chip ==> ports_on(v.push(i), vendor_id) == ports_on(v, vendor_id).push(
                PortInfo { interface: a.number, kind: PortKind::Ftdi },
            )
            &&& !acm && !chip ==> ports_on(v.push(i), vendor_id) == ports_on(v, vendor_id)
        }),
{
    assert(v.push(i).drop_last() =~= v);
}

/// An opened CDC-ACM port reads and writes on the bulk endpoints of its data
/// interface and is notified on its communications interface.
pub proof fn lemma_acm_plan(v: Seq<Interface>, comm: u8)
    requires
        acm_plan(v, comm) is Ok,
    ensures
        ({
            let p = acm_plan(v, comm)->Ok_0;
            let c = class::setting_of(v, comm)->Ok_0;
            let data = class::data_setting(v, p.data_interface)->0;
            let n = first_endpoint(c.endpoints@, Direction::In, TransferType::Interrupt);
            &&& c.class == 2 && c.sub_class == 2
            &&& p.comm == comm
            &&& class::data_setting(v, p.data_interface) is Some
            &&& p.data_alternate == data.alternate_setting
            &&& p.ep_in == first_endpoint(data.endpoints@, Direction::In, TransferType::Bulk)->0.address
            &&& p.ep_out == first_endpoint(data.endpoints@, Direction::Out, TransferType::Bulk)->0.address
            &&& p.notify is Some <==> n is Some
            &&& n is Some ==> (p.notify->0).0 == n->0.address && (p.notify->0).1 >= 16
        }),
{
}

/// An opened FTDI port reads and writes on the bulk endpoints of its
/// interface, which it must have.
pub proof fn lemma_ftdi_plan(v: Seq<Interface>, interface: u8)
    requires
        class::setting_of(v, interface) is Ok,
    ensures
        ({
            let a = class::setting_of(v, interface)->Ok_0;
            let i = first_endpoint(a.endpoints@, Direction::In, TransferType::Bulk);
            let o = first_endpoint(a.endpoints@, Direction::Out, TransferType::Bulk);
            let p = ftdi_plan(v, interface)->Ok_0;
            &&& ftdi_plan(v, interface) is Ok <==> i is Some && o is Some
            &&& ftdi_plan(v, interface) is Ok ==> p.interface == interface && p.ep_in == i->0.address && p.ep_out
                == o->0.address && p.ep_in_packet >= 3
        }),
{
    let a = class::setting_of(v, interface)->Ok_0;
    if first_endpoint(a.endpoints@, Direction::In, TransferType::Bulk) is Some {
        let i = first_endpoint(a.endpoints@, Direction::In, TransferType::Bulk)->0;
        crate::descriptors::lemma_frame_bound(i.max_packet_size);
    }
}

/// What the events of a port are before anything happened, and what is left of
/// them once they were reported: the lines stay, the events go.
pub proof fn lemma_events_are_reported_once(s: ModemStatus)
    ensures
        ({
            let r = reported(s);
            &&& (r.cts, r.dsr, r.ring, r.dcd) == (s.cts, s.dsr, s.ring, s.dcd)
            &&& !r.overrun && !r.parity_error && !r.framing_error && !r.break_received
        }),
        ({
            let q = quiet();
            &&& !q.cts && !q.dsr && !q.ring && !q.dcd
            &&& !q.overrun && !q.parity_error && !q.framing_error && !q.break_received
        }),
        ({
            let l = latched(quiet(), s);
            l == s
        }),
{
}

/// Requests of FTDI chips that read go to the device, with the channel as
/// index.
pub proof fn lemma_ftdi_reads(chip: FtdiChip, channel: u16, data_word: u16, request: u8, length: u16, value: u16)
    ensures
        ({
            let b = Backend::Ftdi { chip, channel, data_word };
            let r = ftdi_read_of(b, request, length)->Ok_0;
            let w = ftdi_request_of(b, request, value, 0x0300)->Ok_0;
            &&& ftdi_read_of(b, request, length) is Ok
            &&& (r.request_type, r.request, r.value, r.index, r.length) == (0xc0u8, request, 0u16, channel, length)
            &&& ftdi_request_of(b, request, value, 0x0300) is Ok
            &&& (w.request_type, w.request, w.value, w.index, w.length) == (0x40u8, request, value, 0x0300 | channel, 0u16)
        }),
        ({
            let s = short_outcome(Ok(length as usize), 2);
            &&& s is Ok <==> length >= 2
            &&& s is Err ==> s->Err_0.kind == ErrorKind::Io
        }),
{
}

/// A port that was just opened has received nothing, asserts no line and waits
/// without limit.
pub proof fn lemma_fresh_ports(kind: SerialKind, backend: Backend, ep_in: u8, packet: u32, ep_out: u8)
    requires
        packet <= 0xffff,
    ensures
        ({
            let p = fresh_port(kind, backend, ep_in, packet, ep_out);
            &&& (p.kind, p.backend, p.ep_in, p.ep_out) == (kind, backend, ep_in, ep_out)
            &&& p.ep_in_packet == packet
            &&& p.rx.len() == 0
            &&& !p.dtr && !p.rts
            &&& p.line is None
            &&& p.status == quiet()
            &&& p.read_timeout == 0 && p.write_timeout == 0
        }),
{
}

/// How many data bits there are, and what is said to another adapter.
pub proof fn lemma_data_bits()
    ensures
        bit_count(DataBits::Five) == 5,
        bit_count(DataBits::Six) == 6,
        bit_count(DataBits::Seven) == 7,
        bit_count(DataBits::Eight) == 8,
        not_ftdi_error().kind == ErrorKind::NotSupported,
{
}

} // verus!
