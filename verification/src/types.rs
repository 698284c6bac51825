//! Small value types: directions, transfer kinds, speeds, control setup
//! packets, and the standard-request constants from the USB specification.

use crate::bytes::{le16_at, u16_bytes};
use crate::error::{plain, Error, ErrorKind, Result};
use crate::text;
use vstd::prelude::*;
use vstd::string::*;

pub mod class;
pub mod descriptor_type;
pub mod request;

verus! {

/// Direction of a transfer or endpoint, as seen from the host.
#[derive(Debug, Clone, Copy, PartialEq, Eq, Hash, Structural)]
pub enum Direction {
    /// Host to device.
    Out,
    /// Device to host.
    In,
}

/// The direction encoded in bit 7 of a byte.
pub open spec fn direction_of(address: u8) -> Direction {
    if address >= 0x80 {
        Direction::In
    } else {
        Direction::Out
    }
}

/// The bit-7 mask of a direction.
pub open spec fn direction_mask(d: Direction) -> u8 {
    match d {
        Direction::Out => 0x00,
        Direction::In => 0x80,
    }
}

impl Direction {
    /// Extracts the direction encoded in bit 7 of an endpoint address or a
    /// `bmRequestType`.
    pub fn from_address(address: u8) -> (r: Self)
        ensures
            r == direction_of(address),
    {
        if address >= 0x80 {
            Direction::In
        } else {
            Direction::Out
        }
    }

    /// The bit-7 mask for this direction (`0x80` for IN, `0` for OUT).
    pub fn mask(self) -> (r: u8)
        ensures
            r == direction_mask(self),
    {
        match self {
            Direction::Out => 0x00,
            Direction::In => 0x80,
        }
    }
}

/// The four USB transfer types.
#[derive(Debug, Clone, Copy, PartialEq, Eq, Hash, Structural)]
pub enum TransferType {
    /// Control transfer (always on endpoint 0 in practice).
    Control,
    /// Isochronous transfer.
    Isochronous,
    /// Bulk transfer.
    Bulk,
    /// Interrupt transfer.
    Interrupt,
}

/// The transfer type in the low two bits of `bmAttributes`.
pub open spec fn transfer_type_of(attributes: u8) -> TransferType {
    if attributes % 4 == 0 {
        TransferType::Control
    } else if attributes % 4 == 1 {
        TransferType::Isochronous
    } else if attributes % 4 == 2 {
        TransferType::Bulk
    } else {
        TransferType::Interrupt
    }
}

impl TransferType {
    /// Decodes the low two bits of an endpoint descriptor's `bmAttributes`.
    pub fn from_attributes(attributes: u8) -> (r: Self)
        ensures
            r == transfer_type_of(attributes),
    {
        match attributes % 4 {
            0 => TransferType::Control,
            1 => TransferType::Isochronous,
            2 => TransferType::Bulk,
            _ => TransferType::Interrupt,
        }
    }
}

/// Synchronisation type of an isochronous endpoint (`bmAttributes` bits 2-3).
#[derive(Debug, Clone, Copy, PartialEq, Eq, Hash, Structural)]
pub enum SyncType {
    /// No synchronisation.
    NoSync,
    /// Asynchronous.
    Asynchronous,
    /// Adaptive.
    Adaptive,
    /// Synchronous.
    Synchronous,
}

/// Usage type of an isochronous or interrupt endpoint (`bmAttributes` bits 4-5).
#[derive(Debug, Clone, Copy, PartialEq, Eq, Hash, Structural)]
pub enum UsageType {
    /// Data endpoint (isochronous) or periodic (interrupt).
    Data,
    /// Feedback endpoint (isochronous) or notification (interrupt).
    Feedback,
    /// Implicit feedback data endpoint.
    Implicit,
    /// Reserved value.
    Reserved,
}

/// Negotiated bus speed of a device.
#[derive(Debug, Clone, Copy, PartialEq, Eq, Hash, PartialOrd, Ord, Structural)]
#[non_exhaustive]
pub enum Speed {
    /// The operating system did not report a speed.
    Unknown,
    /// USB 1.0 low speed, 1.5 Mbit/s.
    Low,
    /// USB 1.1 full speed, 12 Mbit/s.
    Full,
    /// USB 2.0 high speed, 480 Mbit/s.
    High,
    /// USB 3.0 SuperSpeed, 5 Gbit/s.
    Super,
    /// USB 3.1 SuperSpeed+, 10 Gbit/s.
    SuperPlus,
    /// USB 3.2 SuperSpeed+ dual-lane, 20 Gbit/s.
    SuperPlusX2,
}

/// Nominal signalling rate of a speed.
pub open spec fn speed_rate(s: Speed) -> Option<u64> {
    match s {
        Speed::Unknown => None,
        Speed::Low => Some(1_500_000),
        Speed::Full => Some(12_000_000),
        Speed::High => Some(480_000_000),
        Speed::Super => Some(5_000_000_000),
        Speed::SuperPlus => Some(10_000_000_000),
        Speed::SuperPlusX2 => Some(20_000_000_000),
    }
}

/// The speed whose rate is `tenths` tenths of a megabit per second.
pub open spec fn speed_of_tenths(tenths: u64) -> Speed {
    if tenths == 15 {
        Speed::Low
    } else if tenths == 120 {
        Speed::Full
    } else if tenths == 4800 {
        Speed::High
    } else if tenths == 50000 {
        Speed::Super
    } else if tenths == 100000 {
        Speed::SuperPlus
    } else if tenths == 200000 {
        Speed::SuperPlusX2
    } else {
        Speed::Unknown
    }
}

/// How a speed is shown.
pub open spec fn speed_text(s: Speed) -> Seq<char> {
    match s {
        Speed::Unknown => "unknown"@,
        Speed::Low => "1.5 Mbit/s (low)"@,
        Speed::Full => "12 Mbit/s (full)"@,
        Speed::High => "480 Mbit/s (high)"@,
        Speed::Super => "5 Gbit/s (super)"@,
        Speed::SuperPlus => "10 Gbit/s (super+)"@,
        Speed::SuperPlusX2 => "20 Gbit/s (super+ x2)"@,
    }
}

/// Whether a speed is at least high speed.
pub open spec fn at_least_high(s: Speed) -> bool {
    match s {
        Speed::High | Speed::Super | Speed::SuperPlus | Speed::SuperPlusX2 => true,
        _ => false,
    }
}

impl Speed {
    /// Nominal signalling rate in bits per second, or `None` when unknown.
    pub fn bits_per_second(self) -> (r: Option<u64>)
        ensures
            r == speed_rate(self),
    {
        match self {
            Speed::Unknown => None,
            Speed::Low => Some(1_500_000),
            Speed::Full => Some(12_000_000),
            Speed::High => Some(480_000_000),
            Speed::Super => Some(5_000_000_000),
            Speed::SuperPlus => Some(10_000_000_000),
            Speed::SuperPlusX2 => Some(20_000_000_000),
        }
    }

    /// Maps a rate in tenths of a Mbit/s to a `Speed`, so that the 1.5 Mbit/s
    /// of a low-speed device is a whole number.
    pub fn from_tenths_mbps(tenths: u64) -> (r: Self)
        ensures
            r == speed_of_tenths(tenths),
    {
        match tenths {
            15 => Speed::Low,
            120 => Speed::Full,
            4800 => Speed::High,
            50000 => Speed::Super,
            100000 => Speed::SuperPlus,
            200000 => Speed::SuperPlusX2,
            _ => Speed::Unknown,
        }
    }

    /// Whether this is high speed or faster.
    pub fn is_high_or_faster(self) -> (r: bool)
        ensures
            r == at_least_high(self),
    {
        match self {
            Speed::High | Speed::Super | Speed::SuperPlus | Speed::SuperPlusX2 => true,
            _ => false,
        }
    }

    /// The speed as text.
    pub fn as_str(self) -> (r: &'static str)
        ensures
            r@ == speed_text(self),
    {
        match self {
            Speed::Unknown => "unknown",
            Speed::Low => "1.5 Mbit/s (low)",
            Speed::Full => "12 Mbit/s (full)",
            Speed::High => "480 Mbit/s (high)",
            Speed::Super => "5 Gbit/s (super)",
            Speed::SuperPlus => "10 Gbit/s (super+)",
            Speed::SuperPlusX2 => "20 Gbit/s (super+ x2)",
        }
    }
}

/// Type field of a control request (`bmRequestType` bits 5-6).
#[derive(Debug, Clone, Copy, PartialEq, Eq, Hash, Structural)]
pub enum ControlType {
    /// Standard request defined by the USB specification.
    Standard,
    /// Class-specific request.
    Class,
    /// Vendor-specific request.
    Vendor,
    /// Reserved.
    Reserved,
}

/// Recipient field of a control request (`bmRequestType` bits 0-4).
#[derive(Debug, Clone, Copy, PartialEq, Eq, Hash, Structural)]
pub enum Recipient {
    /// The device as a whole.
    Device,
    /// An interface (index in the low byte of `wIndex`).
    Interface,
    /// An endpoint (address in the low byte of `wIndex`).
    Endpoint,
    /// Other.
    Other,
}

/// The value of the type field.
pub open spec fn control_type_code(kind: ControlType) -> int {
    match kind {
        ControlType::Standard => 0,
        ControlType::Class => 1,
        ControlType::Vendor => 2,
        ControlType::Reserved => 3,
    }
}

/// The value of the recipient field.
pub open spec fn recipient_code(recipient: Recipient) -> int {
    match recipient {
        Recipient::Device => 0,
        Recipient::Interface => 1,
        Recipient::Endpoint => 2,
        Recipient::Other => 3,
    }
}

/// A `bmRequestType` byte: direction in bit 7, type in bits 5-6, recipient
/// in bits 0-4.
pub open spec fn request_type_byte(direction: Direction, kind: ControlType, recipient: Recipient) -> u8 {
    (direction_mask(direction) + 32 * control_type_code(kind) + recipient_code(recipient)) as u8
}

/// Builds a `bmRequestType` byte from its three components.
pub fn request_type(direction: Direction, kind: ControlType, recipient: Recipient) -> (r: u8)
    ensures
        r == request_type_byte(direction, kind, recipient),
{
    let dir: u8 = direction.mask();
    let ty: u8 = match kind {
        ControlType::Standard => 0,
        ControlType::Class => 32,
        ControlType::Vendor => 64,
        ControlType::Reserved => 96,
    };
    let rec: u8 = match recipient {
        Recipient::Device => 0,
        Recipient::Interface => 1,
        Recipient::Endpoint => 2,
        Recipient::Other => 3,
    };
    dir + ty + rec
}

/// A request type keeps its three components: the direction, the type and
/// the recipient can be read back from the byte.
pub proof fn lemma_request_type_fields(direction: Direction, kind: ControlType, recipient: Recipient)
    ensures
        direction_of(request_type_byte(direction, kind, recipient)) == direction,
        (request_type_byte(direction, kind, recipient) / 32) % 4 == control_type_code(kind),
        request_type_byte(direction, kind, recipient) % 32 == recipient_code(recipient),
{
}

/// The 8-byte SETUP packet of a control transfer.
#[derive(Debug, Clone, Copy, PartialEq, Eq, Hash, Structural)]
pub struct ControlSetup {
    /// `bmRequestType`: direction, type and recipient.
    pub request_type: u8,
    /// `bRequest`.
    pub request: u8,
    /// `wValue`.
    pub value: u16,
    /// `wIndex`.
    pub index: u16,
    /// `wLength`: number of data bytes that follow the setup packet.
    pub length: u16,
}

/// A setup packet in wire order.
pub open spec fn setup_bytes(s: ControlSetup) -> Seq<u8> {
    seq![s.request_type, s.request] + u16_bytes(s.value) + u16_bytes(s.index) + u16_bytes(s.length)
}

/// The setup packet of a request from its parts.
pub open spec fn setup_packet(
    direction: Direction,
    kind: ControlType,
    recipient: Recipient,
    request: u8,
    value: u16,
    index: u16,
    length: u16,
) -> ControlSetup {
    ControlSetup { request_type: request_type_byte(direction, kind, recipient), request, value, index, length }
}

/// The setup packet in the first 8 bytes of `b`.
pub open spec fn setup_of(b: Seq<u8>) -> ControlSetup {
    ControlSetup {
        request_type: b[0],
        request: b[1],
        value: le16_at(b, 2),
        index: le16_at(b, 4),
        length: le16_at(b, 6),
    }
}

impl ControlSetup {
    /// Size in bytes of an encoded setup packet.
    pub const SIZE: usize = 8;

    /// Creates a setup packet from its components.
    pub fn new(
        direction: Direction,
        kind: ControlType,
        recipient: Recipient,
        request: u8,
        value: u16,
        index: u16,
        length: u16,
    ) -> (r: Self)
        ensures
            r == setup_packet(direction, kind, recipient, request, value, index, length),
    {
        ControlSetup { request_type: request_type(direction, kind, recipient), request, value, index, length }
    }

    /// Creates a setup packet from a raw `bmRequestType` byte.
    pub fn raw(request_type: u8, request: u8, value: u16, index: u16, length: u16) -> (r: Self)
        ensures
            r == (ControlSetup { request_type, request, value, index, length }),
    {
        ControlSetup { request_type, request, value, index, length }
    }

    /// Direction of the data stage.
    pub fn direction(&self) -> (r: Direction)
        ensures
            r == direction_of(self.request_type),
    {
        Direction::from_address(self.request_type)
    }

    /// Encodes the packet in wire (little-endian) order.
    pub fn to_bytes(&self) -> (r: [u8; 8])
        ensures
            r@ == setup_bytes(*self),
    {
        let b: [u8; 8] = [
            self.request_type,
            self.request,
            (self.value % 256) as u8,
            (self.value / 256) as u8,
            (self.index % 256) as u8,
            (self.index / 256) as u8,
            (self.length % 256) as u8,
            (self.length / 256) as u8,
        ];
        assert(b@ =~= setup_bytes(*self));
        b
    }

    /// Decodes a packet from wire order.
    pub fn from_bytes(b: [u8; 8]) -> (r: Self)
        ensures
            r == setup_of(b@),
    {
        ControlSetup {
            request_type: b[0],
            request: b[1],
            value: b[2] as u16 + 256 * b[3] as u16,
            index: b[4] as u16 + 256 * b[5] as u16,
            length: b[6] as u16 + 256 * b[7] as u16,
        }
    }
}

/// Decoding gives back the setup packet that was encoded, and encoding gives
/// back the bytes that were decoded.
pub proof fn lemma_setup_round_trip(s: ControlSetup, b: Seq<u8>)
    ensures
        setup_of(setup_bytes(s)) == s,
        b.len() == 8 ==> setup_bytes(setup_of(b)) == b,
{
    if b.len() == 8 {
        assert(setup_bytes(setup_of(b)) =~= b);
    }
}

/// Final state of a completed transfer.
#[derive(Debug, Clone, Copy, PartialEq, Eq, Hash, Structural)]
#[non_exhaustive]
pub enum TransferStatus {
    /// The transfer completed. It may still be shorter than requested; check
    /// the actual length.
    Completed,
    /// The transfer failed for an unspecified reason (protocol error, babble,
    /// device error, ...).
    Error,
    /// The transfer's own timeout elapsed.
    TimedOut,
    /// The transfer was cancelled by the caller.
    Cancelled,
    /// The endpoint is halted, or the device rejected the control request.
    Stall,
    /// The device was disconnected.
    NoDevice,
    /// The device sent more data than the buffer could hold.
    Overflow,
}

/// The error that a status stands for; `None` for a completed transfer.
pub open spec fn status_error(s: TransferStatus) -> Option<ErrorKind> {
    match s {
        TransferStatus::Completed => None,
        TransferStatus::Error => Some(ErrorKind::Io),
        TransferStatus::TimedOut => Some(ErrorKind::Timeout),
        TransferStatus::Cancelled => Some(ErrorKind::Interrupted),
        TransferStatus::Stall => Some(ErrorKind::Pipe),
        TransferStatus::NoDevice => Some(ErrorKind::NoDevice),
        TransferStatus::Overflow => Some(ErrorKind::Overflow),
    }
}

/// How a status is shown.
pub open spec fn status_text(s: TransferStatus) -> Seq<char> {
    match s {
        TransferStatus::Completed => "completed"@,
        TransferStatus::Error => "error"@,
        TransferStatus::TimedOut => "timed out"@,
        TransferStatus::Cancelled => "cancelled"@,
        TransferStatus::Stall => "stall"@,
        TransferStatus::NoDevice => "no device"@,
        TransferStatus::Overflow => "overflow"@,
    }
}

impl TransferStatus {
    /// `true` only for [`TransferStatus::Completed`].
    pub fn is_ok(self) -> (r: bool)
        ensures
            r == (self == TransferStatus::Completed),
    {
        matches!(self, TransferStatus::Completed)
    }

    /// Converts a non-successful status into the matching [`Error`].
    pub fn into_result(self) -> (r: Result<()>)
        ensures
            match status_error(self) {
                None => r is Ok,
                Some(kind) => r is Err && r->Err_0@ == plain(kind),
            },
    {
        let kind = match self {
            TransferStatus::Completed => return Ok(()),
            TransferStatus::Error => ErrorKind::Io,
            TransferStatus::TimedOut => ErrorKind::Timeout,
            TransferStatus::Cancelled => ErrorKind::Interrupted,
            TransferStatus::Stall => ErrorKind::Pipe,
            TransferStatus::NoDevice => ErrorKind::NoDevice,
            TransferStatus::Overflow => ErrorKind::Overflow,
        };
        Err(Error::new(kind))
    }

    /// The status as text.
    pub fn as_str(self) -> (r: &'static str)
        ensures
            r@ == status_text(self),
    {
        match self {
            TransferStatus::Completed => "completed",
            TransferStatus::Error => "error",
            TransferStatus::TimedOut => "timed out",
            TransferStatus::Cancelled => "cancelled",
            TransferStatus::Stall => "stall",
            TransferStatus::NoDevice => "no device",
            TransferStatus::Overflow => "overflow",
        }
    }
}

/// One packet of an isochronous transfer.
#[derive(Debug, Clone, Copy, PartialEq, Eq, Structural)]
pub struct IsoPacket {
    /// Bytes reserved for this packet in the transfer buffer.
    pub length: u32,
    /// Bytes actually transferred, filled in on completion.
    pub actual_length: u32,
    /// Per-packet status, filled in on completion.
    pub status: TransferStatus,
}

/// A packet of the given length that has not run yet.
pub open spec fn fresh_packet(length: u32) -> IsoPacket {
    IsoPacket { length, actual_length: 0, status: TransferStatus::Error }
}

impl IsoPacket {
    /// A packet of the given length that has not run yet.
    pub fn new(length: u32) -> (r: Self)
        ensures
            r == fresh_packet(length),
    {
        IsoPacket { length, actual_length: 0, status: TransferStatus::Error }
    }
}

/// Timeout that means "wait forever", mirroring libusb's `timeout = 0`.
/// Timeouts in this crate are counted in nanoseconds.
pub const NO_TIMEOUT: u64 = 0;

/// A USB `bcdXXX` version number (e.g. `bcdUSB`, `bcdDevice`).
#[derive(Debug, Clone, Copy, PartialEq, Eq, Hash, PartialOrd, Ord, Structural)]
pub struct Version(pub u16);

/// Major digits of a version: the two BCD digits of the high byte.
pub open spec fn version_major(v: u16) -> int {
    (v as int / 4096) * 10 + (v as int / 256) % 16
}

/// Minor digit of a version: the high digit of the low byte.
pub open spec fn version_minor(v: u16) -> int {
    (v as int / 16) % 16
}

/// Sub-minor digit of a version: the low digit of the low byte.
pub open spec fn version_sub_minor(v: u16) -> int {
    v as int % 16
}

/// How a version is shown: `major.minor`, then `.sub` unless that is zero.
pub open spec fn version_text(v: u16) -> Seq<char> {
    let head = text::decimal(version_major(v) as nat) + "."@ + text::decimal(version_minor(v) as nat);
    if version_sub_minor(v) != 0 {
        head + "."@ + text::decimal(version_sub_minor(v) as nat)
    } else {
        head
    }
}

impl Version {
    /// Major digit(s) (the high byte, decoded from BCD).
    pub fn major(self) -> (r: u8)
        ensures
            r == version_major(self.0),
    {
        let b: u16 = self.0 / 256;
        ((b / 16) * 10 + b % 16) as u8
    }

    /// Minor digit (high nibble of the low byte).
    pub fn minor(self) -> (r: u8)
        ensures
            r == version_minor(self.0),
    {
        ((self.0 / 16) % 16) as u8
    }

    /// Sub-minor digit (low nibble of the low byte).
    pub fn sub_minor(self) -> (r: u8)
        ensures
            r == version_sub_minor(self.0),
    {
        (self.0 % 16) as u8
    }

    /// The version as text, such as `2.0` or `1.10`.
    pub fn to_text(self) -> (r: String)
        ensures
            r@ == version_text(self.0),
    {
        let mut out = String::new();
        text::push_decimal(&mut out, self.major() as u64);
        out.append(".");
        text::push_decimal(&mut out, self.minor() as u64);
        if self.sub_minor() != 0 {
            out.append(".");
            text::push_decimal(&mut out, self.sub_minor() as u64);
        }
        assert(out@ =~= version_text(self.0));
        out
    }
}

/// An endpoint address has its direction in bit 7, and the attributes of an
/// endpoint have its transfer type in their two lowest bits.
pub proof fn lemma_endpoint_bits(address: u8, attributes: u8)
    ensures
        direction_of(address) == Direction::In <==> address & 0x80 != 0,
        direction_mask(Direction::In) == 0x80,
        direction_mask(Direction::Out) == 0,
        transfer_type_of(attributes) == TransferType::Control <==> attributes & 3 == 0,
        transfer_type_of(attributes) == TransferType::Isochronous <==> attributes & 3 == 1,
        transfer_type_of(attributes) == TransferType::Bulk <==> attributes & 3 == 2,
        transfer_type_of(attributes) == TransferType::Interrupt <==> attributes & 3 == 3,
{
    assert(address & 0x80 != 0 <==> address >= 0x80) by (bit_vector);
    assert(attributes & 3 == attributes % 4) by (bit_vector);
}

/// The first byte of a setup packet: bit 7 for a request to the host, the kind
/// in bits 5 and 6, the recipient below.
pub proof fn lemma_request_type_bits(direction: Direction, kind: ControlType, recipient: Recipient)
    ensures
        ({
            let b = request_type_byte(direction, kind, recipient);
            &&& b >= 0x80 <==> direction == Direction::In
            &&& b % 0x80 / 0x20 == 0 <==> kind == ControlType::Standard
            &&& b % 0x80 / 0x20 == 1 <==> kind == ControlType::Class
            &&& b % 0x80 / 0x20 == 2 <==> kind == ControlType::Vendor
            &&& b % 0x20 == 0 <==> recipient == Recipient::Device
            &&& b % 0x20 == 1 <==> recipient == Recipient::Interface
            &&& b % 0x20 == 2 <==> recipient == Recipient::Endpoint
            &&& b % 0x20 <= 3
        }),
{
}

/// A setup packet has eight bytes: request type, request, and then value,
/// index and length, low byte first.
pub proof fn lemma_setup_layout(s: ControlSetup)
    ensures
        setup_bytes(s).len() == 8,
        setup_bytes(s)[0] == s.request_type,
        setup_bytes(s)[1] == s.request,
        setup_bytes(s)[2] + 256 * setup_bytes(s)[3] == s.value,
        setup_bytes(s)[4] + 256 * setup_bytes(s)[5] == s.index,
        setup_bytes(s)[6] + 256 * setup_bytes(s)[7] == s.length,
{
}

/// A setup packet that is built has what it was built from in its fields.
pub proof fn lemma_setup_is_built(
    direction: Direction,
    kind: ControlType,
    recipient: Recipient,
    request: u8,
    value: u16,
    index: u16,
    length: u16,
)
    ensures
        ({
            let s = setup_packet(direction, kind, recipient, request, value, index, length);
            &&& s.request_type == request_type_byte(direction, kind, recipient)
            &&& s.request == request
            &&& s.value == value
            &&& s.index == index
            &&& s.length == length
        }),
{
}

/// A rate in tenths of a megabit names the speed that has that rate, and a
/// speed is high speed or faster exactly from 480 Mbit/s on.
pub proof fn lemma_speeds_have_their_rate(tenths: u64, s: Speed)
    requires
        tenths <= 1_000_000,
    ensures
        speed_rate(speed_of_tenths(tenths)) matches Some(rate) ==> rate == tenths * 100_000,
        speed_of_tenths(tenths) == Speed::Unknown <==> !(tenths == 15 || tenths == 120 || tenths == 4_800 || tenths
            == 50_000 || tenths == 100_000 || tenths == 200_000),
        speed_rate(s) is None <==> s == Speed::Unknown,
        at_least_high(s) <==> speed_rate(s) is Some && speed_rate(s)->0 >= 480_000_000,
{
}

/// A transfer that did not complete is an error, and each reason has an error
/// kind of its own.
pub proof fn lemma_status_errors(s: TransferStatus)
    ensures
        status_error(s) is None <==> s == TransferStatus::Completed,
        status_error(s) == Some(ErrorKind::Timeout) <==> s == TransferStatus::TimedOut,
        status_error(s) == Some(ErrorKind::Pipe) <==> s == TransferStatus::Stall,
        status_error(s) == Some(ErrorKind::NoDevice) <==> s == TransferStatus::NoDevice,
        status_error(s) == Some(ErrorKind::Interrupted) <==> s == TransferStatus::Cancelled,
        status_error(s) == Some(ErrorKind::Overflow) <==> s == TransferStatus::Overflow,
        status_error(s) == Some(ErrorKind::Io) <==> s == TransferStatus::Error,
{
}

/// A version is four decimal digits, a nibble each: two of the major number,
/// one of the minor, one below that.
pub proof fn lemma_version_digits(v: u16, a: int, b: int, c: int, d: int)
    requires
        v == 0x1000 * a + 0x100 * b + 0x10 * c + d,
        0 <= a < 10,
        0 <= b < 10,
        0 <= c < 10,
        0 <= d < 10,
    ensures
        version_major(v) == 10 * a + b,
        version_minor(v) == c,
        version_sub_minor(v) == d,
{
    assert(v / 0x1000 == a);
    assert(v / 0x100 == 0x10 * a + b);
    assert(v / 0x10 == 0x100 * a + 0x10 * b + c);
}

/// What speeds and outcomes are called.
pub proof fn lemma_names()
    ensures
        speed_text(Speed::Unknown) == "unknown"@,
        speed_text(Speed::Low) == "1.5 Mbit/s (low)"@,
        speed_text(Speed::Full) == "12 Mbit/s (full)"@,
        speed_text(Speed::High) == "480 Mbit/s (high)"@,
        speed_text(Speed::Super) == "5 Gbit/s (super)"@,
        speed_text(Speed::SuperPlus) == "10 Gbit/s (super+)"@,
        speed_text(Speed::SuperPlusX2) == "20 Gbit/s (super+ x2)"@,
        status_text(TransferStatus::Completed) == "completed"@,
        status_text(TransferStatus::Error) == "error"@,
        status_text(TransferStatus::TimedOut) == "timed out"@,
        status_text(TransferStatus::Cancelled) == "cancelled"@,
        status_text(TransferStatus::Stall) == "stall"@,
        status_text(TransferStatus::NoDevice) == "no device"@,
        status_text(TransferStatus::Overflow) == "overflow"@,
{
}

/// A version is shown as its numbers with dots between, the last one only where
/// it is not 0.
pub proof fn lemma_version_text(v: u16)
    ensures
        v % 16 == 0 ==> version_text(v) == text::decimal(version_major(v) as nat) + "."@ + text::decimal(
            version_minor(v) as nat,
        ),
        v % 16 != 0 ==> version_text(v) == text::decimal(version_major(v) as nat) + "."@ + text::decimal(
            version_minor(v) as nat,
        ) + "."@ + text::decimal((v % 16) as nat),
{
}

/// A packet that was not moved yet has its length and nothing else.
pub proof fn lemma_fresh_packet(length: u32)
    ensures
        fresh_packet(length).length == length,
        fresh_packet(length).actual_length == 0,
        fresh_packet(length).status == TransferStatus::Error,
{
}

} // verus!
