//! CDC networking: ECM and NCM functional descriptors, notifications, and the
//! NCM transfer block (NTB16) format (USB CDC 1.2 ECM 1.2, NCM 1.0).

use crate::bytes::{self, le16, le16_at, le32, le32_at, u16_bytes, zeros};
use crate::class::{self, walk};
use crate::descriptors::{ConfigDescriptor, Interface, InterfaceDescriptor};
use crate::error::{message, Error, ErrorKind, Result};
use crate::text;
use vstd::prelude::*;
use vstd::slice::slice_subrange;
use vstd::string::*;

pub mod filter;
pub mod req;

verus! {

/// Class-specific interface descriptor.
pub const CS_INTERFACE: u8 = 0x24;

/// Union functional descriptor.
pub const SUBTYPE_UNION: u8 = 0x06;

/// Ethernet networking functional descriptor.
pub const SUBTYPE_ETHERNET: u8 = 0x0f;

/// NCM functional descriptor.
pub const SUBTYPE_NCM: u8 = 0x1a;

/// Ethernet Control Model subclass of a communications interface.
pub const SUBCLASS_ECM: u8 = 0x06;

/// Network Control Model subclass of a communications interface.
pub const SUBCLASS_NCM: u8 = 0x0d;

/// What the functional descriptors of an ECM or NCM control interface say.
#[derive(Debug, Clone, Copy, PartialEq, Eq, Structural)]
pub struct Functional {
    /// The data interface of the union descriptor.
    pub data_interface: Option<u8>,
    /// String descriptor index of the MAC address.
    pub mac_string: u8,
    /// Largest Ethernet frame.
    pub max_segment_size: u16,
    /// NCM `bmNetworkCapabilities`; bit 0 means SET_ETHERNET_PACKET_FILTER is
    /// supported.
    pub ncm_capabilities: Option<u8>,
}

/// What is known before any functional descriptor.
pub open spec fn no_functional() -> Functional {
    Functional { data_interface: None, mac_string: 0, max_segment_size: 0, ncm_capabilities: None }
}

/// What one more descriptor says.
pub open spec fn functional_step(f: Functional, d: Seq<u8>) -> Functional {
    if d[1] != CS_INTERFACE || d.len() < 3 {
        f
    } else if d[2] == SUBTYPE_UNION && d.len() >= 5 {
        Functional { data_interface: Some(d[4]), ..f }
    } else if d[2] == SUBTYPE_ETHERNET && d.len() >= 13 {
        Functional { mac_string: d[3], max_segment_size: le16_at(d, 8), ..f }
    } else if d[2] == SUBTYPE_NCM && d.len() >= 6 {
        Functional { ncm_capabilities: Some(d[5]), ..f }
    } else {
        f
    }
}

/// What a list of descriptors says; the last one of a kind counts.
pub open spec fn functional_of(ds: Seq<Seq<u8>>) -> Functional
    decreases ds.len(),
{
    if ds.len() == 0 {
        no_functional()
    } else {
        functional_step(functional_of(ds.drop_last()), ds.last())
    }
}

/// Whether some setting of an interface is a CDC data interface.
pub open spec fn has_data_setting(i: Interface) -> bool {
    exists|k: int|
        0 <= k < i.alt_settings@.len() && (#[trigger] i.alt_settings@[k]).class == crate::types::class::DATA
}

/// The data interface of a function: from the union descriptor, else the
/// next interface if it is a CDC data interface.
pub open spec fn data_interface_of(f: Functional, v: Seq<Interface>, comm: u8) -> Option<u8> {
    if f.data_interface is Some && f.data_interface->0 != comm && class::interface_numbered(
        v,
        f.data_interface->0,
    ) is Some {
        f.data_interface
    } else if comm < 255 && (class::interface_numbered(v, (comm + 1) as u8) matches Some(i) && has_data_setting(i)) {
        Some((comm + 1) as u8)
    } else {
        None
    }
}

/// Whether some setting of an interface is a CDC data interface.
fn is_data_interface(i: &Interface) -> (r: bool)
    ensures
        r == has_data_setting(*i),
{
    let mut k: usize = 0;
    while k < i.alt_settings.len()
        invariant
            k <= i.alt_settings@.len(),
            forall|j: int| 0 <= j < k ==> (#[trigger] i.alt_settings@[j]).class != crate::types::class::DATA,
        decreases i.alt_settings@.len() - k,
    {
        if i.alt_settings[k].class == crate::types::class::DATA {
            return true;
        }
        k += 1;
    }
    false
}

impl Functional {
    /// Reads the functional descriptors of a control interface.
    pub fn parse(comm: &InterfaceDescriptor) -> (r: Functional)
        ensures
            r == functional_of(walk(comm.extra@)),
    {
        let list = class::descriptors(comm.extra.as_slice());
        let ghost ds = walk(comm.extra@);
        let mut f = Functional { data_interface: None, mac_string: 0, max_segment_size: 0, ncm_capabilities: None };
        let mut k: usize = 0;
        assert(ds.take(0) =~= Seq::empty());
        while k < list.len()
            invariant
                k <= list@.len(),
                list@.len() == ds.len(),
                forall|i: int|
                    #![trigger list@[i]]
                    0 <= i < list@.len() ==> list@[i].1@ == ds[i] && list@[i].0 == ds[i][1] && ds[i].len() >= 2,
                f == functional_of(ds.take(k as int)),
            decreases list@.len() - k,
        {
            let d = list[k].1;
            assert(ds.take(k + 1).drop_last() =~= ds.take(k as int));
            assert(ds.take(k + 1).last() == d@);
            if d[1] == CS_INTERFACE && d.len() >= 3 {
                if d[2] == SUBTYPE_UNION && d.len() >= 5 {
                    f.data_interface = Some(d[4]);
                } else if d[2] == SUBTYPE_ETHERNET && d.len() >= 13 {
                    f.mac_string = d[3];
                    f.max_segment_size = le16(d, 8);
                } else if d[2] == SUBTYPE_NCM && d.len() >= 6 {
                    f.ncm_capabilities = Some(d[5]);
                }
            }
            k += 1;
        }
        assert(ds.take(k as int) =~= ds);
        f
    }

    /// The data interface: from the union descriptor, else the next
    /// interface if it is a CDC data interface.
    pub fn data_interface(&self, cfg: &ConfigDescriptor, comm: u8) -> (r: Option<u8>)
        ensures
            r == data_interface_of(*self, cfg.interfaces@, comm),
    {
        match self.data_interface {
            Some(n) => {
                if n != comm {
                    match cfg.interface(n) {
                        Some(i) => {
                            proof {
                                class::lemma_interface_numbered(cfg.interfaces@, n, *i);
                            }
                            return Some(n);
                        },
                        None => {
                            proof {
                                class::lemma_no_interface_numbered(cfg.interfaces@, n);
                            }
                        },
                    }
                }
            },
            None => {},
        }
        if comm == 255 {
            return None;
        }
        let next: u8 = comm + 1;
        match cfg.interface(next) {
            Some(i) => {
                proof {
                    class::lemma_interface_numbered(cfg.interfaces@, next, *i);
                }
                if is_data_interface(i) {
                    Some(next)
                } else {
                    None
                }
            },
            None => {
                proof {
                    class::lemma_no_interface_numbered(cfg.interfaces@, next);
                }
                None
            },
        }
    }
}

// ----- MAC address strings -------------------------------------------------------

/// The value of a hexadecimal digit.
pub open spec fn hex_value(c: char) -> Option<int> {
    if '0' <= c <= '9' {
        Some(c as int - '0' as int)
    } else if 'a' <= c <= 'f' {
        Some(c as int - 'a' as int + 10)
    } else if 'A' <= c <= 'F' {
        Some(c as int - 'A' as int + 10)
    } else {
        None
    }
}

/// Whether `s` is twelve hexadecimal digits.
pub open spec fn twelve_digits(s: Seq<char>) -> bool {
    s.len() == 12 && forall|i: int| 0 <= i < 12 ==> hex_value(#[trigger] s[i]) is Some
}

/// The MAC address that a string spells: twelve hexadecimal digits, with
/// white space around them ignored.
pub open spec fn mac_of(s: Seq<char>) -> Option<Seq<u8>> {
    let t = text::stripped(s);
    if twelve_digits(t) {
        Some(Seq::new(6, |i: int| (16 * hex_value(t[2 * i])->0 + hex_value(t[2 * i + 1])->0) as u8))
    } else {
        None
    }
}

/// The value of a hexadecimal digit.
pub fn hex_digit(c: char) -> (r: Option<u8>)
    ensures
        match hex_value(c) {
            Some(v) => r is Some && r->0 == v && 0 <= v < 16,
            None => r is None,
        },
{
    let code: u32 = c as u32;
    if '0' <= c && c <= '9' {
        Some((code - 48) as u8)
    } else if 'a' <= c && c <= 'f' {
        Some((code - 87) as u8)
    } else if 'A' <= c && c <= 'F' {
        Some((code - 55) as u8)
    } else {
        None
    }
}

/// Parses the MAC address string descriptor: twelve hex digits.
pub fn parse_mac(s: &str) -> (r: Option<[u8; 6]>)
    ensures
        match mac_of(s@) {
            Some(m) => r is Some && r->0@ == m,
            None => r is None,
        },
{
    let t = text::strip(s);
    let t = t.as_str();
    if t.unicode_len() != 12 {
        return None;
    }
    let mut mac: [u8; 6] = [0, 0, 0, 0, 0, 0];
    let mut i: usize = 0;
    while i < 6
        invariant
            i <= 6,
            t@.len() == 12,
            t@ == text::stripped(s@),
            mac@.len() == 6,
            forall|j: int| 0 <= j < 2 * i ==> hex_value(#[trigger] t@[j]) is Some,
            forall|j: int|
                0 <= j < i ==> #[trigger] mac@[j] == (16 * hex_value(t@[2 * j])->0 + hex_value(t@[2 * j + 1])->0) as u8,
        decreases 6 - i,
    {
        match (hex_digit(t.get_char(2 * i)), hex_digit(t.get_char(2 * i + 1))) {
            (Some(h), Some(l)) => {
                mac[i] = 16 * h + l;
            },
            _ => {
                assert(!twelve_digits(t@)) by {
                    assert(hex_value(t@[2 * i as int]) is None || hex_value(t@[2 * i + 1]) is None);
                }
                return None;
            },
        }
        i += 1;
    }
    assert(twelve_digits(t@));
    assert(mac@ =~= mac_of(s@)->0);
    Some(mac)
}

// ----- notifications ----------------------------------------------------------------

/// A decoded ECM/NCM notification.
#[derive(Debug, Clone, Copy, PartialEq, Eq, Structural)]
pub enum Notification {
    /// The link went up or down.
    Connection(bool),
    /// The link's bit rates.
    Speed { down: u32, up: u32 },
}

/// The notification in `n`.
pub open spec fn notification_of(n: Seq<u8>) -> Option<Notification> {
    if n.len() < 8 || n[0] != 0xa1 {
        None
    } else if n[1] == 0x00 {
        Some(Notification::Connection(le16_at(n, 2) != 0))
    } else if n[1] == 0x2a && n.len() >= 16 {
        Some(Notification::Speed { down: le32_at(n, 8), up: le32_at(n, 12) })
    } else {
        None
    }
}

/// Decodes an ECM/NCM notification.
pub fn decode_notification(n: &[u8]) -> (r: Option<Notification>)
    ensures
        r == notification_of(n@),
{
    if n.len() < 8 || n[0] != 0xa1 {
        return None;
    }
    if n[1] == 0x00 {
        Some(Notification::Connection(le16(n, 2) != 0))
    } else if n[1] == 0x2a && n.len() >= 16 {
        Some(Notification::Speed { down: le32(n, 8), up: le32(n, 12) })
    } else {
        None
    }
}

// ----- transfer blocks ------------------------------------------------------------------

/// GET_NTB_PARAMETERS response: the NTB sizes and datagram alignment rules.
#[derive(Debug, Clone, Copy, PartialEq, Eq, Structural)]
pub struct NtbParameters {
    /// Largest block the device sends.
    pub in_max_size: u32,
    /// Largest block the device takes.
    pub out_max_size: u32,
    /// Datagrams start where their offset modulo this...
    pub out_divisor: u16,
    /// ... is this (modulo the divisor).
    pub out_remainder: u16,
    /// Alignment of the datagram pointers.
    pub out_alignment: u16,
}

/// The parameters in `b`, if the device supports 16-bit blocks.
pub open spec fn ntb_parameters_of(b: Seq<u8>) -> Option<NtbParameters> {
    if b.len() < 28 || le16_at(b, 2) % 2 == 0 {
        None
    } else {
        Some(
            NtbParameters {
                in_max_size: le32_at(b, 4),
                out_max_size: le32_at(b, 16),
                out_divisor: le16_at(b, 20),
                out_remainder: le16_at(b, 22),
                out_alignment: le16_at(b, 24),
            },
        )
    }
}

impl NtbParameters {
    /// Decodes the response; `None` if the device has no 16-bit blocks.
    pub fn parse(b: &[u8]) -> (r: Option<NtbParameters>)
        ensures
            r == ntb_parameters_of(b@),
    {
        if b.len() < 28 || le16(b, 2) % 2 == 0 {
            return None;
        }
        Some(
            NtbParameters {
                in_max_size: le32(b, 4),
                out_max_size: le32(b, 16),
                out_divisor: le16(b, 20),
                out_remainder: le16(b, 22),
                out_alignment: le16(b, 24),
            },
        )
    }
}

/// Length of the block header.
pub const NTH16_LEN: usize = 12;

/// A datagram pointer table for one datagram: header, one entry, and the
/// terminator.
pub const NDP16_ONE_LEN: usize = 16;

/// "NCMH"
pub open spec fn nth16_signature() -> Seq<u8> {
    seq![0x4e, 0x43, 0x4d, 0x48]
}

/// "NCM0": datagrams without a CRC.
pub open spec fn ndp16_no_crc() -> Seq<u8> {
    seq![0x4e, 0x43, 0x4d, 0x30]
}

/// "NCM1": datagrams with a trailing CRC.
pub open spec fn ndp16_crc() -> Seq<u8> {
    seq![0x4e, 0x43, 0x4d, 0x31]
}

/// The least multiple of `to` that is not below `v`.
pub open spec fn aligned(v: int, to: int) -> int {
    if to <= 1 {
        v
    } else {
        ((v + to - 1) / to) * to
    }
}

/// Rounds up to a multiple.
pub fn align_up(v: usize, to: usize) -> (r: usize)
    requires
        v + to <= usize::MAX,
    ensures
        r == aligned(v as int, to as int),
        v <= r < v + to || (r == v && to == 0),
        to > 0 ==> r as int % to as int == 0,
{
    if to <= 1 {
        proof {
            if to == 1 {
                assert(v as int % 1 == 0);
            }
        }
        return v;
    }
    let k: usize = (v + (to - 1)) / to;
    proof {
        let x = (v + to - 1) as int;
        let t = to as int;
        vstd::arithmetic::div_mod::lemma_fundamental_div_mod(x, t);
        vstd::arithmetic::div_mod::lemma_mod_bound(x, t);
        assert(k * t == t * (x / t)) by (nonlinear_arith)
            requires
                k == x / t,
        ;
        assert(k * t == x - x % t);
        vstd::arithmetic::div_mod::lemma_fundamental_div_mod_converse(k * t, t, k as int, 0);
    }
    k * to
}

/// Where the datagram pointer table of a one-frame block stands.
pub open spec fn ndp_offset(p: NtbParameters) -> int {
    aligned(12, if p.out_alignment < 4 { 4 } else { p.out_alignment as int })
}

/// The divisor of datagram offsets, at least one.
pub open spec fn ntb_divisor(p: NtbParameters) -> int {
    if p.out_divisor == 0 {
        1
    } else {
        p.out_divisor as int
    }
}

/// Where the datagram of a one-frame block stands.
pub open spec fn datagram_offset(p: NtbParameters) -> int {
    aligned(ndp_offset(p) + 16, ntb_divisor(p)) + p.out_remainder as int % ntb_divisor(p)
}

/// The length of a one-frame block: an exact multiple of the packet size
/// gets one more byte.
pub open spec fn ntb_total(len: int, p: NtbParameters, pad_multiple: int) -> int {
    let total = datagram_offset(p) + len;
    if pad_multiple > 0 && total % pad_multiple == 0 {
        total + 1
    } else {
        total
    }
}

/// The block that carries one frame.
pub open spec fn ntb_block(frame: Seq<u8>, sequence: u16, p: NtbParameters, pad_multiple: int) -> Seq<u8> {
    let ndp = ndp_offset(p);
    let data = datagram_offset(p);
    let total = ntb_total(frame.len() as int, p, pad_multiple);
    ntb_head(sequence, ndp, data, total, frame.len() as int) + frame + zeros(total - data - frame.len())
}

/// The header of a block.
pub open spec fn nth16(sequence: u16, total: u16, ndp: u16) -> Seq<u8> {
    nth16_signature() + u16_bytes(12) + u16_bytes(sequence) + u16_bytes(total) + u16_bytes(ndp)
}

/// The start of a pointer table for one datagram.
pub open spec fn ndp16(data: u16, len: u16) -> Seq<u8> {
    ndp16_no_crc() + u16_bytes(16) + u16_bytes(0) + u16_bytes(data) + u16_bytes(len)
}

/// What precedes the frame in a one-frame block. The next table's index and
/// the terminating (0, 0) entry are zero.
pub open spec fn ntb_head(sequence: u16, ndp: int, data: int, total: int, len: int) -> Seq<u8> {
    nth16(sequence, total as u16, ndp as u16) + zeros(ndp - 12) + ndp16(data as u16, len as u16) + zeros(
        data - ndp - 12,
    )
}

/// Whether a one-frame block fits what the device takes.
pub open spec fn ntb_fits(len: int, p: NtbParameters, pad_multiple: int) -> bool {
    ntb_total(len, p, pad_multiple) <= p.out_max_size && ntb_total(len, p, pad_multiple) <= 0xffff
}

/// Wraps one Ethernet frame into an NTB16, following the device's alignment
/// rules. `pad_multiple` is the bulk OUT packet size: a block that would be
/// an exact multiple of it gets one more byte, so it ends with a short packet
/// on every platform (the spec allows padding past the datagrams).
pub fn build_ntb16(frame: &[u8], sequence: u16, p: &NtbParameters, pad_multiple: usize) -> (r: Result<Vec<u8>>)
    requires
        frame@.len() <= usize::MAX - 0x8_0000,
    ensures
        ntb_fits(frame@.len() as int, *p, pad_multiple as int) ==> r is Ok && r->Ok_0@ == ntb_block(
            frame@,
            sequence,
            *p,
            pad_multiple as int,
        ),
        !ntb_fits(frame@.len() as int, *p, pad_multiple as int) ==> r is Err && r->Err_0@ == message(
            ErrorKind::InvalidParam,
            "frame too large for the device's NTB size"@,
        ),
{
    let alignment: usize = if p.out_alignment < 4 { 4 } else { p.out_alignment as usize };
    let ndp: usize = align_up(NTH16_LEN, alignment);
    let divisor: usize = if p.out_divisor == 0 { 1 } else { p.out_divisor as usize };
    let remainder: usize = p.out_remainder as usize % divisor;
    // The datagram starts where offset % divisor == remainder.
    let data: usize = align_up(ndp + NDP16_ONE_LEN, divisor) + remainder;
    let mut total: usize = data + frame.len();
    if pad_multiple > 0 && total % pad_multiple == 0 {
        total += 1;
    }
    if total as u64 > p.out_max_size as u64 || total > 0xffff {
        return Err(Error::with_message(ErrorKind::InvalidParam, "frame too large for the device's NTB size"));
    }
    let mut b = ntb_head_bytes(sequence, ndp as u16, data as u16, total as u16, frame.len() as u16);
    bytes::put(&mut b, frame);
    bytes::pad_to(&mut b, total);
    Ok(b)
}

/// Writes what precedes the frame in a one-frame block.
fn ntb_head_bytes(sequence: u16, ndp: u16, data: u16, total: u16, len: u16) -> (r: Vec<u8>)
    requires
        ndp >= 12,
        data >= ndp + 16,
    ensures
        r@ == ntb_head(sequence, ndp as int, data as int, total as int, len as int),
        r@.len() == data,
{
    let mut b: Vec<u8> = Vec::new();
    b.push(0x4e);
    b.push(0x43);
    b.push(0x4d);
    b.push(0x48);
    assert(b@ =~= nth16_signature());
    bytes::put16(&mut b, 12);
    bytes::put16(&mut b, sequence);
    bytes::put16(&mut b, total);
    bytes::put16(&mut b, ndp);
    assert(b@ == nth16(sequence, total, ndp));
    bytes::pad_to(&mut b, ndp as usize);
    let mut table: Vec<u8> = Vec::new();
    table.push(0x4e);
    table.push(0x43);
    table.push(0x4d);
    table.push(0x30);
    assert(table@ =~= ndp16_no_crc());
    bytes::put16(&mut table, 16);
    bytes::put16(&mut table, 0);
    bytes::put16(&mut table, data);
    bytes::put16(&mut table, len);
    bytes::put(&mut b, table.as_slice());
    bytes::pad_to(&mut b, data as usize);
    b
}

/// The frames found in a block, and whether it was well formed to the end.
pub type Frames = (Seq<Seq<u8>>, bool);

/// The frame that an entry of a pointer table names.
pub open spec fn entry_len(b: Seq<u8>, entry: int, crc: bool) -> int {
    let length = le16_at(b, entry + 2) as int;
    // With CRC mode the datagram carries a trailing 4-byte CRC.
    if !crc {
        length
    } else if length < 4 {
        0
    } else {
        length - 4
    }
}

/// The frames that the entries from `entry` up to `end` name.
pub open spec fn entry_frames(b: Seq<u8>, block: int, crc: bool, entry: int, end: int) -> Frames
    decreases end - entry,
{
    if entry + 4 > end {
        (Seq::empty(), true)
    } else {
        let index = le16_at(b, entry) as int;
        let length = entry_len(b, entry, crc);
        if index == 0 || le16_at(b, entry + 2) == 0 {
            (Seq::empty(), true)
        } else if index < 12 || index + length > block || length < 14 {
            (Seq::empty(), false)
        } else {
            let rest = entry_frames(b, block, crc, entry + 4, end);
            (seq![b.subrange(index, index + length)] + rest.0, rest.1)
        }
    }
}

/// Whether a pointer table at `ndp` can be read.
pub open spec fn ndp_ok(b: Seq<u8>, block: int, ndp: int) -> bool {
    &&& ndp >= 12
    &&& ndp % 4 == 0
    &&& ndp + 8 <= block
    &&& (b.subrange(ndp, ndp + 4) == ndp16_no_crc() || b.subrange(ndp, ndp + 4) == ndp16_crc())
    &&& le16_at(b, ndp + 4) >= 16
    &&& ndp + le16_at(b, ndp + 4) <= block
}

/// The frames of the chain of pointer tables that starts at `ndp`, of which
/// at most `fuel` are followed.
pub open spec fn chain_frames(b: Seq<u8>, block: int, ndp: int, fuel: nat) -> Frames
    decreases fuel,
{
    if fuel == 0 {
        (Seq::empty(), false)
    } else if ndp == 0 {
        (Seq::empty(), true)
    } else if !ndp_ok(b, block, ndp) {
        (Seq::empty(), false)
    } else {
        let crc = b.subrange(ndp, ndp + 4) == ndp16_crc();
        let here = entry_frames(b, block, crc, ndp + 8, ndp + le16_at(b, ndp + 4));
        if here.1 {
            let rest = chain_frames(b, block, le16_at(b, ndp + 6) as int, (fuel - 1) as nat);
            (here.0 + rest.0, rest.1)
        } else {
            here
        }
    }
}

/// How many pointer tables are followed, which defeats loops.
pub const MAX_TABLES: usize = 16;

/// Whether a block starts with a header.
pub open spec fn has_header(b: Seq<u8>) -> bool {
    b.len() >= 12 && b.take(4) == nth16_signature() && le16_at(b, 4) == 12
}

/// The frames of a block.
pub open spec fn block_frames(b: Seq<u8>) -> Frames {
    if !has_header(b) {
        (Seq::empty(), false)
    } else {
        let declared = le16_at(b, 8) as int;
        let block = if declared < b.len() { declared } else { b.len() as int };
        chain_frames(b, block, le16_at(b, 10) as int, MAX_TABLES as nat)
    }
}

/// The bytes of a list of slices.
pub open spec fn slices(v: Seq<&[u8]>) -> Seq<Seq<u8>> {
    Seq::new(v.len(), |i: int| v[i]@)
}

fn signature_at(b: &[u8], at: usize, last: u8) -> (r: bool)
    requires
        at + 4 <= b@.len(),
    ensures
        r == (b@.subrange(at as int, at + 4) == seq![0x4e, 0x43, 0x4d, last]),
{
    let n: usize = b.len();
    assert(at + 4 <= n);
    let r = b[at] == 0x4e && b[at + 1] == 0x43 && b[at + 2] == 0x4d && b[at + 3] == last;
    proof {
        let s = b@.subrange(at as int, at + 4);
        assert(s[0] == b@[at as int] && s[1] == b@[at + 1] && s[2] == b@[at + 2] && s[3] == b@[at + 3]);
        let t = seq![0x4eu8, 0x43, 0x4d, last];
        if r {
            assert(s =~= t);
        } else {
            assert(t[0] == 0x4e && t[1] == 0x43 && t[2] == 0x4d && t[3] == last);
        }
    }
    r
}

/// Adds the frames of one pointer table; `false` on a malformed entry.
fn take_entries<'a>(b: &'a [u8], block: usize, crc: bool, ndp: usize, len: usize, out: &mut Vec<&'a [u8]>) -> (r: bool)
    requires
        block <= b@.len(),
        ndp + len <= block,
        len >= 16,
        block <= 0xffff,
    ensures
        ({
            let f = entry_frames(b@, block as int, crc, ndp + 8, ndp + len);
            r == f.1 && slices(final(out)@) == slices(old(out)@) + f.0
        }),
{
    let end: usize = ndp + len;
    let mut entry: usize = ndp + 8;
    let ghost start = slices(out@);
    let ghost all = entry_frames(b@, block as int, crc, entry as int, end as int);
    assert(slices(out@) + all.0 =~= start + all.0);
    while entry + 4 <= end
        invariant
            entry <= end + 4,
            end == ndp + len,
            start == slices(old(out)@),
            all == entry_frames(b@, block as int, crc, ndp + 8, end as int),
            end <= block <= b@.len(),
            block <= 0xffff,
            ({
                let rest = entry_frames(b@, block as int, crc, entry as int, end as int);
                rest.1 == all.1 && slices(out@) + rest.0 =~= start + all.0
            }),
        decreases end + 4 - entry,
    {
        let index: usize = le16(b, entry) as usize;
        let raw: usize = le16(b, entry + 2) as usize;
        if index == 0 || raw == 0 {
            assert(slices(out@) =~= start + all.0);
            return true;
        }
        let length: usize = if !crc {
            raw
        } else if raw < 4 {
            0
        } else {
            raw - 4
        };
        if index < NTH16_LEN || index + length > block || length < 14 {
            assert(slices(out@) =~= start + all.0);
            return false;
        }
        let frame = slice_subrange(b, index, index + length);
        let ghost before = slices(out@);
        let ghost rest = entry_frames(b@, block as int, crc, entry + 4, end as int);
        out.push(frame);
        assert(slices(out@) =~= before.push(frame@));
        assert(before + (seq![frame@] + rest.0) =~= slices(out@) + rest.0);
        entry += 4;
    }
    assert(slices(out@) =~= start + all.0);
    true
}

/// Splits an NTB16 into its datagrams. The flag is `false` if the block is
/// malformed (datagrams found before the problem are still there).
pub fn parse_ntb16<'a>(b: &'a [u8]) -> (r: (Vec<&'a [u8]>, bool))
    ensures
        (slices(r.0@), r.1) == block_frames(b@),
{
    let mut out: Vec<&'a [u8]> = Vec::new();
    assert(slices(out@) =~= Seq::<Seq<u8>>::empty());
    if b.len() < NTH16_LEN {
        return (out, false);
    }
    assert(b@.take(4) =~= b@.subrange(0, 4));
    if !signature_at(b, 0, 0x48) || le16(b, 4) as usize != NTH16_LEN {
        return (out, false);
    }
    let declared: usize = le16(b, 8) as usize;
    let block: usize = if declared < b.len() { declared } else { b.len() };
    let mut ndp: usize = le16(b, 10) as usize;
    let mut k: usize = 0;
    let ghost all = chain_frames(b@, block as int, ndp as int, MAX_TABLES as nat);
    assert(slices(out@) + all.0 =~= all.0);
    while k < MAX_TABLES
        invariant
            k <= MAX_TABLES,
            block <= b@.len(),
            block <= 0xffff,
            ndp <= 0xffff,
            ({
                let rest = chain_frames(b@, block as int, ndp as int, (MAX_TABLES - k) as nat);
                rest.1 == all.1 && slices(out@) + rest.0 =~= all.0
            }),
            all == block_frames(b@),
        decreases MAX_TABLES - k,
    {
        if ndp == 0 {
            assert(slices(out@) =~= all.0);
            return (out, true);
        }
        if ndp < NTH16_LEN || ndp % 4 != 0 || ndp + 8 > block {
            assert(slices(out@) =~= all.0);
            return (out, false);
        }
        let crc = signature_at(b, ndp, 0x31);
        if !crc && !signature_at(b, ndp, 0x30) {
            assert(slices(out@) =~= all.0);
            return (out, false);
        }
        let len: usize = le16(b, ndp + 4) as usize;
        if len < 16 || ndp + len > block {
            assert(slices(out@) =~= all.0);
            return (out, false);
        }
        let ghost before = slices(out@);
        let ghost here = entry_frames(b@, block as int, crc, ndp + 8, ndp + len);
        let ghost next = chain_frames(b@, block as int, le16_at(b@, ndp + 6) as int, (MAX_TABLES - k - 1) as nat);
        let ok = take_entries(b, block, crc, ndp, len, &mut out);
        if !ok {
            assert(slices(out@) =~= all.0);
            return (out, false);
        }
        assert(before + (here.0 + next.0) =~= slices(out@) + next.0);
        ndp = le16(b, ndp + 6) as usize;
        k += 1;
    }
    assert(slices(out@) =~= all.0);
    (out, false)
}

// ----- what blocks keep -------------------------------------------------------------------

proof fn lemma_aligned(v: int, to: int)
    requires
        v >= 0,
        to >= 1,
    ensures
        v <= aligned(v, to) < v + to,
        aligned(v, to) % to == 0,
{
    if to > 1 {
        let x = v + to - 1;
        vstd::arithmetic::div_mod::lemma_fundamental_div_mod(x, to);
        vstd::arithmetic::div_mod::lemma_mod_bound(x, to);
        let k = x / to;
        assert(k * to == to * k) by (nonlinear_arith);
        vstd::arithmetic::div_mod::lemma_fundamental_div_mod_converse(k * to, to, k, 0);
    }
}

/// A block honours the device's rules: the datagram starts where its offset
/// modulo the divisor is the remainder, past the pointer table, which is
/// aligned as asked; and the block never ends on a packet boundary (of
/// packets longer than a byte).
pub proof fn lemma_ntb_honours_rules(len: nat, p: NtbParameters, pad_multiple: int)
    ensures
        datagram_offset(p) % ntb_divisor(p) == p.out_remainder as int % ntb_divisor(p),
        ndp_offset(p) >= 12,
        p.out_alignment >= 4 ==> ndp_offset(p) % p.out_alignment as int == 0,
        p.out_alignment < 4 ==> ndp_offset(p) % 4 == 0,
        datagram_offset(p) >= ndp_offset(p) + 16,
        pad_multiple > 1 ==> ntb_total(len as int, p, pad_multiple) % pad_multiple != 0,
        ntb_total(len as int, p, pad_multiple) >= datagram_offset(p) + len,
{
    let alignment = if p.out_alignment < 4 { 4 } else { p.out_alignment as int };
    lemma_aligned(12, alignment);
    let d = ntb_divisor(p);
    let r = p.out_remainder as int % d;
    let base = aligned(ndp_offset(p) + 16, d);
    lemma_aligned(ndp_offset(p) + 16, d);
    vstd::arithmetic::div_mod::lemma_fundamental_div_mod(base, d);
    vstd::arithmetic::div_mod::lemma_mod_bound(p.out_remainder as int, d);
    vstd::arithmetic::div_mod::lemma_fundamental_div_mod_converse(base + r, d, base / d, r);
    let t = datagram_offset(p) + len;
    if pad_multiple > 1 && t % pad_multiple == 0 {
        vstd::arithmetic::div_mod::lemma_fundamental_div_mod(t, pad_multiple);
        vstd::arithmetic::div_mod::lemma_fundamental_div_mod_converse(t + 1, pad_multiple, t / pad_multiple, 1);
    }
}

proof fn lemma_nth16(sequence: u16, total: u16, ndp: u16)
    ensures
        nth16(sequence, total, ndp).len() == 12,
        nth16(sequence, total, ndp).take(4) == nth16_signature(),
        le16_at(nth16(sequence, total, ndp), 4) == 12,
        le16_at(nth16(sequence, total, ndp), 8) == total,
        le16_at(nth16(sequence, total, ndp), 10) == ndp,
{
    let h = nth16(sequence, total, ndp);
    assert(h.take(4) =~= nth16_signature());
    assert(h[4] == (12u16 % 256) as u8 && h[5] == (12u16 / 256) as u8);
    assert(h[8] == (total % 256) as u8 && h[9] == (total / 256) as u8);
    assert(h[10] == (ndp % 256) as u8 && h[11] == (ndp / 256) as u8);
}

proof fn lemma_ndp16(data: u16, len: u16)
    ensures
        ndp16(data, len).len() == 12,
        ndp16(data, len).take(4) == ndp16_no_crc(),
        le16_at(ndp16(data, len), 4) == 16,
        le16_at(ndp16(data, len), 6) == 0,
        le16_at(ndp16(data, len), 8) == data,
        le16_at(ndp16(data, len), 10) == len,
{
    let h = ndp16(data, len);
    assert(h.take(4) =~= ndp16_no_crc());
    assert(h[4] == (16u16 % 256) as u8 && h[5] == (16u16 / 256) as u8);
    assert(h[6] == (0u16 % 256) as u8 && h[7] == (0u16 / 256) as u8);
    assert(h[8] == (data % 256) as u8 && h[9] == (data / 256) as u8);
    assert(h[10] == (len % 256) as u8 && h[11] == (len / 256) as u8);
}

/// Taking a block apart gives back the frame that was wrapped: every frame
/// with an Ethernet header that fits the device's blocks, where the pointer
/// table stands on a multiple of four (as any alignment that is a power of
/// two makes it).
pub proof fn lemma_ntb_round_trip(frame: Seq<u8>, sequence: u16, p: NtbParameters, pad_multiple: int)
    requires
        frame.len() >= 14,
        ntb_fits(frame.len() as int, p, pad_multiple),
        ndp_offset(p) % 4 == 0,
    ensures
        block_frames(ntb_block(frame, sequence, p, pad_multiple)) == (seq![frame], true),
{
    lemma_ntb_honours_rules(frame.len(), p, pad_multiple);
    let ndp = ndp_offset(p);
    let data = datagram_offset(p);
    let len = frame.len() as int;
    let total = ntb_total(len, p, pad_multiple);
    let b = ntb_block(frame, sequence, p, pad_multiple);
    let head = nth16(sequence, total as u16, ndp as u16);
    let table = ndp16(data as u16, len as u16);
    lemma_nth16(sequence, total as u16, ndp as u16);
    lemma_ndp16(data as u16, len as u16);
    let all = ntb_head(sequence, ndp, data, total, len);
    assert(all.len() == data);
    assert(b.len() == total);
    assert forall|i: int| 0 <= i < 12 implies #[trigger] b[i] == head[i] by {
        assert(b[i] == all[i]);
    }
    assert forall|i: int| 0 <= i < 12 implies b[ndp + i] == #[trigger] table[i] by {
        assert(b[ndp + i] == all[ndp + i]);
    }
    assert forall|i: int| ndp + 12 <= i < data implies #[trigger] b[i] == 0 by {
        assert(b[i] == all[i]);
    }
    assert(b.take(4) =~= head.take(4));
    assert(le16_at(b, 4) == 12);
    assert(le16_at(b, 8) == total);
    assert(le16_at(b, 10) == ndp);
    assert(b.subrange(ndp, ndp + 4) =~= table.take(4)) by {
        assert forall|i: int| 0 <= i < 4 implies b.subrange(ndp, ndp + 4)[i] == table.take(4)[i] by {
            assert(b[ndp + i] == table[i]);
        }
    }
    assert(table[4] == b[ndp + 4] && table[5] == b[ndp + 5] && table[6] == b[ndp + 6] && table[7] == b[ndp + 7]);
    assert(table[8] == b[ndp + 8] && table[9] == b[ndp + 9] && table[10] == b[ndp + 10] && table[11] == b[ndp + 11]);
    assert(le16_at(b, ndp + 4) == 16);
    assert(le16_at(b, ndp + 6) == 0);
    assert(le16_at(b, ndp + 8) == data);
    assert(le16_at(b, ndp + 10) == len);
    assert(b[ndp + 12] == 0 && b[ndp + 13] == 0);
    assert(le16_at(b, ndp + 12) == 0);
    assert(ndp16_no_crc() != ndp16_crc()) by {
        assert(ndp16_no_crc()[3] != ndp16_crc()[3]);
    }
    assert(b.subrange(data, data + len) =~= frame);
    assert(entry_frames(b, total, false, ndp + 12, ndp + 16) == (Seq::<Seq<u8>>::empty(), true));
    assert(entry_frames(b, total, false, ndp + 8, ndp + 16).0 =~= seq![frame]);
    assert(chain_frames(b, total, 0, 15) == (Seq::<Seq<u8>>::empty(), true));
    assert(chain_frames(b, total, ndp, 16).0 =~= seq![frame]);
}

/// Every datagram that comes out of a block lies within it and holds at least
/// an Ethernet header.
pub proof fn lemma_block_frames_are_parts(b: Seq<u8>, i: int)
    requires
        0 <= i < block_frames(b).0.len(),
    ensures
        block_frames(b).0[i].len() >= 14,
        exists|from: int, to: int|
            0 <= from <= to <= b.len() && block_frames(b).0[i] == #[trigger] b.subrange(from, to),
{
    let declared = le16_at(b, 8) as int;
    let block = if declared < b.len() { declared } else { b.len() as int };
    lemma_chain_frames_are_parts(b, block, le16_at(b, 10) as int, MAX_TABLES as nat, i);
}

proof fn lemma_entry_frames_are_parts(b: Seq<u8>, block: int, crc: bool, entry: int, end: int, i: int)
    requires
        block <= b.len(),
        0 <= i < entry_frames(b, block, crc, entry, end).0.len(),
    ensures
        entry_frames(b, block, crc, entry, end).0[i].len() >= 14,
        exists|from: int, to: int|
            0 <= from <= to <= b.len() && entry_frames(b, block, crc, entry, end).0[i] == #[trigger] b.subrange(from, to),
    decreases end - entry,
{
    if i > 0 {
        lemma_entry_frames_are_parts(b, block, crc, entry + 4, end, i - 1);
    } else {
        let index = le16_at(b, entry) as int;
        let length = entry_len(b, entry, crc);
        assert(entry_frames(b, block, crc, entry, end).0[i] == b.subrange(index, index + length));
    }
}

proof fn lemma_chain_frames_are_parts(b: Seq<u8>, block: int, ndp: int, fuel: nat, i: int)
    requires
        block <= b.len(),
        0 <= i < chain_frames(b, block, ndp, fuel).0.len(),
    ensures
        chain_frames(b, block, ndp, fuel).0[i].len() >= 14,
        exists|from: int, to: int|
            0 <= from <= to <= b.len() && chain_frames(b, block, ndp, fuel).0[i] == #[trigger] b.subrange(from, to),
    decreases fuel,
{
    let crc = b.subrange(ndp, ndp + 4) == ndp16_crc();
    let here = entry_frames(b, block, crc, ndp + 8, ndp + le16_at(b, ndp + 4));
    if i < here.0.len() {
        lemma_entry_frames_are_parts(b, block, crc, ndp + 8, ndp + le16_at(b, ndp + 4), i);
    } else {
        lemma_chain_frames_are_parts(b, block, le16_at(b, ndp + 6) as int, (fuel - 1) as nat, i - here.0.len());
    }
}

/// One more functional descriptor tells what it is about and leaves the rest:
/// a union (6) names the data interface, an Ethernet descriptor (0x0f) the
/// string with the address and the largest segment, an NCM descriptor (0x1a)
/// the capabilities.
pub proof fn lemma_functional_descriptors(ds: Seq<Seq<u8>>, d: Seq<u8>)
    requires
        d.len() >= 3,
    ensures
        functional_of(Seq::empty()) == (Functional {
            data_interface: None,
            mac_string: 0,
            max_segment_size: 0,
            ncm_capabilities: None,
        }),
        ({
            let f = functional_of(ds);
            let g = functional_of(ds.push(d));
            &&& d[1] == 0x24 && d[2] == 6 && d.len() >= 5 ==> g == (Functional { data_interface: Some(d[4]), ..f })
            &&& d[1] == 0x24 && d[2] == 0x0f && d.len() >= 13 ==> g == (Functional {
                mac_string: d[3],
                max_segment_size: (d[8] + 256 * d[9]) as u16,
                ..f
            })
            &&& d[1] == 0x24 && d[2] == 0x1a && d.len() >= 6 ==> g == (Functional { ncm_capabilities: Some(d[5]), ..f })
            &&& d[1] != 0x24 || !(d[2] == 6 || d[2] == 0x0f || d[2] == 0x1a) ==> g == f
        }),
{
    assert(ds.push(d).drop_last() =~= ds);
}

/// The data interface is the one that the union names, if it exists and is
/// another one; otherwise the next interface, if it has a setting of the data
/// class.
pub proof fn lemma_data_interface(f: Functional, v: Seq<Interface>, comm: u8)
    ensures
        ({
            let named = f.data_interface is Some && f.data_interface->0 != comm && class::interface_numbered(
                v,
                f.data_interface->0,
            ) is Some;
            let next = class::interface_numbered(v, (comm + 1) as u8);
            let follows = comm < 255 && next is Some && exists|k: int|
                0 <= k < next->0.alt_settings@.len() && (#[trigger] next->0.alt_settings@[k]).class == 0x0a;
            &&& named ==> data_interface_of(f, v, comm) == f.data_interface
            &&& !named && follows ==> data_interface_of(f, v, comm) == Some((comm + 1) as u8)
            &&& !named && !follows ==> data_interface_of(f, v, comm) is None
        }),
{
}

/// An address is twelve hexadecimal digits, in either case, two for each of
/// its six bytes; white space around them does not matter.
pub proof fn lemma_address_digits(s: Seq<char>, i: int)
    requires
        0 <= i < 6,
    ensures
        mac_of(s) is Some <==> text::stripped(s).len() == 12 && forall|k: int|
            0 <= k < 12 ==> {
                ||| '0' <= #[trigger] text::stripped(s)[k] <= '9'
                ||| 'a' <= text::stripped(s)[k] <= 'f'
                ||| 'A' <= text::stripped(s)[k] <= 'F'
            },
        mac_of(s) matches Some(m) ==> m.len() == 6 && m[i] == 16 * hex_value(text::stripped(s)[2 * i])->0 + hex_value(
            text::stripped(s)[2 * i + 1],
        )->0,
{
    let t = text::stripped(s);
    if mac_of(s) is Some {
        assert(hex_value(t[2 * i]) is Some && hex_value(t[2 * i + 1]) is Some);
        assert forall|k: int| 0 <= k < 12 implies {
            ||| '0' <= #[trigger] t[k] <= '9'
            ||| 'a' <= t[k] <= 'f'
            ||| 'A' <= t[k] <= 'F'
        } by {
            assert(hex_value(t[k]) is Some);
        }
    }
}

/// What a hexadecimal digit is worth.
pub proof fn lemma_hex_digits(d: int)
    requires
        0 <= d < 16,
    ensures
        d < 10 ==> hex_value(('0' as u32 + d) as char) == Some(d),
        d >= 10 ==> hex_value(('a' as u32 + d - 10) as char) == Some(d),
        d >= 10 ==> hex_value(('A' as u32 + d - 10) as char) == Some(d),
{
}

/// A notification says whether there is a connection (0x00), or how fast it is
/// (0x2a, the downstream rate first); others are passed over.
pub proof fn lemma_notifications(n: Seq<u8>)
    requires
        n.len() >= 16,
    ensures
        n[0] == 0xa1 && n[1] == 0 ==> notification_of(n) == Some(Notification::Connection(n[2] + 256 * n[3] != 0)),
        n[0] == 0xa1 && n[1] == 0x2a ==> notification_of(n) == Some(
            Notification::Speed { down: le32_at(n, 8), up: le32_at(n, 12) },
        ),
        n[0] != 0xa1 || (n[1] != 0 && n[1] != 0x2a) ==> notification_of(n) is None,
{
}

/// Where the transfer block parameters are; a device that does not offer
/// 16-bit blocks has none that can be used.
pub proof fn lemma_block_parameters(b: Seq<u8>)
    ensures
        ntb_parameters_of(b) is Some <==> b.len() >= 28 && b[2] % 2 == 1,
        ntb_parameters_of(b) matches Some(p) ==> {
            &&& p.in_max_size == le32_at(b, 4)
            &&& p.out_max_size == le32_at(b, 16)
            &&& p.out_divisor == b[20] + 256 * b[21]
            &&& p.out_remainder == b[22] + 256 * b[23]
            &&& p.out_alignment == b[24] + 256 * b[25]
        },
{
}

/// What a transfer block holds where: `NCMH`, the header length, the number,
/// the total and where the table is; there `NCM0`, its length, no further
/// table, and where the frame is and how long; then the end of the table, and
/// the frame.
pub proof fn lemma_block_layout(frame: Seq<u8>, sequence: u16, p: NtbParameters, pad_multiple: int)
    requires
        ntb_fits(frame.len() as int, p, pad_multiple),
    ensures
        ({
            let b = ntb_block(frame, sequence, p, pad_multiple);
            let ndp = ndp_offset(p);
            let data = datagram_offset(p);
            &&& b.len() == ntb_total(frame.len() as int, p, pad_multiple)
            &&& b.take(12) == seq![0x4eu8, 0x43, 0x4d, 0x48] + u16_bytes(12) + u16_bytes(sequence) + u16_bytes(
                b.len() as u16,
            ) + u16_bytes(ndp as u16)
            &&& b.subrange(ndp, ndp + 12) == seq![0x4eu8, 0x43, 0x4d, 0x30] + u16_bytes(16) + u16_bytes(0) + u16_bytes(
                data as u16,
            ) + u16_bytes(frame.len() as u16)
            &&& forall|i: int| ndp + 12 <= i < data ==> #[trigger] b[i] == 0
            &&& b.subrange(data, data + frame.len() as int) == frame
        }),
{
    lemma_ntb_honours_rules(frame.len(), p, pad_multiple);
    let b = ntb_block(frame, sequence, p, pad_multiple);
    let ndp = ndp_offset(p);
    let data = datagram_offset(p);
    assert(b.len() == ntb_total(frame.len() as int, p, pad_multiple));
    assert(b.take(12) =~= seq![0x4eu8, 0x43, 0x4d, 0x48] + u16_bytes(12) + u16_bytes(sequence) + u16_bytes(
        b.len() as u16,
    ) + u16_bytes(ndp as u16));
    assert(b.subrange(ndp, ndp + 12) =~= seq![0x4eu8, 0x43, 0x4d, 0x30] + u16_bytes(16) + u16_bytes(0) + u16_bytes(
        data as u16,
    ) + u16_bytes(frame.len() as u16));
    assert(b.subrange(data, data + frame.len() as int) =~= frame);
}

/// The frames of a table are taken one after the other, each where its entry
/// says, without its checksum where there is one, up to an entry that is zero;
/// an entry that points outside the block, or to less than an Ethernet header,
/// ends the block as malformed.
pub proof fn lemma_entries(b: Seq<u8>, block: int, crc: bool, entry: int, end: int)
    requires
        entry + 4 <= end,
    ensures
        ({
            let at = le16_at(b, entry) as int;
            let len = le16_at(b, entry + 2) as int - (if crc { 4int } else { 0 });
            let (frames, good) = entry_frames(b, block, crc, entry, end);
            let (rest, rest_good) = entry_frames(b, block, crc, entry + 4, end);
            &&& at == 0 || le16_at(b, entry + 2) == 0 ==> frames.len() == 0 && good
            &&& at != 0 && le16_at(b, entry + 2) != 0 && (at < 12 || at + len > block || len < 14) ==> frames.len() == 0
                && !good
            &&& at >= 12 && at + len <= block && len >= 14 ==> frames == seq![b.subrange(at, at + len)] + rest && good
                == rest_good
        }),
        entry_frames(b, block, crc, end, end) == (Seq::<Seq<u8>>::empty(), true),
{
    let at = le16_at(b, entry) as int;
    let len = le16_at(b, entry + 2) as int - (if crc { 4int } else { 0 });
    if at != 0 && le16_at(b, entry + 2) != 0 && len < 0 {
        assert(entry_len(b, entry, crc) == 0);
    }
}

/// Tables are followed one after the other from the one that the header names,
/// and what they name adds up; a table that is malformed ends the block.
pub proof fn lemma_tables(b: Seq<u8>, block: int, ndp: int, fuel: nat)
    requires
        fuel > 0,
        12 <= ndp,
        block <= b.len(),
    ensures
        ({
            let length = le16_at(b, ndp + 4) as int;
            let sign = (b[ndp], b[ndp + 1], b[ndp + 2]) == (0x4eu8, 0x43u8, 0x4du8) && (b[ndp + 3] == 0x30 || b[ndp + 3]
                == 0x31);
            let good = ndp % 4 == 0 && ndp + 8 <= block && sign && length >= 16 && ndp + length <= block;
            let here = entry_frames(b, block, b[ndp + 3] == 0x31, ndp + 8, ndp + length);
            let rest = chain_frames(b, block, le16_at(b, ndp + 6) as int, (fuel - 1) as nat);
            &&& !good ==> chain_frames(b, block, ndp, fuel) == (Seq::<Seq<u8>>::empty(), false)
            &&& good && here.1 ==> chain_frames(b, block, ndp, fuel) == (here.0 + rest.0, rest.1)
            &&& good && !here.1 ==> chain_frames(b, block, ndp, fuel) == here
        }),
        chain_frames(b, block, 0, fuel) == (Seq::<Seq<u8>>::empty(), true),
{
    if ndp + 8 <= block {
        let s = b.subrange(ndp, ndp + 4);
        assert(s[0] == b[ndp] && s[1] == b[ndp + 1] && s[2] == b[ndp + 2] && s[3] == b[ndp + 3]);
        if (b[ndp], b[ndp + 1], b[ndp + 2]) == (0x4eu8, 0x43u8, 0x4du8) {
            if b[ndp + 3] == 0x30 {
                assert(s =~= ndp16_no_crc());
                assert(ndp16_crc()[3] != s[3]);
            }
            if b[ndp + 3] == 0x31 {
                assert(s =~= ndp16_crc());
            }
        }
    }
}

/// A block starts with `NCMH` and the header length 12; its tables start where
/// the header says, and it ends where the header says or the data end.
pub proof fn lemma_block_header(b: Seq<u8>)
    ensures
        ({
            let good = b.len() >= 12 && (b[0], b[1], b[2], b[3]) == (0x4eu8, 0x43u8, 0x4du8, 0x48u8) && b[4] == 12 && b[5]
                == 0;
            let declared = b[8] + 256 * b[9];
            &&& !good ==> block_frames(b) == (Seq::<Seq<u8>>::empty(), false)
            &&& good ==> block_frames(b) == chain_frames(
                b,
                if declared < b.len() { declared } else { b.len() as int },
                b[10] + 256 * b[11],
                16,
            )
        }),
{
    if b.len() >= 12 {
        let s = b.take(4);
        assert(s[0] == b[0] && s[1] == b[1] && s[2] == b[2] && s[3] == b[3]);
        if (b[0], b[1], b[2], b[3]) == (0x4eu8, 0x43u8, 0x4du8, 0x48u8) {
            assert(s =~= nth16_signature());
        }
    }
}

} // verus!
