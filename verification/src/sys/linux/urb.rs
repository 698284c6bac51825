//! Transfers as usbfs URBs: how one is cut into URBs, and how what the kernel
//! hands back adds up to its outcome.

use super::{ECONNRESET, ENODEV, ENOENT, EOVERFLOW, EPIPE, ESHUTDOWN, ETIME, ETIMEDOUT};
use crate::error::{message, Error, ErrorKind, ErrorView, Result};
use crate::transfer::{lemma_total_is_monotonic, total_length, TransferFlags};
use crate::types::{fresh_packet, IsoPacket, TransferStatus, TransferType};
use vstd::prelude::*;

verus! {

/// `USBDEVFS_URB_SHORT_NOT_OK`
pub const URB_SHORT_NOT_OK: u32 = 0x01;

/// `USBDEVFS_URB_ISO_ASAP`
pub const URB_ISO_ASAP: u32 = 0x02;

/// `USBDEVFS_URB_BULK_CONTINUATION`
pub const URB_BULK_CONTINUATION: u32 = 0x04;

/// `USBDEVFS_URB_ZERO_PACKET`
pub const URB_ZERO_PACKET: u32 = 0x40;

/// `USBDEVFS_URB_TYPE_ISO`
pub const URB_TYPE_ISO: u8 = 0;

/// `USBDEVFS_URB_TYPE_INTERRUPT`
pub const URB_TYPE_INTERRUPT: u8 = 1;

/// `USBDEVFS_URB_TYPE_CONTROL`
pub const URB_TYPE_CONTROL: u8 = 2;

/// `USBDEVFS_URB_TYPE_BULK`
pub const URB_TYPE_BULK: u8 = 3;

/// Largest bulk URB accepted by kernels without scatter-gather support.
pub const MAX_BULK_BUFFER_LENGTH: usize = 16384;

/// Largest number of packets in one isochronous URB.
pub const MAX_ISO_PACKETS_PER_URB: usize = 128;

/// One URB: a stretch of the transfer's buffer and how the kernel is to treat
/// it.
#[derive(Debug, Clone, Copy, PartialEq, Eq, Structural)]
pub struct Urb {
    /// `type`.
    pub kind: u8,
    /// Where its part of the buffer starts.
    pub offset: usize,
    /// `buffer_length`.
    pub length: usize,
    /// `flags`.
    pub flags: u32,
    /// The first packet of the transfer that it carries (isochronous only).
    pub first_packet: usize,
    /// `number_of_packets`.
    pub packets: usize,
}

/// The capability `USBDEVFS_CAP_BULK_CONTINUATION`.
pub open spec fn can_continue(caps: u32) -> bool {
    caps / 2 % 2 == 1
}

/// The capability `USBDEVFS_CAP_BULK_SCATTER_GATHER`.
pub open spec fn can_scatter(caps: u32) -> bool {
    caps / 8 % 2 == 1
}

/// The flags of a URB that carries data.
pub open spec fn data_flags(continued: bool, short_not_ok: bool, zero_packet: bool) -> u32 {
    ((if continued {
        URB_BULK_CONTINUATION as int
    } else {
        0
    }) + (if short_not_ok {
        URB_SHORT_NOT_OK as int
    } else {
        0
    }) + (if zero_packet {
        URB_ZERO_PACKET as int
    } else {
        0
    })) as u32
}

/// A URB that carries the whole buffer.
pub open spec fn whole_urb(kind: u8, length: int, flags: u32) -> Urb {
    Urb { kind, offset: 0, length: length as usize, flags, first_packet: 0, packets: 0 }
}

/// How much of a bulk transfer one URB carries at most.
pub open spec fn bulk_chunk(caps: u32, length: int) -> int {
    if !can_scatter(caps) {
        MAX_BULK_BUFFER_LENGTH as int
    } else if length < 1 {
        1
    } else {
        length
    }
}

/// How many URBs a bulk transfer takes.
pub open spec fn bulk_count(caps: u32, length: int) -> int {
    if length == 0 {
        1
    } else if can_scatter(caps) {
        1
    } else {
        (length + MAX_BULK_BUFFER_LENGTH - 1) / MAX_BULK_BUFFER_LENGTH as int
    }
}

/// The bulk URB number `i`.
pub open spec fn bulk_urb(caps: u32, length: int, flags: TransferFlags, i: int) -> Urb {
    let chunk = bulk_chunk(caps, length);
    let offset = i * chunk;
    Urb {
        kind: URB_TYPE_BULK,
        offset: offset as usize,
        length: (if length - offset < chunk {
            length - offset
        } else {
            chunk
        }) as usize,
        flags: data_flags(i > 0, flags.short_not_ok, flags.zero_packet && i + 1 == bulk_count(caps, length)),
        first_packet: 0,
        packets: 0,
    }
}

/// How many URBs an isochronous transfer of `n` packets takes.
pub open spec fn iso_count(n: int) -> int {
    (n + MAX_ISO_PACKETS_PER_URB - 1) / MAX_ISO_PACKETS_PER_URB as int
}

/// The packet after the last one of the first `i` isochronous URBs.
pub open spec fn iso_bound(n: int, i: int) -> int {
    if i * MAX_ISO_PACKETS_PER_URB < n {
        i * MAX_ISO_PACKETS_PER_URB
    } else {
        n
    }
}

/// The isochronous URB number `i`.
pub open spec fn iso_urb(packets: Seq<IsoPacket>, i: int) -> Urb {
    let from = iso_bound(packets.len() as int, i);
    let to = iso_bound(packets.len() as int, i + 1);
    Urb {
        kind: URB_TYPE_ISO,
        offset: total_length(packets.take(from)) as usize,
        length: (total_length(packets.take(to)) - total_length(packets.take(from))) as usize,
        flags: URB_ISO_ASAP,
        first_packet: from as usize,
        packets: (to - from) as usize,
    }
}

/// The URBs of a transfer.
pub open spec fn urbs_of(
    kind: TransferType,
    caps: u32,
    length: int,
    flags: TransferFlags,
    packets: Seq<IsoPacket>,
) -> std::result::Result<Seq<Urb>, ErrorView> {
    if length > i32::MAX {
        Err(message(ErrorKind::InvalidParam, "buffer too large"@))
    } else {
        match kind {
            TransferType::Control => Ok(seq![whole_urb(URB_TYPE_CONTROL, length, 0)]),
            TransferType::Interrupt => Ok(
                seq![whole_urb(URB_TYPE_INTERRUPT, length, data_flags(false, flags.short_not_ok, flags.zero_packet))],
            ),
            TransferType::Bulk => if bulk_count(caps, length) > 1 && !can_continue(caps) {
                Err(message(ErrorKind::NotSupported, "kernel too old for large bulk transfers"@))
            } else {
                Ok(Seq::new(bulk_count(caps, length) as nat, |i: int| bulk_urb(caps, length, flags, i)))
            },
            TransferType::Isochronous => Ok(
                Seq::new(iso_count(packets.len() as int) as nat, |i: int| iso_urb(packets, i)),
            ),
        }
    }
}

/// Whether a transfer's packets lie inside its buffer.
pub open spec fn packets_inside(kind: TransferType, length: int, packets: Seq<IsoPacket>) -> bool {
    kind == TransferType::Isochronous ==> total_length(packets) <= length
}

fn flags_of(continued: bool, short_not_ok: bool, zero_packet: bool) -> (r: u32)
    ensures
        r == data_flags(continued, short_not_ok, zero_packet),
{
    let mut flags: u32 = 0;
    if continued {
        flags = flags + URB_BULK_CONTINUATION;
    }
    if short_not_ok {
        flags = flags + URB_SHORT_NOT_OK;
    }
    if zero_packet {
        flags = flags + URB_ZERO_PACKET;
    }
    flags
}

fn bulk_urbs(caps: u32, length: usize, flags: TransferFlags) -> (r: Result<Vec<Urb>>)
    requires
        length <= i32::MAX,
    ensures
        match urbs_of(TransferType::Bulk, caps, length as int, flags, Seq::empty()) {
            Ok(s) => r is Ok && (r->Ok_0)@ == s,
            Err(e) => r is Err && (r->Err_0)@ == e,
        },
{
    let scatter = caps / 8 % 2 == 1;
    let chunk: usize = if !scatter {
        MAX_BULK_BUFFER_LENGTH
    } else if length < 1 {
        1
    } else {
        length
    };
    let count: usize = if length == 0 || scatter {
        1
    } else {
        (length - 1) / MAX_BULK_BUFFER_LENGTH + 1
    };
    if count > 1 && caps / 2 % 2 == 0 {
        return Err(Error::with_message(ErrorKind::NotSupported, "kernel too old for large bulk transfers"));
    }
    let mut urbs: Vec<Urb> = Vec::new();
    let mut offset: usize = 0;
    let mut i: usize = 0;
    while i < count
        invariant
            length <= i32::MAX,
            chunk == bulk_chunk(caps, length as int),
            count == bulk_count(caps, length as int),
            count >= 1,
            chunk >= 1,
            i <= count,
            i < count ==> offset == i * chunk && offset <= length,
            scatter == can_scatter(caps),
            urbs@ == Seq::new(i as nat, |k: int| bulk_urb(caps, length as int, flags, k)),
        decreases count - i,
    {
        let rest: usize = length - offset;
        let take: usize = if rest < chunk {
            rest
        } else {
            chunk
        };
        let last = i + 1 == count;
        urbs.push(
            Urb {
                kind: URB_TYPE_BULK,
                offset,
                length: take,
                flags: flags_of(i > 0, flags.short_not_ok, flags.zero_packet && last),
                first_packet: 0,
                packets: 0,
            },
        );
        assert(urbs@ =~= Seq::new((i + 1) as nat, |k: int| bulk_urb(caps, length as int, flags, k)));
        i += 1;
        if i < count {
            assert(chunk == MAX_BULK_BUFFER_LENGTH);
            assert(offset + chunk == i * chunk) by (nonlinear_arith)
                requires
                    offset == (i - 1) * chunk,
            ;
            offset = offset + chunk;
        }
    }
    Ok(urbs)
}

fn iso_urbs(packets: &[IsoPacket], length: usize) -> (r: Vec<Urb>)
    requires
        total_length(packets@) <= length,
    ensures
        r@ == Seq::new(iso_count(packets@.len() as int) as nat, |i: int| iso_urb(packets@, i)),
{
    let mut urbs: Vec<Urb> = Vec::new();
    let mut at: usize = 0;
    let mut offset: usize = 0;
    let ghost mut k: int = 0;
    let n: usize = packets.len();
    assert(packets@.take(0) =~= Seq::<IsoPacket>::empty());
    while at < n
        invariant
            n == packets@.len(),
            total_length(packets@) <= length,
            0 <= k,
            at == iso_bound(packets@.len() as int, k),
            k <= iso_count(packets@.len() as int),
            at < packets@.len() ==> k < iso_count(packets@.len() as int) && at == k * MAX_ISO_PACKETS_PER_URB,
            at == packets@.len() ==> k == iso_count(packets@.len() as int),
            offset == total_length(packets@.take(at as int)),
            urbs@ == Seq::new(k as nat, |i: int| iso_urb(packets@, i)),
        decreases packets@.len() - at,
    {
        let rest: usize = n - at;
        let count: usize = if rest < MAX_ISO_PACKETS_PER_URB {
            rest
        } else {
            MAX_ISO_PACKETS_PER_URB
        };
        let mut end: usize = offset;
        let mut j: usize = 0;
        while j < count
            invariant
                n == packets@.len(),
                at + count <= n,
                j <= count,
                total_length(packets@) <= length,
                end == total_length(packets@.take(at + j)),
            decreases count - j,
        {
            proof {
                lemma_total_is_monotonic(packets@, at + j + 1);
                assert(packets@.take(at + j + 1).drop_last() =~= packets@.take(at + j));
            }
            end = end + packets[at + j].length as usize;
            j += 1;
        }
        proof {
            lemma_total_is_monotonic(packets@.take(at + count), at as int);
            assert(packets@.take(at + count).take(at as int) =~= packets@.take(at as int));
            assert(at + count == iso_bound(packets@.len() as int, k + 1));
        }
        urbs.push(
            Urb {
                kind: URB_TYPE_ISO,
                offset,
                length: end - offset,
                flags: URB_ISO_ASAP,
                first_packet: at,
                packets: count,
            },
        );
        assert(urbs@ =~= Seq::new((k + 1) as nat, |i: int| iso_urb(packets@, i)));
        proof {
            k = k + 1;
        }
        at = at + count;
        offset = end;
    }
    urbs
}

// ----- submissions ---------------------------------------------------------------

/// A transfer that the kernel works on.
#[derive(Debug)]
pub struct Submission {
    /// The transfer's kind.
    pub kind: TransferType,
    /// Its URBs, in order.
    pub urbs: Vec<Urb>,
    /// How many of them came back.
    pub reaped: usize,
    /// How many bytes those moved.
    pub actual: usize,
    /// The first failure that was not of our own making.
    pub status: Option<TransferStatus>,
    /// When it times out, in nanoseconds of the monotonic clock.
    pub deadline: Option<u64>,
    /// Whether the timeout ended it.
    pub timed_out: bool,
    /// Whether a cancellation ended it.
    pub cancelled: bool,
    /// URBs at this index and above were discarded by us (after a short or
    /// failed earlier URB); their status is not the transfer's status.
    pub discarded_from: usize,
    /// The packets with their results (isochronous only).
    pub iso_results: Vec<IsoPacket>,
}

/// What a [`Submission`] holds.
#[verifier::ext_equal]
pub struct SubmissionView {
    pub kind: TransferType,
    pub urbs: Seq<Urb>,
    pub reaped: int,
    pub actual: int,
    pub status: Option<TransferStatus>,
    pub deadline: Option<u64>,
    pub timed_out: bool,
    pub cancelled: bool,
    pub discarded_from: int,
    pub iso_results: Seq<IsoPacket>,
}

impl View for Submission {
    type V = SubmissionView;

    open spec fn view(&self) -> SubmissionView {
        SubmissionView {
            kind: self.kind,
            urbs: self.urbs@,
            reaped: self.reaped as int,
            actual: self.actual as int,
            status: self.status,
            deadline: self.deadline,
            timed_out: self.timed_out,
            cancelled: self.cancelled,
            discarded_from: self.discarded_from as int,
            iso_results: self.iso_results@,
        }
    }
}

/// What the kernel reports of one isochronous packet.
#[derive(Debug, Clone, Copy, PartialEq, Eq, Structural)]
pub struct PacketResult {
    /// Its requested length.
    pub length: u32,
    /// The bytes it moved.
    pub actual_length: u32,
    /// 0 or a negated errno value.
    pub status: i32,
}

/// What the kernel reports of one URB that it hands back.
#[derive(Debug)]
pub struct Reaped {
    /// 0 or a negated errno value.
    pub status: i32,
    /// `actual_length`.
    pub actual_length: i32,
    /// One report for each packet (isochronous only).
    pub packets: Vec<PacketResult>,
}

/// What a [`Reaped`] holds.
pub struct ReapedView {
    pub status: i32,
    pub actual_length: i32,
    pub packets: Seq<PacketResult>,
}

impl View for Reaped {
    type V = ReapedView;

    open spec fn view(&self) -> ReapedView {
        ReapedView { status: self.status, actual_length: self.actual_length, packets: self.packets@ }
    }
}

/// The status that a negated errno value of a URB stands for; `None` if the
/// URB was unlinked.
pub open spec fn urb_status_of(status: i32) -> Option<TransferStatus> {
    if -status == ENOENT || -status == ECONNRESET {
        None
    } else {
        Some(iso_status_of(status))
    }
}

/// The status that a negated errno value of a packet stands for.
pub open spec fn iso_status_of(status: i32) -> TransferStatus {
    if status == 0 {
        TransferStatus::Completed
    } else if -status == ENOENT || -status == ECONNRESET {
        TransferStatus::Cancelled
    } else if -status == ENODEV || -status == ESHUTDOWN {
        TransferStatus::NoDevice
    } else if -status == EPIPE {
        TransferStatus::Stall
    } else if -status == EOVERFLOW {
        TransferStatus::Overflow
    } else if -status == ETIME || -status == ETIMEDOUT {
        TransferStatus::TimedOut
    } else {
        TransferStatus::Error
    }
}

/// The status of a URB, `None` if it was unlinked.
pub fn urb_status(status: i32) -> (r: Option<TransferStatus>)
    ensures
        r == urb_status_of(status),
{
    match iso_status(status) {
        TransferStatus::Cancelled => None,
        s => Some(s),
    }
}

/// The status of an isochronous packet.
pub fn iso_status(status: i32) -> (r: TransferStatus)
    ensures
        r == iso_status_of(status),
{
    if status > 0 || status == i32::MIN {
        return TransferStatus::Error;
    }
    match -status {
        0 => TransferStatus::Completed,
        ENOENT | ECONNRESET => TransferStatus::Cancelled,
        ENODEV | ESHUTDOWN => TransferStatus::NoDevice,
        EPIPE => TransferStatus::Stall,
        EOVERFLOW => TransferStatus::Overflow,
        ETIME | ETIMEDOUT => TransferStatus::TimedOut,
        _ => TransferStatus::Error,
    }
}

/// A transfer of which the kernel has nothing yet.
pub open spec fn fresh_submission(
    kind: TransferType,
    urbs: Seq<Urb>,
    packets: Seq<IsoPacket>,
    timeout: u64,
    now: u64,
) -> SubmissionView {
    SubmissionView {
        kind,
        urbs,
        reaped: 0,
        actual: 0,
        status: None,
        deadline: if timeout == 0 {
            None
        } else {
            Some((now + timeout) as u64)
        },
        timed_out: false,
        cancelled: false,
        discarded_from: usize::MAX as int,
        iso_results: if kind == TransferType::Isochronous {
            packets.map_values(|p: IsoPacket| fresh_packet(p.length))
        } else {
            Seq::empty()
        },
    }
}

/// The bytes of packets.
pub open spec fn packet_bytes(packets: Seq<PacketResult>) -> int
    decreases packets.len(),
{
    if packets.len() == 0 {
        0
    } else {
        packet_bytes(packets.drop_last()) + packets.last().actual_length
    }
}

/// The bytes that a URB moved.
pub open spec fn moved(kind: TransferType, urb: ReapedView) -> int {
    if kind == TransferType::Isochronous {
        packet_bytes(urb.packets)
    } else if urb.actual_length < 0 {
        0
    } else {
        urb.actual_length as int
    }
}

/// A packet with its result.
pub open spec fn packet_done(p: PacketResult) -> IsoPacket {
    IsoPacket { length: p.length, actual_length: p.actual_length, status: iso_status_of(p.status) }
}

/// Packets of which those from `base` on have their results.
pub open spec fn packets_done(results: Seq<IsoPacket>, base: int, packets: Seq<PacketResult>) -> Seq<IsoPacket> {
    Seq::new(
        results.len(),
        |i: int|
            if base <= i < base + packets.len() {
                packet_done(packets[i - base])
            } else {
                results[i]
            },
    )
}

/// Whether the URBs behind number `index` have to be discarded now that it
/// came back short or failed.
pub open spec fn breaks_off(s: SubmissionView, index: int, urb: ReapedView) -> bool {
    &&& urb.status != 0 || (s.kind != TransferType::Isochronous && urb.actual_length < s.urbs[index].length)
    &&& index + 1 < s.urbs.len()
    &&& s.discarded_from > index + 1
}

/// A submission after its URB number `index` came back.
pub open spec fn urb_finished(s: SubmissionView, index: int, urb: ReapedView) -> SubmissionView {
    let ours = index >= s.discarded_from || s.cancelled || s.timed_out;
    SubmissionView {
        reaped: s.reaped + 1,
        actual: s.actual + moved(s.kind, urb),
        iso_results: if s.kind == TransferType::Isochronous {
            packets_done(s.iso_results, s.urbs[index].first_packet as int, urb.packets)
        } else {
            s.iso_results
        },
        status: if urb.status != 0 && !ours && s.status is None {
            urb_status_of(urb.status)
        } else {
            s.status
        },
        discarded_from: if breaks_off(s, index, urb) {
            index + 1
        } else {
            s.discarded_from
        },
        ..s
    }
}

/// The status of a transfer whose URBs all came back.
pub open spec fn final_status(s: SubmissionView) -> TransferStatus {
    if s.timed_out {
        TransferStatus::TimedOut
    } else if s.cancelled {
        TransferStatus::Cancelled
    } else {
        match s.status {
            Some(x) => x,
            None => TransferStatus::Completed,
        }
    }
}

/// The packets that a transfer's completion reports.
pub open spec fn final_packets(s: SubmissionView) -> Option<Seq<IsoPacket>> {
    if s.kind == TransferType::Isochronous {
        Some(s.iso_results)
    } else {
        None
    }
}

/// How a transfer ended.
#[derive(Debug)]
pub struct Outcome {
    /// Its status.
    pub status: TransferStatus,
    /// The bytes that it moved.
    pub actual_length: usize,
    /// Its packets (isochronous only).
    pub packets: Option<Vec<IsoPacket>>,
}

/// What an [`Outcome`] holds.
pub struct OutcomeView {
    pub status: TransferStatus,
    pub actual_length: int,
    pub packets: Option<Seq<IsoPacket>>,
}

impl View for Outcome {
    type V = OutcomeView;

    open spec fn view(&self) -> OutcomeView {
        OutcomeView {
            status: self.status,
            actual_length: self.actual_length as int,
            packets: match self.packets {
                Some(p) => Some(p@),
                None => None,
            },
        }
    }
}

fn fresh_results(packets: &[IsoPacket]) -> (r: Vec<IsoPacket>)
    ensures
        r@ == packets@.map_values(|p: IsoPacket| fresh_packet(p.length)),
{
    let mut out: Vec<IsoPacket> = Vec::new();
    let mut i: usize = 0;
    while i < packets.len()
        invariant
            i <= packets@.len(),
            out@ == packets@.take(i as int).map_values(|p: IsoPacket| fresh_packet(p.length)),
        decreases packets@.len() - i,
    {
        out.push(IsoPacket::new(packets[i].length));
        assert(out@ =~= packets@.take(i + 1).map_values(|p: IsoPacket| fresh_packet(p.length)));
        i += 1;
    }
    assert(packets@.take(i as int) =~= packets@);
    out
}

impl Submission {
    /// Whether every URB's packets are among the transfer's.
    pub open spec fn wf(self) -> bool {
        self.kind == TransferType::Isochronous ==> forall|i: int|
            0 <= i < self.urbs@.len() ==> (#[trigger] self.urbs@[i]).first_packet + self.urbs@[i].packets
                <= self.iso_results@.len()
    }

    /// Cuts a transfer into URBs for a kernel with the capabilities `caps`.
    /// `timeout` and `now` are in nanoseconds; a timeout of 0 is none.
    pub fn build(
        kind: TransferType,
        caps: u32,
        length: usize,
        flags: TransferFlags,
        packets: &[IsoPacket],
        timeout: u64,
        now: u64,
    ) -> (r: Result<Submission>)
        requires
            packets_inside(kind, length as int, packets@),
            now + timeout <= u64::MAX,
        ensures
            match urbs_of(kind, caps, length as int, flags, packets@) {
                Ok(urbs) => r is Ok && r->Ok_0@ == fresh_submission(kind, urbs, packets@, timeout, now)
                    && r->Ok_0.wf(),
                Err(e) => r is Err && r->Err_0@ == e,
            },
    {
        if length as u64 > i32::MAX as u64 {
            return Err(Error::with_message(ErrorKind::InvalidParam, "buffer too large"));
        }
        let mut iso_results: Vec<IsoPacket> = Vec::new();
        let urbs = match kind {
            TransferType::Control => {
                let mut urbs: Vec<Urb> = Vec::new();
                urbs.push(Urb { kind: URB_TYPE_CONTROL, offset: 0, length, flags: 0, first_packet: 0, packets: 0 });
                assert(urbs@ =~= seq![whole_urb(URB_TYPE_CONTROL, length as int, 0)]);
                urbs
            },
            TransferType::Interrupt => {
                let bits: u32 = flags_of(false, flags.short_not_ok, flags.zero_packet);
                let mut urbs: Vec<Urb> = Vec::new();
                urbs.push(
                    Urb { kind: URB_TYPE_INTERRUPT, offset: 0, length, flags: bits, first_packet: 0, packets: 0 },
                );
                assert(urbs@ =~= seq![whole_urb(URB_TYPE_INTERRUPT, length as int, bits)]);
                urbs
            },
            TransferType::Bulk => {
                match bulk_urbs(caps, length, flags) {
                    Ok(urbs) => urbs,
                    Err(e) => {
                        return Err(e);
                    },
                }
            },
            TransferType::Isochronous => {
                iso_results = fresh_results(packets);
                iso_urbs(packets, length)
            },
        };
        let deadline: Option<u64> = if timeout == 0 {
            None
        } else {
            Some(now + timeout)
        };
        let s = Submission {
            kind,
            urbs,
            reaped: 0,
            actual: 0,
            status: None,
            deadline,
            timed_out: false,
            cancelled: false,
            discarded_from: usize::MAX,
            iso_results,
        };
        proof {
            assert(s@.iso_results =~= fresh_submission(kind, urbs@, packets@, timeout, now).iso_results);
            if kind == TransferType::Isochronous {
                assert forall|i: int| 0 <= i < s.urbs@.len() implies (#[trigger] s.urbs@[i]).first_packet
                    + s.urbs@[i].packets <= s.iso_results@.len() by {
                    assert(s.urbs@[i] == iso_urb(packets@, i));
                }
            }
        }
        Ok(s)
    }

    /// The kernel took only the URBs before number `taken`. With none taken
    /// there is no submission; otherwise those that it has are to be
    /// discarded, and the failure is reported once they came back.
    pub fn not_submitted(self, taken: usize) -> (r: Option<Submission>)
        requires
            taken < self.urbs@.len(),
            self.wf(),
        ensures
            taken == 0 ==> r is None,
            taken > 0 ==> r is Some && r->0@ == (SubmissionView {
                urbs: self@.urbs.take(taken as int),
                discarded_from: taken as int,
                status: Some(TransferStatus::Error),
                ..self@
            }) && r->0.wf(),
    {
        if taken == 0 {
            return None;
        }
        let mut s = self;
        s.discarded_from = taken;
        s.urbs.truncate(taken);
        s.status = Some(TransferStatus::Error);
        assert(s@.urbs =~= self@.urbs.take(taken as int));
        Some(s)
    }

    /// Notes that a cancellation discarded that many URBs that were still
    /// with the kernel.
    pub fn cancel(&mut self, discarded: usize)
        ensures
            final(self)@ == (SubmissionView { cancelled: old(self)@.cancelled || discarded > 0, ..old(self)@ }),
            old(self).wf() ==> final(self).wf(),
    {
        if discarded > 0 {
            self.cancelled = true;
        }
    }

    /// Whether the timeout has passed and its URBs are to be discarded.
    pub fn is_due(&self, now: u64) -> (r: bool)
        ensures
            r == (!self@.timed_out && self@.deadline is Some && self@.deadline->0 <= now),
    {
        match self.deadline {
            Some(d) => !self.timed_out && d <= now,
            None => false,
        }
    }

    /// Notes that the timeout discarded that many URBs that were still with
    /// the kernel. With none, every URB had already completed, and they
    /// report the real outcome.
    pub fn expire(&mut self, discarded: usize)
        ensures
            final(self)@ == (SubmissionView {
                timed_out: old(self)@.timed_out || discarded > 0,
                deadline: None,
                ..old(self)@
            }),
            old(self).wf() ==> final(self).wf(),
    {
        if discarded > 0 {
            self.timed_out = true;
        }
        self.deadline = None;
    }

    /// Accounts for one URB that the kernel handed back. Says from which one
    /// on the other URBs are to be discarded, if they are.
    pub fn finish_urb(&mut self, index: usize, urb: &Reaped) -> (r: Option<usize>)
        requires
            old(self).wf(),
            index < old(self)@.urbs.len(),
            old(self)@.reaped < old(self)@.urbs.len(),
            old(self)@.actual + moved(old(self)@.kind, urb@) <= usize::MAX,
            old(self)@.kind == TransferType::Isochronous ==> urb@.packets.len()
                == old(self)@.urbs[index as int].packets,
        ensures
            final(self)@ == urb_finished(old(self)@, index as int, urb@),
            final(self).wf(),
            r == (if breaks_off(old(self)@, index as int, urb@) {
                Some((index + 1) as usize)
            } else {
                None
            }),
    {
        let ghost before = self@;
        let count: usize = self.urbs.len();
        self.reaped = self.reaped + 1;
        let ours = index >= self.discarded_from || self.cancelled || self.timed_out;
        let iso = self.kind == TransferType::Isochronous;
        if iso {
            let base: usize = self.urbs[index].first_packet;
            self.finish_packets(base, &urb.packets);
        } else if urb.actual_length > 0 {
            self.actual = self.actual + urb.actual_length as usize;
        }
        if urb.status != 0 && !ours && self.status.is_none() {
            self.status = urb_status(urb.status);
        }
        let length: usize = self.urbs[index].length;
        let short = !iso && (urb.actual_length < 0 || (urb.actual_length as usize) < length);
        let mut from: Option<usize> = None;
        if (short || urb.status != 0) && index + 1 < count && self.discarded_from > index + 1 {
            self.discarded_from = index + 1;
            from = Some(index + 1);
        }
        assert(self@ =~= urb_finished(before, index as int, urb@));
        from
    }

    fn finish_packets(&mut self, base: usize, packets: &Vec<PacketResult>)
        requires
            base + packets@.len() <= old(self)@.iso_results.len(),
            old(self)@.actual + packet_bytes(packets@) <= usize::MAX,
        ensures
            final(self)@ == (SubmissionView {
                actual: old(self)@.actual + packet_bytes(packets@),
                iso_results: packets_done(old(self)@.iso_results, base as int, packets@),
                ..old(self)@
            }),
    {
        let ghost before = self@;
        let n: usize = self.iso_results.len();
        let mut i: usize = 0;
        assert(packets@.take(0) =~= Seq::<PacketResult>::empty());
        assert(self@ =~= SubmissionView {
            iso_results: packets_done(before.iso_results, base as int, packets@.take(0)),
            ..before
        });
        while i < packets.len()
            invariant
                i <= packets@.len(),
                n == before.iso_results.len(),
                base + packets@.len() <= n,
                before.actual + packet_bytes(packets@) <= usize::MAX,
                self@ == (SubmissionView {
                    actual: before.actual + packet_bytes(packets@.take(i as int)),
                    iso_results: packets_done(before.iso_results, base as int, packets@.take(i as int)),
                    ..before
                }),
            decreases packets@.len() - i,
        {
            proof {
                assert(packets@.take(i + 1).drop_last() =~= packets@.take(i as int));
                lemma_packet_bytes_grow(packets@, i + 1);
            }
            let p: PacketResult = packets[i];
            let done = IsoPacket { length: p.length, actual_length: p.actual_length, status: iso_status(p.status) };
            self.iso_results.set(base + i, done);
            self.actual = self.actual + p.actual_length as usize;
            assert(self@.iso_results =~= packets_done(before.iso_results, base as int, packets@.take(i + 1)));
            i += 1;
        }
        assert(packets@.take(i as int) =~= packets@);
    }

    /// Whether every URB came back.
    pub fn is_done(&self) -> (r: bool)
        ensures
            r == (self@.reaped == self@.urbs.len()),
    {
        self.reaped == self.urbs.len()
    }

    /// How the transfer ended, once every URB came back.
    pub fn outcome(self) -> (r: Outcome)
        ensures
            r@ == (OutcomeView {
                status: final_status(self@),
                actual_length: self@.actual,
                packets: final_packets(self@),
            }),
    {
        let status = if self.timed_out {
            TransferStatus::TimedOut
        } else if self.cancelled {
            TransferStatus::Cancelled
        } else {
            match self.status {
                Some(s) => s,
                None => TransferStatus::Completed,
            }
        };
        let iso = self.kind == TransferType::Isochronous;
        let actual_length: usize = self.actual;
        Outcome {
            status,
            actual_length,
            packets: if iso {
                Some(self.iso_results)
            } else {
                None
            },
        }
    }

    /// How the transfer ended when its device is gone.
    pub fn disconnected(self) -> (r: Outcome)
        ensures
            r@ == (OutcomeView {
                status: TransferStatus::NoDevice,
                actual_length: self@.actual,
                packets: final_packets(self@),
            }),
    {
        let iso = self.kind == TransferType::Isochronous;
        let actual_length: usize = self.actual;
        Outcome {
            status: TransferStatus::NoDevice,
            actual_length,
            packets: if iso {
                Some(self.iso_results)
            } else {
                None
            },
        }
    }
}

proof fn lemma_packet_bytes_grow(packets: Seq<PacketResult>, k: int)
    requires
        0 <= k <= packets.len(),
    ensures
        0 <= packet_bytes(packets.take(k)) <= packet_bytes(packets),
    decreases packets.len(),
{
    if k == packets.len() {
        assert(packets.take(k) =~= packets);
        if k > 0 {
            lemma_packet_bytes_grow(packets.drop_last(), k - 1);
        }
    } else {
        lemma_packet_bytes_grow(packets.drop_last(), k);
        assert(packets.drop_last().take(k) =~= packets.take(k));
    }
}

// ----- what holds of submissions ----------------------------------------------------

/// The URBs of a transfer lie end to end: the first starts where the buffer
/// does, each other where the one before ends, and the last ends where the
/// buffer does or, for an isochronous transfer, where its packets do.
pub proof fn lemma_urbs_cover_the_buffer(
    kind: TransferType,
    caps: u32,
    length: int,
    flags: TransferFlags,
    packets: Seq<IsoPacket>,
    i: int,
)
    requires
        0 <= length <= usize::MAX,
        packets_inside(kind, length, packets),
        kind == TransferType::Isochronous ==> packets.len() <= usize::MAX,
        urbs_of(kind, caps, length, flags, packets) is Ok,
        0 <= i < urbs_of(kind, caps, length, flags, packets)->Ok_0.len(),
    ensures
        ({
            let urbs = urbs_of(kind, caps, length, flags, packets)->Ok_0;
            let end = urbs[i].offset + urbs[i].length;
            &&& i == 0 ==> urbs[i].offset == 0
            &&& i + 1 < urbs.len() ==> urbs[i + 1].offset == end
            &&& i + 1 == urbs.len() ==> end == if kind == TransferType::Isochronous {
                total_length(packets)
            } else {
                length
            }
        }),
{
    match kind {
        TransferType::Bulk => {
            let chunk = bulk_chunk(caps, length);
            let count = bulk_count(caps, length);
            if count == 1 {
                assert(i == 0);
                assert(bulk_urb(caps, length, flags, 0).offset == 0);
            } else {
                assert(chunk == MAX_BULK_BUFFER_LENGTH);
            }
        },
        TransferType::Isochronous => {
            let n = packets.len() as int;
            let from = iso_bound(n, i);
            let to = iso_bound(n, i + 1);
            let after = iso_bound(n, i + 2);
            lemma_total_is_monotonic(packets, from);
            lemma_total_is_monotonic(packets, to);
            lemma_total_is_monotonic(packets.take(to), from);
            assert(packets.take(to).take(from) =~= packets.take(from));
            assert(packets.take(0) =~= Seq::<IsoPacket>::empty());
            if i + 1 == iso_count(n) {
                assert(to == n);
                assert(packets.take(n) =~= packets);
            }
        },
        _ => {},
    }
}

/// No URB is larger than the kernel takes: at most 16384 bytes of a bulk
/// transfer without scatter-gather support, at most 128 isochronous packets.
pub proof fn lemma_urbs_are_bounded(
    kind: TransferType,
    caps: u32,
    length: int,
    flags: TransferFlags,
    packets: Seq<IsoPacket>,
    i: int,
)
    requires
        0 <= length <= usize::MAX,
        packets_inside(kind, length, packets),
        kind == TransferType::Isochronous ==> packets.len() <= usize::MAX,
        urbs_of(kind, caps, length, flags, packets) is Ok,
        0 <= i < urbs_of(kind, caps, length, flags, packets)->Ok_0.len(),
    ensures
        ({
            let urb = urbs_of(kind, caps, length, flags, packets)->Ok_0[i];
            &&& kind == TransferType::Bulk && !can_scatter(caps) ==> urb.length <= MAX_BULK_BUFFER_LENGTH
            &&& urb.packets <= MAX_ISO_PACKETS_PER_URB
        }),
{
    match kind {
        TransferType::Bulk => {
            if !can_scatter(caps) {
                assert(bulk_chunk(caps, length) == MAX_BULK_BUFFER_LENGTH);
                assert(i < bulk_count(caps, length));
                assert(i * MAX_BULK_BUFFER_LENGTH <= length);
            }
        },
        TransferType::Isochronous => {
            assert(iso_bound(packets.len() as int, i + 1) - iso_bound(packets.len() as int, i)
                <= MAX_ISO_PACKETS_PER_URB);
        },
        _ => {},
    }
}

/// Every packet of an isochronous transfer is carried by one URB: they take
/// the packets in order, each URB those right after the one before it.
pub proof fn lemma_packets_are_carried_once(packets: Seq<IsoPacket>, i: int)
    requires
        packets.len() <= usize::MAX,
        0 <= i < iso_count(packets.len() as int),
    ensures
        iso_urb(packets, 0).first_packet == 0,
        i + 1 < iso_count(packets.len() as int) ==> iso_urb(packets, i + 1).first_packet == iso_urb(
            packets,
            i,
        ).first_packet + iso_urb(packets, i).packets,
        i + 1 == iso_count(packets.len() as int) ==> packets.len() == iso_urb(packets, i).first_packet + iso_urb(
            packets,
            i,
        ).packets,
{
}

/// Only the first URB of a bulk transfer is no continuation, and only the
/// last may end with a zero-length packet.
pub proof fn lemma_bulk_flags(caps: u32, length: int, flags: TransferFlags, i: int)
    requires
        0 <= length <= i32::MAX,
        0 <= i < bulk_count(caps, length),
    ensures
        bulk_urb(caps, length, flags, i).flags / 4 % 2 == (if i > 0 {
            1int
        } else {
            0
        }),
        bulk_urb(caps, length, flags, i).flags / 64 % 2 == (if flags.zero_packet && i + 1 == bulk_count(caps, length) {
            1int
        } else {
            0
        }),
        bulk_urb(caps, length, flags, i).flags % 2 == (if flags.short_not_ok {
            1int
        } else {
            0
        }),
{
}

/// The first failure decides: nothing that comes back later changes a status
/// that is set.
pub proof fn lemma_first_failure_sticks(s: SubmissionView, index: int, urb: ReapedView)
    requires
        s.status is Some,
    ensures
        urb_finished(s, index, urb).status == s.status,
{
}

/// URBs that we discarded do not decide: neither those behind a short or
/// failed one nor those of a transfer that was cancelled or timed out.
pub proof fn lemma_discarded_urbs_do_not_decide(s: SubmissionView, index: int, urb: ReapedView)
    requires
        index >= s.discarded_from || s.cancelled || s.timed_out,
    ensures
        urb_finished(s, index, urb).status == s.status,
        final_status(urb_finished(s, index, urb)) == final_status(s),
{
}

/// After a URB that came back short or failed, those behind it are ours.
pub proof fn lemma_a_break_discards_the_rest(s: SubmissionView, index: int, urb: ReapedView, later: int)
    requires
        0 <= index < later < s.urbs.len(),
        urb.status != 0 || (s.kind != TransferType::Isochronous && urb.actual_length < s.urbs[index].length),
    ensures
        later >= urb_finished(s, index, urb).discarded_from,
{
}

/// A submission after the URBs with those numbers came back, in that order.
pub open spec fn all_finished(s: SubmissionView, back: Seq<(int, ReapedView)>) -> SubmissionView
    decreases back.len(),
{
    if back.len() == 0 {
        s
    } else {
        urb_finished(all_finished(s, back.drop_last()), back.last().0, back.last().1)
    }
}

/// The bytes that URBs moved.
pub open spec fn all_moved(kind: TransferType, back: Seq<(int, ReapedView)>) -> int
    decreases back.len(),
{
    if back.len() == 0 {
        0
    } else {
        all_moved(kind, back.drop_last()) + moved(kind, back.last().1)
    }
}

/// Whatever the order in which URBs come back, a transfer is done when as
/// many came back as it has, and it moved what they moved.
pub proof fn lemma_urbs_add_up(s: SubmissionView, back: Seq<(int, ReapedView)>)
    requires
        s.reaped == 0,
        s.actual == 0,
    ensures
        all_finished(s, back).reaped == back.len(),
        all_finished(s, back).actual == all_moved(s.kind, back),
        all_finished(s, back).urbs == s.urbs,
        all_finished(s, back).kind == s.kind,
        all_finished(s, back).reaped == s.urbs.len() <==> back.len() == s.urbs.len(),
    decreases back.len(),
{
    if back.len() > 0 {
        lemma_urbs_add_up(s, back.drop_last());
    }
}

/// A transfer all of whose URBs came back whole and without error completed,
/// if nothing cancelled it or timed it out.
pub proof fn lemma_clean_urbs_complete(s: SubmissionView, back: Seq<(int, ReapedView)>)
    requires
        s.status is None,
        !s.cancelled,
        !s.timed_out,
        forall|i: int| 0 <= i < back.len() ==> (#[trigger] back[i]).1.status == 0,
    ensures
        all_finished(s, back).status is None,
        !all_finished(s, back).cancelled,
        !all_finished(s, back).timed_out,
        final_status(all_finished(s, back)) == TransferStatus::Completed,
    decreases back.len(),
{
    if back.len() > 0 {
        assert forall|i: int| 0 <= i < back.drop_last().len() implies (#[trigger] back.drop_last()[i]).1.status
            == 0 by {
            assert(back.drop_last()[i] == back[i]);
        }
        lemma_clean_urbs_complete(s, back.drop_last());
        assert(back.last() == back[back.len() - 1]);
    }
}

/// What kind of URB each transfer is, and what can be split: control and
/// interrupt transfers are one URB over the whole buffer; bulk transfers are
/// split into 16 KiB where the kernel cannot scatter, isochronous ones into 128
/// packets.
pub proof fn lemma_urb_kinds(
    kind: TransferType,
    caps: u32,
    length: int,
    flags: TransferFlags,
    packets: Seq<IsoPacket>,
    i: int,
)
    requires
        0 <= length <= 0x7fff_ffff,
        urbs_of(kind, caps, length, flags, packets) is Ok,
        0 <= i < urbs_of(kind, caps, length, flags, packets)->Ok_0.len(),
    ensures
        ({
            let urbs = urbs_of(kind, caps, length, flags, packets)->Ok_0;
            let u = urbs[i];
            &&& u.kind == 0 <==> kind == TransferType::Isochronous
            &&& u.kind == 1 <==> kind == TransferType::Interrupt
            &&& u.kind == 2 <==> kind == TransferType::Control
            &&& u.kind == 3 <==> kind == TransferType::Bulk
            &&& kind == TransferType::Control || kind == TransferType::Interrupt ==> urbs.len() == 1 && u.offset == 0
                && u.length == length
            &&& kind == TransferType::Control ==> u.flags == 0
            &&& kind == TransferType::Isochronous ==> u.flags == 2
            &&& kind == TransferType::Bulk && caps / 8 % 2 == 1 ==> urbs.len() == 1
            &&& kind == TransferType::Bulk && caps / 8 % 2 == 0 && length > 0 ==> urbs.len() == (length + 16383) / 16384
            &&& kind == TransferType::Isochronous ==> urbs.len() == (packets.len() + 127) / 128
        }),
{
}

/// A transfer that is too large is refused, and so is one that would have to be
/// split where the kernel cannot continue URBs.
pub proof fn lemma_refused_transfers(
    kind: TransferType,
    caps: u32,
    length: int,
    flags: TransferFlags,
    packets: Seq<IsoPacket>,
)
    requires
        0 <= length,
    ensures
        ({
            let r = urbs_of(kind, caps, length, flags, packets);
            let split = kind == TransferType::Bulk && caps / 8 % 2 == 0 && length > 16384;
            &&& r is Err <==> length > 0x7fff_ffff || (split && caps / 2 % 2 == 0)
            &&& length > 0x7fff_ffff ==> r->Err_0.kind == ErrorKind::InvalidParam
            &&& length <= 0x7fff_ffff && r is Err ==> r->Err_0.kind == ErrorKind::NotSupported
        }),
{
}

/// What the status of a URB or of a packet means.
pub proof fn lemma_urb_status(status: i32)
    requires
        status > i32::MIN,
    ensures
        iso_status_of(status) == TransferStatus::Completed <==> status == 0,
        iso_status_of(status) == TransferStatus::Cancelled <==> status == -2 || status == -104,
        iso_status_of(status) == TransferStatus::NoDevice <==> status == -19 || status == -108,
        iso_status_of(status) == TransferStatus::Stall <==> status == -32,
        iso_status_of(status) == TransferStatus::Overflow <==> status == -75,
        iso_status_of(status) == TransferStatus::TimedOut <==> status == -62 || status == -110,
        urb_status_of(status) is None <==> status == -2 || status == -104,
        urb_status_of(status) is Some ==> urb_status_of(status)->0 == iso_status_of(status),
{
}

/// A submission starts with nothing handed back; it has a deadline if it has a
/// time limit.
pub proof fn lemma_fresh_submissions(
    kind: TransferType,
    urbs: Seq<Urb>,
    packets: Seq<IsoPacket>,
    timeout: u64,
    now: u64,
)
    requires
        now + timeout <= u64::MAX,
    ensures
        ({
            let s = fresh_submission(kind, urbs, packets, timeout, now);
            &&& s.reaped == 0 && s.actual == 0
            &&& s.status is None && !s.timed_out && !s.cancelled
            &&& timeout == 0 ==> s.deadline is None
            &&& timeout > 0 ==> s.deadline == Some((now + timeout) as u64)
            &&& kind == TransferType::Isochronous ==> s.iso_results.len() == packets.len()
            &&& final_status(s) == TransferStatus::Completed
        }),
{
}

/// What the transfer is reported as: a time limit goes before a cancellation,
/// and that before what the first URB that failed said.
pub proof fn lemma_final_status(s: SubmissionView)
    ensures
        s.timed_out ==> final_status(s) == TransferStatus::TimedOut,
        !s.timed_out && s.cancelled ==> final_status(s) == TransferStatus::Cancelled,
        !s.timed_out && !s.cancelled && s.status is Some ==> final_status(s) == s.status->0,
        !s.timed_out && !s.cancelled && s.status is None ==> final_status(s) == TransferStatus::Completed,
        s.kind == TransferType::Isochronous ==> final_packets(s) == Some(s.iso_results),
        s.kind != TransferType::Isochronous ==> final_packets(s) is None,
{
}

/// The results of packets go to where the packets stand in the transfer; the
/// others stay.
pub proof fn lemma_packet_results(results: Seq<IsoPacket>, base: int, packets: Seq<PacketResult>, i: int)
    requires
        0 <= base,
        base + packets.len() <= results.len(),
        0 <= i < results.len(),
    ensures
        ({
            let r = packets_done(results, base, packets);
            &&& r.len() == results.len()
            &&& i < base || i >= base + packets.len() ==> r[i] == results[i]
            &&& base <= i < base + packets.len() ==> r[i].length == packets[i - base].length && r[i].actual_length
                == packets[i - base].actual_length && r[i].status == iso_status_of(packets[i - base].status)
        }),
{
}

/// What a URB moved: what it says, or with packets what they say together.
pub proof fn lemma_moved(kind: TransferType, urb: ReapedView, packets: Seq<PacketResult>, p: PacketResult)
    ensures
        kind != TransferType::Isochronous && urb.actual_length >= 0 ==> moved(kind, urb) == urb.actual_length,
        kind == TransferType::Isochronous ==> moved(kind, urb) == packet_bytes(urb.packets),
        packet_bytes(Seq::empty()) == 0,
        packet_bytes(packets.push(p)) == packet_bytes(packets) + p.actual_length,
{
    assert(packets.push(p).drop_last() =~= packets);
}

/// The flags of a URB are independent bits.
pub proof fn lemma_flag_bits(continued: bool, short_not_ok: bool, zero_packet: bool)
    ensures
        ({
            let f = data_flags(continued, short_not_ok, zero_packet);
            &&& f % 2 == 1 <==> short_not_ok
            &&& f / 4 % 2 == 1 <==> continued
            &&& f / 64 % 2 == 1 <==> zero_packet
            &&& f / 2 % 2 == 0 && f / 8 % 8 == 0 && f / 128 == 0
        }),
{
}

/// A URB that failed, or that came back short in a transfer that is not
/// isochronous, breaks a transfer off if others are behind it that were not
/// discarded yet.
pub proof fn lemma_breaking_off(s: SubmissionView, index: int, urb: ReapedView)
    requires
        0 <= index,
        index + 1 < s.urbs.len(),
        s.discarded_from > index + 1,
    ensures
        urb.status != 0 ==> breaks_off(s, index, urb),
        urb.status == 0 && s.kind == TransferType::Isochronous ==> !breaks_off(s, index, urb),
        urb.status == 0 && s.kind != TransferType::Isochronous ==> (breaks_off(s, index, urb) <==> urb.actual_length
            < s.urbs[index].length),
        !breaks_off(s, s.urbs.len() - 1, urb),
{
}

} // verus!
