//! Transfers: the low-level building block every I/O operation in this crate
//! is made of.
//!
//! A [`Transfer`] is allocated once, configured, and then submitted as many
//! times as needed. While it is in flight its buffer belongs to the operating
//! system; once it completes (successfully or not) its status, actual length
//! and buffer are readable again and it may be resubmitted.

use crate::bytes::{self, zeros};
use crate::error::{message, outcome, plain, Error, ErrorKind, ErrorView, Result};
use crate::types::{
    direction_of, fresh_packet, setup_bytes, setup_of, status_error, ControlSetup, Direction, IsoPacket,
    TransferStatus, TransferType, NO_TIMEOUT,
};
use vstd::prelude::*;
use vstd::slice::slice_subrange;

verus! {

/// Options that change how the host controller driver treats a transfer.
#[derive(Debug, Clone, Copy, PartialEq, Eq, Structural)]
pub struct TransferFlags {
    /// Report a short read (fewer bytes than requested) as an error instead of
    /// a successful completion. Linux only; ignored elsewhere.
    pub short_not_ok: bool,
    /// For OUT transfers whose length is a multiple of the endpoint's packet
    /// size, send a trailing zero-length packet so the device sees the end of
    /// the transfer.
    pub zero_packet: bool,
}

impl Default for TransferFlags {
    fn default() -> (r: Self)
        ensures
            r == (TransferFlags { short_not_ok: false, zero_packet: false }),
    {
        TransferFlags { short_not_ok: false, zero_packet: false }
    }
}

/// A USB transfer. See the [module documentation](self).
#[derive(Debug)]
pub struct Transfer {
    /// The transfer type.
    pub kind: TransferType,
    /// The endpoint address (direction bit included).
    pub endpoint: u8,
    /// Whether it is submitted and not yet completed.
    pub in_flight: bool,
    /// The buffer; for a control transfer it starts with the setup packet.
    pub buffer: Vec<u8>,
    /// The timeout of each submission in nanoseconds.
    pub timeout: u64,
    /// The packets of an isochronous transfer.
    pub iso_packets: Vec<IsoPacket>,
    /// The flags.
    pub flags: TransferFlags,
    /// The result of the last completed submission.
    pub status: TransferStatus,
    /// Bytes transferred by the last completed submission.
    pub actual_length: usize,
}

/// What a [`Transfer`] holds.
#[verifier::ext_equal]
pub struct TransferView {
    pub kind: TransferType,
    pub endpoint: u8,
    pub in_flight: bool,
    pub buffer: Seq<u8>,
    pub timeout: u64,
    pub iso_packets: Seq<IsoPacket>,
    pub flags: TransferFlags,
    pub status: TransferStatus,
    pub actual_length: usize,
}

impl View for Transfer {
    type V = TransferView;

    open spec fn view(&self) -> TransferView {
        TransferView {
            kind: self.kind,
            endpoint: self.endpoint,
            in_flight: self.in_flight,
            buffer: self.buffer@,
            timeout: self.timeout,
            iso_packets: self.iso_packets@,
            flags: self.flags,
            status: self.status,
            actual_length: self.actual_length,
        }
    }
}

/// A transfer that has not been submitted yet.
pub open spec fn fresh_transfer(kind: TransferType, endpoint: u8, buffer: Seq<u8>) -> TransferView {
    TransferView {
        kind,
        endpoint,
        in_flight: false,
        buffer,
        timeout: NO_TIMEOUT,
        iso_packets: Seq::empty(),
        flags: TransferFlags { short_not_ok: false, zero_packet: false },
        status: TransferStatus::Completed,
        actual_length: 0,
    }
}

/// The buffer of a control transfer.
pub open spec fn control_buffer(setup: ControlSetup, data: Seq<u8>) -> Seq<u8> {
    if direction_of(setup.request_type) == Direction::Out {
        setup_bytes(ControlSetup { length: (data.len() as int % 0x1_0000) as u16, ..setup }) + data
    } else {
        setup_bytes(setup) + zeros(setup.length as int)
    }
}

/// The error of touching a transfer that is in flight.
pub open spec fn in_flight_error() -> ErrorView {
    message(ErrorKind::Busy, "transfer is in flight"@)
}

/// Where the data of a transfer starts in its buffer.
pub open spec fn data_start(t: TransferView) -> int {
    if t.kind == TransferType::Control {
        8
    } else {
        0
    }
}

/// The bytes that the last submission moved.
pub open spec fn moved_data(t: TransferView) -> Seq<u8> {
    let start = data_start(t);
    let end = if start + t.actual_length < t.buffer.len() {
        start + t.actual_length
    } else {
        t.buffer.len() as int
    };
    if start < end {
        t.buffer.subrange(start, end)
    } else {
        Seq::empty()
    }
}

/// The sum of packet lengths.
pub open spec fn total_length(v: Seq<IsoPacket>) -> int
    decreases v.len(),
{
    if v.len() == 0 {
        0
    } else {
        total_length(v.drop_last()) + v.last().length
    }
}

/// The packets of the given lengths, not run yet.
pub open spec fn fresh_packets(lengths: Seq<u32>) -> Seq<IsoPacket> {
    Seq::new(lengths.len(), |i: int| fresh_packet(lengths[i]))
}

/// A buffer that is at least `len` bytes long.
pub open spec fn grown(b: Seq<u8>, len: int) -> Seq<u8> {
    if b.len() < len {
        b + zeros(len - b.len())
    } else {
        b
    }
}

/// A buffer of exactly `len` bytes.
pub open spec fn resized(b: Seq<u8>, len: int) -> Seq<u8> {
    grown(b, len).take(len)
}

/// A buffer with another setup packet.
pub open spec fn with_setup(b: Seq<u8>, setup: ControlSetup) -> Seq<u8> {
    setup_bytes(setup) + resized(b, 8 + setup.length).skip(8)
}

/// Why a transfer cannot be submitted, if it cannot.
pub open spec fn submit_error(t: TransferView) -> Option<ErrorView> {
    if t.in_flight {
        Some(in_flight_error())
    } else if t.kind == TransferType::Control && t.buffer.len() < 8 {
        Some(message(ErrorKind::InvalidParam, "control buffer shorter than a setup packet"@))
    } else if t.kind == TransferType::Isochronous && (t.iso_packets.len() == 0 || total_length(t.iso_packets)
        > t.buffer.len()) {
        Some(message(ErrorKind::InvalidParam, "isochronous packet layout does not fit the buffer"@))
    } else {
        None
    }
}

/// A transfer that was submitted.
pub open spec fn submitted(t: TransferView) -> TransferView {
    TransferView { in_flight: true, actual_length: 0, ..t }
}

/// A transfer that completed.
pub open spec fn completed(
    t: TransferView,
    status: TransferStatus,
    actual_length: usize,
    iso: Option<Seq<IsoPacket>>,
) -> TransferView {
    TransferView {
        in_flight: false,
        status,
        actual_length,
        iso_packets: match iso {
            Some(p) => p,
            None => t.iso_packets,
        },
        ..t
    }
}

/// What waiting for a transfer comes to.
#[derive(Debug)]
pub enum Wait {
    /// The wait is over.
    Done(Result<TransferStatus>),
    /// Wait on, for that many nanoseconds or, with `None`, for as long as it
    /// takes.
    More(Option<u64>),
}

/// What a [`Wait`] holds.
pub enum WaitView {
    Done(std::result::Result<TransferStatus, ErrorView>),
    More(Option<u64>),
}

impl View for Wait {
    type V = WaitView;

    open spec fn view(&self) -> WaitView {
        match *self {
            Wait::Done(r) => WaitView::Done(outcome(r)),
            Wait::More(t) => WaitView::More(t),
        }
    }
}

/// What waiting for a transfer comes to, after `waited` of `limit`.
pub open spec fn wait_next(t: TransferView, limit: Option<u64>, waited: u64) -> WaitView {
    if !t.in_flight {
        WaitView::Done(Ok(t.status))
    } else {
        match limit {
            None => WaitView::More(None),
            Some(l) => if waited >= l {
                WaitView::Done(Err(plain(ErrorKind::Timeout)))
            } else {
                WaitView::More(Some((l - waited) as u64))
            },
        }
    }
}

/// Some packets ask for no more than all of them do.
pub proof fn lemma_total_is_monotonic(v: Seq<IsoPacket>, k: int)
    requires
        0 <= k <= v.len(),
    ensures
        0 <= total_length(v.take(k)) <= total_length(v),
    decreases v.len(),
{
    if k == v.len() {
        assert(v.take(k) =~= v);
        if k > 0 {
            lemma_total_is_monotonic(v.drop_last(), k - 1);
        }
    } else {
        lemma_total_is_monotonic(v.drop_last(), k);
        assert(v.drop_last().take(k) =~= v.take(k));
    }
}

/// Whether packets fit into `room` bytes.
fn packets_fit(packets: &Vec<IsoPacket>, room: usize) -> (r: bool)
    ensures
        r == (total_length(packets@) <= room),
{
    let mut total: usize = 0;
    let mut i: usize = 0;
    assert(packets@.take(0) =~= Seq::empty());
    while i < packets.len()
        invariant
            i <= packets@.len(),
            total <= room,
            total == total_length(packets@.take(i as int)),
        decreases packets@.len() - i,
    {
        assert(packets@.take(i + 1).drop_last() =~= packets@.take(i as int));
        let length: u32 = packets[i].length;
        if length as u64 > (room - total) as u64 {
            proof {
                lemma_total_is_monotonic(packets@, i + 1);
            }
            return false;
        }
        total = total + length as usize;
        i += 1;
    }
    assert(packets@.take(i as int) =~= packets@);
    true
}

/// The sum of lengths.
pub open spec fn sum_of(lengths: Seq<u32>) -> int
    decreases lengths.len(),
{
    if lengths.len() == 0 {
        0
    } else {
        sum_of(lengths.drop_last()) + lengths.last()
    }
}

proof fn lemma_sum_is_monotonic(v: Seq<u32>, k: int)
    requires
        0 <= k <= v.len(),
    ensures
        0 <= sum_of(v.take(k)) <= sum_of(v),
    decreases v.len(),
{
    if k == v.len() {
        assert(v.take(k) =~= v);
        if k > 0 {
            lemma_sum_is_monotonic(v.drop_last(), k - 1);
        }
    } else {
        lemma_sum_is_monotonic(v.drop_last(), k);
        assert(v.drop_last().take(k) =~= v.take(k));
    }
}

proof fn lemma_total_of_fresh(lengths: Seq<u32>)
    ensures
        total_length(fresh_packets(lengths)) == sum_of(lengths),
    decreases lengths.len(),
{
    if lengths.len() > 0 {
        lemma_total_of_fresh(lengths.drop_last());
        assert(fresh_packets(lengths).drop_last() =~= fresh_packets(lengths.drop_last()));
    }
}

impl Transfer {
    /// Allocates a transfer of any kind on the given endpoint with the given
    /// buffer.
    ///
    /// For a control transfer the buffer must start with the 8-byte setup
    /// packet. For an isochronous transfer, set the packet layout with
    /// [`set_iso_packet_lengths`](Self::set_iso_packet_lengths) before
    /// submitting.
    pub fn new(kind: TransferType, endpoint: u8, buffer: Vec<u8>) -> (r: Transfer)
        ensures
            r@ == fresh_transfer(kind, endpoint, buffer@),
    {
        let t = Transfer {
            kind,
            endpoint,
            in_flight: false,
            buffer,
            timeout: NO_TIMEOUT,
            iso_packets: Vec::new(),
            flags: TransferFlags::default(),
            status: TransferStatus::Completed,
            actual_length: 0,
        };
        assert(t@ =~= fresh_transfer(kind, endpoint, buffer@));
        t
    }

    /// Allocates a bulk transfer. The direction comes from bit 7 of
    /// `endpoint`; for IN endpoints the buffer's length is the amount to read.
    pub fn bulk(endpoint: u8, buffer: Vec<u8>) -> (r: Transfer)
        ensures
            r@ == fresh_transfer(TransferType::Bulk, endpoint, buffer@),
    {
        Self::new(TransferType::Bulk, endpoint, buffer)
    }

    /// Allocates an interrupt transfer.
    pub fn interrupt(endpoint: u8, buffer: Vec<u8>) -> (r: Transfer)
        ensures
            r@ == fresh_transfer(TransferType::Interrupt, endpoint, buffer@),
    {
        Self::new(TransferType::Interrupt, endpoint, buffer)
    }

    /// Allocates a control transfer on endpoint 0.
    ///
    /// For an OUT request, `data` is the payload and `setup.length` is
    /// overwritten with its length. For an IN request, `data` is ignored and
    /// `setup.length` bytes are reserved for the response.
    pub fn control(setup: ControlSetup, data: &[u8]) -> (r: Transfer)
        ensures
            r@ == fresh_transfer(TransferType::Control, 0, control_buffer(setup, data@)),
    {
        let mut buffer: Vec<u8> = Vec::new();
        let mut setup = setup;
        if setup.direction() == Direction::Out {
            setup.length = (data.len() % 0x1_0000) as u16;
            let head = setup.to_bytes();
            bytes::put(&mut buffer, head.as_slice());
            bytes::put(&mut buffer, data);
            assert(buffer@ =~= control_buffer(setup, data@));
        } else {
            let head = setup.to_bytes();
            bytes::put(&mut buffer, head.as_slice());
            bytes::pad_to(&mut buffer, 8 + setup.length as usize);
            assert(buffer@ =~= control_buffer(setup, data@));
        }
        Self::new(TransferType::Control, 0, buffer)
    }

    /// Allocates an isochronous transfer of `num_packets` packets of
    /// `packet_length` bytes each, laid out back to back in the buffer.
    ///
    /// For a portable transfer, make `packet_length` the endpoint's maximum
    /// packet size: WinUSB slices the buffer at that size itself rather than
    /// following the packet table, and rejects any other layout (the last
    /// packet of an OUT transfer may be shorter). Linux and macOS accept
    /// arbitrary per-packet lengths.
    pub fn isochronous(endpoint: u8, packet_length: usize, num_packets: usize) -> (r: Transfer)
        requires
            packet_length * num_packets <= usize::MAX,
        ensures
            r@ == (TransferView {
                iso_packets: fresh_packets(
                    Seq::new(num_packets as nat, |i: int| (packet_length as int % 0x1_0000_0000) as u32),
                ),
                ..fresh_transfer(TransferType::Isochronous, endpoint, zeros(packet_length * num_packets))
            }),
    {
        let mut buffer: Vec<u8> = Vec::new();
        bytes::pad_to(&mut buffer, packet_length * num_packets);
        assert(buffer@ =~= zeros(packet_length * num_packets));
        let length: u32 = (packet_length as u64 % 0x1_0000_0000) as u32;
        let mut t = Self::new(TransferType::Isochronous, endpoint, buffer);
        let mut packets: Vec<IsoPacket> = Vec::new();
        while packets.len() < num_packets
            invariant
                packets@.len() <= num_packets,
                forall|j: int| 0 <= j < packets@.len() ==> #[trigger] packets@[j] == fresh_packet(length),
            decreases num_packets - packets@.len(),
        {
            packets.push(IsoPacket::new(length));
        }
        assert(packets@ =~= fresh_packets(
            Seq::new(num_packets as nat, |i: int| (packet_length as int % 0x1_0000_0000) as u32),
        ));
        t.iso_packets = packets;
        t
    }

    /// The transfer type.
    pub fn kind(&self) -> (r: TransferType)
        ensures
            r == self@.kind,
    {
        self.kind
    }

    /// The endpoint address (direction bit included).
    pub fn endpoint(&self) -> (r: u8)
        ensures
            r == self@.endpoint,
    {
        self.endpoint
    }

    /// `true` while the transfer is submitted and not yet completed.
    pub fn is_pending(&self) -> (r: bool)
        ensures
            r == self@.in_flight,
    {
        self.in_flight
    }

    fn idle(&self) -> (r: Result<()>)
        ensures
            outcome(r) == (if self@.in_flight {
                Err::<(), ErrorView>(in_flight_error())
            } else {
                Ok(())
            }),
    {
        if self.in_flight {
            Err(Error::with_message(ErrorKind::Busy, "transfer is in flight"))
        } else {
            Ok(())
        }
    }

    /// Sets the timeout applied to each submission. [`NO_TIMEOUT`] (the
    /// default) means no timeout.
    pub fn set_timeout(&mut self, timeout: u64) -> (r: Result<()>)
        ensures
            old(self)@.in_flight ==> r is Err && r->Err_0@ == in_flight_error() && final(self)@ == old(self)@,
            !old(self)@.in_flight ==> r is Ok && final(self)@ == (TransferView { timeout, ..old(self)@ }),
    {
        self.idle()?;
        self.timeout = timeout;
        Ok(())
    }

    /// The configured timeout.
    pub fn timeout(&self) -> (r: u64)
        ensures
            r == self@.timeout,
    {
        self.timeout
    }

    /// Sets the transfer flags.
    pub fn set_flags(&mut self, flags: TransferFlags) -> (r: Result<()>)
        ensures
            old(self)@.in_flight ==> r is Err && r->Err_0@ == in_flight_error() && final(self)@ == old(self)@,
            !old(self)@.in_flight ==> r is Ok && final(self)@ == (TransferView { flags, ..old(self)@ }),
    {
        self.idle()?;
        self.flags = flags;
        Ok(())
    }

    /// The transfer flags.
    pub fn flags(&self) -> (r: TransferFlags)
        ensures
            r == self@.flags,
    {
        self.flags
    }

    /// Replaces the buffer. For a control transfer the new buffer must again
    /// start with the setup packet.
    pub fn set_buffer(&mut self, buffer: Vec<u8>) -> (r: Result<()>)
        ensures
            old(self)@.in_flight ==> r is Err && r->Err_0@ == in_flight_error() && final(self)@ == old(self)@,
            !old(self)@.in_flight ==> r is Ok && final(self)@ == (TransferView { buffer: buffer@, ..old(self)@ }),
    {
        self.idle()?;
        self.buffer = buffer;
        Ok(())
    }

    /// Takes the buffer out, leaving an empty one behind.
    pub fn take_buffer(&mut self) -> (r: Result<Vec<u8>>)
        ensures
            old(self)@.in_flight ==> r is Err && r->Err_0@ == in_flight_error() && final(self)@ == old(self)@,
            !old(self)@.in_flight ==> r is Ok && r->Ok_0@ == old(self)@.buffer && final(self)@ == (TransferView {
                buffer: Seq::empty(),
                ..old(self)@
            }),
    {
        self.idle()?;
        let mut empty: Vec<u8> = Vec::new();
        std::mem::swap(&mut self.buffer, &mut empty);
        assert(self@ =~= (TransferView { buffer: Seq::empty(), ..old(self)@ }));
        Ok(empty)
    }

    /// The whole buffer (setup packet included for control transfers). Fails
    /// with [`ErrorKind::Busy`] while in flight.
    pub fn buffer(&self) -> (r: Result<&[u8]>)
        ensures
            self@.in_flight ==> r is Err && r->Err_0@ == in_flight_error(),
            !self@.in_flight ==> r is Ok && r->Ok_0@ == self@.buffer,
    {
        self.idle()?;
        Ok(self.buffer.as_slice())
    }

    /// The bytes actually transferred by the last submission: the received
    /// data for IN transfers, the consumed data for OUT transfers. For control
    /// transfers this excludes the setup packet.
    pub fn data(&self) -> (r: Result<&[u8]>)
        ensures
            self@.in_flight ==> r is Err && r->Err_0@ == in_flight_error(),
            !self@.in_flight ==> r is Ok && r->Ok_0@ == moved_data(self@),
    {
        self.idle()?;
        let len: usize = self.buffer.len();
        let start: usize = match self.kind {
            TransferType::Control => 8,
            _ => 0,
        };
        if start >= len {
            let none = slice_subrange(self.buffer.as_slice(), 0, 0);
            assert(none@ =~= moved_data(self@));
            return Ok(none);
        }
        let end: usize = if self.actual_length < len - start {
            start + self.actual_length
        } else {
            len
        };
        let data = slice_subrange(self.buffer.as_slice(), start, end);
        assert(data@ =~= moved_data(self@));
        Ok(data)
    }

    /// Rewrites the setup packet of a control transfer and resizes the data
    /// area to `setup.length`.
    pub fn set_control_setup(&mut self, setup: ControlSetup) -> (r: Result<()>)
        ensures
            r is Err ==> final(self)@ == old(self)@,
            old(self)@.kind != TransferType::Control ==> r is Err && r->Err_0@ == message(
                ErrorKind::InvalidParam,
                "not a control transfer"@,
            ),
            old(self)@.kind == TransferType::Control && old(self)@.in_flight ==> r is Err && r->Err_0@
                == in_flight_error(),
            old(self)@.kind == TransferType::Control && !old(self)@.in_flight ==> r is Ok && final(self)@
                == (TransferView { buffer: with_setup(old(self)@.buffer, setup), ..old(self)@ }),
    {
        match self.kind {
            TransferType::Control => {},
            _ => {
                return Err(Error::with_message(ErrorKind::InvalidParam, "not a control transfer"));
            },
        }
        self.idle()?;
        let len: usize = 8 + setup.length as usize;
        let mut rest: Vec<u8> = bytes::copy_range(self.buffer.as_slice(), 0, self.buffer.len());
        bytes::pad_to(&mut rest, len);
        let mut buffer: Vec<u8> = Vec::new();
        let head = setup.to_bytes();
        bytes::put(&mut buffer, head.as_slice());
        bytes::put(&mut buffer, slice_subrange(rest.as_slice(), 8, len));
        assert(buffer@ =~= with_setup(self.buffer@, setup));
        self.buffer = buffer;
        Ok(())
    }

    /// The setup packet of a control transfer.
    pub fn control_setup(&self) -> (r: Result<ControlSetup>)
        ensures
            outcome(r) == (if self@.kind != TransferType::Control {
                Err::<ControlSetup, ErrorView>(message(ErrorKind::InvalidParam, "not a control transfer"@))
            } else if self@.buffer.len() < 8 {
                Err(message(ErrorKind::InvalidParam, "buffer shorter than a setup packet"@))
            } else {
                Ok(setup_of(self@.buffer.take(8)))
            }),
    {
        match self.kind {
            TransferType::Control => {},
            _ => {
                return Err(Error::with_message(ErrorKind::InvalidParam, "not a control transfer"));
            },
        }
        if self.buffer.len() < 8 {
            return Err(Error::with_message(ErrorKind::InvalidParam, "buffer shorter than a setup packet"));
        }
        let b: [u8; 8] = [
            self.buffer[0],
            self.buffer[1],
            self.buffer[2],
            self.buffer[3],
            self.buffer[4],
            self.buffer[5],
            self.buffer[6],
            self.buffer[7],
        ];
        assert(b@ =~= self.buffer@.take(8));
        Ok(ControlSetup::from_bytes(b))
    }

    /// Sets the per-packet lengths of an isochronous transfer. The buffer is
    /// grown if the packets need more room than it has.
    ///
    /// See [`isochronous`](Self::isochronous) for what Windows accepts here.
    pub fn set_iso_packet_lengths(&mut self, lengths: &[u32]) -> (r: Result<()>)
        requires
            sum_of(lengths@) <= usize::MAX,
        ensures
            r is Err ==> final(self)@ == old(self)@,
            old(self)@.kind != TransferType::Isochronous ==> r is Err && r->Err_0@ == message(
                ErrorKind::InvalidParam,
                "not an isochronous transfer"@,
            ),
            old(self)@.kind == TransferType::Isochronous && old(self)@.in_flight ==> r is Err && r->Err_0@
                == in_flight_error(),
            old(self)@.kind == TransferType::Isochronous && !old(self)@.in_flight ==> r is Ok && final(self)@
                == (TransferView {
                buffer: grown(old(self)@.buffer, sum_of(lengths@)),
                iso_packets: fresh_packets(lengths@),
                ..old(self)@
            }),
    {
        match self.kind {
            TransferType::Isochronous => {},
            _ => {
                return Err(Error::with_message(ErrorKind::InvalidParam, "not an isochronous transfer"));
            },
        }
        self.idle()?;
        let mut total: usize = 0;
        let mut packets: Vec<IsoPacket> = Vec::new();
        let mut i: usize = 0;
        assert(lengths@.take(0) =~= Seq::empty());
        while i < lengths.len()
            invariant
                i <= lengths@.len(),
                sum_of(lengths@) <= usize::MAX,
                total == sum_of(lengths@.take(i as int)),
                packets@ =~= fresh_packets(lengths@).take(i as int),
            decreases lengths@.len() - i,
        {
            assert(lengths@.take(i + 1).drop_last() =~= lengths@.take(i as int));
            proof {
                lemma_sum_is_monotonic(lengths@, i + 1);
            }
            total = total + lengths[i] as usize;
            packets.push(IsoPacket::new(lengths[i]));
            i += 1;
        }
        assert(lengths@.take(i as int) =~= lengths@);
        bytes::pad_to(&mut self.buffer, total);
        assert(self.buffer@ =~= grown(old(self)@.buffer, sum_of(lengths@)));
        self.iso_packets = packets;
        Ok(())
    }

    /// Per-packet results of an isochronous transfer, filled in on completion.
    pub fn iso_packets(&self) -> (r: &Vec<IsoPacket>)
        ensures
            r@ == self@.iso_packets,
    {
        &self.iso_packets
    }

    /// The result of the last completed submission. Meaningless before the
    /// first submission (it reads as `Completed`).
    pub fn status(&self) -> (r: TransferStatus)
        ensures
            r == self@.status,
    {
        self.status
    }

    /// Bytes transferred by the last completed submission.
    pub fn actual_length(&self) -> (r: usize)
        ensures
            r == self@.actual_length,
    {
        self.actual_length
    }

    /// Submits the transfer: on success it is to be handed to the operating
    /// system and is in flight. Fails with [`ErrorKind::Busy`] if it already
    /// is.
    pub fn submit(&mut self) -> (r: Result<()>)
        ensures
            match submit_error(old(self)@) {
                Some(e) => r is Err && r->Err_0@ == e && final(self)@ == old(self)@,
                None => r is Ok && final(self)@ == submitted(old(self)@),
            },
    {
        self.idle()?;
        match self.kind {
            TransferType::Control => {
                if self.buffer.len() < 8 {
                    return Err(
                        Error::with_message(ErrorKind::InvalidParam, "control buffer shorter than a setup packet"),
                    );
                }
            },
            TransferType::Isochronous => {
                if self.iso_packets.len() == 0 || !packets_fit(&self.iso_packets, self.buffer.len()) {
                    return Err(
                        Error::with_message(
                            ErrorKind::InvalidParam,
                            "isochronous packet layout does not fit the buffer",
                        ),
                    );
                }
            },
            _ => {},
        }
        self.in_flight = true;
        self.actual_length = 0;
        Ok(())
    }

    /// Notes that the operating system did not take a submitted transfer.
    pub fn not_taken(&mut self)
        ensures
            final(self)@ == (TransferView { in_flight: false, ..old(self)@ }),
    {
        self.in_flight = false;
    }

    /// Notes that a submitted transfer completed.
    pub fn complete(&mut self, status: TransferStatus, actual_length: usize, iso: Option<Vec<IsoPacket>>)
        ensures
            final(self)@ == completed(
                old(self)@,
                status,
                actual_length,
                match iso {
                    Some(p) => Some(p@),
                    None => None,
                },
            ),
    {
        self.in_flight = false;
        self.status = status;
        self.actual_length = actual_length;
        match iso {
            Some(p) => {
                self.iso_packets = p;
            },
            None => {},
        }
    }

    /// What a waiter that has waited `waited` of its `limit` does next, both
    /// in nanoseconds. With a limit, fails with [`ErrorKind::Timeout`] once it
    /// is over; the transfer then stays in flight. The wait is over at once if
    /// the transfer is not in flight.
    pub fn wait(&self, limit: Option<u64>, waited: u64) -> (r: Wait)
        ensures
            r@ == wait_next(self@, limit, waited),
    {
        if !self.in_flight {
            return Wait::Done(Ok(self.status));
        }
        match limit {
            None => Wait::More(None),
            Some(l) => if waited >= l {
                Wait::Done(Err(Error::new(ErrorKind::Timeout)))
            } else {
                Wait::More(Some(l - waited))
            },
        }
    }

    /// The outcome of a transfer that completed: how much it moved, or its
    /// status as an error.
    pub fn result(&self) -> (r: Result<usize>)
        ensures
            outcome(r) == (match status_error(self@.status) {
                Some(kind) => Err::<usize, ErrorView>(plain(kind)),
                None => Ok(self@.actual_length),
            }),
    {
        match self.status.into_result() {
            Ok(()) => Ok(self.actual_length),
            Err(e) => Err(e),
        }
    }
}

// ----- what holds of transfers ------------------------------------------------------

/// A transfer that was submitted cannot be submitted again before it has
/// completed.
pub proof fn lemma_one_submission_at_a_time(t: TransferView)
    requires
        submit_error(t) is None,
    ensures
        submit_error(submitted(t)) == Some(in_flight_error()),
{
}

/// A submission that runs to its completion leaves the transfer idle, with
/// the status and length it completed with and all it was configured with,
/// ready to be submitted again.
pub proof fn lemma_completed_can_be_resubmitted(t: TransferView, status: TransferStatus, actual_length: usize)
    requires
        submit_error(t) is None,
    ensures
        submit_error(completed(submitted(t), status, actual_length, None)) is None,
        completed(submitted(t), status, actual_length, None) == (TransferView { status, actual_length, ..t }),
{
}

/// The setup packet of a control transfer reads back as it was given, with
/// the length of the data of an OUT request.
pub proof fn lemma_control_setup_reads_back(setup: ControlSetup, data: Seq<u8>)
    ensures
        control_buffer(setup, data).len() >= 8,
        setup_of(control_buffer(setup, data).take(8)) == (if direction_of(setup.request_type) == Direction::Out {
            ControlSetup { length: (data.len() as int % 0x1_0000) as u16, ..setup }
        } else {
            setup
        }),
{
    let s = if direction_of(setup.request_type) == Direction::Out {
        ControlSetup { length: (data.len() as int % 0x1_0000) as u16, ..setup }
    } else {
        setup
    };
    assert(control_buffer(setup, data).take(8) =~= setup_bytes(s));
    crate::types::lemma_setup_round_trip(s, Seq::empty());
}

/// A setup packet that was rewritten reads back.
pub proof fn lemma_new_setup_reads_back(b: Seq<u8>, setup: ControlSetup)
    ensures
        with_setup(b, setup).len() == 8 + setup.length,
        setup_of(with_setup(b, setup).take(8)) == setup,
{
    assert(with_setup(b, setup).take(8) =~= setup_bytes(setup));
    crate::types::lemma_setup_round_trip(setup, Seq::empty());
}

/// Once its packets are laid out, an isochronous transfer can be submitted.
pub proof fn lemma_laid_out_packets_fit(t: TransferView, lengths: Seq<u32>)
    requires
        t.kind == TransferType::Isochronous,
        !t.in_flight,
        lengths.len() > 0,
    ensures
        submit_error(
            TransferView {
                buffer: grown(t.buffer, sum_of(lengths)),
                iso_packets: fresh_packets(lengths),
                ..t
            },
        ) is None,
{
    lemma_total_of_fresh(lengths);
    lemma_sum_is_monotonic(lengths, 0);
}

/// The buffer of a control transfer is the setup packet and then the data:
/// those that are sent, with their length in the packet, or room for those that
/// are read.
pub proof fn lemma_control_buffers(setup: ControlSetup, data: Seq<u8>)
    ensures
        ({
            let b = control_buffer(setup, data);
            &&& setup.request_type < 0x80 ==> b.len() == 8 + data.len() && b.skip(8) == data
            &&& setup.request_type < 0x80 && data.len() <= 0xffff ==> b[6] + 256 * b[7] == data.len()
            &&& setup.request_type >= 0x80 ==> b.len() == 8 + setup.length && b.take(8) == setup_bytes(setup)
            &&& b[0] == setup.request_type
            &&& b[1] == setup.request
            &&& b[2] + 256 * b[3] == setup.value
            &&& b[4] + 256 * b[5] == setup.index
        }),
{
    let b = control_buffer(setup, data);
    if setup.request_type < 0x80 {
        let s = ControlSetup { length: (data.len() as int % 0x1_0000) as u16, ..setup };
        crate::types::lemma_setup_layout(s);
        assert(b.skip(8) =~= data);
        assert(b.take(8) =~= setup_bytes(s));
        assert(forall|i: int| 0 <= i < 8 ==> b[i] == setup_bytes(s)[i]);
    } else {
        crate::types::lemma_setup_layout(setup);
        assert(b.take(8) =~= setup_bytes(setup));
        assert(forall|i: int| 0 <= i < 8 ==> b[i] == setup_bytes(setup)[i]);
    }
}

/// A fresh transfer is idle, without a time limit, and has moved nothing.
pub proof fn lemma_fresh_transfers(kind: TransferType, endpoint: u8, buffer: Seq<u8>)
    ensures
        ({
            let t = fresh_transfer(kind, endpoint, buffer);
            &&& (t.kind, t.endpoint, t.buffer) == (kind, endpoint, buffer)
            &&& !t.in_flight
            &&& t.timeout == 0
            &&& t.iso_packets.len() == 0
            &&& !t.flags.short_not_ok && !t.flags.zero_packet
            &&& t.actual_length == 0
        }),
{
}

/// What was moved is the part of the buffer that was filled or sent; the setup
/// packet does not count.
pub proof fn lemma_moved_data(t: TransferView)
    ensures
        t.kind != TransferType::Control && t.actual_length <= t.buffer.len() ==> moved_data(t) == t.buffer.take(
            t.actual_length as int,
        ),
        t.kind == TransferType::Control && 8 + t.actual_length <= t.buffer.len() ==> moved_data(t) == t.buffer.subrange(
            8,
            8 + t.actual_length,
        ),
        moved_data(t).len() <= t.buffer.len(),
{
    if t.kind != TransferType::Control && t.actual_length <= t.buffer.len() {
        assert(moved_data(t) =~= t.buffer.take(t.actual_length as int));
    }
}

/// When a transfer can be submitted: if it is idle, if a control transfer has
/// room for a setup packet, and if the packets of an isochronous one are there
/// and fit its buffer.
pub proof fn lemma_submissions(t: TransferView)
    ensures
        submit_error(t) is None <==> {
            &&& !t.in_flight
            &&& t.kind == TransferType::Control ==> t.buffer.len() >= 8
            &&& t.kind == TransferType::Isochronous ==> t.iso_packets.len() > 0 && total_length(t.iso_packets)
                <= t.buffer.len()
        },
        t.in_flight ==> submit_error(t)->0.kind == ErrorKind::Busy,
        !t.in_flight && submit_error(t) is Some ==> submit_error(t)->0.kind == ErrorKind::InvalidParam,
        submitted(t) == (TransferView { in_flight: true, actual_length: 0, ..t }),
{
}

/// A completed transfer is idle, with the outcome that it was given; its
/// buffer and what it was set up with stay.
pub proof fn lemma_completions(t: TransferView, status: TransferStatus, n: usize, packets: Seq<IsoPacket>)
    ensures
        ({
            let c = completed(t, status, n, Some(packets));
            let d = completed(t, status, n, None);
            &&& !c.in_flight && !d.in_flight
            &&& (c.status, c.actual_length) == (status, n)
            &&& (d.status, d.actual_length) == (status, n)
            &&& c.iso_packets == packets
            &&& d.iso_packets == t.iso_packets
            &&& (c.buffer, c.kind, c.endpoint, c.timeout) == (t.buffer, t.kind, t.endpoint, t.timeout)
        }),
{
}

/// A wait is over once the transfer is; until then it goes on for what is left
/// of its limit, and without one for ever.
pub proof fn lemma_waits(t: TransferView, limit: u64, waited: u64)
    ensures
        !t.in_flight ==> wait_next(t, Some(limit), waited) == WaitView::Done(Ok::<TransferStatus, ErrorView>(t.status)),
        t.in_flight ==> wait_next(t, None, waited) == WaitView::More(None),
        t.in_flight && waited < limit ==> wait_next(t, Some(limit), waited) == WaitView::More(
            Some((limit - waited) as u64),
        ),
        t.in_flight && waited >= limit ==> wait_next(t, Some(limit), waited) is Done && wait_next(
            t,
            Some(limit),
            waited,
        )->Done_0 is Err && wait_next(t, Some(limit), waited)->Done_0->Err_0.kind == ErrorKind::Timeout,
{
}

/// Packets are laid out one behind the other: each has the length that it was
/// given and has moved nothing yet, and the lengths add up.
pub proof fn lemma_packets(v: Seq<IsoPacket>, p: IsoPacket, lengths: Seq<u32>, i: int)
    ensures
        total_length(Seq::empty()) == 0,
        total_length(v.push(p)) == total_length(v) + p.length,
        fresh_packets(lengths).len() == lengths.len(),
        0 <= i < lengths.len() ==> fresh_packets(lengths)[i].length == lengths[i] && fresh_packets(lengths)[i].actual_length
            == 0,
{
    assert(v.push(p).drop_last() =~= v);
}

/// A buffer that is too short grows by zeros; what it holds stays.
pub proof fn lemma_buffers_grow(b: Seq<u8>, len: int, setup: ControlSetup)
    requires
        0 <= len,
    ensures
        b.is_prefix_of(grown(b, len)),
        b.len() >= len ==> grown(b, len) == b,
        b.len() < len ==> grown(b, len).len() == len,
        with_setup(b, setup).len() == 8 + setup.length,
        with_setup(b, setup).take(8) == setup_bytes(setup),
        forall|i: int| 8 <= i < b.len() && i < 8 + setup.length ==> #[trigger] with_setup(b, setup)[i] == b[i],
{
    let n = 8 + setup.length;
    assert(resized(b, n).len() == n);
    assert(with_setup(b, setup).take(8) =~= setup_bytes(setup));
    assert forall|i: int| 8 <= i < b.len() && i < 8 + setup.length implies #[trigger] with_setup(b, setup)[i] == b[i] by {
        assert(with_setup(b, setup)[i] == resized(b, n).skip(8)[i - 8]);
        assert(resized(b, n)[i] == grown(b, n)[i]);
    }
}

/// Lengths are added up.
pub proof fn lemma_lengths_add_up(lengths: Seq<u32>, n: u32)
    ensures
        sum_of(Seq::empty()) == 0,
        sum_of(lengths.push(n)) == sum_of(lengths) + n,
{
    assert(lengths.push(n).drop_last() =~= lengths);
}

} // verus!
