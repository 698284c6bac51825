//! Transfers through IOKit: which call starts one, when isochronous packets
//! go out, and what a completion means.

use super::{
    IOUSB_PIPE_STALLED, IOUSB_TRANSACTION_TIMEOUT, IO_RETURN_ABORTED, IO_RETURN_NOT_ATTACHED, IO_RETURN_NOT_RESPONDING,
    IO_RETURN_NO_DEVICE, IO_RETURN_OVERRUN, IO_RETURN_SUCCESS, IO_RETURN_TIMEOUT, IO_RETURN_UNDERRUN,
};
use crate::error::{message, outcome, Error, ErrorKind, ErrorView, Result};
use crate::sys::flight::{control_request, request_in, taken_off, Flight};
use crate::types::{
    at_least_high, direction_of, ControlSetup, Direction, IsoPacket, Speed, TransferStatus, TransferType,
};
use vstd::prelude::*;

verus! {

// ----- pipes -----------------------------------------------------------------------

/// `kUSBIn`
pub const USB_IN: u8 = 1;

/// A pipe of a claimed interface.
#[derive(Debug, Clone, Copy, PartialEq, Eq, Structural)]
pub struct Pipe {
    /// The endpoint address.
    pub address: u8,
    /// The pipe's number within the interface.
    pub pipe_ref: u8,
    /// The endpoint's interval.
    pub interval: u8,
}

/// The address of an endpoint by its direction and number.
pub open spec fn address_of(direction: u8, number: u8) -> u8 {
    (number as int % 16 + if direction == USB_IN {
        128int
    } else {
        0
    }) as u8
}

/// The address of an endpoint by its direction and number.
pub fn pipe_address(direction: u8, number: u8) -> (r: u8)
    ensures
        r == address_of(direction, number),
{
    number % 16 + if direction == USB_IN {
        128
    } else {
        0
    }
}

/// The properties of one pipe as the operating system reports them.
#[derive(Debug, Clone, Copy, PartialEq, Eq, Structural)]
pub struct PipeProperties {
    /// Its direction.
    pub direction: u8,
    /// Its endpoint number.
    pub number: u8,
    /// Its interval.
    pub interval: u8,
}

/// The pipes with those properties, numbered from 1; `None` stands for one
/// whose properties cannot be had.
pub open spec fn pipes_of(v: Seq<Option<PipeProperties>>) -> Seq<Pipe>
    decreases v.len(),
{
    if v.len() == 0 {
        Seq::empty()
    } else {
        match v.last() {
            Some(p) => pipes_of(v.drop_last()).push(
                Pipe {
                    address: address_of(p.direction, p.number),
                    pipe_ref: v.len() as u8,
                    interval: p.interval,
                },
            ),
            None => pipes_of(v.drop_last()),
        }
    }
}

/// The pipes of an interface, numbered from 1; those whose properties cannot
/// be had are left out.
pub fn refresh_pipes(v: &[Option<PipeProperties>]) -> (r: Vec<Pipe>)
    requires
        v@.len() <= 255,
    ensures
        r@ == pipes_of(v@),
{
    let mut out: Vec<Pipe> = Vec::new();
    let mut i: usize = 0;
    assert(v@.take(0) =~= Seq::<Option<PipeProperties>>::empty());
    while i < v.len()
        invariant
            i <= v@.len() <= 255,
            out@ == pipes_of(v@.take(i as int)),
        decreases v@.len() - i,
    {
        assert(v@.take(i + 1).drop_last() =~= v@.take(i as int));
        match v[i] {
            Some(p) => {
                out.push(
                    Pipe {
                        address: pipe_address(p.direction, p.number),
                        pipe_ref: (i + 1) as u8,
                        interval: p.interval,
                    },
                );
            },
            None => {},
        }
        i += 1;
    }
    assert(v@.take(i as int) =~= v@);
    out
}

/// A claimed interface.
#[derive(Debug)]
pub struct ClaimedInterface {
    /// Its number.
    pub number: u8,
    /// Whether its object has the calls that take timeouts.
    pub has_182: bool,
    /// Its pipes.
    pub pipes: Vec<Pipe>,
}

/// The first pipe for an endpoint.
pub open spec fn pipe_for(v: Seq<Pipe>, address: u8) -> Option<Pipe>
    decreases v.len(),
{
    if v.len() == 0 {
        None
    } else if v[0].address == address {
        Some(v[0])
    } else {
        pipe_for(v.skip(1), address)
    }
}

/// The first claimed interface with a pipe for an endpoint, and that pipe.
pub open spec fn owner_of(v: Seq<ClaimedInterface>, address: u8) -> Option<(int, Pipe)>
    decreases v.len(),
{
    if v.len() == 0 {
        None
    } else {
        match pipe_for(v[0].pipes@, address) {
            Some(p) => Some((0, p)),
            None => match owner_of(v.skip(1), address) {
                Some((i, p)) => Some((i + 1, p)),
                None => None,
            },
        }
    }
}

impl ClaimedInterface {
    /// The pipe for an endpoint.
    pub fn pipe(&self, address: u8) -> (r: Option<Pipe>)
        ensures
            r == pipe_for(self.pipes@, address),
    {
        let ghost all = self.pipes@;
        let mut i: usize = 0;
        assert(all.skip(0) =~= all);
        while i < self.pipes.len()
            invariant
                i <= all.len(),
                all == self.pipes@,
                pipe_for(all, address) == pipe_for(all.skip(i as int), address),
            decreases all.len() - i,
        {
            assert(all.skip(i as int)[0] == all[i as int]);
            assert(all.skip(i as int).skip(1) =~= all.skip(i + 1));
            if self.pipes[i].address == address {
                return Some(self.pipes[i]);
            }
            i += 1;
        }
        None
    }
}

/// The error of an endpoint that no claimed interface has.
pub open spec fn no_owner() -> ErrorView {
    message(ErrorKind::NotFound, "endpoint does not belong to a claimed interface"@)
}

/// The claimed interface that owns an endpoint, by its index, and the pipe
/// for it.
pub fn with_pipe(claimed: &[ClaimedInterface], address: u8) -> (r: Result<(usize, Pipe)>)
    ensures
        match owner_of(claimed@, address) {
            Some((i, p)) => r is Ok && r->Ok_0.0 == i && r->Ok_0.1 == p && 0 <= i < claimed@.len(),
            None => r is Err && r->Err_0@ == no_owner(),
        },
{
    let ghost all = claimed@;
    let mut i: usize = 0;
    assert(all.skip(0) =~= all);
    while i < claimed.len()
        invariant
            i <= all.len(),
            all == claimed@,
            owner_of(all, address) == (match owner_of(all.skip(i as int), address) {
                Some((k, p)) => Some((k + i, p)),
                None => None,
            }),
        decreases all.len() - i,
    {
        assert(all.skip(i as int)[0] == all[i as int]);
        assert(all.skip(i as int).skip(1) =~= all.skip(i + 1));
        match claimed[i].pipe(address) {
            Some(p) => {
                return Ok((i, p));
            },
            None => {},
        }
        i += 1;
    }
    Err(Error::with_message(ErrorKind::NotFound, "endpoint does not belong to a claimed interface"))
}

// ----- submitting --------------------------------------------------------------------

/// The call that starts a transfer.
#[derive(Debug)]
pub enum Call {
    /// `DeviceRequestAsync`, or `DeviceRequestAsyncTO` with that timeout in
    /// milliseconds.
    Request {
        /// The request; its length is that of the data stage.
        setup: ControlSetup,
        /// The timeout, if the call takes one.
        timeout: Option<u32>,
    },
    /// `ReadPipeAsync` or `WritePipeAsync`, or their `TO` variants with that
    /// timeout in milliseconds.
    Pipe {
        /// The claimed interface, by its index.
        interface: usize,
        /// The pipe.
        pipe: Pipe,
        /// Whether it reads.
        read: bool,
        /// How many bytes.
        length: u32,
        /// The timeout, if the call takes one.
        timeout: Option<u32>,
    },
    /// `ReadIsochPipeAsync` or `WriteIsochPipeAsync`.
    Isoch {
        /// The claimed interface, by its index.
        interface: usize,
        /// The pipe.
        pipe: Pipe,
        /// Whether it reads.
        read: bool,
        /// The requested length of each packet.
        frames: Vec<u16>,
    },
}

/// What a [`Call`] holds.
#[verifier::ext_equal]
pub enum CallView {
    Request { setup: ControlSetup, timeout: Option<u32> },
    Pipe { interface: int, pipe: Pipe, read: bool, length: int, timeout: Option<u32> },
    Isoch { interface: int, pipe: Pipe, read: bool, frames: Seq<u16> },
}

impl View for Call {
    type V = CallView;

    open spec fn view(&self) -> CallView {
        match *self {
            Call::Request { setup, timeout } => CallView::Request { setup, timeout },
            Call::Pipe { interface, pipe, read, length, timeout } => CallView::Pipe {
                interface: interface as int,
                pipe,
                read,
                length: length as int,
                timeout,
            },
            Call::Isoch { interface, pipe, read, frames } => CallView::Isoch {
                interface: interface as int,
                pipe,
                read,
                frames: frames@,
            },
        }
    }
}

/// A timeout in nanoseconds as milliseconds.
pub open spec fn timeout_ms(timeout: u64) -> u32 {
    if timeout / 1_000_000 > u32::MAX {
        u32::MAX
    } else {
        (timeout / 1_000_000) as u32
    }
}

/// The requested lengths of isochronous packets.
pub open spec fn frame_lengths(packets: Seq<IsoPacket>) -> Seq<u16> {
    packets.map_values(
        |p: IsoPacket|
            if p.length > u16::MAX {
                u16::MAX
            } else {
                p.length as u16
            },
    )
}

/// The call that starts a transfer.
pub open spec fn call_for(
    kind: TransferType,
    endpoint: u8,
    buffer: Seq<u8>,
    timeout: u64,
    packets: Seq<IsoPacket>,
    device_182: bool,
    claimed: Seq<ClaimedInterface>,
) -> std::result::Result<CallView, ErrorView> {
    let ms = timeout_ms(timeout);
    let read = direction_of(endpoint) == Direction::In;
    if buffer.len() > u32::MAX {
        Err(message(ErrorKind::InvalidParam, "buffer too large"@))
    } else {
        match kind {
            TransferType::Control => Ok(
                CallView::Request {
                    setup: request_in(buffer),
                    timeout: if device_182 {
                        Some(ms)
                    } else {
                        None
                    },
                },
            ),
            TransferType::Isochronous => match owner_of(claimed, endpoint) {
                Some((interface, pipe)) => Ok(
                    CallView::Isoch { interface, pipe, read, frames: frame_lengths(packets) },
                ),
                None => Err(no_owner()),
            },
            _ => match owner_of(claimed, endpoint) {
                Some((interface, pipe)) => Ok(
                    CallView::Pipe {
                        interface,
                        pipe,
                        read,
                        length: buffer.len() as int,
                        timeout: if claimed[interface].has_182 && kind == TransferType::Bulk {
                            Some(ms)
                        } else {
                            None
                        },
                    },
                ),
                None => Err(no_owner()),
            },
        }
    }
}

/// What submitting comes to.
pub open spec fn call_outcome(r: Result<Call>) -> std::result::Result<CallView, ErrorView> {
    match r {
        Ok(c) => Ok(c@),
        Err(e) => Err(e@),
    }
}

fn frames_for(packets: &[IsoPacket]) -> (r: Vec<u16>)
    ensures
        r@ == frame_lengths(packets@),
{
    let mut out: Vec<u16> = Vec::new();
    let mut i: usize = 0;
    while i < packets.len()
        invariant
            i <= packets@.len(),
            out@ == frame_lengths(packets@).take(i as int),
        decreases packets@.len() - i,
    {
        let length: u32 = packets[i].length;
        out.push(
            if length > 0xffff {
                0xffff
            } else {
                length as u16
            },
        );
        assert(out@ =~= frame_lengths(packets@).take(i + 1));
        i += 1;
    }
    assert(frame_lengths(packets@).take(i as int) =~= frame_lengths(packets@));
    out
}

/// Picks the call that starts a transfer. The calls that take a timeout exist
/// from interface revision 182 on, and reject interrupt pipes.
pub fn submit(
    kind: TransferType,
    endpoint: u8,
    buffer: &[u8],
    timeout: u64,
    packets: &[IsoPacket],
    device_182: bool,
    claimed: &[ClaimedInterface],
) -> (r: Result<Call>)
    requires
        kind == TransferType::Control ==> buffer@.len() >= 8,
    ensures
        call_outcome(r) == call_for(kind, endpoint, buffer@, timeout, packets@, device_182, claimed@),
{
    let len: usize = buffer.len();
    if len as u64 > u32::MAX as u64 {
        return Err(Error::with_message(ErrorKind::InvalidParam, "buffer too large"));
    }
    let whole: u64 = timeout / 1_000_000;
    let ms: u32 = if whole > u32::MAX as u64 {
        u32::MAX
    } else {
        whole as u32
    };
    let read = match Direction::from_address(endpoint) {
        Direction::In => true,
        Direction::Out => false,
    };
    match kind {
        TransferType::Control => {
            Ok(
                Call::Request {
                    setup: control_request(buffer),
                    timeout: if device_182 {
                        Some(ms)
                    } else {
                        None
                    },
                },
            )
        },
        TransferType::Isochronous => match with_pipe(claimed, endpoint) {
            Ok((interface, pipe)) => Ok(Call::Isoch { interface, pipe, read, frames: frames_for(packets) }),
            Err(e) => Err(e),
        },
        TransferType::Bulk => match with_pipe(claimed, endpoint) {
            Ok((interface, pipe)) => {
                let timeout: Option<u32> = if claimed[interface].has_182 {
                    Some(ms)
                } else {
                    None
                };
                Ok(Call::Pipe { interface, pipe, read, length: len as u32, timeout })
            },
            Err(e) => Err(e),
        },
        TransferType::Interrupt => match with_pipe(claimed, endpoint) {
            Ok((interface, pipe)) => Ok(Call::Pipe { interface, pipe, read, length: len as u32, timeout: None }),
            Err(e) => Err(e),
        },
    }
}

/// Whether the kernel enforces the timeout of a call.
pub open spec fn enforced(c: CallView) -> bool {
    match c {
        CallView::Request { timeout, .. } => timeout is Some,
        CallView::Pipe { timeout, .. } => timeout is Some,
        CallView::Isoch { .. } => false,
    }
}

impl Call {
    /// Whether the kernel enforces the transfer's timeout; if not, the event
    /// thread has to.
    pub fn kernel_timeout(&self) -> (r: bool)
        ensures
            r == enforced(self@),
    {
        match self {
            Call::Request { timeout, .. } => timeout.is_some(),
            Call::Pipe { timeout, .. } => timeout.is_some(),
            Call::Isoch { .. } => false,
        }
    }
}

/// The timeout in milliseconds that a call hands to the kernel.
pub open spec fn handed_timeout(c: CallView) -> Option<u32> {
    match c {
        CallView::Request { timeout, .. } => timeout,
        CallView::Pipe { timeout, .. } => timeout,
        CallView::Isoch { .. } => None,
    }
}

/// Every transfer with a timeout of a millisecond or more has someone who
/// enforces it: the kernel, which is handed a timeout other than 0 (which
/// would be none) and no longer than asked for, or, if the call takes no
/// timeout, the event thread, which has the deadline.
pub proof fn lemma_timeouts_are_enforced(
    kind: TransferType,
    endpoint: u8,
    buffer: Seq<u8>,
    timeout: u64,
    packets: Seq<IsoPacket>,
    device_182: bool,
    claimed: Seq<ClaimedInterface>,
    now: u64,
)
    requires
        timeout >= 1_000_000,
        now + timeout <= u64::MAX,
        call_for(kind, endpoint, buffer, timeout, packets, device_182, claimed) is Ok,
    ensures
        ({
            let c = call_for(kind, endpoint, buffer, timeout, packets, device_182, claimed)->Ok_0;
            match handed_timeout(c) {
                Some(ms) => 0 < ms && ms * 1_000_000 <= timeout,
                None => taken_off(timeout, now, enforced(c)).deadline == Some((now + timeout) as u64),
            }
        }),
{
}

// ----- when isochronous packets go out ------------------------------------------------

/// How many packets go out in each millisecond frame: 1 at full speed, at high
/// speed and above 8 and half as many for each further interval step.
pub open spec fn packets_per_frame(speed: Speed, interval: u8) -> int {
    if !at_least_high(speed) {
        1
    } else if interval <= 1 {
        8
    } else if interval == 2 {
        4
    } else if interval == 3 {
        2
    } else {
        1
    }
}

/// The frame at which an isochronous transfer starts: right behind the one
/// before it on the endpoint, but at least four frames ahead of the bus.
pub open spec fn start_frame(next: Option<u64>, bus_frame: u64) -> int {
    let soon = bus_frame + 4;
    match next {
        Some(n) => if n > soon {
            n as int
        } else {
            soon
        },
        None => soon,
    }
}

/// How many frames packets take.
pub open spec fn frame_count(packets: int, per_frame: int) -> int {
    (packets + per_frame - 1) / per_frame
}

/// The next frame to schedule of each endpoint that has one.
#[derive(Debug)]
pub struct FrameClock {
    /// Endpoints and their next frames.
    pub next: Vec<(u8, u64)>,
}

/// The next frame of an endpoint.
pub open spec fn next_frame(v: Seq<(u8, u64)>, endpoint: u8) -> Option<u64>
    decreases v.len(),
{
    if v.len() == 0 {
        None
    } else if v[0].0 == endpoint {
        Some(v[0].1)
    } else {
        next_frame(v.skip(1), endpoint)
    }
}

proof fn lemma_next_frame(v: Seq<(u8, u64)>, endpoint: u8, k: int)
    requires
        0 <= k <= v.len(),
        forall|i: int| 0 <= i < k ==> (#[trigger] v[i]).0 != endpoint,
        k < v.len() ==> v[k].0 == endpoint,
    ensures
        next_frame(v, endpoint) == (if k < v.len() {
            Some(v[k].1)
        } else {
            None
        }),
    decreases v.len(),
{
    if k > 0 {
        let w = v.skip(1);
        assert forall|i: int| 0 <= i < k - 1 implies (#[trigger] w[i]).0 != endpoint by {
            assert(w[i] == v[i + 1]);
        }
        lemma_next_frame(w, endpoint, k - 1);
    }
}

proof fn lemma_other_frame(v: Seq<(u8, u64)>, w: Seq<(u8, u64)>, endpoint: u8, other: u8, k: int, frame: u64)
    requires
        other != endpoint,
        0 <= k <= v.len(),
        k < v.len() ==> v[k].0 == endpoint && w == v.update(k, (endpoint, frame)),
        k == v.len() ==> w == v.push((endpoint, frame)),
    ensures
        next_frame(w, other) == next_frame(v, other),
    decreases v.len(),
{
    if v.len() == 0 {
        assert(w =~= seq![(endpoint, frame)]);
        assert(w.skip(1) =~= Seq::<(u8, u64)>::empty());
        reveal_with_fuel(next_frame, 2);
    } else if k == 0 {
        assert(w.skip(1) =~= v.skip(1));
    } else {
        if k < v.len() {
            assert(w.skip(1) =~= v.skip(1).update(k - 1, (endpoint, frame)));
        } else {
            assert(w.skip(1) =~= v.skip(1).push((endpoint, frame)));
        }
        lemma_other_frame(v.skip(1), w.skip(1), endpoint, other, k - 1, frame);
    }
}

fn per_frame_of(speed: Speed, interval: u8) -> (r: u64)
    ensures
        r == packets_per_frame(speed, interval),
{
    if !speed.is_high_or_faster() {
        1
    } else if interval <= 1 {
        8
    } else if interval == 2 {
        4
    } else if interval == 3 {
        2
    } else {
        1
    }
}

impl FrameClock {
    /// No endpoint has a schedule yet.
    pub fn new() -> (r: Self)
        ensures
            forall|e: u8| next_frame(r.next@, e) is None,
    {
        FrameClock { next: Vec::new() }
    }

    /// Schedules `packets` packets of an endpoint: returns the frame at which
    /// they start, and the next transfer follows right behind them.
    pub fn schedule(&mut self, endpoint: u8, bus_frame: u64, speed: Speed, interval: u8, packets: u32) -> (r: u64)
        requires
            start_frame(next_frame(old(self).next@, endpoint), bus_frame) + packets <= u64::MAX,
        ensures
            r == start_frame(next_frame(old(self).next@, endpoint), bus_frame),
            next_frame(final(self).next@, endpoint) == Some(
                (r + frame_count(packets as int, packets_per_frame(speed, interval))) as u64,
            ),
            forall|e: u8| e != endpoint ==> next_frame(final(self).next@, e) == next_frame(old(self).next@, e),
    {
        let ghost before = self.next@;
        let n: usize = self.next.len();
        let mut at: usize = 0;
        while at < n && self.next[at].0 != endpoint
            invariant
                at <= n,
                n == before.len(),
                self.next@ == before,
                forall|i: int| 0 <= i < at ==> (#[trigger] before[i]).0 != endpoint,
            decreases n - at,
        {
            at += 1;
        }
        proof {
            lemma_next_frame(before, endpoint, at as int);
        }
        let soon: u64 = bus_frame + 4;
        let start: u64 = if at < n && self.next[at].1 > soon {
            self.next[at].1
        } else {
            soon
        };
        let per: u64 = per_frame_of(speed, interval);
        let frames: u64 = (packets as u64 + per - 1) / per;
        assert(frames == frame_count(packets as int, per as int) && frames <= packets);
        let end: u64 = start + frames;
        if at < n {
            self.next.set(at, (endpoint, end));
        } else {
            self.next.push((endpoint, end));
        }
        proof {
            let after = self.next@;
            assert forall|i: int| 0 <= i < at implies (#[trigger] after[i]).0 != endpoint by {
                assert(after[i] == before[i]);
            }
            lemma_next_frame(after, endpoint, at as int);
            assert forall|e: u8| e != endpoint implies next_frame(after, e) == next_frame(before, e) by {
                lemma_other_frame(before, after, endpoint, e, at as int, end);
            }
        }
        start
    }
}

/// Transfers on one endpoint never share a frame, however far the bus has
/// come: each starts at or after the end of the one before it.
pub proof fn lemma_schedules_do_not_overlap(end: u64, bus_frame: u64)
    ensures
        start_frame(Some(end), bus_frame) >= end,
        start_frame(Some(end), bus_frame) >= bus_frame + 4,
        start_frame(None, bus_frame) >= bus_frame + 4,
{
}

// ----- completions --------------------------------------------------------------------

/// The status that the result of a request stands for.
pub open spec fn result_status(result: i32) -> TransferStatus {
    if result == IO_RETURN_SUCCESS || result == IO_RETURN_UNDERRUN {
        TransferStatus::Completed
    } else if result == IO_RETURN_ABORTED {
        TransferStatus::Cancelled
    } else if result == IO_RETURN_TIMEOUT || result == IOUSB_TRANSACTION_TIMEOUT {
        TransferStatus::TimedOut
    } else if result == IOUSB_PIPE_STALLED {
        TransferStatus::Stall
    } else if result == IO_RETURN_NO_DEVICE || result == IO_RETURN_NOT_ATTACHED || result
        == IO_RETURN_NOT_RESPONDING {
        TransferStatus::NoDevice
    } else if result == IO_RETURN_OVERRUN {
        TransferStatus::Overflow
    } else {
        TransferStatus::Error
    }
}

/// The status of a transfer: one that was aborted because its time was up
/// timed out.
pub open spec fn final_status(f: Flight, result: i32) -> TransferStatus {
    if f.timed_out && result_status(result) == TransferStatus::Cancelled {
        TransferStatus::TimedOut
    } else {
        result_status(result)
    }
}

/// The status that the result of one packet stands for.
pub open spec fn packet_status(result: i32) -> TransferStatus {
    if result == IO_RETURN_SUCCESS || result == IO_RETURN_UNDERRUN {
        TransferStatus::Completed
    } else if result == IO_RETURN_ABORTED {
        TransferStatus::Cancelled
    } else if result == IOUSB_PIPE_STALLED {
        TransferStatus::Stall
    } else if result == IO_RETURN_OVERRUN {
        TransferStatus::Overflow
    } else if result == IO_RETURN_NO_DEVICE || result == IO_RETURN_NOT_ATTACHED {
        TransferStatus::NoDevice
    } else {
        TransferStatus::Error
    }
}

/// How a request ended: the transfer's status and whether its device is gone.
pub fn finish(flight: Flight, result: i32) -> (r: (TransferStatus, bool))
    ensures
        r.0 == final_status(flight, result),
        r.1 == (result_status(result) == TransferStatus::NoDevice),
{
    let mapped = match result {
        IO_RETURN_SUCCESS | IO_RETURN_UNDERRUN => TransferStatus::Completed,
        IO_RETURN_ABORTED => TransferStatus::Cancelled,
        IO_RETURN_TIMEOUT | IOUSB_TRANSACTION_TIMEOUT => TransferStatus::TimedOut,
        IOUSB_PIPE_STALLED => TransferStatus::Stall,
        IO_RETURN_NO_DEVICE | IO_RETURN_NOT_ATTACHED | IO_RETURN_NOT_RESPONDING => TransferStatus::NoDevice,
        IO_RETURN_OVERRUN => TransferStatus::Overflow,
        _ => TransferStatus::Error,
    };
    let gone = match mapped {
        TransferStatus::NoDevice => true,
        _ => false,
    };
    match mapped {
        TransferStatus::Cancelled => if flight.timed_out {
            (TransferStatus::TimedOut, gone)
        } else {
            (TransferStatus::Cancelled, gone)
        },
        s => (s, gone),
    }
}

/// What is reported of one isochronous packet.
#[derive(Debug, Clone, Copy, PartialEq, Eq, Structural)]
pub struct FrameResult {
    /// Its requested length.
    pub requested: u16,
    /// The bytes it moved.
    pub actual: u16,
    /// Its result.
    pub status: i32,
}

/// A packet with its result.
pub open spec fn packet_of(f: FrameResult) -> IsoPacket {
    IsoPacket { length: f.requested as u32, actual_length: f.actual as u32, status: packet_status(f.status) }
}

/// The bytes that packets moved.
pub open spec fn frames_moved(v: Seq<FrameResult>) -> int
    decreases v.len(),
{
    if v.len() == 0 {
        0
    } else {
        frames_moved(v.drop_last()) + v.last().actual
    }
}

/// The packets of an isochronous transfer and the bytes that they moved.
pub fn finish_frames(frames: &[FrameResult]) -> (r: (Vec<IsoPacket>, u64))
    requires
        frames@.len() <= u32::MAX,
    ensures
        r.0@ == frames@.map_values(|f: FrameResult| packet_of(f)),
        r.1 == frames_moved(frames@),
{
    let mut packets: Vec<IsoPacket> = Vec::new();
    let mut total: u64 = 0;
    let mut i: usize = 0;
    assert(frames@.take(0) =~= Seq::<FrameResult>::empty());
    assert(packets@ =~= frames@.take(0).map_values(|f: FrameResult| packet_of(f)));
    while i < frames.len()
        invariant
            i <= frames@.len() <= u32::MAX,
            packets@ == frames@.take(i as int).map_values(|f: FrameResult| packet_of(f)),
            total == frames_moved(frames@.take(i as int)),
            total <= i * 0x1_0000,
        decreases frames@.len() - i,
    {
        assert(frames@.take(i + 1).drop_last() =~= frames@.take(i as int));
        let f: FrameResult = frames[i];
        let status = match f.status {
            IO_RETURN_SUCCESS | IO_RETURN_UNDERRUN => TransferStatus::Completed,
            IO_RETURN_ABORTED => TransferStatus::Cancelled,
            IOUSB_PIPE_STALLED => TransferStatus::Stall,
            IO_RETURN_OVERRUN => TransferStatus::Overflow,
            IO_RETURN_NO_DEVICE | IO_RETURN_NOT_ATTACHED => TransferStatus::NoDevice,
            _ => TransferStatus::Error,
        };
        packets.push(IsoPacket { length: f.requested as u32, actual_length: f.actual as u32, status });
        total = total + f.actual as u64;
        assert(packets@ =~= frames@.take(i + 1).map_values(|f: FrameResult| packet_of(f)));
        i += 1;
    }
    assert(frames@.take(i as int) =~= frames@);
    (packets, total)
}

/// How a transfer is aborted.
#[derive(Debug, Clone, Copy, PartialEq, Eq, Structural)]
pub enum Abort {
    /// `AbortPipe` on that interface and pipe.
    Pipe {
        /// The claimed interface, by its index.
        interface: usize,
        /// The pipe's number.
        pipe_ref: u8,
    },
    /// `USBDeviceAbortPipeZero`.
    PipeZero,
}

/// How a transfer is aborted.
pub open spec fn abort_of(pipe: Option<(usize, u8)>, device_182: bool) -> std::result::Result<Abort, ErrorView> {
    match pipe {
        Some((interface, pipe_ref)) => Ok(Abort::Pipe { interface, pipe_ref }),
        None => if device_182 {
            Ok(Abort::PipeZero)
        } else {
            Err(message(ErrorKind::NotSupported, "cannot abort control requests on this IOKit revision"@))
        },
    }
}

/// How to abort a transfer: by its pipe or, for a control request, with
/// `None`, by pipe zero if the device object can.
pub fn abort(pipe: Option<(usize, u8)>, device_182: bool) -> (r: Result<Abort>)
    ensures
        outcome(r) == abort_of(pipe, device_182),
{
    match pipe {
        Some((interface, pipe_ref)) => Ok(Abort::Pipe { interface, pipe_ref }),
        None => if device_182 {
            Ok(Abort::PipeZero)
        } else {
            Err(
                Error::with_message(
                    ErrorKind::NotSupported,
                    "cannot abort control requests on this IOKit revision",
                ),
            )
        },
    }
}

/// The pipe of an endpoint is the first one with its address, if there is one.
pub proof fn lemma_pipe_found(v: Seq<Pipe>, address: u8, k: int)
    requires
        0 <= k <= v.len(),
        forall|j: int| 0 <= j < k ==> !((#[trigger] v[j]).address == address),
    ensures
        k == v.len() ==> pipe_for(v, address) is None,
        k < v.len() && v[k].address == address ==> pipe_for(v, address) == Some(v[k]),
    decreases k,
{
    if k > 0 {
        let w = v.skip(1);
        assert(!(v[0].address == address));
        assert forall|j: int| 0 <= j < k - 1 implies !((#[trigger] w[j]).address == address) by {
            assert(w[j] == v[j + 1]);
        }
        if k < v.len() {
            assert(w[k - 1] == v[k]);
        }
        lemma_pipe_found(w, address, k - 1);
    }
}

/// Where the schedule of an endpoint goes on is what was noted of it first.
pub proof fn lemma_next_frame_found(v: Seq<(u8, u64)>, endpoint: u8, k: int)
    requires
        0 <= k <= v.len(),
        forall|j: int| 0 <= j < k ==> !((#[trigger] v[j]).0 == endpoint),
    ensures
        k == v.len() ==> next_frame(v, endpoint) is None,
        k < v.len() && v[k].0 == endpoint ==> next_frame(v, endpoint) == Some(v[k].1),
    decreases k,
{
    if k > 0 {
        let w = v.skip(1);
        assert(!(v[0].0 == endpoint));
        assert forall|j: int| 0 <= j < k - 1 implies !((#[trigger] w[j]).0 == endpoint) by {
            assert(w[j] == v[j + 1]);
        }
        if k < v.len() {
            assert(w[k - 1] == v[k]);
        }
        lemma_next_frame_found(w, endpoint, k - 1);
    }
}

/// Pipes are numbered from 1 in the order of the system, and addressed by
/// number and direction; those that cannot be read are left out.
pub proof fn lemma_pipes(v: Seq<Option<PipeProperties>>, p: PipeProperties)
    requires
        v.len() < 255,
        p.number < 16,
    ensures
        pipes_of(Seq::empty()).len() == 0,
        pipes_of(v.push(None)) == pipes_of(v),
        ({
            let w = pipes_of(v.push(Some(p)));
            &&& w.len() == pipes_of(v).len() + 1
            &&& pipes_of(v).is_prefix_of(w)
            &&& w.last().pipe_ref == v.len() + 1
            &&& w.last().interval == p.interval
            &&& p.direction == 1 ==> w.last().address == 0x80 + p.number
            &&& p.direction != 1 ==> w.last().address == p.number
        }),
{
    assert(v.push(None).drop_last() =~= v);
    assert(v.push(Some(p)).drop_last() =~= v);
}

/// The interface that owns an endpoint is the first claimed one with a pipe for
/// it.
pub proof fn lemma_owner(v: Seq<ClaimedInterface>, address: u8, k: int)
    requires
        0 <= k <= v.len(),
        forall|j: int| 0 <= j < k ==> pipe_for((#[trigger] v[j]).pipes@, address) is None,
    ensures
        k == v.len() ==> owner_of(v, address) is None,
        k < v.len() && pipe_for(v[k].pipes@, address) is Some ==> owner_of(v, address) == Some(
            (k, pipe_for(v[k].pipes@, address)->0),
        ),
    decreases k,
{
    if k > 0 {
        let w = v.skip(1);
        assert(pipe_for(v[0].pipes@, address) is None);
        assert forall|j: int| 0 <= j < k - 1 implies pipe_for((#[trigger] w[j]).pipes@, address) is None by {
            assert(w[j] == v[j + 1]);
        }
        if k < v.len() {
            assert(w[k - 1] == v[k]);
        }
        lemma_owner(w, address, k - 1);
    }
}

/// Which call a transfer becomes: a control request to the device, an
/// isochronous schedule, or a read or write of the pipe, by the direction of
/// the endpoint.
pub proof fn lemma_calls(
    kind: TransferType,
    endpoint: u8,
    buffer: Seq<u8>,
    timeout: u64,
    packets: Seq<IsoPacket>,
    device_182: bool,
    claimed: Seq<ClaimedInterface>,
)
    requires
        buffer.len() <= u32::MAX,
    ensures
        ({
            let r = call_for(kind, endpoint, buffer, timeout, packets, device_182, claimed);
            let c = r->Ok_0;
            let o = owner_of(claimed, endpoint);
            &&& kind == TransferType::Control ==> r is Ok && c is Request && c->Request_setup == request_in(buffer)
            &&& kind != TransferType::Control ==> (r is Ok <==> o is Some)
            &&& kind != TransferType::Control && o is None ==> r->Err_0.kind == ErrorKind::NotFound
            &&& kind == TransferType::Isochronous && o is Some ==> c is Isoch && c->Isoch_interface == (o->0).0
                && c->Isoch_pipe == (o->0).1 && (c->Isoch_read <==> endpoint >= 0x80)
            &&& (kind == TransferType::Bulk || kind == TransferType::Interrupt) && o is Some ==> c is Pipe
                && c->Pipe_interface == (o->0).0 && c->Pipe_pipe == (o->0).1 && (c->Pipe_read <==> endpoint >= 0x80)
                && c->Pipe_length == buffer.len()
        }),
{
}

/// Time limits are handed on in milliseconds, as far as 32 bits hold.
pub proof fn lemma_handed_limits(ms: u64)
    requires
        ms <= u64::MAX / 1_000_000,
    ensures
        ms <= u32::MAX ==> timeout_ms((ms * 1_000_000) as u64) == ms,
        ms > u32::MAX ==> timeout_ms((ms * 1_000_000) as u64) == u32::MAX,
{
    let t = (ms * 1_000_000) as u64;
    assert(t / 1_000_000 == ms);
}

/// How many packets go into a frame of one millisecond: one below high speed,
/// and otherwise as many as the interval lets through.
pub proof fn lemma_packets_per_frame(speed: Speed, interval: u8)
    ensures
        speed == Speed::Low || speed == Speed::Full || speed == Speed::Unknown ==> packets_per_frame(speed, interval) == 1,
        speed == Speed::High || speed == Speed::Super ==> {
            &&& interval <= 1 ==> packets_per_frame(speed, interval) == 8
            &&& interval == 2 ==> packets_per_frame(speed, interval) == 4
            &&& interval == 3 ==> packets_per_frame(speed, interval) == 2
            &&& interval >= 4 ==> packets_per_frame(speed, interval) == 1
        },
{
}

/// A schedule takes as many frames as its packets fill, and starts where the
/// last one ended or four frames from now, whichever is later.
pub proof fn lemma_schedules(packets: int, per_frame: int, next: u64, bus_frame: u64)
    requires
        0 <= packets,
        0 < per_frame,
    ensures
        frame_count(packets, per_frame) * per_frame >= packets,
        (frame_count(packets, per_frame) - 1) * per_frame < packets,
        start_frame(None, bus_frame) == bus_frame + 4,
        next > bus_frame + 4 ==> start_frame(Some(next), bus_frame) == next,
        next <= bus_frame + 4 ==> start_frame(Some(next), bus_frame) == bus_frame + 4,
{
    let q = (packets + per_frame - 1) / per_frame;
    assert(q * per_frame <= packets + per_frame - 1 < (q + 1) * per_frame) by (nonlinear_arith)
        requires
            q == (packets + per_frame - 1) / per_frame,
            per_frame > 0,
    ;
    assert((q + 1) * per_frame == q * per_frame + per_frame) by (nonlinear_arith);
    assert((q - 1) * per_frame == q * per_frame - per_frame) by (nonlinear_arith);
}

/// What a result means, of a transfer and of a packet.
pub proof fn lemma_result_codes(result: i32)
    ensures
        ({
            let c = result as int + 0x2000_0000 - 0x200;
            let usb = result as int + 0x2000_0000 - 0x4000;
            &&& result_status(result) == TransferStatus::Completed <==> result == 0 || c == 0xe9
            &&& result_status(result) == TransferStatus::Cancelled <==> c == 0xeb
            &&& result_status(result) == TransferStatus::TimedOut <==> c == 0xd6 || usb == 0x51
            &&& result_status(result) == TransferStatus::Stall <==> usb == 0x4f
            &&& result_status(result) == TransferStatus::NoDevice <==> c == 0xc0 || c == 0xd9 || c == 0xed
            &&& result_status(result) == TransferStatus::Overflow <==> c == 0xe8
            &&& packet_status(result) == TransferStatus::Completed <==> result == 0 || c == 0xe9
            &&& packet_status(result) == TransferStatus::Cancelled <==> c == 0xeb
            &&& packet_status(result) == TransferStatus::Stall <==> usb == 0x4f
            &&& packet_status(result) == TransferStatus::Overflow <==> c == 0xe8
            &&& packet_status(result) == TransferStatus::NoDevice <==> c == 0xc0 || c == 0xd9
        }),
{
}

/// A transfer that was stopped because its time was up is reported as that.
pub proof fn lemma_timed_out_transfers(f: Flight, result: i32)
    ensures
        f.timed_out && result_status(result) == TransferStatus::Cancelled ==> final_status(f, result)
            == TransferStatus::TimedOut,
        !f.timed_out || result_status(result) != TransferStatus::Cancelled ==> final_status(f, result) == result_status(
            result,
        ),
{
}

/// What the frames of a transfer moved adds up, and each packet says what it
/// asked for and what it got.
pub proof fn lemma_frames_moved(v: Seq<FrameResult>, f: FrameResult)
    ensures
        frames_moved(Seq::empty()) == 0,
        frames_moved(v.push(f)) == frames_moved(v) + f.actual,
        packet_of(f).length == f.requested,
        packet_of(f).actual_length == f.actual,
        packet_of(f).status == packet_status(f.status),
{
    assert(v.push(f).drop_last() =~= v);
}

/// The frames of a schedule are as long as its packets.
pub proof fn lemma_frame_lengths(packets: Seq<IsoPacket>, i: int)
    requires
        0 <= i < packets.len(),
    ensures
        frame_lengths(packets).len() == packets.len(),
        packets[i].length <= 0xffff ==> frame_lengths(packets)[i] == packets[i].length,
        packets[i].length > 0xffff ==> frame_lengths(packets)[i] == 0xffff,
{
}

/// The address of a pipe: its number, and bit 7 for one to the host.
pub proof fn lemma_pipe_addresses(number: u8, direction: u8)
    requires
        number < 16,
        direction != 1,
    ensures
        address_of(1, number) == 0x80 + number,
        address_of(direction, number) == number,
        no_owner().kind == ErrorKind::NotFound,
{
}

/// A transfer is aborted on its pipe; a control request only where the device
/// can abort pipe zero.
pub proof fn lemma_aborts(interface: usize, pipe_ref: u8, device_182: bool)
    ensures
        abort_of(Some((interface, pipe_ref)), device_182) == Ok::<Abort, ErrorView>(Abort::Pipe { interface, pipe_ref }),
        abort_of(None, true) == Ok::<Abort, ErrorView>(Abort::PipeZero),
        abort_of(None, false) is Err && abort_of(None, false)->Err_0.kind == ErrorKind::NotSupported,
{
}

} // verus!
