//! USB Ethernet adapters: CDC-ECM, CDC-NCM and RNDIS devices as one
//! [`NetDevice`] that sends and receives Ethernet frames.
//!
//! Opening a function is an [`Opening`]: it says what to do on the bus next
//! and is told what came of it. Received frames go to a handler, or queue up
//! (up to [`RX_QUEUE`] frames, older ones kept) for [`NetDevice::recv`].
//! [`NetDevice::send`] frames what is to be sent, failing with
//! [`ErrorKind::Busy`] when [`TX_QUEUE`] frames are already in flight.

use crate::bytes::{self, put32, u32_bytes, zeros};
use crate::class::{self, first_endpoint, walk};
use crate::descriptors::{bytes_per_frame, main_alt, ConfigDescriptor, Interface, InterfaceDescriptor};
use crate::error::{bytes_outcome, message, outcome, plain, text_outcome, Error, ErrorKind, ErrorView, Result};
use crate::types::class::{COMM, MISCELLANEOUS, WIRELESS};
use crate::types::{
    setup_packet, ControlSetup, ControlType, Direction, Recipient, TransferStatus, TransferType, NO_TIMEOUT,
};
use cdc::{Frames, Functional, Notification, NtbParameters};
use rndis::{Control, Exchange, ExchangeAction, ExchangeActionView};
use std::collections::VecDeque;
use vstd::prelude::*;
use vstd::string::*;

pub mod cdc;
pub mod rndis;

verus! {

/// Frames queued for [`NetDevice::recv`] before newer ones are dropped.
pub const RX_QUEUE: usize = 256;

/// Frames that may be in flight to the device at once.
pub const TX_QUEUE: usize = 32;

/// Receive transfers kept queued on the bulk IN endpoint.
pub const RX_TRANSFERS: usize = 8;

/// Largest NCM input block we ask for, and the RNDIS transfer size we
/// announce. Linux uses the same order of magnitude.
pub const RX_BLOCK: u32 = 32768;

/// Stop receiving after this many consecutive failed transfers, rather than
/// spinning on a device that went bad.
pub const MAX_RX_ERRORS: u32 = 64;

/// Largest Ethernet frame (without FCS) when the device does not say.
pub const DEFAULT_MAX_FRAME: usize = 1514;

/// How long a control request may take: 5 s.
pub const CONTROL_TIMEOUT: u64 = 5_000_000_000;

/// The protocol a [`NetDevice`] speaks.
#[derive(Debug, Clone, Copy, PartialEq, Eq, Hash, Structural)]
pub enum NetKind {
    /// CDC Ethernet Control Model: one frame per transfer.
    Ecm,
    /// CDC Network Control Model: frames batched in transfer blocks.
    Ncm,
    /// Microsoft Remote NDIS.
    Rndis,
}

/// A network function a device offers, as listed by [`interfaces`].
#[derive(Debug, Clone, Copy, PartialEq, Eq, Hash, Structural)]
pub struct NetInterface {
    /// The control (communications) interface.
    pub interface: u8,
    /// The protocol.
    pub kind: NetKind,
}

/// The protocol that an interface's class triple stands for.
pub open spec fn kind_for(class: u8, sub_class: u8, protocol: u8) -> Option<NetKind> {
    if class == COMM && sub_class == cdc::SUBCLASS_ECM {
        Some(NetKind::Ecm)
    } else if class == COMM && sub_class == cdc::SUBCLASS_NCM {
        Some(NetKind::Ncm)
    } else if (class == WIRELESS && sub_class == 1 && protocol == 3) || (class == MISCELLANEOUS && sub_class == 4
        && protocol == 1) || (class == COMM && sub_class == 2 && protocol == 255) {
        Some(NetKind::Rndis)
    } else {
        None
    }
}

/// The network protocol of an interface, if it is a network function's
/// control interface.
pub fn kind_of(a: &InterfaceDescriptor) -> (r: Option<NetKind>)
    ensures
        r == kind_for(a.class, a.sub_class, a.protocol),
{
    if a.class == COMM && a.sub_class == cdc::SUBCLASS_ECM {
        return Some(NetKind::Ecm);
    }
    if a.class == COMM && a.sub_class == cdc::SUBCLASS_NCM {
        return Some(NetKind::Ncm);
    }
    // RNDIS shows up under three different class triples.
    if (a.class == WIRELESS && a.sub_class == 1 && a.protocol == 3) || (a.class == MISCELLANEOUS && a.sub_class == 4
        && a.protocol == 1) || (a.class == COMM && a.sub_class == 2 && a.protocol == 255) {
        return Some(NetKind::Rndis);
    }
    None
}

/// The network functions among the given interfaces.
pub open spec fn net_functions(v: Seq<Interface>) -> Seq<NetInterface>
    decreases v.len(),
{
    if v.len() == 0 {
        Seq::empty()
    } else {
        let a = main_alt(v.last());
        match kind_for(a.class, a.sub_class, a.protocol) {
            Some(kind) => net_functions(v.drop_last()).push(NetInterface { interface: a.number, kind }),
            None => net_functions(v.drop_last()),
        }
    }
}

/// The network functions of a configuration. Devices that offer several
/// protocols usually do so in separate configurations.
pub fn interfaces(cfg: &ConfigDescriptor) -> (r: Vec<NetInterface>)
    requires
        cfg.wf(),
    ensures
        r@ == net_functions(cfg.interfaces@),
{
    let mut out: Vec<NetInterface> = Vec::new();
    let mut i: usize = 0;
    let ghost all = cfg.interfaces@;
    assert(all.take(0) =~= Seq::empty());
    while i < cfg.interfaces.len()
        invariant
            cfg.wf(),
            i <= cfg.interfaces@.len(),
            all == cfg.interfaces@,
            out@ == net_functions(all.take(i as int)),
        decreases cfg.interfaces@.len() - i,
    {
        assert(all.take(i + 1).drop_last() =~= all.take(i as int));
        let a = cfg.interfaces[i].main_setting();
        match kind_of(a) {
            Some(kind) => {
                out.push(NetInterface { interface: a.number, kind });
            },
            None => {},
        }
        i += 1;
    }
    assert(all.take(i as int) =~= all);
    out
}

impl NetDevice {
    /// The function that opening a device opens: its first network function.
    pub fn open(cfg: &ConfigDescriptor) -> (r: Result<NetInterface>)
        requires
            cfg.wf(),
        ensures
            outcome(r) == (if net_functions(cfg.interfaces@).len() > 0 {
                Ok::<NetInterface, ErrorView>(net_functions(cfg.interfaces@)[0])
            } else {
                Err(message(ErrorKind::NotFound, "no CDC-ECM, CDC-NCM or RNDIS function in the active configuration"@))
            }),
    {
        let all = interfaces(cfg);
        if all.len() == 0 {
            return Err(
                Error::with_message(
                    ErrorKind::NotFound,
                    "no CDC-ECM, CDC-NCM or RNDIS function in the active configuration",
                ),
            );
        }
        Ok(all[0])
    }
}

/// Link state, as last reported by the device.
#[derive(Debug, Clone, Copy, PartialEq, Eq, Hash, Structural)]
pub struct LinkState {
    /// Whether the link is up; `None` until the device says.
    pub connected: Option<bool>,
    /// Receive (device to host) bit rate, if reported.
    pub down_bps: Option<u64>,
    /// Transmit bit rate, if reported.
    pub up_bps: Option<u64>,
}

impl Default for LinkState {
    fn default() -> (r: Self)
        ensures
            r == (LinkState { connected: None, down_bps: None, up_bps: None }),
    {
        LinkState { connected: None, down_bps: None, up_bps: None }
    }
}

/// The link state after a notification.
pub open spec fn link_after(link: LinkState, n: Option<Notification>) -> LinkState {
    match n {
        Some(Notification::Connection(up)) => LinkState { connected: Some(up), ..link },
        Some(Notification::Speed { down, up }) => LinkState {
            down_bps: Some(down as u64),
            up_bps: Some(up as u64),
            ..link
        },
        None => link,
    }
}

/// Traffic counters.
#[derive(Debug, Clone, Copy, PartialEq, Eq, Hash, Structural)]
pub struct NetStats {
    /// Frames received.
    pub rx_frames: u64,
    /// Bytes received (Ethernet frames, no USB framing).
    pub rx_bytes: u64,
    /// Frames sent.
    pub tx_frames: u64,
    /// Bytes sent.
    pub tx_bytes: u64,
    /// Received frames dropped because the receive queue was full.
    pub rx_dropped: u64,
    /// Frames not sent: queue full, too large, or a failed transfer.
    pub tx_dropped: u64,
    /// Malformed transfers and failed USB transfers.
    pub errors: u64,
}

impl Default for NetStats {
    fn default() -> (r: Self)
        ensures
            r == no_traffic(),
    {
        NetStats { rx_frames: 0, rx_bytes: 0, tx_frames: 0, tx_bytes: 0, rx_dropped: 0, tx_dropped: 0, errors: 0 }
    }
}

/// Counters at zero.
pub open spec fn no_traffic() -> NetStats {
    NetStats { rx_frames: 0, rx_bytes: 0, tx_frames: 0, tx_bytes: 0, rx_dropped: 0, tx_dropped: 0, errors: 0 }
}

/// After one received frame.
pub open spec fn count_rx(s: NetStats, bytes: usize) -> NetStats {
    NetStats { rx_frames: s.rx_frames.wrapping_add(1), rx_bytes: s.rx_bytes.wrapping_add(bytes as u64), ..s }
}

/// After one sent frame.
pub open spec fn count_tx(s: NetStats, bytes: usize) -> NetStats {
    NetStats { tx_frames: s.tx_frames.wrapping_add(1), tx_bytes: s.tx_bytes.wrapping_add(bytes as u64), ..s }
}

/// After one received frame was dropped.
pub open spec fn count_rx_drop(s: NetStats) -> NetStats {
    NetStats { rx_dropped: s.rx_dropped.wrapping_add(1), ..s }
}

/// After one frame was not sent.
pub open spec fn count_tx_drop(s: NetStats) -> NetStats {
    NetStats { tx_dropped: s.tx_dropped.wrapping_add(1), ..s }
}

/// After one failure.
pub open spec fn count_error(s: NetStats) -> NetStats {
    NetStats { errors: s.errors.wrapping_add(1), ..s }
}

/// pktkit's traffic counters, which a pktkit device lends to its users. They
/// change behind shared references, so nothing is stated of what they hold.
#[verifier::external_type_specification]
#[verifier::external_body]
pub struct ExDeviceStats(pktkit::DeviceStats);

/// `DeviceStats::record_rx` counts a received message. Its effect is on
/// atomics behind a shared reference; nothing is claimed of it.
pub assume_specification[ pktkit::DeviceStats::record_rx ](stats: &pktkit::DeviceStats, size: usize);

/// `DeviceStats::record_tx` counts a transmitted message. Its effect is on
/// atomics behind a shared reference; nothing is claimed of it.
pub assume_specification[ pktkit::DeviceStats::record_tx ](stats: &pktkit::DeviceStats, size: usize);

/// `DeviceStats::record_rx_drop` counts a discarded inbound message. Its
/// effect is on atomics behind a shared reference; nothing is claimed of it.
pub assume_specification[ pktkit::DeviceStats::record_rx_drop ](stats: &pktkit::DeviceStats);

/// `DeviceStats::record_tx_drop` counts a discarded outbound message. Its
/// effect is on atomics behind a shared reference; nothing is claimed of it.
pub assume_specification[ pktkit::DeviceStats::record_tx_drop ](stats: &pktkit::DeviceStats);

/// `DeviceStats::record_error` counts an error. Its effect is on atomics
/// behind a shared reference; nothing is claimed of it.
pub assume_specification[ pktkit::DeviceStats::record_error ](stats: &pktkit::DeviceStats);

/// The counters of a device. Each method counts in pktkit's counters too, so
/// that the two stay in step.
#[derive(Debug, Clone, Copy, PartialEq, Eq, Structural)]
pub struct Counters {
    /// The totals so far.
    pub totals: NetStats,
}

impl Counters {
    /// Counters at zero.
    pub fn new() -> (r: Counters)
        ensures
            r.totals == no_traffic(),
    {
        Counters { totals: NetStats::default() }
    }

    /// Counts a received frame.
    pub fn rx(&mut self, bytes: usize, device: &pktkit::DeviceStats)
        ensures
            final(self).totals == count_rx(old(self).totals, bytes),
    {
        self.totals.rx_frames = self.totals.rx_frames.wrapping_add(1);
        self.totals.rx_bytes = self.totals.rx_bytes.wrapping_add(bytes as u64);
        device.record_rx(bytes);
    }

    /// Counts a sent frame.
    pub fn tx(&mut self, bytes: usize, device: &pktkit::DeviceStats)
        ensures
            final(self).totals == count_tx(old(self).totals, bytes),
    {
        self.totals.tx_frames = self.totals.tx_frames.wrapping_add(1);
        self.totals.tx_bytes = self.totals.tx_bytes.wrapping_add(bytes as u64);
        device.record_tx(bytes);
    }

    /// Counts a received frame that was dropped.
    pub fn rx_drop(&mut self, device: &pktkit::DeviceStats)
        ensures
            final(self).totals == count_rx_drop(old(self).totals),
    {
        self.totals.rx_dropped = self.totals.rx_dropped.wrapping_add(1);
        device.record_rx_drop();
    }

    /// Counts a frame that was not sent.
    pub fn tx_drop(&mut self, device: &pktkit::DeviceStats)
        ensures
            final(self).totals == count_tx_drop(old(self).totals),
    {
        self.totals.tx_dropped = self.totals.tx_dropped.wrapping_add(1);
        device.record_tx_drop();
    }

    /// Counts a failure.
    pub fn error(&mut self, device: &pktkit::DeviceStats)
        ensures
            final(self).totals == count_error(old(self).totals),
    {
        self.totals.errors = self.totals.errors.wrapping_add(1);
        device.record_error();
    }

    /// The totals so far.
    pub fn snapshot(&self) -> (r: NetStats)
        ensures
            r == self.totals,
    {
        self.totals
    }
}

// ----- what the transfer callbacks share ----------------------------------------------

/// The bytes of each frame.
pub open spec fn frame_bytes(v: Seq<Vec<u8>>) -> Seq<Seq<u8>> {
    Seq::new(v.len(), |i: int| v[i]@)
}

/// Everything the transfer callbacks share with the device.
pub struct Shared {
    /// Whether a receive handler is set.
    pub handled: bool,
    /// Frames waiting for [`NetDevice::recv`].
    pub queue: VecDeque<Vec<u8>>,
    /// Set when receiving stopped for good (closed, unplugged, failing).
    pub ended: Option<ErrorKind>,
    /// The link state.
    pub link: LinkState,
    /// The traffic counters.
    pub counters: Counters,
    /// Frames on their way to the device.
    pub tx_in_flight: usize,
}

/// What a [`Shared`] holds.
#[verifier::ext_equal]
pub struct SharedView {
    pub handled: bool,
    pub queue: Seq<Seq<u8>>,
    pub ended: Option<ErrorKind>,
    pub link: LinkState,
    pub stats: NetStats,
    pub tx_in_flight: int,
}

impl View for Shared {
    type V = SharedView;

    open spec fn view(&self) -> SharedView {
        SharedView {
            handled: self.handled,
            queue: frame_bytes(self.queue@),
            ended: self.ended,
            link: self.link,
            stats: self.counters.totals,
            tx_in_flight: self.tx_in_flight as int,
        }
    }
}

/// The shared state of a device that was just opened.
pub open spec fn fresh_shared(link: LinkState) -> SharedView {
    SharedView { handled: false, queue: Seq::empty(), ended: None, link, stats: no_traffic(), tx_in_flight: 0 }
}

/// Where a received frame goes.
#[derive(Debug, Clone, Copy, PartialEq, Eq, Structural)]
pub enum Delivery {
    /// Nowhere: a runt, or the queue is full.
    Dropped,
    /// It was queued; a waiting receiver can have it.
    Queued,
    /// To the receive handler.
    Handler,
}

/// Where a received frame goes.
pub open spec fn delivery(s: SharedView, frame: Seq<u8>) -> Delivery {
    if frame.len() < 14 {
        Delivery::Dropped
    } else if s.handled {
        Delivery::Handler
    } else if s.queue.len() < RX_QUEUE {
        Delivery::Queued
    } else {
        Delivery::Dropped
    }
}

/// The shared state after a received frame.
pub open spec fn delivered(s: SharedView, frame: Seq<u8>) -> SharedView {
    if frame.len() < 14 {
        SharedView { stats: count_error(s.stats), ..s }
    } else {
        let stats = count_rx(s.stats, frame.len() as usize);
        match delivery(s, frame) {
            Delivery::Handler => SharedView { stats, ..s },
            Delivery::Queued => SharedView { stats, queue: s.queue.push(frame), ..s },
            Delivery::Dropped => SharedView { stats: count_rx_drop(stats), ..s },
        }
    }
}

/// The shared state after receiving stopped: the first reason stays.
pub open spec fn ended(s: SharedView, why: ErrorKind) -> SharedView {
    SharedView {
        ended: if s.ended is None {
            Some(why)
        } else {
            s.ended
        },
        ..s
    }
}

/// What a completed receive transfer asks for.
#[derive(Debug, Clone, Copy, PartialEq, Eq, Structural)]
pub enum Completion {
    /// Take the frames out of its data, then submit it again.
    Deliver,
    /// Submit it again; it failed that many times in a row.
    Again(u32),
    /// Leave it.
    Stop,
}

/// What a receive transfer that ended with `status` asks for, after
/// `failures` failed ones in a row.
pub open spec fn completion(failures: u32, status: TransferStatus) -> Completion {
    match status {
        TransferStatus::Completed => Completion::Deliver,
        TransferStatus::Cancelled => Completion::Stop,
        TransferStatus::NoDevice => Completion::Stop,
        _ => if failures + 1 >= MAX_RX_ERRORS {
            Completion::Stop
        } else {
            Completion::Again((failures + 1) as u32)
        },
    }
}

/// The shared state after a receive transfer ended with `status`.
pub open spec fn completed(s: SharedView, failures: u32, status: TransferStatus) -> SharedView {
    match status {
        TransferStatus::Completed | TransferStatus::Cancelled => s,
        TransferStatus::NoDevice => ended(s, ErrorKind::NoDevice),
        _ => {
            let t = SharedView { stats: count_error(s.stats), ..s };
            if failures + 1 >= MAX_RX_ERRORS {
                ended(t, ErrorKind::Io)
            } else {
                t
            }
        },
    }
}

/// What [`NetDevice::recv`] asks for.
#[derive(Debug)]
pub enum Recv {
    /// The receiver is done.
    Done(Result<Vec<u8>>),
    /// Wait for a frame, for that many nanoseconds or, with `None`, for as
    /// long as it takes.
    Wait(Option<u64>),
}

/// What a [`Recv`] holds.
#[verifier::ext_equal]
pub enum RecvView {
    Done(std::result::Result<Seq<u8>, ErrorView>),
    Wait(Option<u64>),
}

impl View for Recv {
    type V = RecvView;

    open spec fn view(&self) -> RecvView {
        match *self {
            Recv::Done(r) => RecvView::Done(bytes_outcome(r)),
            Recv::Wait(t) => RecvView::Wait(t),
        }
    }
}

/// What a receiver gets, with `left` of its time remaining.
pub open spec fn recv_next(s: SharedView, left: Option<u64>) -> (SharedView, RecvView) {
    if s.queue.len() > 0 {
        (SharedView { queue: s.queue.skip(1), ..s }, RecvView::Done(Ok(s.queue[0])))
    } else if s.ended is Some {
        (s, RecvView::Done(Err(message(s.ended->0, "network device stopped receiving"@))))
    } else if left == Some(0u64) {
        (s, RecvView::Done(Err(plain(ErrorKind::Timeout))))
    } else {
        (s, RecvView::Wait(left))
    }
}

impl Shared {
    /// The shared state of a device that was just opened.
    pub fn new(link: LinkState) -> (r: Shared)
        ensures
            r@ == fresh_shared(link),
    {
        let r = Shared {
            handled: false,
            queue: VecDeque::new(),
            ended: None,
            link,
            counters: Counters::new(),
            tx_in_flight: 0,
        };
        assert(r@ =~= fresh_shared(link));
        r
    }

    /// Takes one received frame: queues it, or says that it goes to the
    /// handler.
    pub fn deliver(&mut self, frame: &[u8], device: &pktkit::DeviceStats) -> (r: Delivery)
        ensures
            r == delivery(old(self)@, frame@),
            final(self)@ == delivered(old(self)@, frame@),
    {
        if frame.len() < 14 {
            self.counters.error(device);
            assert(self@ =~= delivered(old(self)@, frame@));
            return Delivery::Dropped;
        }
        self.counters.rx(frame.len(), device);
        if self.handled {
            assert(self@ =~= delivered(old(self)@, frame@));
            Delivery::Handler
        } else if self.queue.len() < RX_QUEUE {
            let ghost before = self.queue@;
            self.queue.push_back(vstd::slice::slice_to_vec(frame));
            assert(frame_bytes(self.queue@) =~= frame_bytes(before).push(frame@));
            assert(self@ =~= delivered(old(self)@, frame@));
            Delivery::Queued
        } else {
            self.counters.rx_drop(device);
            assert(self@ =~= delivered(old(self)@, frame@));
            Delivery::Dropped
        }
    }

    /// Notes that receiving stopped for good. The first reason stays.
    pub fn end(&mut self, why: ErrorKind)
        ensures
            final(self)@ == ended(old(self)@, why),
    {
        if self.ended.is_none() {
            self.ended = Some(why);
        }
    }

    /// Takes the status of a receive transfer that completed after `failures`
    /// failed ones in a row, and says what to do with it.
    pub fn complete(&mut self, failures: u32, status: TransferStatus, device: &pktkit::DeviceStats) -> (r: Completion)
        requires
            failures < MAX_RX_ERRORS,
        ensures
            r == completion(failures, status),
            final(self)@ == completed(old(self)@, failures, status),
    {
        match status {
            TransferStatus::Completed => Completion::Deliver,
            TransferStatus::Cancelled => Completion::Stop,
            TransferStatus::NoDevice => {
                self.end(ErrorKind::NoDevice);
                Completion::Stop
            },
            _ => {
                self.counters.error(device);
                if failures + 1 >= MAX_RX_ERRORS {
                    self.end(ErrorKind::Io);
                    return Completion::Stop;
                }
                Completion::Again(failures + 1)
            },
        }
    }

    /// Takes a notification's status and data; whether to listen on.
    pub fn notified(&mut self, status: TransferStatus, data: &[u8]) -> (r: bool)
        ensures
            r == (status == TransferStatus::Completed),
            final(self)@ == (if r {
                SharedView { link: link_after(old(self)@.link, cdc::notification_of(data@)), ..old(self)@ }
            } else {
                old(self)@
            }),
    {
        match status {
            TransferStatus::Completed => {},
            _ => {
                return false;
            },
        }
        match cdc::decode_notification(data) {
            Some(Notification::Connection(up)) => {
                self.link.connected = Some(up);
            },
            Some(Notification::Speed { down, up }) => {
                self.link.down_bps = Some(down as u64);
                self.link.up_bps = Some(up as u64);
            },
            None => {},
        }
        true
    }

    /// Takes the outcome of a submitted frame of `len` bytes.
    pub fn sent(&mut self, len: usize, status: TransferStatus, device: &pktkit::DeviceStats)
        requires
            old(self).tx_in_flight > 0,
        ensures
            final(self)@ == sent_after(old(self)@, len, status),
    {
        self.tx_in_flight = self.tx_in_flight - 1;
        match status {
            TransferStatus::Completed => {
                self.counters.tx(len, device);
            },
            _ => {
                self.counters.tx_drop(device);
                self.counters.error(device);
            },
        }
    }

    /// Notes that a framed frame could not be submitted.
    pub fn not_submitted(&mut self, device: &pktkit::DeviceStats)
        requires
            old(self).tx_in_flight > 0,
        ensures
            final(self)@ == (SharedView {
                tx_in_flight: old(self)@.tx_in_flight - 1,
                stats: count_tx_drop(old(self)@.stats),
                ..old(self)@
            }),
    {
        self.tx_in_flight = self.tx_in_flight - 1;
        self.counters.tx_drop(device);
    }

    /// Takes the next received frame, or says how long to wait for one; `left`
    /// is what remains of the receiver's time, `None` if it has no end.
    pub fn take(&mut self, left: Option<u64>) -> (r: Recv)
        ensures
            (final(self)@, r@) == recv_next(old(self)@, left),
    {
        let ghost before = self.queue@;
        if self.queue.len() > 0 {
            match self.queue.pop_front() {
                Some(f) => {
                    assert(frame_bytes(self.queue@) =~= frame_bytes(before).skip(1));
                    assert(frame_bytes(before)[0] == f@);
                    return Recv::Done(Ok(f));
                },
                None => {},
            }
        }
        match self.ended {
            Some(why) => Recv::Done(Err(Error::with_message(why, "network device stopped receiving"))),
            None => match left {
                Some(0) => Recv::Done(Err(Error::new(ErrorKind::Timeout))),
                _ => Recv::Wait(left),
            },
        }
    }
}

/// The frames of a receive transfer and whether it was well formed.
pub open spec fn unpacked(kind: NetKind, data: Seq<u8>) -> Frames {
    match kind {
        NetKind::Ecm => if data.len() == 0 {
            (Seq::empty(), true)
        } else {
            (seq![data], true)
        },
        NetKind::Ncm => if data.len() == 0 {
            (Seq::empty(), true)
        } else {
            cdc::block_frames(data)
        },
        NetKind::Rndis => rndis::transfer_frames(data),
    }
}

/// Takes a receive transfer apart. The flag is `false` on malformed data,
/// which counts as an error once the frames found were delivered.
pub fn unpack<'a>(kind: NetKind, data: &'a [u8]) -> (r: (Vec<&'a [u8]>, bool))
    ensures
        (cdc::slices(r.0@), r.1) == unpacked(kind, data@),
{
    match kind {
        NetKind::Rndis => rndis::parse_packets(data),
        _ => {
            let mut out: Vec<&'a [u8]> = Vec::new();
            if data.len() == 0 {
                assert(cdc::slices(out@) =~= Seq::<Seq<u8>>::empty());
                return (out, true);
            }
            match kind {
                NetKind::Ncm => cdc::parse_ntb16(data),
                _ => {
                    out.push(data);
                    assert(cdc::slices(out@) =~= seq![data@]);
                    (out, true)
                },
            }
        },
    }
}

/// The receive queue never holds more than [`RX_QUEUE`] frames, and a frame
/// that is received changes none of those that wait already.
pub proof fn lemma_queue_is_bounded(s: SharedView, frame: Seq<u8>)
    requires
        s.queue.len() <= RX_QUEUE,
    ensures
        delivered(s, frame).queue.len() <= RX_QUEUE,
        s.queue.is_prefix_of(delivered(s, frame).queue),
{
}

/// Every frame long enough to be one is counted as received, whether it is
/// queued, handed on or dropped, and only a full queue drops one.
pub proof fn lemma_frames_are_counted(s: SharedView, frame: Seq<u8>)
    requires
        frame.len() >= 14,
    ensures
        delivered(s, frame).stats.rx_frames == s.stats.rx_frames.wrapping_add(1),
        delivered(s, frame).stats.errors == s.stats.errors,
        delivered(s, frame).stats.rx_dropped != s.stats.rx_dropped <==> !s.handled && s.queue.len() >= RX_QUEUE,
{
}

/// Frames are received in the order in which they were delivered: a receiver
/// that asks after a delivery gets the oldest frame waiting.
pub proof fn lemma_first_in_first_out(s: SharedView, frame: Seq<u8>, left: Option<u64>)
    requires
        delivery(s, frame) == Delivery::Queued,
    ensures
        recv_next(delivered(s, frame), left).1 == RecvView::Done(
            Ok::<Seq<u8>, ErrorView>(if s.queue.len() > 0 {
                s.queue[0]
            } else {
                frame
            }),
        ),
{
}

/// Frames queued before a device ended can still be received, and after the
/// last of them a receiver is told why it ended.
pub proof fn lemma_queued_frames_outlive_the_device(s: SharedView, why: ErrorKind, left: Option<u64>)
    requires
        s.ended is None,
    ensures
        s.queue.len() > 0 ==> recv_next(ended(s, why), left).1 == RecvView::Done(
            Ok::<Seq<u8>, ErrorView>(s.queue[0]),
        ),
        s.queue.len() == 0 ==> recv_next(ended(s, why), left).1 == RecvView::Done(
            Err::<Seq<u8>, ErrorView>(message(why, "network device stopped receiving"@)),
        ),
{
}

// ----- framing and filtering ------------------------------------------------------------

/// How frames are framed on the bulk endpoints.
#[derive(Debug, Clone, Copy, PartialEq, Eq, Structural)]
pub enum Framing {
    /// One frame per transfer.
    Ecm,
    /// Transfer blocks, with the number of the next one.
    Ncm { params: NtbParameters, sequence: u16 },
    /// PACKET messages.
    Rndis,
}

/// Protocol-specific control state.
#[derive(Debug, Clone, Copy, PartialEq, Eq, Structural)]
pub enum ControlState {
    /// ECM and NCM.
    Cdc { interface: u8, filter_supported: bool },
    /// RNDIS.
    Rndis(Control),
}

/// A frame as it goes to the device.
pub open spec fn wire_bytes(framing: Framing, packet: int, frame: Seq<u8>) -> std::result::Result<Seq<u8>, ErrorView> {
    match framing {
        Framing::Ecm => if frame.len() as int % packet == 0 {
            Ok(frame.push(0))
        } else {
            Ok(frame)
        },
        Framing::Ncm { params, sequence } => if cdc::ntb_fits(frame.len() as int, params, packet) {
            Ok(cdc::ntb_block(frame, sequence, params, packet))
        } else {
            Err(message(ErrorKind::InvalidParam, "frame too large for the device's NTB size"@))
        },
        Framing::Rndis => Ok(rndis::packet_bytes(frame, packet)),
    }
}

/// The framing of the frame after this one.
pub open spec fn framing_after(framing: Framing) -> Framing {
    match framing {
        Framing::Ncm { params, sequence } => Framing::Ncm { params, sequence: sequence.wrapping_add(1) },
        _ => framing,
    }
}

/// The packet filter bits of an ECM or NCM device.
pub open spec fn cdc_filter(promiscuous: bool) -> u16 {
    if promiscuous {
        (cdc::filter::DIRECTED + cdc::filter::BROADCAST + cdc::filter::ALL_MULTICAST + cdc::filter::PROMISCUOUS) as u16
    } else {
        (cdc::filter::DIRECTED + cdc::filter::BROADCAST + cdc::filter::ALL_MULTICAST) as u16
    }
}

/// The packet filter bits of an RNDIS device.
pub open spec fn rndis_filter(promiscuous: bool) -> u32 {
    if promiscuous {
        (rndis::filter::DIRECTED + rndis::filter::BROADCAST + rndis::filter::ALL_MULTICAST + rndis::filter::PROMISCUOUS) as u32
    } else {
        (rndis::filter::DIRECTED + rndis::filter::BROADCAST + rndis::filter::ALL_MULTICAST) as u32
    }
}

/// The request that sets the packet filter of an ECM or NCM device.
pub open spec fn filter_setup(interface: u8, promiscuous: bool) -> ControlSetup {
    setup_packet(
        Direction::Out,
        ControlType::Class,
        Recipient::Interface,
        cdc::req::SET_ETHERNET_PACKET_FILTER,
        cdc_filter(promiscuous),
        interface as u16,
        0,
    )
}

/// The body that sets an RNDIS device's packet filter.
pub open spec fn filter_body(bits: u32) -> Seq<u8> {
    rndis::oid_body(rndis::oid::GEN_CURRENT_PACKET_FILTER, 4, u32_bytes(bits))
}

/// What setting the packet filter asks for.
#[derive(Debug)]
pub enum FilterAction {
    /// Nothing; the outcome.
    Done(Result<()>),
    /// Send a request without data; its outcome goes to [`filter_outcome`].
    Write { setup: ControlSetup, timeout: u64 },
    /// Run an RNDIS exchange, whose outcome is the outcome.
    Exchange { exchange: Exchange, first: ExchangeAction },
}

/// What a [`FilterAction`] holds.
#[verifier::ext_equal]
pub enum FilterActionView {
    Done(std::result::Result<(), ErrorView>),
    Write { setup: ControlSetup, timeout: u64 },
    Exchange { exchange: Exchange, first: ExchangeActionView },
}

impl View for FilterAction {
    type V = FilterActionView;

    open spec fn view(&self) -> FilterActionView {
        match *self {
            FilterAction::Done(r) => FilterActionView::Done(outcome(r)),
            FilterAction::Write { setup, timeout } => FilterActionView::Write { setup, timeout },
            FilterAction::Exchange { exchange, first } => FilterActionView::Exchange { exchange, first: first@ },
        }
    }
}

/// What setting the packet filter asks for, and the control state after it.
pub open spec fn filter_next(c: ControlState, promiscuous: bool) -> (ControlState, FilterActionView) {
    match c {
        ControlState::Cdc { interface, filter_supported } => (
            c,
            if filter_supported {
                FilterActionView::Write { setup: filter_setup(interface, promiscuous), timeout: CONTROL_TIMEOUT }
            } else if promiscuous {
                FilterActionView::Done(
                    Err(message(ErrorKind::NotSupported, "device has no packet filter request"@)),
                )
            } else {
                FilterActionView::Done(Ok(()))
            },
        ),
        ControlState::Rndis(ctl) => (
            ControlState::Rndis(rndis::after_request(ctl)),
            FilterActionView::Exchange {
                exchange: rndis::exchange_of(ctl, rndis::MSG_SET),
                first: rndis::request_action(ctl, rndis::MSG_SET, filter_body(rndis_filter(promiscuous))),
            },
        ),
    }
}

/// The outcome of a packet filter request.
pub open spec fn filter_result(
    promiscuous: bool,
    r: std::result::Result<(), ErrorView>,
) -> std::result::Result<(), ErrorView> {
    if r is Err && r->Err_0.kind == ErrorKind::Pipe && !promiscuous {
        Ok(())
    } else {
        r
    }
}

/// Judges the outcome of a packet filter request. Plenty of ECM devices stall
/// it and filter nothing.
pub fn filter_outcome(promiscuous: bool, r: Result<()>) -> (x: Result<()>)
    ensures
        outcome(x) == filter_result(promiscuous, outcome(r)),
{
    match r {
        Err(e) => if e.is_stall() && !promiscuous {
            Ok(())
        } else {
            Err(e)
        },
        Ok(()) => Ok(()),
    }
}

impl ControlState {
    /// Starts setting the packet filter.
    pub fn set_filter(&mut self, promiscuous: bool) -> (r: FilterAction)
        ensures
            (*final(self), r@) == filter_next(*old(self), promiscuous),
    {
        match *self {
            ControlState::Cdc { interface, filter_supported } => {
                if !filter_supported {
                    return if promiscuous {
                        FilterAction::Done(
                            Err(Error::with_message(ErrorKind::NotSupported, "device has no packet filter request")),
                        )
                    } else {
                        FilterAction::Done(Ok(()))
                    };
                }
                let mut bits: u16 = cdc::filter::DIRECTED + cdc::filter::BROADCAST + cdc::filter::ALL_MULTICAST;
                if promiscuous {
                    bits = bits + cdc::filter::PROMISCUOUS;
                }
                let setup = ControlSetup::new(
                    Direction::Out,
                    ControlType::Class,
                    Recipient::Interface,
                    cdc::req::SET_ETHERNET_PACKET_FILTER,
                    bits,
                    interface as u16,
                    0,
                );
                FilterAction::Write { setup, timeout: CONTROL_TIMEOUT }
            },
            ControlState::Rndis(ctl) => {
                let mut bits: u32 = rndis::filter::DIRECTED + rndis::filter::BROADCAST + rndis::filter::ALL_MULTICAST;
                if promiscuous {
                    bits = bits + rndis::filter::PROMISCUOUS;
                }
                let mut ctl = ctl;
                let (exchange, first) = start_filter(&mut ctl, bits);
                *self = ControlState::Rndis(ctl);
                FilterAction::Exchange { exchange, first }
            },
        }
    }
}

fn start_filter(ctl: &mut Control, bits: u32) -> (r: (Exchange, ExchangeAction))
    ensures
        *final(ctl) == rndis::after_request(*old(ctl)),
        r.0 == rndis::exchange_of(*old(ctl), rndis::MSG_SET),
        r.1@ == rndis::request_action(*old(ctl), rndis::MSG_SET, filter_body(bits)),
{
    let mut value: Vec<u8> = Vec::new();
    put32(&mut value, bits);
    assert(value@ =~= u32_bytes(bits));
    let body = rndis::set_body(rndis::oid::GEN_CURRENT_PACKET_FILTER, value.as_slice());
    ctl.exchange(rndis::MSG_SET, body.as_slice())
}

// ----- an open device ---------------------------------------------------------------------

/// An open USB network function. See the [module documentation](self).
pub struct NetDevice {
    /// The protocol.
    pub kind: NetKind,
    /// The adapter's MAC address.
    pub mac: [u8; 6],
    /// Largest frame the device takes.
    pub max_frame: usize,
    /// The bulk OUT endpoint.
    pub ep_out: u8,
    /// Its packet size.
    pub out_packet: usize,
    /// How frames are framed.
    pub framing: Framing,
    /// What the transfer callbacks share.
    pub shared: Shared,
    /// The control state.
    pub control: ControlState,
}

/// What a [`NetDevice`] holds.
#[verifier::ext_equal]
pub struct NetDeviceView {
    pub kind: NetKind,
    pub mac: Seq<u8>,
    pub max_frame: usize,
    pub ep_out: u8,
    pub out_packet: usize,
    pub framing: Framing,
    pub shared: SharedView,
    pub control: ControlState,
}

impl View for NetDevice {
    type V = NetDeviceView;

    open spec fn view(&self) -> NetDeviceView {
        NetDeviceView {
            kind: self.kind,
            mac: self.mac@,
            max_frame: self.max_frame,
            ep_out: self.ep_out,
            out_packet: self.out_packet,
            framing: self.framing,
            shared: self.shared@,
            control: self.control,
        }
    }
}

/// What holds of every open device: frames have a bounded size and packets at
/// least one byte, and neither queue is over its limit.
pub open spec fn device_ok(d: NetDeviceView) -> bool {
    &&& d.max_frame <= 0xffff
    &&& d.out_packet > 0
    &&& d.shared.queue.len() <= RX_QUEUE
    &&& 0 <= d.shared.tx_in_flight <= TX_QUEUE
}

/// What sending a frame comes to: the device after it and what goes to the
/// bulk OUT endpoint.
pub open spec fn send_next(d: NetDeviceView, frame: Seq<u8>) -> (
    NetDeviceView,
    std::result::Result<Seq<u8>, ErrorView>,
) {
    let dropped = SharedView { stats: count_tx_drop(d.shared.stats), ..d.shared };
    if frame.len() < 14 || frame.len() > d.max_frame {
        (
            NetDeviceView { shared: dropped, ..d },
            Err(message(ErrorKind::InvalidParam, "frame size out of range"@)),
        )
    } else if d.shared.ended is Some {
        (
            NetDeviceView { shared: dropped, ..d },
            Err(message(ErrorKind::NoDevice, "network device is closed"@)),
        )
    } else {
        let framing = framing_after(d.framing);
        match wire_bytes(d.framing, d.out_packet as int, frame) {
            Err(e) => (NetDeviceView { shared: dropped, framing, ..d }, Err(e)),
            Ok(wire) => if d.shared.tx_in_flight >= TX_QUEUE {
                (
                    NetDeviceView { shared: dropped, framing, ..d },
                    Err(message(ErrorKind::Busy, "transmit queue full"@)),
                )
            } else {
                (
                    NetDeviceView {
                        shared: SharedView { tx_in_flight: d.shared.tx_in_flight + 1, ..d.shared },
                        framing,
                        ..d
                    },
                    Ok(wire),
                )
            },
        }
    }
}

/// What closing a device asks for.
#[derive(Debug)]
pub enum CloseAction {
    /// Nothing.
    Nothing,
    /// Run an RNDIS exchange, which stops the device from sending, and
    /// whatever its outcome go on with [`halt`](NetDevice::halt).
    ClearFilter { exchange: Exchange, first: ExchangeAction },
    /// Send a message, whatever its outcome; that is all.
    Send { setup: ControlSetup, message: Vec<u8>, timeout: u64 },
}

/// What a [`CloseAction`] holds.
#[verifier::ext_equal]
pub enum CloseActionView {
    Nothing,
    ClearFilter { exchange: Exchange, first: ExchangeActionView },
    Send { setup: ControlSetup, message: Seq<u8>, timeout: u64 },
}

impl View for CloseAction {
    type V = CloseActionView;

    open spec fn view(&self) -> CloseActionView {
        match *self {
            CloseAction::Nothing => CloseActionView::Nothing,
            CloseAction::ClearFilter { exchange, first } => CloseActionView::ClearFilter { exchange, first: first@ },
            CloseAction::Send { setup, message, timeout } => CloseActionView::Send { setup, message: message@, timeout },
        }
    }
}

/// What closing a device comes to; `was_running` says whether transfers were
/// still running.
pub open spec fn close_next(d: NetDeviceView, was_running: bool) -> (NetDeviceView, CloseActionView) {
    let e = NetDeviceView { shared: ended(d.shared, ErrorKind::NoDevice), ..d };
    match d.control {
        ControlState::Rndis(ctl) => if was_running {
            (
                NetDeviceView { control: ControlState::Rndis(rndis::after_request(ctl)), ..e },
                CloseActionView::ClearFilter {
                    exchange: rndis::exchange_of(ctl, rndis::MSG_SET),
                    first: rndis::request_action(ctl, rndis::MSG_SET, filter_body(0)),
                },
            )
        } else {
            (e, CloseActionView::Nothing)
        },
        _ => (e, CloseActionView::Nothing),
    }
}

/// What follows once the filter of a device that is being closed was cleared:
/// an RNDIS device is told that the host is gone.
pub open spec fn halt_next(d: NetDeviceView) -> CloseActionView {
    match d.control {
        ControlState::Rndis(ctl) => CloseActionView::Send {
            setup: rndis::send_setup(ctl.interface, 12),
            message: rndis::request_bytes(rndis::MSG_HALT, ctl.next_id, Seq::empty()),
            timeout: CONTROL_TIMEOUT,
        },
        _ => CloseActionView::Nothing,
    }
}

impl NetDevice {
    /// The protocol.
    pub fn kind(&self) -> (r: NetKind)
        ensures
            r == self@.kind,
    {
        self.kind
    }

    /// The adapter's MAC address.
    pub fn mac_address(&self) -> (r: [u8; 6])
        ensures
            r@ == self@.mac,
    {
        self.mac
    }

    /// Largest Ethernet frame (header included, FCS excluded) the device
    /// takes; 1514 for standard Ethernet.
    pub fn max_frame_size(&self) -> (r: usize)
        ensures
            r == self@.max_frame,
    {
        self.max_frame
    }

    /// The link state as last reported.
    pub fn link(&self) -> (r: LinkState)
        ensures
            r == self@.shared.link,
    {
        self.shared.link
    }

    /// Traffic counters.
    pub fn stats(&self) -> (r: NetStats)
        ensures
            r == self@.shared.stats,
    {
        self.shared.counters.snapshot()
    }

    /// Frames one Ethernet frame (destination MAC first, no FCS) for the
    /// bulk OUT endpoint and counts it as in flight. Fails with
    /// [`ErrorKind::Busy`] when [`TX_QUEUE`] frames are already in flight, and
    /// with [`ErrorKind::InvalidParam`] for frames shorter than an Ethernet
    /// header or longer than [`max_frame_size`](Self::max_frame_size).
    pub fn send(&mut self, frame: &[u8], device: &pktkit::DeviceStats) -> (r: Result<Vec<u8>>)
        requires
            device_ok(old(self)@),
        ensures
            (final(self)@, bytes_outcome(r)) == send_next(old(self)@, frame@),
            device_ok(final(self)@),
    {
        if frame.len() < 14 || frame.len() > self.max_frame {
            self.shared.counters.tx_drop(device);
            return Err(Error::with_message(ErrorKind::InvalidParam, "frame size out of range"));
        }
        if self.shared.ended.is_some() {
            self.shared.counters.tx_drop(device);
            return Err(Error::with_message(ErrorKind::NoDevice, "network device is closed"));
        }
        let framed: Result<Vec<u8>> = match self.framing {
            Framing::Ecm => {
                // Pad exact packet multiples by a byte instead of relying on a
                // zero-length packet, which not every backend can send.
                let mut w = vstd::slice::slice_to_vec(frame);
                if frame.len() % self.out_packet == 0 {
                    w.push(0);
                }
                Ok(w)
            },
            Framing::Ncm { params, sequence } => {
                self.framing = Framing::Ncm { params, sequence: sequence.wrapping_add(1) };
                cdc::build_ntb16(frame, sequence, &params, self.out_packet)
            },
            Framing::Rndis => Ok(rndis::build_packet(frame, self.out_packet)),
        };
        assert(bytes_outcome(framed) == wire_bytes(old(self).framing, self.out_packet as int, frame@));
        assert(self.framing == framing_after(old(self).framing));
        match framed {
            Err(e) => {
                self.shared.counters.tx_drop(device);
                Err(e)
            },
            Ok(wire) => {
                if self.shared.tx_in_flight >= TX_QUEUE {
                    self.shared.counters.tx_drop(device);
                    return Err(Error::with_message(ErrorKind::Busy, "transmit queue full"));
                }
                self.shared.tx_in_flight = self.shared.tx_in_flight + 1;
                Ok(wire)
            },
        }
    }

    /// Notes that a receive handler is set: frames go to it instead of the
    /// queue.
    pub fn set_receive_handler(&mut self)
        ensures
            final(self)@ == (NetDeviceView {
                shared: SharedView { handled: true, ..old(self)@.shared },
                ..old(self)@
            }),
    {
        self.shared.handled = true;
    }

    /// Goes back to queueing received frames for [`recv`](Self::recv).
    pub fn clear_receive_handler(&mut self)
        ensures
            final(self)@ == (NetDeviceView {
                shared: SharedView { handled: false, ..old(self)@.shared },
                ..old(self)@
            }),
    {
        self.shared.handled = false;
    }

    /// Takes the next received frame, or says how long to wait for one.
    /// `timeout` is the receiver's whole time in nanoseconds
    /// ([`NO_TIMEOUT`] waits forever), `waited` how much of it has passed.
    /// Fails with [`ErrorKind::Timeout`], or with [`ErrorKind::NoDevice`] once
    /// the device is closed or gone and the queue is empty.
    pub fn recv(&mut self, timeout: u64, waited: u64) -> (r: Recv)
        ensures
            ({
                let (shared, next) = recv_next(
                    old(self)@.shared,
                    time_left(timeout, waited),
                );
                final(self)@ == (NetDeviceView { shared, ..old(self)@ }) && r@ == next
            }),
    {
        let left: Option<u64> = if timeout == NO_TIMEOUT {
            None
        } else if waited < timeout {
            Some(timeout - waited)
        } else {
            Some(0)
        };
        self.shared.take(left)
    }

    /// Enables or disables promiscuous reception (frames for any MAC).
    /// Broadcast, multicast and frames for this adapter are always received.
    pub fn set_promiscuous(&mut self, on: bool) -> (r: FilterAction)
        ensures
            ({
                let (control, next) = filter_next(old(self)@.control, on);
                final(self)@ == (NetDeviceView { control, ..old(self)@ }) && r@ == next
            }),
    {
        self.control.set_filter(on)
    }

    /// Stops receiving and, for RNDIS, tells the device the host is gone.
    /// Frames already queued can still be taken with [`recv`](Self::recv).
    pub fn close(&mut self, was_running: bool) -> (r: CloseAction)
        ensures
            (final(self)@, r@) == close_next(old(self)@, was_running),
    {
        self.shared.end(ErrorKind::NoDevice);
        match self.control {
            ControlState::Rndis(ctl) => {
                if !was_running {
                    return CloseAction::Nothing;
                }
                // Clear the filter so the device stops sending, then halt.
                let mut ctl = ctl;
                let (exchange, first) = start_filter(&mut ctl, 0);
                self.control = ControlState::Rndis(ctl);
                CloseAction::ClearFilter { exchange, first }
            },
            _ => CloseAction::Nothing,
        }
    }

    /// What closing asks for once the filter was cleared.
    pub fn halt(&self) -> (r: CloseAction)
        ensures
            r@ == halt_next(self@),
    {
        match self.control {
            ControlState::Rndis(ctl) => {
                let (setup, message) = ctl.halt();
                CloseAction::Send { setup, message, timeout: CONTROL_TIMEOUT }
            },
            _ => CloseAction::Nothing,
        }
    }
}

/// At most [`TX_QUEUE`] frames are in flight: a frame goes to the device only
/// while there are fewer, and one that is refused is counted as dropped and
/// changes nothing else that a receiver sees.
pub proof fn lemma_send_is_bounded(d: NetDeviceView, frame: Seq<u8>)
    requires
        device_ok(d),
    ensures
        device_ok(send_next(d, frame).0),
        send_next(d, frame).1 is Ok ==> d.shared.tx_in_flight < TX_QUEUE && send_next(d, frame).0.shared.stats
            == d.shared.stats,
        send_next(d, frame).1 is Err ==> send_next(d, frame).0.shared == (SharedView {
            stats: count_tx_drop(d.shared.stats),
            ..d.shared
        }),
{
}

/// Closing a device is idempotent: once it is closed and nothing is running,
/// closing it again changes nothing and asks for nothing.
pub proof fn lemma_close_is_idempotent(d: NetDeviceView, was_running: bool)
    ensures
        close_next(close_next(d, was_running).0, false) == (close_next(d, was_running).0, CloseActionView::Nothing),
{
}

/// A closed device sends nothing more.
pub proof fn lemma_closed_sends_nothing(d: NetDeviceView, was_running: bool, frame: Seq<u8>)
    ensures
        send_next(close_next(d, was_running).0, frame).1 is Err,
{
}

/// The device takes the frame out of what was sent exactly as it was handed
/// in, up to the one byte of padding that an ECM frame may get. An NCM device
/// must align its tables to four bytes, as the block format asks.
pub proof fn lemma_sent_frame_arrives(d: NetDeviceView, frame: Seq<u8>)
    requires
        device_ok(d),
        send_next(d, frame).1 is Ok,
    ensures
        d.framing is Rndis ==> unpacked(NetKind::Rndis, send_next(d, frame).1->Ok_0) == (seq![frame], true),
        d.framing is Ncm && cdc::ndp_offset(d.framing->params) % 4 == 0 ==> unpacked(NetKind::Ncm, send_next(d, frame).1->Ok_0) == (seq![frame], true),
        d.framing is Ecm ==> frame.is_prefix_of(send_next(d, frame).1->Ok_0) && send_next(d, frame).1->Ok_0.len()
            <= frame.len() + 1,
{
    match d.framing {
        Framing::Rndis => {
            rndis::lemma_padded_packet_round_trip(frame, d.out_packet as int);
        },
        Framing::Ncm { params, sequence } => {
            if cdc::ndp_offset(params) % 4 == 0 {
                cdc::lemma_ntb_round_trip(frame, sequence, params, d.out_packet as int);
            }
        },
        Framing::Ecm => {},
    }
}

// ----- opening a device -------------------------------------------------------------------

/// What opening a network function needs to know of its descriptors.
#[derive(Debug, Clone, Copy, PartialEq, Eq)]
pub struct OpenPlan {
    /// The protocol.
    pub kind: NetKind,
    /// The control interface.
    pub interface: u8,
    /// The data interface.
    pub data_interface: u8,
    /// The alternate setting of the data interface that has endpoints.
    pub data_alternate: u8,
    /// The functional descriptors.
    pub functional: Functional,
    /// The bulk IN endpoint.
    pub ep_in: u8,
    /// Its packet size, at least 1.
    pub in_packet: u16,
    /// The bulk OUT endpoint.
    pub ep_out: u8,
    /// Its packet size, at least 1.
    pub out_packet: u16,
    /// The notification endpoint and the size of its notifications.
    pub notify: Option<(u8, u32)>,
}

/// A packet size, at least 1.
pub open spec fn packet_of(raw: u16) -> u16 {
    if raw % 2048 == 0 {
        1
    } else {
        raw % 2048
    }
}

/// The plan for a control interface and the data setting that belongs to it.
pub open spec fn plan_with(
    kind: NetKind,
    interface: u8,
    comm: InterfaceDescriptor,
    number: u8,
    data: InterfaceDescriptor,
) -> OpenPlan {
    let i = first_endpoint(data.endpoints@, Direction::In, TransferType::Bulk)->0;
    let o = first_endpoint(data.endpoints@, Direction::Out, TransferType::Bulk)->0;
    OpenPlan {
        kind,
        interface,
        data_interface: number,
        data_alternate: data.alternate_setting,
        functional: cdc::functional_of(walk(comm.extra@)),
        ep_in: i.address,
        in_packet: packet_of(i.max_packet_size),
        ep_out: o.address,
        out_packet: packet_of(o.max_packet_size),
        notify: match first_endpoint(comm.endpoints@, Direction::In, TransferType::Interrupt) {
            Some(e) => Some((e.address, bytes_per_frame(e.max_packet_size) as u32)),
            None => None,
        },
    }
}

/// The plan for opening the function with the given control interface, or why
/// it cannot be opened.
pub open spec fn plan_for(v: Seq<Interface>, interface: u8) -> std::result::Result<OpenPlan, ErrorView> {
    match class::setting_of(v, interface) {
        Err(e) => Err(e),
        Ok(comm) => match kind_for(comm.class, comm.sub_class, comm.protocol) {
            None => Err(message(ErrorKind::InvalidParam, "not a network control interface"@)),
            Some(kind) => match cdc::data_interface_of(cdc::functional_of(walk(comm.extra@)), v, interface) {
                None => Err(message(ErrorKind::Io, "network function has no data interface"@)),
                Some(number) => match class::data_setting(v, number) {
                    None => Err(message(ErrorKind::Io, "network data interface lacks bulk endpoints"@)),
                    Some(data) => Ok(plan_with(kind, interface, comm, number, data)),
                },
            },
        },
    }
}

fn at_least_one(size: u16) -> (r: u16)
    ensures
        r == (if size == 0 { 1 } else { size }),
{
    if size == 0 {
        1
    } else {
        size
    }
}

impl NetDevice {
    /// Plans the opening of the network function whose control interface is
    /// given.
    pub fn open_interface(cfg: &ConfigDescriptor, interface: u8) -> (r: Result<OpenPlan>)
        requires
            cfg.wf(),
        ensures
            outcome(r) == plan_for(cfg.interfaces@, interface),
    {
        let comm = match class::interface(cfg, interface) {
            Ok(a) => a,
            Err(e) => {
                return Err(e);
            },
        };
        let kind = match kind_of(comm) {
            Some(k) => k,
            None => {
                return Err(Error::with_message(ErrorKind::InvalidParam, "not a network control interface"));
            },
        };
        let functional = Functional::parse(comm);
        let number: u8 = match functional.data_interface(cfg, interface) {
            Some(n) => n,
            None => {
                return Err(Error::with_message(ErrorKind::Io, "network function has no data interface"));
            },
        };
        let data = match class::find_data_setting(cfg, number) {
            Some(a) => a,
            None => {
                return Err(Error::with_message(ErrorKind::Io, "network data interface lacks bulk endpoints"));
            },
        };
        proof {
            class::lemma_data_setting_has_pair(cfg.interfaces@, number);
        }
        let ep_in = class::endpoint(data, Direction::In, TransferType::Bulk);
        let ep_out = class::endpoint(data, Direction::Out, TransferType::Bulk);
        let notify = match class::endpoint(comm, Direction::In, TransferType::Interrupt) {
            Some(e) => Some((e.address, e.max_packet_size())),
            None => None,
        };
        match (ep_in, ep_out) {
            (Some(i), Some(o)) => Ok(
                OpenPlan {
                    kind,
                    interface,
                    data_interface: number,
                    data_alternate: data.alternate_setting,
                    functional,
                    ep_in: i.address,
                    in_packet: at_least_one(i.packet_size()),
                    ep_out: o.address,
                    out_packet: at_least_one(o.packet_size()),
                    notify,
                },
            ),
            _ => Err(Error::new(ErrorKind::Io)),
        }
    }
}

/// Where opening a function stands.
#[derive(Debug, Clone, Copy, PartialEq, Eq, Structural)]
pub enum OpenPhase {
    /// Alternate setting 0 of the data interface is being selected, which
    /// resets the function.
    Reset,
    /// The transfer block parameters are being read.
    Parameters,
    /// The input block size is being set.
    InputSize,
    /// The MAC address string is being read.
    Mac,
    /// INITIALIZE is under way.
    Initialize,
    /// The MAC address is being asked for.
    Address,
    /// The largest payload is being asked for.
    FrameSize,
    /// The media status is being asked for.
    Media,
    /// The link speed is being asked for.
    LinkSpeed,
    /// The packet filter is being set.
    Filter,
    /// The alternate setting with endpoints is being selected.
    Stream,
    /// Opening is over.
    Over,
}

/// The opening of a network function: a list of bus operations, each chosen
/// by the outcome of the one before.
pub struct Opening {
    /// What is being opened.
    pub plan: OpenPlan,
    /// Where opening it stands.
    pub phase: OpenPhase,
    /// The NCM transfer block parameters.
    pub params: Option<NtbParameters>,
    /// The size of a receive transfer.
    pub rx_size: usize,
    /// The MAC address.
    pub mac: [u8; 6],
    /// The largest frame.
    pub max_frame: usize,
    /// The link state.
    pub link: LinkState,
    /// The RNDIS control channel.
    pub control: Control,
    /// The largest RNDIS transfer that the device takes.
    pub max_transfer: u32,
}

/// What an [`Opening`] holds.
#[verifier::ext_equal]
pub struct OpeningView {
    pub plan: OpenPlan,
    pub phase: OpenPhase,
    pub params: Option<NtbParameters>,
    pub rx_size: usize,
    pub mac: Seq<u8>,
    pub max_frame: usize,
    pub link: LinkState,
    pub control: Control,
    pub max_transfer: u32,
}

impl View for Opening {
    type V = OpeningView;

    open spec fn view(&self) -> OpeningView {
        OpeningView {
            plan: self.plan,
            phase: self.phase,
            params: self.params,
            rx_size: self.rx_size,
            mac: self.mac@,
            max_frame: self.max_frame,
            link: self.link,
            control: self.control,
            max_transfer: self.max_transfer,
        }
    }
}

/// What an [`Opening`] asks for next.
#[derive(Debug)]
pub enum OpenAction {
    /// Select an alternate setting.
    SetAlternate { interface: u8, alternate: u8 },
    /// Read up to as many bytes as the request says.
    Read { setup: ControlSetup, timeout: u64 },
    /// Write bytes.
    Write { setup: ControlSetup, data: Vec<u8>, timeout: u64 },
    /// Read a string descriptor in the device's first language.
    ReadString { index: u8 },
    /// Run an RNDIS exchange.
    Exchange { exchange: Exchange, first: ExchangeAction },
    /// Opening is over.
    Finish(Result<()>),
}

/// What an [`OpenAction`] holds.
#[verifier::ext_equal]
pub enum OpenActionView {
    SetAlternate { interface: u8, alternate: u8 },
    Read { setup: ControlSetup, timeout: u64 },
    Write { setup: ControlSetup, data: Seq<u8>, timeout: u64 },
    ReadString { index: u8 },
    Exchange { exchange: Exchange, first: ExchangeActionView },
    Finish(std::result::Result<(), ErrorView>),
}

impl View for OpenAction {
    type V = OpenActionView;

    open spec fn view(&self) -> OpenActionView {
        match *self {
            OpenAction::SetAlternate { interface, alternate } => OpenActionView::SetAlternate { interface, alternate },
            OpenAction::Read { setup, timeout } => OpenActionView::Read { setup, timeout },
            OpenAction::Write { setup, data, timeout } => OpenActionView::Write { setup, data: data@, timeout },
            OpenAction::ReadString { index } => OpenActionView::ReadString { index },
            OpenAction::Exchange { exchange, first } => OpenActionView::Exchange { exchange, first: first@ },
            OpenAction::Finish(r) => OpenActionView::Finish(outcome(r)),
        }
    }
}

/// What came of an [`OpenAction`].
#[derive(Debug)]
pub enum OpenEvent {
    /// A setting was selected or bytes were written, or not.
    Done(Result<()>),
    /// What was read.
    Data(Result<Vec<u8>>),
    /// The string that was read.
    Text(Result<String>),
    /// The reply of an exchange, and the media status that it ended with.
    Reply { reply: Result<Vec<u8>>, link: Option<bool> },
}

/// What an [`OpenEvent`] holds.
#[verifier::ext_equal]
pub enum OpenEventView {
    Done(std::result::Result<(), ErrorView>),
    Data(std::result::Result<Seq<u8>, ErrorView>),
    Text(std::result::Result<Seq<char>, ErrorView>),
    Reply { reply: std::result::Result<Seq<u8>, ErrorView>, link: Option<bool> },
}

impl View for OpenEvent {
    type V = OpenEventView;

    open spec fn view(&self) -> OpenEventView {
        match *self {
            OpenEvent::Done(r) => OpenEventView::Done(outcome(r)),
            OpenEvent::Data(r) => OpenEventView::Data(bytes_outcome(r)),
            OpenEvent::Text(r) => OpenEventView::Text(text_outcome(r)),
            OpenEvent::Reply { reply, link } => OpenEventView::Reply { reply: bytes_outcome(reply), link },
        }
    }
}

/// Whether an event is the outcome of what a phase asked for.
pub open spec fn event_fits(o: OpeningView, e: OpenEventView) -> bool {
    match o.phase {
        OpenPhase::Reset | OpenPhase::InputSize | OpenPhase::Stream => e is Done,
        OpenPhase::Parameters => e is Data,
        OpenPhase::Mac => e is Text,
        OpenPhase::Filter => if o.plan.kind == NetKind::Rndis {
            e is Reply
        } else {
            e is Done
        },
        OpenPhase::Over => false,
        _ => e is Reply,
    }
}

/// `std`'s quoted, escaped form of a string.
pub uninterp spec fn debug_text(s: Seq<char>) -> Seq<char>;

/// Renders a string with `format!("{:?}")`, std's `Debug` for `str`: the
/// string in quotes with escapes, which depends on the string alone.
#[verifier::external_body]
fn debug_string(s: &str) -> (r: String)
    ensures
        r@ == debug_text(s@),
{
    format!("{s:?}")
}

/// An opening that failed.
pub open spec fn open_failed(o: OpeningView, e: ErrorView) -> (OpeningView, OpenActionView) {
    (OpeningView { phase: OpenPhase::Over, ..o }, OpenActionView::Finish(Err(e)))
}

/// An opening that succeeded.
pub open spec fn open_done(o: OpeningView) -> (OpeningView, OpenActionView) {
    (OpeningView { phase: OpenPhase::Over, ..o }, OpenActionView::Finish(Ok(())))
}

/// The size of an ECM receive transfer: the largest frame in whole packets,
/// and one packet more.
pub open spec fn ecm_rx_size(max_segment: u16, packet: u16) -> int {
    let m = if max_segment < 1514 {
        1514int
    } else {
        max_segment as int
    };
    ((m + packet - 1) / (packet as int)) * packet + packet
}

/// Whether a capability bit is set.
pub open spec fn capability(f: Functional, weight: u8) -> bool {
    f.ncm_capabilities matches Some(c) && (c / weight) % 2 == 1
}

/// Selecting the setting with endpoints.
pub open spec fn to_stream(o: OpeningView) -> (OpeningView, OpenActionView) {
    (
        OpeningView { phase: OpenPhase::Stream, ..o },
        OpenActionView::SetAlternate { interface: o.plan.data_interface, alternate: o.plan.data_alternate },
    )
}

/// The control state that an opening leads to.
pub open spec fn control_of(o: OpeningView) -> ControlState {
    if o.plan.kind == NetKind::Rndis {
        ControlState::Rndis(o.control)
    } else {
        ControlState::Cdc {
            interface: o.plan.interface,
            filter_supported: o.plan.kind == NetKind::Ecm || capability(o.plan.functional, 1),
        }
    }
}

/// Setting the packet filter.
pub open spec fn to_filter(o: OpeningView) -> (OpeningView, OpenActionView) {
    let f = OpeningView { phase: OpenPhase::Filter, ..o };
    match filter_next(control_of(o), false) {
        (_, FilterActionView::Write { setup, timeout }) => (
            f,
            OpenActionView::Write { setup, data: Seq::empty(), timeout },
        ),
        (ControlState::Rndis(control), FilterActionView::Exchange { exchange, first }) => (
            OpeningView { control, ..f },
            OpenActionView::Exchange { exchange, first },
        ),
        _ => to_stream(o),
    }
}

/// Reading the MAC address string.
pub open spec fn to_mac(o: OpeningView) -> (OpeningView, OpenActionView) {
    if o.plan.functional.mac_string == 0 {
        open_failed(o, message(ErrorKind::Io, "network function declares no MAC address"@))
    } else {
        (
            OpeningView { phase: OpenPhase::Mac, ..o },
            OpenActionView::ReadString { index: o.plan.functional.mac_string },
        )
    }
}

/// A class request of the control interface.
pub open spec fn class_setup(direction: Direction, request: u8, interface: u8, length: u16) -> ControlSetup {
    setup_packet(direction, ControlType::Class, Recipient::Interface, request, 0, interface as u16, length)
}

/// After the function was reset.
pub open spec fn after_reset(o: OpeningView, r: std::result::Result<(), ErrorView>) -> (OpeningView, OpenActionView) {
    match r {
        Err(e) => open_failed(o, e),
        Ok(_) => if o.plan.kind == NetKind::Ncm {
            (
                OpeningView { phase: OpenPhase::Parameters, ..o },
                OpenActionView::Read {
                    setup: class_setup(Direction::In, cdc::req::GET_NTB_PARAMETERS, o.plan.interface, 28),
                    timeout: CONTROL_TIMEOUT,
                },
            )
        } else {
            to_mac(o)
        },
    }
}

/// The value of SET_NTB_INPUT_SIZE: devices with capability bit 5 take the
/// 8-byte form, which adds a datagram limit (0: none) and padding.
pub open spec fn input_size(f: Functional) -> Seq<u8> {
    if capability(f, 32) {
        u32_bytes(RX_BLOCK) + zeros(4)
    } else {
        u32_bytes(RX_BLOCK)
    }
}

/// After the transfer block parameters were read.
pub open spec fn after_parameters(
    o: OpeningView,
    r: std::result::Result<Seq<u8>, ErrorView>,
) -> (OpeningView, OpenActionView) {
    match r {
        Err(e) => open_failed(o, e),
        Ok(b) => match cdc::ntb_parameters_of(b) {
            None => open_failed(o, message(ErrorKind::NotSupported, "NCM device without 16-bit transfer blocks"@)),
            Some(params) => {
                let p = OpeningView { params: Some(params), ..o };
                if params.in_max_size > RX_BLOCK {
                    (
                        OpeningView { phase: OpenPhase::InputSize, rx_size: RX_BLOCK as usize, ..p },
                        OpenActionView::Write {
                            setup: class_setup(
                                Direction::Out,
                                cdc::req::SET_NTB_INPUT_SIZE,
                                o.plan.interface,
                                input_size(o.plan.functional).len() as u16,
                            ),
                            data: input_size(o.plan.functional),
                            timeout: CONTROL_TIMEOUT,
                        },
                    )
                } else {
                    to_mac(OpeningView { rx_size: params.in_max_size as usize, ..p })
                }
            },
        },
    }
}

/// After the MAC address string was read.
pub open spec fn after_mac(o: OpeningView, r: std::result::Result<Seq<char>, ErrorView>) -> (OpeningView, OpenActionView) {
    match r {
        Err(e) => open_failed(o, e),
        Ok(s) => match cdc::mac_of(s) {
            None => open_failed(o, message(ErrorKind::Io, "malformed MAC address string "@ + debug_text(s))),
            Some(mac) => to_filter(
                OpeningView {
                    mac,
                    max_frame: if o.plan.functional.max_segment_size >= 60 {
                        o.plan.functional.max_segment_size as usize
                    } else {
                        DEFAULT_MAX_FRAME
                    },
                    ..o
                },
            ),
        },
    }
}

/// Asking an RNDIS device for a value.
pub open spec fn to_query(o: OpeningView, phase: OpenPhase, oid: u32, expect: int) -> (OpeningView, OpenActionView) {
    (
        OpeningView { phase, control: rndis::after_request(o.control), ..o },
        OpenActionView::Exchange {
            exchange: rndis::exchange_of(o.control, rndis::MSG_QUERY),
            first: rndis::request_action(
                o.control,
                rndis::MSG_QUERY,
                rndis::oid_body(oid, expect, zeros(expect)),
            ),
        },
    )
}

/// After the reply to INITIALIZE.
pub open spec fn after_initialize(
    o: OpeningView,
    r: std::result::Result<Seq<u8>, ErrorView>,
) -> (OpeningView, OpenActionView) {
    match r {
        Err(e) => open_failed(o, e),
        Ok(b) => if b.len() < 40 {
            open_failed(o, message(ErrorKind::Io, "short RNDIS INITIALIZE reply"@))
        } else {
            to_query(
                OpeningView { max_transfer: bytes::le32_at(b, 36), ..o },
                OpenPhase::Address,
                rndis::oid::PERMANENT_ADDRESS,
                6,
            )
        },
    }
}

/// After the reply to the question for the MAC address.
pub open spec fn after_address(
    o: OpeningView,
    r: std::result::Result<Seq<u8>, ErrorView>,
) -> (OpeningView, OpenActionView) {
    match r {
        Err(e) => open_failed(o, e),
        Ok(b) => match rndis::queried_value(b) {
            None => open_failed(o, message(ErrorKind::Io, "malformed RNDIS QUERY reply"@)),
            Some(v) => if v.len() < 6 {
                open_failed(o, message(ErrorKind::Io, "RNDIS device returned no MAC address"@))
            } else {
                to_query(
                    OpeningView { mac: v.take(6), ..o },
                    OpenPhase::FrameSize,
                    rndis::oid::GEN_MAXIMUM_FRAME_SIZE,
                    4,
                )
            },
        },
    }
}

/// The largest frame of an RNDIS device: what it says if that is sensible,
/// and no more than its transfers can carry.
pub open spec fn rndis_max_frame(r: std::result::Result<u32, ErrorView>, max_transfer: u32) -> int {
    let said = if r is Ok && 46 <= r->Ok_0 <= 9000 {
        r->Ok_0 + 14
    } else {
        DEFAULT_MAX_FRAME as int
    };
    let room = if max_transfer < 104 {
        60int
    } else {
        max_transfer - 44
    };
    if said < room {
        said
    } else {
        room
    }
}

/// After the reply to the question for the media status. An indication seen
/// while waiting for replies is newer.
pub open spec fn link_after_media(
    o: OpeningView,
    r: std::result::Result<u32, ErrorView>,
) -> LinkState {
    let asked = match r {
        Ok(status) => Some(status == 0),
        Err(_) => o.link.connected,
    };
    LinkState {
        connected: if o.control.link is Some {
            o.control.link
        } else {
            asked
        },
        ..o.link
    }
}

/// After the reply to the question for the link speed, which is in units of
/// 100 bit/s.
pub open spec fn link_after_speed(link: LinkState, r: std::result::Result<u32, ErrorView>) -> LinkState {
    match r {
        Ok(speed) => LinkState { down_bps: Some((speed * 100) as u64), up_bps: Some((speed * 100) as u64), ..link },
        Err(_) => link,
    }
}

/// The opening after the reply of an exchange.
pub open spec fn after_reply(
    o: OpeningView,
    reply: std::result::Result<Seq<u8>, ErrorView>,
) -> (OpeningView, OpenActionView) {
    let value = rndis::queried_u32(reply);
    match o.phase {
        OpenPhase::Initialize => after_initialize(o, reply),
        OpenPhase::Address => after_address(o, reply),
        OpenPhase::FrameSize => to_query(
            OpeningView { max_frame: rndis_max_frame(value, o.max_transfer) as usize, ..o },
            OpenPhase::Media,
            rndis::oid::GEN_MEDIA_CONNECT_STATUS,
            4,
        ),
        OpenPhase::Media => to_query(
            OpeningView { link: link_after_media(o, value), ..o },
            OpenPhase::LinkSpeed,
            rndis::oid::GEN_LINK_SPEED,
            4,
        ),
        OpenPhase::LinkSpeed => to_filter(OpeningView { link: link_after_speed(o.link, value), ..o }),
        _ => match reply {
            Err(e) => open_failed(o, e),
            Ok(_) => open_done(o),
        },
    }
}

/// The opening after the outcome of its last action.
pub open spec fn open_next(o: OpeningView, e: OpenEventView) -> (OpeningView, OpenActionView) {
    match e {
        OpenEventView::Done(r) => match o.phase {
            OpenPhase::Reset => after_reset(o, r),
            OpenPhase::Filter => match filter_result(false, r) {
                Err(e) => open_failed(o, e),
                Ok(_) => to_stream(o),
            },
            OpenPhase::InputSize => match r {
                Err(e) => open_failed(o, e),
                Ok(_) => to_mac(o),
            },
            _ => match r {
                Err(e) => open_failed(o, e),
                Ok(_) => open_done(o),
            },
        },
        OpenEventView::Data(r) => after_parameters(o, r),
        OpenEventView::Text(r) => after_mac(o, r),
        OpenEventView::Reply { reply, link } => after_reply(
            OpeningView { control: Control { link, ..o.control }, ..o },
            reply,
        ),
    }
}

/// An opening at its start.
pub open spec fn opening_start(plan: OpenPlan) -> OpeningView {
    let control = Control {
        interface: plan.interface,
        notify_ep: match plan.notify {
            Some((ep, _)) => Some(ep),
            None => None,
        },
        next_id: 1,
        link: None,
    };
    OpeningView {
        plan,
        phase: if plan.kind == NetKind::Rndis {
            OpenPhase::Initialize
        } else {
            OpenPhase::Reset
        },
        params: None,
        rx_size: if plan.kind == NetKind::Rndis {
            RX_BLOCK as usize
        } else {
            ecm_rx_size(plan.functional.max_segment_size, plan.in_packet) as usize
        },
        mac: zeros(6),
        max_frame: DEFAULT_MAX_FRAME,
        link: LinkState { connected: None, down_bps: None, up_bps: None },
        control: if plan.kind == NetKind::Rndis {
            rndis::after_request(control)
        } else {
            control
        },
        max_transfer: 0,
    }
}

/// What an opening asks for first.
pub open spec fn opening_first(plan: OpenPlan) -> OpenActionView {
    if plan.kind == NetKind::Rndis {
        let control = Control { next_id: 1, ..opening_start(plan).control };
        OpenActionView::Exchange {
            exchange: rndis::exchange_of(control, rndis::MSG_INIT),
            first: rndis::request_action(
                control,
                rndis::MSG_INIT,
                u32_bytes(1) + u32_bytes(0) + u32_bytes(RX_BLOCK),
            ),
        }
    } else {
        OpenActionView::SetAlternate { interface: plan.data_interface, alternate: 0 }
    }
}

/// The device that an opening leads to.
pub open spec fn opened(o: OpeningView) -> NetDeviceView {
    NetDeviceView {
        kind: o.plan.kind,
        mac: o.mac,
        max_frame: o.max_frame,
        ep_out: o.plan.ep_out,
        out_packet: o.plan.out_packet as usize,
        framing: match (o.plan.kind, o.params) {
            (NetKind::Ncm, Some(params)) => Framing::Ncm { params, sequence: 0 },
            (NetKind::Rndis, _) => Framing::Rndis,
            _ => Framing::Ecm,
        },
        shared: fresh_shared(o.link),
        control: control_of(o),
    }
}

/// What holds while a function is being opened.
pub open spec fn opening_ok(o: OpeningView) -> bool {
    o.plan.out_packet > 0 && o.max_frame <= 0xffff
}

fn ecm_size(max_segment: u16, packet: u16) -> (r: usize)
    requires
        packet > 0,
    ensures
        r == ecm_rx_size(max_segment, packet),
{
    let m: u32 = if max_segment < 1514 {
        1514
    } else {
        max_segment as u32
    };
    let p: u32 = packet as u32;
    let n: u32 = (m + p - 1) / p;
    assert(n * p <= m + p - 1) by (nonlinear_arith)
        requires
            p > 0,
            n == (m + p - 1) / (p as int),
    ;
    (n * p + p) as usize
}

impl Opening {
    fn fail(self, e: Error) -> (r: (Opening, OpenAction))
        ensures
            (r.0@, r.1@) == open_failed(self@, e@),
    {
        let mut o = self;
        o.phase = OpenPhase::Over;
        (o, OpenAction::Finish(Err(e)))
    }

    fn done(self) -> (r: (Opening, OpenAction))
        ensures
            (r.0@, r.1@) == open_done(self@),
    {
        let mut o = self;
        o.phase = OpenPhase::Over;
        (o, OpenAction::Finish(Ok(())))
    }

    fn stream(self) -> (r: (Opening, OpenAction))
        ensures
            (r.0@, r.1@) == to_stream(self@),
    {
        let mut o = self;
        o.phase = OpenPhase::Stream;
        let action = OpenAction::SetAlternate { interface: o.plan.data_interface, alternate: o.plan.data_alternate };
        (o, action)
    }

    fn control_state(&self) -> (r: ControlState)
        ensures
            r == control_of(self@),
    {
        match self.plan.kind {
            NetKind::Rndis => ControlState::Rndis(self.control),
            NetKind::Ecm => ControlState::Cdc { interface: self.plan.interface, filter_supported: true },
            NetKind::Ncm => {
                let filter_supported = match self.plan.functional.ncm_capabilities {
                    Some(c) => (c / 1) % 2 == 1,
                    None => false,
                };
                ControlState::Cdc { interface: self.plan.interface, filter_supported }
            },
        }
    }

    fn filter(self) -> (r: (Opening, OpenAction))
        ensures
            (r.0@, r.1@) == to_filter(self@),
    {
        let mut state = self.control_state();
        let action = state.set_filter(false);
        let mut o = self;
        match action {
            FilterAction::Write { setup, timeout } => {
                o.phase = OpenPhase::Filter;
                let data: Vec<u8> = Vec::new();
                assert(data@ =~= Seq::<u8>::empty());
                (o, OpenAction::Write { setup, data, timeout })
            },
            FilterAction::Exchange { exchange, first } => {
                o.phase = OpenPhase::Filter;
                match state {
                    ControlState::Rndis(control) => {
                        o.control = control;
                    },
                    _ => {},
                }
                (o, OpenAction::Exchange { exchange, first })
            },
            FilterAction::Done(_) => o.stream(),
        }
    }

    fn read_mac(self) -> (r: (Opening, OpenAction))
        ensures
            (r.0@, r.1@) == to_mac(self@),
    {
        if self.plan.functional.mac_string == 0 {
            return self.fail(Error::with_message(ErrorKind::Io, "network function declares no MAC address"));
        }
        let mut o = self;
        o.phase = OpenPhase::Mac;
        let index: u8 = o.plan.functional.mac_string;
        (o, OpenAction::ReadString { index })
    }

    fn take_reset(self, r: Result<()>) -> (x: (Opening, OpenAction))
        ensures
            (x.0@, x.1@) == after_reset(self@, outcome(r)),
    {
        match r {
            Err(e) => self.fail(e),
            Ok(()) => match self.plan.kind {
                NetKind::Ncm => {
                    let mut o = self;
                    o.phase = OpenPhase::Parameters;
                    let setup = ControlSetup::new(
                        Direction::In,
                        ControlType::Class,
                        Recipient::Interface,
                        cdc::req::GET_NTB_PARAMETERS,
                        0,
                        o.plan.interface as u16,
                        28,
                    );
                    (o, OpenAction::Read { setup, timeout: CONTROL_TIMEOUT })
                },
                _ => self.read_mac(),
            },
        }
    }

    fn take_parameters(self, r: Result<Vec<u8>>) -> (x: (Opening, OpenAction))
        ensures
            (x.0@, x.1@) == after_parameters(self@, bytes_outcome(r)),
    {
        let b = match r {
            Err(e) => {
                return self.fail(e);
            },
            Ok(b) => b,
        };
        let params = match NtbParameters::parse(b.as_slice()) {
            None => {
                return self.fail(
                    Error::with_message(ErrorKind::NotSupported, "NCM device without 16-bit transfer blocks"),
                );
            },
            Some(p) => p,
        };
        let mut o = self;
        o.params = Some(params);
        if params.in_max_size > RX_BLOCK {
            let mut size: Vec<u8> = Vec::new();
            put32(&mut size, RX_BLOCK);
            assert(size@ =~= u32_bytes(RX_BLOCK));
            let long = match o.plan.functional.ncm_capabilities {
                Some(c) => (c / 32) % 2 == 1,
                None => false,
            };
            if long {
                bytes::pad_to(&mut size, 8);
                assert(size@ =~= u32_bytes(RX_BLOCK) + zeros(4));
            }
            let setup = ControlSetup::new(
                Direction::Out,
                ControlType::Class,
                Recipient::Interface,
                cdc::req::SET_NTB_INPUT_SIZE,
                0,
                o.plan.interface as u16,
                size.len() as u16,
            );
            o.phase = OpenPhase::InputSize;
            o.rx_size = RX_BLOCK as usize;
            return (o, OpenAction::Write { setup, data: size, timeout: CONTROL_TIMEOUT });
        }
        o.rx_size = params.in_max_size as usize;
        o.read_mac()
    }

    fn take_mac(self, r: Result<String>) -> (x: (Opening, OpenAction))
        ensures
            (x.0@, x.1@) == after_mac(self@, text_outcome(r)),
    {
        let s = match r {
            Err(e) => {
                return self.fail(e);
            },
            Ok(s) => s,
        };
        match cdc::parse_mac(s.as_str()) {
            None => {
                let mut text = String::from_str("malformed MAC address string ");
                text.append(debug_string(s.as_str()).as_str());
                self.fail(Error::with_message(ErrorKind::Io, text.as_str()))
            },
            Some(mac) => {
                let mut o = self;
                o.mac = mac;
                o.max_frame = if o.plan.functional.max_segment_size >= 60 {
                    o.plan.functional.max_segment_size as usize
                } else {
                    DEFAULT_MAX_FRAME
                };
                o.filter()
            },
        }
    }

    fn query(self, phase: OpenPhase, oid: u32, expect: u16) -> (r: (Opening, OpenAction))
        requires
            expect <= 6,
        ensures
            (r.0@, r.1@) == to_query(self@, phase, oid, expect as int),
    {
        let mut o = self;
        let body = rndis::query_body(oid, expect);
        let mut control = o.control;
        let (exchange, first) = control.exchange(rndis::MSG_QUERY, body.as_slice());
        o.control = control;
        o.phase = phase;
        (o, OpenAction::Exchange { exchange, first })
    }

    fn take_initialize(self, r: Result<Vec<u8>>) -> (x: (Opening, OpenAction))
        ensures
            (x.0@, x.1@) == after_initialize(self@, bytes_outcome(r)),
    {
        let b = match r {
            Err(e) => {
                return self.fail(e);
            },
            Ok(b) => b,
        };
        match rndis::initialize_reply(b.as_slice()) {
            Err(e) => self.fail(e),
            Ok(info) => {
                let mut o = self;
                o.max_transfer = info.max_transfer_size;
                o.query(OpenPhase::Address, rndis::oid::PERMANENT_ADDRESS, 6)
            },
        }
    }

    fn take_address(self, r: Result<Vec<u8>>) -> (x: (Opening, OpenAction))
        ensures
            (x.0@, x.1@) == after_address(self@, bytes_outcome(r)),
    {
        let b = match r {
            Err(e) => {
                return self.fail(e);
            },
            Ok(b) => b,
        };
        match rndis::query_reply(b.as_slice()) {
            Err(e) => self.fail(e),
            Ok(v) => {
                if v.len() < 6 {
                    return self.fail(Error::with_message(ErrorKind::Io, "RNDIS device returned no MAC address"));
                }
                let mut o = self;
                o.mac = [v[0], v[1], v[2], v[3], v[4], v[5]];
                assert(o.mac@ =~= v@.take(6));
                o.query(OpenPhase::FrameSize, rndis::oid::GEN_MAXIMUM_FRAME_SIZE, 4)
            },
        }
    }

    fn take_reply(self, reply: Result<Vec<u8>>) -> (x: (Opening, OpenAction))
        requires
            event_fits(self@, OpenEventView::Reply { reply: bytes_outcome(reply), link: None }),
        ensures
            (x.0@, x.1@) == after_reply(self@, bytes_outcome(reply)),
    {
        let mut o = self;
        match o.phase {
            OpenPhase::Initialize => o.take_initialize(reply),
            OpenPhase::Address => o.take_address(reply),
            OpenPhase::FrameSize => {
                let said: usize = match rndis::query_u32(reply) {
                    Ok(payload) => if 46 <= payload && payload <= 9000 {
                        payload as usize + 14
                    } else {
                        DEFAULT_MAX_FRAME
                    },
                    Err(_) => DEFAULT_MAX_FRAME,
                };
                let room: usize = if o.max_transfer < 104 {
                    60
                } else {
                    (o.max_transfer - 44) as usize
                };
                o.max_frame = if said < room {
                    said
                } else {
                    room
                };
                o.query(OpenPhase::Media, rndis::oid::GEN_MEDIA_CONNECT_STATUS, 4)
            },
            OpenPhase::Media => {
                match rndis::query_u32(reply) {
                    Ok(status) => {
                        o.link.connected = Some(status == 0);
                    },
                    Err(_) => {},
                }
                if o.control.link.is_some() {
                    o.link.connected = o.control.link;
                }
                o.query(OpenPhase::LinkSpeed, rndis::oid::GEN_LINK_SPEED, 4)
            },
            OpenPhase::LinkSpeed => {
                match rndis::query_u32(reply) {
                    Ok(speed) => {
                        let rate: u64 = speed as u64 * 100;
                        o.link.down_bps = Some(rate);
                        o.link.up_bps = Some(rate);
                    },
                    Err(_) => {},
                }
                o.filter()
            },
            _ => match reply {
                Err(e) => o.fail(e),
                Ok(_) => o.done(),
            },
        }
    }

    /// Starts opening a function.
    pub fn new(plan: OpenPlan) -> (r: (Opening, OpenAction))
        requires
            plan.in_packet > 0,
            plan.out_packet > 0,
        ensures
            r.0@ == opening_start(plan),
            r.1@ == opening_first(plan),
            opening_ok(r.0@),
    {
        let notify_ep: Option<u8> = match plan.notify {
            Some((ep, _)) => Some(ep),
            None => None,
        };
        let mut control = Control::new(plan.interface, notify_ep);
        let mac: [u8; 6] = [0, 0, 0, 0, 0, 0];
        assert(mac@ =~= zeros(6));
        let mut o = Opening {
            plan,
            phase: OpenPhase::Reset,
            params: None,
            rx_size: RX_BLOCK as usize,
            mac,
            max_frame: DEFAULT_MAX_FRAME,
            link: LinkState::default(),
            control,
            max_transfer: 0,
        };
        match plan.kind {
            NetKind::Rndis => {
                let body = rndis::initialize_body(RX_BLOCK);
                let (exchange, first) = control.exchange(rndis::MSG_INIT, body.as_slice());
                o.control = control;
                o.phase = OpenPhase::Initialize;
                (o, OpenAction::Exchange { exchange, first })
            },
            _ => {
                o.rx_size = ecm_size(plan.functional.max_segment_size, plan.in_packet);
                (o, OpenAction::SetAlternate { interface: plan.data_interface, alternate: 0 })
            },
        }
    }

    /// Takes the outcome of the last action and says what to do next.
    pub fn step(self, event: OpenEvent) -> (x: (Opening, OpenAction))
        requires
            event_fits(self@, event@),
        ensures
            (x.0@, x.1@) == open_next(self@, event@),
    {
        match event {
            OpenEvent::Done(r) => match self.phase {
                OpenPhase::Reset => self.take_reset(r),
                OpenPhase::Filter => match filter_outcome(false, r) {
                    Err(e) => self.fail(e),
                    Ok(()) => self.stream(),
                },
                OpenPhase::InputSize => match r {
                    Err(e) => self.fail(e),
                    Ok(()) => self.read_mac(),
                },
                _ => match r {
                    Err(e) => self.fail(e),
                    Ok(()) => self.done(),
                },
            },
            OpenEvent::Data(r) => self.take_parameters(r),
            OpenEvent::Text(r) => self.take_mac(r),
            OpenEvent::Reply { reply, link } => {
                let mut o = self;
                o.control.link = link;
                o.take_reply(reply)
            },
        }
    }

    /// The device, once opening it succeeded.
    pub fn device(self) -> (r: NetDevice)
        requires
            opening_ok(self@),
        ensures
            r@ == opened(self@),
            device_ok(r@),
    {
        let control = self.control_state();
        let framing = match self.plan.kind {
            NetKind::Ncm => match self.params {
                Some(params) => Framing::Ncm { params, sequence: 0 },
                None => Framing::Ecm,
            },
            NetKind::Rndis => Framing::Rndis,
            NetKind::Ecm => Framing::Ecm,
        };
        NetDevice {
            kind: self.plan.kind,
            mac: self.mac,
            max_frame: self.max_frame,
            ep_out: self.plan.ep_out,
            out_packet: self.plan.out_packet as usize,
            framing,
            shared: Shared::new(self.link),
            control,
        }
    }

    /// The endpoint to listen on for notifications and the size of the
    /// transfer to do so, for an ECM or NCM function that has one.
    pub fn notifications(&self) -> (r: Option<(u8, u32)>)
        ensures
            r == notification_source(self@.plan),
    {
        match self.plan.kind {
            NetKind::Rndis => None,
            _ => match self.plan.notify {
                Some((ep, size)) => if size < 16 {
                    Some((ep, 16))
                } else {
                    Some((ep, size))
                },
                None => None,
            },
        }
    }
}

/// How many actions opening a function can still take.
pub open spec fn open_rank(p: OpenPhase) -> int {
    match p {
        OpenPhase::Initialize => 10,
        OpenPhase::Address => 9,
        OpenPhase::FrameSize => 8,
        OpenPhase::Media => 7,
        OpenPhase::LinkSpeed => 6,
        OpenPhase::Reset => 6,
        OpenPhase::Parameters => 5,
        OpenPhase::InputSize => 4,
        OpenPhase::Mac => 3,
        OpenPhase::Filter => 2,
        OpenPhase::Stream => 1,
        OpenPhase::Over => 0,
    }
}

/// Opening a function ends, whatever the device answers, and keeps what a
/// device needs.
pub proof fn lemma_opening_ends(o: OpeningView, e: OpenEventView)
    requires
        opening_ok(o),
        event_fits(o, e),
    ensures
        0 <= open_rank(open_next(o, e).0.phase) < open_rank(o.phase),
        open_next(o, e).1 is Finish <==> open_next(o, e).0.phase == OpenPhase::Over,
        opening_ok(open_next(o, e).0),
        open_next(o, e).0.plan == o.plan,
{
}

/// An ECM receive transfer has room for the largest frame and a short packet
/// after it, and is a whole number of packets.
pub proof fn lemma_ecm_transfer_has_room(max_segment: u16, packet: u16)
    requires
        packet > 0,
    ensures
        ecm_rx_size(max_segment, packet) >= max_segment + packet,
        ecm_rx_size(max_segment, packet) >= DEFAULT_MAX_FRAME + packet,
        ecm_rx_size(max_segment, packet) % (packet as int) == 0,
{
    let m = if max_segment < 1514 {
        1514int
    } else {
        max_segment as int
    };
    let p = packet as int;
    let n = (m + p - 1) / p;
    assert(n * p >= m) by (nonlinear_arith)
        requires
            p > 0,
            n == (m + p - 1) / p,
    ;
    assert(n * p + p == (n + 1) * p) by (nonlinear_arith);
    vstd::arithmetic::div_mod::lemma_mod_multiples_basic(n + 1, p);
}

/// Streaming starts last: only after the packet filter was dealt with is the
/// setting with endpoints selected, and an ECM or NCM function is open only
/// once that was done.
pub proof fn lemma_streaming_comes_last(o: OpeningView, e: OpenEventView)
    requires
        event_fits(o, e),
        o.plan.kind != NetKind::Rndis,
        open_next(o, e).1 == OpenActionView::Finish(Ok::<(), ErrorView>(())),
        o.phase != OpenPhase::Initialize,
        o.phase != OpenPhase::Address,
        o.phase != OpenPhase::FrameSize,
        o.phase != OpenPhase::Media,
        o.phase != OpenPhase::LinkSpeed,
    ensures
        o.phase == OpenPhase::Stream,
{
}

/// The packet filter of an ECM or NCM function: the request is 0x43 to the
/// control interface, and its value lets frames for this adapter (4),
/// broadcasts (8) and multicasts (2) through in either mode, every other frame
/// (1) exactly in promiscuous mode, and nothing else.
pub proof fn lemma_filter_request(interface: u8, promiscuous: bool)
    ensures
        ({
            let (c, a) = filter_next(ControlState::Cdc { interface, filter_supported: true }, promiscuous);
            let s = a->Write_setup;
            &&& c == (ControlState::Cdc { interface, filter_supported: true })
            &&& a is Write
            &&& a->Write_timeout == 5_000_000_000
            &&& s.request_type == 0x21
            &&& s.request == 0x43
            &&& s.index == interface
            &&& s.length == 0
            &&& s.value / 4 % 2 == 1
            &&& s.value / 8 % 2 == 1
            &&& s.value / 2 % 2 == 1
            &&& s.value % 2 == 1 <==> promiscuous
            &&& s.value < 16
        }),
        ({
            let (c, a) = filter_next(ControlState::Cdc { interface, filter_supported: false }, promiscuous);
            &&& c == (ControlState::Cdc { interface, filter_supported: false })
            &&& a is Done
            &&& a->Done_0 is Ok <==> !promiscuous
            &&& promiscuous ==> a->Done_0->Err_0.kind == ErrorKind::NotSupported
        }),
{
}

/// The packet filter of an RNDIS function is set by a control message: the
/// bits for frames for this adapter (1), broadcasts (8) and multicasts (4) in
/// either mode, that for every other frame (0x20) exactly in promiscuous mode.
pub proof fn lemma_rndis_filter_request(ctl: Control, promiscuous: bool)
    ensures
        ({
            let (c, a) = filter_next(ControlState::Rndis(ctl), promiscuous);
            let m = a->first->Send_message;
            let s = a->first->Send_setup;
            let bits = bytes::le32_at(m, 28);
            &&& c is Rndis
            &&& a is Exchange
            &&& a->first is Send
            &&& s.request_type == 0x21
            &&& s.request == 0
            &&& s.index == ctl.interface
            &&& s.length == 32
            &&& m.len() == 32
            &&& bytes::le32_at(m, 0) == 5
            &&& bytes::le32_at(m, 4) == 32
            &&& bytes::le32_at(m, 8) == ctl.next_id
            &&& bytes::le32_at(m, 12) == 0x0001_010e
            &&& bytes::le32_at(m, 16) == 4
            &&& bytes::le32_at(m, 20) == 20
            &&& bits % 2 == 1
            &&& bits / 4 % 2 == 1
            &&& bits / 8 % 2 == 1
            &&& bits / 32 % 2 == 1 <==> promiscuous
            &&& bits == 0x0d || bits == 0x2d
        }),
{
    rndis::lemma_set_message(ctl, 0x0001_010e, rndis_filter(promiscuous));
}

/// What kind of network function an interface is, by its class codes.
pub proof fn lemma_network_kinds(class: u8, sub_class: u8, protocol: u8)
    ensures
        kind_for(class, sub_class, protocol) == Some(NetKind::Ecm) <==> class == 2 && sub_class == 6,
        kind_for(class, sub_class, protocol) == Some(NetKind::Ncm) <==> class == 2 && sub_class == 0x0d,
        kind_for(class, sub_class, protocol) == Some(NetKind::Rndis) <==> {
            ||| class == 0xe0 && sub_class == 1 && protocol == 3
            ||| class == 0xef && sub_class == 4 && protocol == 1
            ||| class == 2 && sub_class == 2 && protocol == 0xff
        },
{
}

/// The network functions of a configuration are those of its interfaces, in
/// order, each under its number.
pub proof fn lemma_network_functions(v: Seq<Interface>, i: Interface)
    ensures
        net_functions(Seq::empty()).len() == 0,
        ({
            let a = main_alt(i);
            match kind_for(a.class, a.sub_class, a.protocol) {
                Some(kind) => net_functions(v.push(i)) == net_functions(v).push(NetInterface { interface: a.number, kind }),
                None => net_functions(v.push(i)) == net_functions(v),
            }
        }),
{
    assert(v.push(i).drop_last() =~= v);
}

/// A notification changes what it speaks of and nothing else.
pub proof fn lemma_link_follows_notifications(link: LinkState, up: bool, down_rate: u32, up_rate: u32)
    ensures
        ({
            let a = link_after(link, Some(Notification::Connection(up)));
            &&& a.connected == Some(up)
            &&& (a.down_bps, a.up_bps) == (link.down_bps, link.up_bps)
        }),
        ({
            let a = link_after(link, Some(Notification::Speed { down: down_rate, up: up_rate }));
            &&& a.connected == link.connected
            &&& a.down_bps == Some(down_rate as u64)
            &&& a.up_bps == Some(up_rate as u64)
        }),
        link_after(link, None) == link,
{
}

/// Each counter counts its own event, once, and no other; the bytes of a
/// frame are added to those of its direction.
pub proof fn lemma_counters(s: NetStats, n: usize)
    requires
        s.rx_frames < u64::MAX,
        s.tx_frames < u64::MAX,
        s.rx_dropped < u64::MAX,
        s.tx_dropped < u64::MAX,
        s.errors < u64::MAX,
        s.rx_bytes + n <= u64::MAX,
        s.tx_bytes + n <= u64::MAX,
    ensures
        ({
            let t = count_rx(s, n);
            &&& t.rx_frames == s.rx_frames + 1
            &&& t.rx_bytes == s.rx_bytes + n
            &&& t == (NetStats { rx_frames: t.rx_frames, rx_bytes: t.rx_bytes, ..s })
        }),
        ({
            let t = count_tx(s, n);
            &&& t.tx_frames == s.tx_frames + 1
            &&& t.tx_bytes == s.tx_bytes + n
            &&& t == (NetStats { tx_frames: t.tx_frames, tx_bytes: t.tx_bytes, ..s })
        }),
        ({
            let t = count_rx_drop(s);
            t.rx_dropped == s.rx_dropped + 1 && t == (NetStats { rx_dropped: t.rx_dropped, ..s })
        }),
        ({
            let t = count_tx_drop(s);
            t.tx_dropped == s.tx_dropped + 1 && t == (NetStats { tx_dropped: t.tx_dropped, ..s })
        }),
        ({
            let t = count_error(s);
            t.errors == s.errors + 1 && t == (NetStats { errors: t.errors, ..s })
        }),
{
}

/// A received frame goes to the handler if there is one, otherwise behind the
/// 256 frames at most that wait; one that finds no room is dropped, and one
/// shorter than an Ethernet header is an error.
pub proof fn lemma_deliveries(s: SharedView, frame: Seq<u8>)
    ensures
        frame.len() < 14 ==> delivered(s, frame).queue == s.queue && delivered(s, frame).stats.errors
            == s.stats.errors.wrapping_add(1),
        frame.len() >= 14 && s.handled ==> delivery(s, frame) == Delivery::Handler && delivered(s, frame).queue == s.queue,
        frame.len() >= 14 && !s.handled && s.queue.len() < 256 ==> delivery(s, frame) == Delivery::Queued && delivered(
            s,
            frame,
        ).queue == s.queue.push(frame),
        frame.len() >= 14 && !s.handled && s.queue.len() >= 256 ==> delivery(s, frame) == Delivery::Dropped && delivered(
            s,
            frame,
        ).queue == s.queue && delivered(s, frame).stats.rx_dropped == s.stats.rx_dropped.wrapping_add(1),
        frame.len() >= 14 ==> delivered(s, frame).stats.rx_bytes == s.stats.rx_bytes.wrapping_add(
            frame.len() as usize as u64,
        ),
{
}

/// Receiving goes on after a failure until 64 came in a row; then it ends with
/// an error. It ends quietly when it is cancelled, and when the device is gone.
pub proof fn lemma_receive_failures(s: SharedView, failures: u32, status: TransferStatus)
    requires
        failures < u32::MAX,
        s.ended is None,
    ensures
        completion(failures, TransferStatus::Completed) == Completion::Deliver,
        completion(failures, TransferStatus::Cancelled) == Completion::Stop,
        completion(failures, TransferStatus::NoDevice) == Completion::Stop,
        completed(s, failures, TransferStatus::NoDevice).ended == Some(ErrorKind::NoDevice),
        completed(s, failures, TransferStatus::Cancelled) == s,
        ({
            let fails = status == TransferStatus::TimedOut || status == TransferStatus::Stall || status
                == TransferStatus::Overflow || status == TransferStatus::Error;
            &&& fails && failures + 1 < 64 ==> completion(failures, status) == Completion::Again((failures + 1) as u32)
                && completed(s, failures, status).ended is None
            &&& fails && failures + 1 >= 64 ==> completion(failures, status) == Completion::Stop && completed(
                s,
                failures,
                status,
            ).ended == Some(ErrorKind::Io)
            &&& fails ==> completed(s, failures, status).stats.errors == s.stats.errors.wrapping_add(1)
        }),
{
}

/// The oldest frame is taken first. An empty queue ends in the error that
/// stopped the device, in a timeout once the time is up, or in a wait.
pub proof fn lemma_receiving(s: SharedView, left: Option<u64>)
    ensures
        ({
            let (t, r) = recv_next(s, left);
            &&& s.queue.len() > 0 ==> t.queue == s.queue.drop_first() && r == RecvView::Done(
                Ok::<Seq<u8>, ErrorView>(s.queue[0]),
            )
            &&& s.queue.len() == 0 ==> t == s
            &&& s.queue.len() == 0 && s.ended is Some ==> r is Done && r->Done_0 is Err && r->Done_0->Err_0.kind
                == s.ended->0
            &&& s.queue.len() == 0 && s.ended is None && left == Some(0u64) ==> r is Done && r->Done_0 is Err
                && r->Done_0->Err_0.kind == ErrorKind::Timeout
            &&& s.queue.len() == 0 && s.ended is None && left != Some(0u64) ==> r == RecvView::Wait(left)
        }),
{
}

/// Once a device has stopped, the first reason stays.
pub proof fn lemma_first_reason_stays(s: SharedView, a: ErrorKind, b: ErrorKind)
    ensures
        s.ended is None ==> ended(s, a).ended == Some(a),
        ended(ended(s, a), b) == ended(s, a),
        ended(s, a).queue == s.queue,
{
}

/// An ECM frame goes out as it is, with one zero behind it where it would
/// otherwise end on a packet boundary.
pub proof fn lemma_ecm_wire(packet: int, frame: Seq<u8>)
    requires
        packet > 1,
    ensures
        ({
            let w = wire_bytes(Framing::Ecm, packet, frame)->Ok_0;
            &&& wire_bytes(Framing::Ecm, packet, frame) is Ok
            &&& w.len() as int % packet != 0
            &&& frame.is_prefix_of(w)
            &&& frame.len() as int % packet != 0 ==> w == frame
            &&& frame.len() as int % packet == 0 ==> w == frame.push(0)
        }),
{
    if frame.len() as int % packet == 0 {
        let n = frame.len() as int;
        assert((n + 1) % packet == 1) by (nonlinear_arith)
            requires
                n % packet == 0,
                packet > 1,
                n >= 0,
        ;
    }
}

/// NCM blocks are numbered one after the other; nothing else of the framing
/// changes.
pub proof fn lemma_blocks_are_numbered(params: NtbParameters, sequence: u16)
    ensures
        sequence < u16::MAX ==> framing_after(Framing::Ncm { params, sequence }) == (Framing::Ncm {
            params,
            sequence: (sequence + 1) as u16,
        }),
        framing_after(Framing::Ncm { params, sequence: u16::MAX }) == (Framing::Ncm { params, sequence: 0 }),
        framing_after(Framing::Ecm) == Framing::Ecm,
        framing_after(Framing::Rndis) == Framing::Rndis,
{
}

/// A frame is sent if its size is in range, the device is running, it can be
/// framed and fewer than 32 are under way; it is then counted as under way.
pub proof fn lemma_when_frames_are_sent(d: NetDeviceView, frame: Seq<u8>)
    ensures
        send_next(d, frame).1 is Ok <==> {
            &&& 14 <= frame.len() <= d.max_frame
            &&& d.shared.ended is None
            &&& wire_bytes(d.framing, d.out_packet as int, frame) is Ok
            &&& d.shared.tx_in_flight < 32
        },
        send_next(d, frame).1 is Ok ==> send_next(d, frame).1 == wire_bytes(d.framing, d.out_packet as int, frame)
            && send_next(d, frame).0.shared.tx_in_flight == d.shared.tx_in_flight + 1,
        frame.len() < 14 || frame.len() > d.max_frame ==> send_next(d, frame).1->Err_0.kind == ErrorKind::InvalidParam,
        14 <= frame.len() <= d.max_frame && d.shared.ended is Some ==> send_next(d, frame).1->Err_0.kind
            == ErrorKind::NoDevice,
        send_next(d, frame).1 is Err && 14 <= frame.len() <= d.max_frame && d.shared.ended is None && wire_bytes(
            d.framing,
            d.out_packet as int,
            frame,
        ) is Ok ==> send_next(d, frame).1->Err_0.kind == ErrorKind::Busy,
{
}

/// An RNDIS function that is closed is told to let no frame through, and then
/// to halt; the others need no message.
pub proof fn lemma_closing_messages(d: NetDeviceView, ctl: Control)
    requires
        d.control == ControlState::Rndis(ctl),
    ensures
        ({
            let a = close_next(d, true).1;
            let m = a->first->Send_message;
            &&& a is ClearFilter
            &&& bytes::le32_at(m, 0) == 5
            &&& bytes::le32_at(m, 8) == ctl.next_id
            &&& bytes::le32_at(m, 12) == 0x0001_010e
            &&& bytes::le32_at(m, 28) == 0
        }),
        close_next(d, false).1 is Nothing,
        ({
            let a = halt_next(d);
            let m = a->Send_message;
            &&& a is Send
            &&& a->Send_setup.request_type == 0x21
            &&& a->Send_setup.request == 0
            &&& a->Send_setup.index == ctl.interface
            &&& a->Send_setup.length == 12
            &&& m.len() == 12
            &&& bytes::le32_at(m, 0) == 3
            &&& bytes::le32_at(m, 4) == 12
            &&& bytes::le32_at(m, 8) == ctl.next_id
        }),
{
    rndis::lemma_set_message(ctl, 0x0001_010e, 0);
    rndis::lemma_request_layout(3, ctl.next_id, Seq::empty());
}

/// The packet size of an endpoint is in its eleven lowest bits, and never
/// taken for zero.
pub proof fn lemma_packet_size(size: int, additional: int)
    requires
        0 < size < 2048,
        0 <= additional < 32,
    ensures
        packet_of((size + 2048 * additional) as u16) == size,
        packet_of((2048 * additional) as u16) == 1,
{
}

/// An opened function receives on a bulk IN endpoint and sends on a bulk OUT
/// endpoint of its data interface, in the setting that has both; notifications
/// come on the interrupt IN endpoint of its control interface.
pub proof fn lemma_plan_endpoints(v: Seq<Interface>, interface: u8)
    requires
        plan_for(v, interface) is Ok,
    ensures
        ({
            let p = plan_for(v, interface)->Ok_0;
            let comm = class::setting_of(v, interface)->Ok_0;
            let data = class::data_setting(v, p.data_interface)->0;
            let i = first_endpoint(data.endpoints@, Direction::In, TransferType::Bulk);
            let o = first_endpoint(data.endpoints@, Direction::Out, TransferType::Bulk);
            let n = first_endpoint(comm.endpoints@, Direction::In, TransferType::Interrupt);
            &&& p.interface == interface
            &&& Some(p.kind) == kind_for(comm.class, comm.sub_class, comm.protocol)
            &&& class::data_setting(v, p.data_interface) is Some
            &&& p.data_alternate == data.alternate_setting
            &&& p.ep_in == i->0.address
            &&& p.ep_out == o->0.address
            &&& p.in_packet == packet_of(i->0.max_packet_size)
            &&& p.out_packet == packet_of(o->0.max_packet_size)
            &&& n is None ==> p.notify is None
            &&& n is Some ==> p.notify is Some && (p.notify->0).0 == n->0.address
        }),
{
}

/// Opening an ECM or NCM function starts by setting the data interface to its
/// setting without endpoints; an RNDIS function is initialised by a message.
pub proof fn lemma_opening_starts(plan: OpenPlan)
    ensures
        plan.kind != NetKind::Rndis ==> opening_first(plan) == (OpenActionView::SetAlternate {
            interface: plan.data_interface,
            alternate: 0,
        }) && opening_start(plan).phase == OpenPhase::Reset,
        plan.kind == NetKind::Rndis ==> ({
            let a = opening_first(plan);
            let m = a->first->Send_message;
            &&& a is Exchange
            &&& a->first is Send
            &&& m.len() == 24
            &&& bytes::le32_at(m, 0) == 2
            &&& bytes::le32_at(m, 4) == 24
            &&& bytes::le32_at(m, 8) == 1
            &&& m.skip(12) == u32_bytes(1) + u32_bytes(0) + u32_bytes(32768)
            &&& opening_start(plan).phase == OpenPhase::Initialize
            &&& opening_start(plan).control.next_id == 2
        }),
{
    rndis::lemma_request_layout(2, 1, u32_bytes(1) + u32_bytes(0) + u32_bytes(32768));
}

/// An NCM function is asked for its transfer block parameters, 28 bytes by
/// request 0x80.
pub proof fn lemma_parameters_are_asked_for(o: OpeningView)
    requires
        o.plan.kind == NetKind::Ncm,
        o.phase == OpenPhase::Reset,
    ensures
        ({
            let (p, a) = open_next(o, OpenEventView::Done(Ok(())));
            let s = a->Read_setup;
            &&& p.phase == OpenPhase::Parameters
            &&& a is Read
            &&& s.request_type == 0xa1
            &&& s.request == 0x80
            &&& s.value == 0
            &&& s.index == o.plan.interface
            &&& s.length == 28
        }),
{
}

/// A device with larger blocks than 32 KiB is told to use that size, by
/// request 0x86 with four bytes, or eight where it announces that form; with
/// smaller ones the size is the device's.
pub proof fn lemma_input_size_is_limited(o: OpeningView, b: Seq<u8>)
    requires
        o.phase == OpenPhase::Parameters,
        b.len() >= 28,
        b[2] % 2 == 1,
    ensures
        ({
            let (p, a) = open_next(o, OpenEventView::Data(Ok(b)));
            let s = a->Write_setup;
            let wide = o.plan.functional.ncm_capabilities is Some && o.plan.functional.ncm_capabilities->0 / 32 % 2 == 1;
            &&& bytes::le32_at(b, 4) > 32768 ==> {
                &&& p.rx_size == 32768
                &&& a is Write
                &&& s.request_type == 0x21
                &&& s.request == 0x86
                &&& s.index == o.plan.interface
                &&& s.length == a->Write_data.len()
                &&& wide ==> a->Write_data == seq![0u8, 0x80, 0, 0, 0, 0, 0, 0]
                &&& !wide ==> a->Write_data == seq![0u8, 0x80, 0, 0]
            }
            &&& bytes::le32_at(b, 4) <= 32768 ==> p.rx_size == bytes::le32_at(b, 4)
        }),
{
    assert(u32_bytes(32768) =~= seq![0u8, 0x80, 0, 0]);
    assert(u32_bytes(32768) + zeros(4) =~= seq![0u8, 0x80, 0, 0, 0, 0, 0, 0]);
}

/// The address of an ECM or NCM adapter is in the string that its descriptor
/// names; without one, or with one that is no address, opening fails.
pub proof fn lemma_address_string(o: OpeningView, s: Seq<char>)
    requires
        o.phase == OpenPhase::Mac,
        o.plan.kind != NetKind::Rndis,
    ensures
        to_mac(o).1 is ReadString <==> o.plan.functional.mac_string != 0,
        to_mac(o).1 is ReadString ==> to_mac(o).1->index == o.plan.functional.mac_string,
        cdc::mac_of(s) is None ==> open_next(o, OpenEventView::Text(Ok(s))).1 is Finish && open_next(
            o,
            OpenEventView::Text(Ok(s)),
        ).1->Finish_0 is Err,
        cdc::mac_of(s) matches Some(mac) ==> ({
            let p = open_next(o, OpenEventView::Text(Ok(s))).0;
            &&& p.mac == mac
            &&& o.plan.functional.max_segment_size >= 60 ==> p.max_frame == o.plan.functional.max_segment_size
            &&& o.plan.functional.max_segment_size < 60 ==> p.max_frame == 1514
        }),
{
}

/// After the filter the data interface is set to the setting with endpoints,
/// and that ends the opening.
pub proof fn lemma_stream_setting_comes_last(o: OpeningView)
    requires
        o.plan.kind != NetKind::Rndis,
    ensures
        o.phase == OpenPhase::Filter ==> open_next(o, OpenEventView::Done(Ok(()))).1 == (OpenActionView::SetAlternate {
            interface: o.plan.data_interface,
            alternate: o.plan.data_alternate,
        }),
        o.phase == OpenPhase::Stream ==> open_next(o, OpenEventView::Done(Ok(()))).1 == OpenActionView::Finish(
            Ok::<(), ErrorView>(()),
        ),
{
}

/// The order in which an RNDIS function is asked: its address, its largest
/// frame, whether it is connected, and how fast.
pub proof fn lemma_rndis_questions(o: OpeningView, reply: Seq<u8>, link: Option<bool>)
    requires
        o.plan.kind == NetKind::Rndis,
    ensures
        ({
            let (p, a) = open_next(o, OpenEventView::Reply { reply: Ok(reply), link });
            let m = a->first->Send_message;
            &&& o.phase == OpenPhase::Initialize && reply.len() >= 40 ==> a is Exchange && p.phase == OpenPhase::Address
                && bytes::le32_at(m, 0) == 4 && bytes::le32_at(m, 12) == 0x0101_0101 && bytes::le32_at(m, 16) == 6
                && p.max_transfer == bytes::le32_at(reply, 36)
            &&& o.phase == OpenPhase::FrameSize ==> a is Exchange && p.phase == OpenPhase::Media && bytes::le32_at(m, 0)
                == 4 && bytes::le32_at(m, 12) == 0x0001_0114 && bytes::le32_at(m, 16) == 4
            &&& o.phase == OpenPhase::Media ==> a is Exchange && p.phase == OpenPhase::LinkSpeed && bytes::le32_at(m, 0)
                == 4 && bytes::le32_at(m, 12) == 0x0001_0107 && bytes::le32_at(m, 16) == 4
            &&& o.phase == OpenPhase::Address && rndis::queried_value(reply) is Some && rndis::queried_value(reply)->0.len()
                >= 6 ==> a is Exchange && p.phase == OpenPhase::FrameSize && bytes::le32_at(m, 0) == 4
                && bytes::le32_at(m, 12) == 0x0001_0106 && bytes::le32_at(m, 16) == 4 && p.mac
                == rndis::queried_value(reply)->0.take(6)
        }),
{
    let c = Control { link, ..o.control };
    rndis::lemma_query_message(c, 0x0101_0101, 6);
    rndis::lemma_query_message(c, 0x0001_0106, 4);
    rndis::lemma_query_message(c, 0x0001_0114, 4);
    rndis::lemma_query_message(c, 0x0001_0107, 4);
}

/// The largest frame of an RNDIS function is the payload it names, with an
/// Ethernet header, if that is between 46 and 9000 bytes, and 1514 otherwise;
/// but never more than its transfers hold behind the packet header.
pub proof fn lemma_rndis_largest_frame(said: u32, e: ErrorView, max_transfer: u32)
    requires
        max_transfer >= 104,
    ensures
        46 <= said <= 9000 && said + 14 + 44 <= max_transfer ==> rndis_max_frame(Ok(said), max_transfer) == said + 14,
        (said < 46 || said > 9000) && 1514 + 44 <= max_transfer ==> rndis_max_frame(Ok(said), max_transfer) == 1514,
        1514 + 44 <= max_transfer ==> rndis_max_frame(Err(e), max_transfer) == 1514,
        rndis_max_frame(Ok(said), max_transfer) + 44 <= max_transfer,
{
}

/// A media status of 0 means connected, and a link speed counts hundreds of
/// bits per second; what an indication said meanwhile goes before.
pub proof fn lemma_rndis_link(o: OpeningView, status: u32, speed: u32, e: ErrorView)
    ensures
        o.control.link is None ==> link_after_media(o, Ok(status)).connected == Some(status == 0),
        o.control.link is Some ==> link_after_media(o, Ok(status)).connected == o.control.link,
        o.control.link is None ==> link_after_media(o, Err(e)).connected == o.link.connected,
        link_after_speed(o.link, Ok(speed)).down_bps is Some,
        link_after_speed(o.link, Ok(speed)).down_bps->0 == speed * 100,
        link_after_speed(o.link, Ok(speed)).up_bps == link_after_speed(o.link, Ok(speed)).down_bps,
        link_after_speed(o.link, Ok(speed)).connected == o.link.connected,
        link_after_speed(o.link, Err(e)) == o.link,
{
}

/// An opened device frames what it sends as its kind asks, with what was
/// learnt while it was opened.
pub proof fn lemma_opened_device(o: OpeningView)
    ensures
        ({
            let d = opened(o);
            &&& (d.kind, d.mac, d.max_frame, d.ep_out) == (o.plan.kind, o.mac, o.max_frame, o.plan.ep_out)
            &&& d.out_packet == o.plan.out_packet
            &&& d.framing is Rndis <==> o.plan.kind == NetKind::Rndis
            &&& d.framing is Ncm <==> o.plan.kind == NetKind::Ncm && o.params is Some
            &&& d.framing is Ncm ==> d.framing->params == o.params->0 && d.framing->sequence == 0
            &&& d.shared.queue.len() == 0
            &&& d.shared.link == o.link
            &&& d.shared.tx_in_flight == 0
            &&& d.shared.ended is None
            &&& !d.shared.handled
            &&& o.plan.kind != NetKind::Rndis ==> d.control is Cdc && d.control->interface == o.plan.interface && (
            d.control->filter_supported <==> o.plan.kind == NetKind::Ecm || (o.plan.functional.ncm_capabilities is Some
                && o.plan.functional.ncm_capabilities->0 % 2 == 1))
        }),
{
}

/// A filter that a device stalls does not matter as long as no promiscuous
/// mode was asked for.
pub proof fn lemma_filter_result(promiscuous: bool, e: ErrorView)
    ensures
        filter_result(promiscuous, Ok(())) is Ok,
        filter_result(promiscuous, Err(e)) is Ok <==> e.kind == ErrorKind::Pipe && !promiscuous,
        filter_result(promiscuous, Err(e)) matches Err(f) ==> f == e,
{
}

/// What a transfer holds: with ECM one frame, or nothing.
pub proof fn lemma_ecm_unpacked(data: Seq<u8>)
    ensures
        data.len() > 0 ==> unpacked(NetKind::Ecm, data) == (seq![data], true),
        data.len() == 0 ==> unpacked(NetKind::Ecm, data) == (Seq::<Seq<u8>>::empty(), true),
        data.len() == 0 ==> unpacked(NetKind::Ncm, data) == (Seq::<Seq<u8>>::empty(), true),
        data.len() > 0 ==> unpacked(NetKind::Ncm, data) == cdc::block_frames(data),
        unpacked(NetKind::Rndis, data) == rndis::transfer_frames(data),
{
}

/// What is known after a frame that was under way came to an end.
pub open spec fn sent_after(s: SharedView, len: usize, status: TransferStatus) -> SharedView {
    SharedView {
        tx_in_flight: s.tx_in_flight - 1,
        stats: if status == TransferStatus::Completed {
            count_tx(s.stats, len)
        } else {
            count_error(count_tx_drop(s.stats))
        },
        ..s
    }
}

/// What is left of a time limit; `None` where there is none.
pub open spec fn time_left(timeout: u64, waited: u64) -> Option<u64> {
    if timeout == NO_TIMEOUT {
        None
    } else if waited < timeout {
        Some((timeout - waited) as u64)
    } else {
        Some(0)
    }
}

/// Where notifications are to be read from and how much at a time.
pub open spec fn notification_source(plan: OpenPlan) -> Option<(u8, u32)> {
    match plan.notify {
        Some((ep, size)) => if plan.kind == NetKind::Rndis {
            None
        } else {
            Some(
                (
                    ep,
                    if size < 16 {
                        16
                    } else {
                        size
                    },
                ),
            )
        },
        None => None,
    }
}

/// A frame that was sent is counted with its bytes, one that failed as dropped
/// and as an error; either way it is no longer under way.
pub proof fn lemma_sent_frames(s: SharedView, len: usize, status: TransferStatus)
    requires
        s.stats.tx_frames < u64::MAX,
        s.stats.tx_dropped < u64::MAX,
        s.stats.errors < u64::MAX,
        s.stats.tx_bytes + len <= u64::MAX,
    ensures
        ({
            let t = sent_after(s, len, status);
            &&& t.tx_in_flight == s.tx_in_flight - 1
            &&& t.queue == s.queue
            &&& status == TransferStatus::Completed ==> t.stats == (NetStats {
                tx_frames: (s.stats.tx_frames + 1) as u64,
                tx_bytes: (s.stats.tx_bytes + len) as u64,
                ..s.stats
            })
            &&& status != TransferStatus::Completed ==> t.stats == (NetStats {
                tx_dropped: (s.stats.tx_dropped + 1) as u64,
                errors: (s.stats.errors + 1) as u64,
                ..s.stats
            })
        }),
{
}

/// Time that was waited counts against the limit; a limit of 0 is none.
pub proof fn lemma_time_left(timeout: u64, waited: u64)
    ensures
        time_left(0, waited) is None,
        timeout > 0 && waited < timeout ==> time_left(timeout, waited) == Some((timeout - waited) as u64),
        timeout > 0 && waited >= timeout ==> time_left(timeout, waited) == Some(0u64),
{
}

/// Notifications of ECM and NCM functions are read in 16 bytes at least; those
/// of RNDIS functions belong to their exchanges.
pub proof fn lemma_notification_source(plan: OpenPlan)
    ensures
        plan.kind == NetKind::Rndis || plan.notify is None ==> notification_source(plan) is None,
        plan.kind != NetKind::Rndis ==> (plan.notify matches Some((ep, size)) ==> {
            let r = notification_source(plan)->0;
            &&& notification_source(plan) is Some
            &&& r.0 == ep
            &&& size >= 16 ==> r.1 == size
            &&& size < 16 ==> r.1 == 16
        }),
{
}

/// A device that was just opened has moved nothing.
pub proof fn lemma_fresh_state(link: LinkState)
    ensures
        ({
            let s = fresh_shared(link);
            let c = s.stats;
            &&& (c.rx_frames, c.rx_bytes, c.tx_frames, c.tx_bytes) == (0u64, 0u64, 0u64, 0u64)
            &&& (c.rx_dropped, c.tx_dropped, c.errors) == (0u64, 0u64, 0u64)
            &&& !s.handled && s.queue.len() == 0 && s.ended is None && s.tx_in_flight == 0
            &&& s.link == link
        }),
{
}

} // verus!
