//! Remote NDIS (Microsoft RNDIS 1.0): control messages carried by CDC
//! encapsulated commands, and the packet framing of the data interface.

use crate::bytes::{self, byte_at, le32, le32_at, put32, u32_bytes, zeros};
use crate::error::{bytes_outcome, message, outcome, plain, Error, ErrorKind, ErrorView, Result};
use crate::net::cdc::{slices, Frames};
use crate::text;
use crate::types::{setup_packet, ControlSetup, ControlType, Direction, Recipient};
use vstd::prelude::*;
use vstd::slice::slice_subrange;
use vstd::string::*;

pub mod filter;
pub mod oid;

verus! {

/// Sends a control message.
pub const SEND_ENCAPSULATED_COMMAND: u8 = 0x00;

/// Fetches a control message.
pub const GET_ENCAPSULATED_RESPONSE: u8 = 0x01;

/// Largest control response we accept, as Linux sizes it.
pub const CONTROL_BUFFER: usize = 1025;

/// How long a control request may take: 5 s.
pub const CONTROL_TIMEOUT: u64 = 5_000_000_000;

/// How long a response may take to be announced: 500 ms.
pub const NOTIFICATION_TIMEOUT: u64 = 500_000_000;

/// Room for a notification. RESPONSE_AVAILABLE is 8 bytes, but some devices
/// have larger interrupt packets.
pub const NOTIFICATION_BUFFER: usize = 64;

/// How long to wait before looking for a response that is not announced:
/// 10 ms.
pub const REPLY_PAUSE: u64 = 10_000_000;

/// How often a reply is looked for.
pub const REPLY_TRIES: u8 = 20;

/// PACKET: an Ethernet frame.
pub const MSG_PACKET: u32 = 0x0000_0001;

/// INITIALIZE
pub const MSG_INIT: u32 = 0x0000_0002;

/// HALT
pub const MSG_HALT: u32 = 0x0000_0003;

/// QUERY
pub const MSG_QUERY: u32 = 0x0000_0004;

/// SET
pub const MSG_SET: u32 = 0x0000_0005;

/// INDICATE_STATUS
pub const MSG_INDICATE: u32 = 0x0000_0007;

/// KEEPALIVE
pub const MSG_KEEPALIVE: u32 = 0x0000_0008;

/// Added to a message type, its completion.
pub const COMPLETION: u32 = 0x8000_0000;

/// Header of a PACKET message; the data follows it.
pub const PACKET_HEADER: usize = 44;

// ----- packet messages ------------------------------------------------------------

/// The fixed part of a PACKET message's header, without out-of-band or
/// per-packet data.
#[verifier::opaque]
pub open spec fn packet_header(total: u32, len: u32) -> Seq<u8> {
    u32_bytes(MSG_PACKET) + u32_bytes(total) + u32_bytes(36) + u32_bytes(len)
}

/// A PACKET message, with one byte more where its length would be an exact
/// multiple of the packet size.
pub open spec fn packet_bytes(frame: Seq<u8>, pad_multiple: int) -> Seq<u8> {
    let total = 44 + frame.len() as int;
    let message = packet_header((total % 0x1_0000_0000) as u32, (frame.len() as int % 0x1_0000_0000) as u32) + zeros(28)
        + frame;
    if pad_multiple > 0 && total % pad_multiple == 0 {
        message + zeros(1)
    } else {
        message
    }
}

/// Wraps one Ethernet frame in a PACKET message. `pad_multiple` works as for
/// NCM: an exact multiple of the packet size gets one trailing byte, which
/// the message length does not cover.
pub fn build_packet(frame: &[u8], pad_multiple: usize) -> (r: Vec<u8>)
    requires
        frame@.len() <= usize::MAX - 45,
    ensures
        r@ == packet_bytes(frame@, pad_multiple as int),
{
    let total: usize = PACKET_HEADER + frame.len();
    let mut b: Vec<u8> = Vec::new();
    put32(&mut b, MSG_PACKET);
    put32(&mut b, (total as u64 % 0x1_0000_0000) as u32);
    // DataOffset, from byte 8
    put32(&mut b, 36);
    put32(&mut b, (frame.len() as u64 % 0x1_0000_0000) as u32);
    reveal(packet_header);
    assert(b@ =~= packet_header((total as u64 % 0x1_0000_0000) as u32, (frame@.len() as u64 % 0x1_0000_0000) as u32));
    bytes::pad_to(&mut b, PACKET_HEADER);
    bytes::put(&mut b, frame);
    if pad_multiple > 0 && total % pad_multiple == 0 {
        let n: usize = b.len() + 1;
        bytes::pad_to(&mut b, n);
    }
    b
}

/// Where a PACKET message's frame starts.
pub open spec fn packet_start(b: Seq<u8>) -> int {
    8 + le32_at(b, 8)
}

/// Where a PACKET message's frame ends.
pub open spec fn packet_end(b: Seq<u8>) -> int {
    packet_start(b) + le32_at(b, 12)
}

/// Whether `b` starts with a whole PACKET message.
pub open spec fn starts_with_packet(b: Seq<u8>) -> bool {
    &&& le32_at(b, 0) == MSG_PACKET
    &&& 44 <= le32_at(b, 4) <= b.len()
    &&& packet_start(b) >= 44
    &&& packet_end(b) <= le32_at(b, 4)
}

/// The frames of a data transfer.
pub open spec fn transfer_frames(b: Seq<u8>) -> Frames
    decreases b.len(),
{
    if b.len() < 8 || (le32_at(b, 0) == 0 && le32_at(b, 4) == 0) {
        (Seq::empty(), true)
    } else if !starts_with_packet(b) {
        (Seq::empty(), false)
    } else {
        let rest = transfer_frames(b.skip(le32_at(b, 4) as int));
        (seq![b.subrange(packet_start(b), packet_end(b))] + rest.0, rest.1)
    }
}

proof fn lemma_le32_of_rest(b: Seq<u8>, pos: int, at: int)
    requires
        0 <= pos <= b.len(),
        0 <= at,
    ensures
        le32_at(b.skip(pos), at) == le32_at(b, pos + at),
{
    let r = b.skip(pos);
    assert(byte_at(r, at) == byte_at(b, pos + at));
    assert(byte_at(r, at + 1) == byte_at(b, pos + at + 1));
    assert(byte_at(r, at + 2) == byte_at(b, pos + at + 2));
    assert(byte_at(r, at + 3) == byte_at(b, pos + at + 3));
}

/// Splits a data transfer into the frames of its PACKET messages. The flag is
/// `false` on a malformed message (frames before it are still there).
pub fn parse_packets<'a>(b: &'a [u8]) -> (r: (Vec<&'a [u8]>, bool))
    ensures
        (slices(r.0@), r.1) == transfer_frames(b@),
{
    let mut out: Vec<&'a [u8]> = Vec::new();
    let mut pos: usize = 0;
    let n: usize = b.len();
    let ghost all = transfer_frames(b@);
    assert(slices(out@) =~= Seq::<Seq<u8>>::empty());
    assert(b@.skip(0) =~= b@);
    assert(slices(out@) + all.0 =~= all.0);
    while n - pos >= 8
        invariant
            pos <= n == b@.len(),
            all == transfer_frames(b@),
            ({
                let rest = transfer_frames(b@.skip(pos as int));
                rest.1 == all.1 && slices(out@) + rest.0 =~= all.0
            }),
        decreases n - pos,
    {
        let ghost rest = b@.skip(pos as int);
        proof {
            lemma_le32_of_rest(b@, pos as int, 0);
            lemma_le32_of_rest(b@, pos as int, 4);
            lemma_le32_of_rest(b@, pos as int, 8);
            lemma_le32_of_rest(b@, pos as int, 12);
        }
        let ty: u32 = le32(b, pos);
        let len: u32 = le32(b, pos + 4);
        if ty == 0 && len == 0 {
            // zero padding at the end of a transfer
            assert(slices(out@) =~= all.0);
            return (out, true);
        }
        if ty != MSG_PACKET || (len as u64) < PACKET_HEADER as u64 || len as u64 > (n - pos) as u64 {
            assert(slices(out@) =~= all.0);
            return (out, false);
        }
        let size: usize = len as usize;
        assert(pos + size <= n);
        let start: u64 = 8 + le32(b, pos + 8) as u64;
        let end: u64 = start + le32(b, pos + 12) as u64;
        if start < PACKET_HEADER as u64 || end > len as u64 {
            assert(slices(out@) =~= all.0);
            return (out, false);
        }
        let frame = slice_subrange(b, pos + start as usize, pos + end as usize);
        assert(frame@ =~= rest.subrange(packet_start(rest), packet_end(rest)));
        assert(rest.skip(size as int) =~= b@.skip(pos + size));
        let ghost before = slices(out@);
        let ghost next = transfer_frames(b@.skip(pos + size));
        out.push(frame);
        assert(slices(out@) =~= before.push(frame@));
        assert(before + (seq![frame@] + next.0) =~= slices(out@) + next.0);
        pos = pos + size;
    }
    assert(slices(out@) =~= all.0);
    (out, true)
}

proof fn lemma_packet_header(total: u32, len: u32)
    ensures
        packet_header(total, len).len() == 16,
        le32_at(packet_header(total, len), 0) == MSG_PACKET,
        le32_at(packet_header(total, len), 4) == total,
        le32_at(packet_header(total, len), 8) == 36,
        le32_at(packet_header(total, len), 12) == len,
{
    reveal(packet_header);
    let h = packet_header(total, len);
    bytes::lemma_le_round_trip(0, MSG_PACKET, Seq::empty(), u32_bytes(total) + u32_bytes(36) + u32_bytes(len));
    assert(Seq::<u8>::empty() + u32_bytes(MSG_PACKET) + (u32_bytes(total) + u32_bytes(36) + u32_bytes(len)) =~= h);
    bytes::lemma_le_round_trip(0, total, u32_bytes(MSG_PACKET), u32_bytes(36) + u32_bytes(len));
    assert(u32_bytes(MSG_PACKET) + u32_bytes(total) + (u32_bytes(36) + u32_bytes(len)) =~= h);
    bytes::lemma_le_round_trip(0, 36, u32_bytes(MSG_PACKET) + u32_bytes(total), u32_bytes(len));
    bytes::lemma_le_round_trip(0, len, u32_bytes(MSG_PACKET) + u32_bytes(total) + u32_bytes(36), Seq::empty());
    assert(h + Seq::<u8>::empty() =~= h);
}

proof fn lemma_le32_prefix(h: Seq<u8>, tail: Seq<u8>, at: int)
    requires
        0 <= at,
        at + 4 <= h.len(),
    ensures
        le32_at(h + tail, at) == le32_at(h, at),
{
}

proof fn lemma_after_header(h: Seq<u8>, z: Seq<u8>, f: Seq<u8>, rest: Seq<u8>)
    ensures
        h + z + f + rest == h + (z + f + rest),
{
    assert(h + z + f + rest =~= h + (z + f + rest));
}

proof fn lemma_packet_fields(frame: Seq<u8>, rest: Seq<u8>)
    requires
        44 + frame.len() <= u32::MAX,
    ensures
        le32_at(packet_bytes(frame, 0) + rest, 0) == MSG_PACKET,
        le32_at(packet_bytes(frame, 0) + rest, 4) == 44 + frame.len(),
        le32_at(packet_bytes(frame, 0) + rest, 8) == 36,
        le32_at(packet_bytes(frame, 0) + rest, 12) == frame.len(),
        packet_bytes(frame, 0).len() == 44 + frame.len(),
{
    let total = (44 + frame.len()) as u32;
    let h = packet_header(total, frame.len() as u32);
    let tail = zeros(28) + frame + rest;
    lemma_packet_header(total, frame.len() as u32);
    lemma_after_header(h, zeros(28), frame, rest);
    lemma_le32_prefix(h, tail, 0);
    lemma_le32_prefix(h, tail, 4);
    lemma_le32_prefix(h, tail, 8);
    lemma_le32_prefix(h, tail, 12);
}

proof fn lemma_message_first(b: Seq<u8>, frame: Seq<u8>, rest: Seq<u8>)
    requires
        b.len() >= 44,
        starts_with_packet(b),
        b.subrange(packet_start(b), packet_end(b)) == frame,
        b.skip(le32_at(b, 4) as int) == rest,
    ensures
        transfer_frames(b) == (seq![frame] + transfer_frames(rest).0, transfer_frames(rest).1),
{
}

/// Taking a transfer apart gives back the frame that was wrapped, followed by
/// the frames of whatever messages come after it in the transfer.
pub proof fn lemma_packet_round_trip(frame: Seq<u8>, rest: Seq<u8>)
    requires
        44 + frame.len() <= u32::MAX,
    ensures
        transfer_frames(packet_bytes(frame, 0) + rest) == (seq![frame] + transfer_frames(rest).0, transfer_frames(rest).1),
{
    let message = packet_bytes(frame, 0);
    let b = message + rest;
    let total = 44 + frame.len() as int;
    lemma_packet_fields(frame, rest);
    assert(b.subrange(44, total) == frame) by {
        assert(message.subrange(44, total) =~= frame);
        assert(b.subrange(44, total) =~= message.subrange(44, total));
    }
    assert(b.skip(total) =~= rest);
    lemma_message_first(b, frame, rest);
}

/// A wrapped frame comes back alone, whether or not the message was padded.
pub proof fn lemma_padded_packet_round_trip(frame: Seq<u8>, pad_multiple: int)
    requires
        44 + frame.len() <= u32::MAX,
    ensures
        transfer_frames(packet_bytes(frame, pad_multiple)) == (seq![frame], true),
{
    lemma_packet_fields(frame, Seq::empty());
    let whole = packet_bytes(frame, pad_multiple);
    let plain = packet_bytes(frame, 0);
    let rest = whole.skip(plain.len() as int);
    assert(whole =~= plain + rest);
    lemma_packet_round_trip(frame, rest);
    assert(transfer_frames(rest) == (Seq::<Seq<u8>>::empty(), true));
    assert(seq![frame] + Seq::<Seq<u8>>::empty() =~= seq![frame]);
}

/// A message never ends on a packet boundary (of packets longer than a byte),
/// so the device sees where it ends.
pub proof fn lemma_packet_ends_short(frame: Seq<u8>, pad_multiple: int)
    requires
        pad_multiple > 1,
    ensures
        packet_bytes(frame, pad_multiple).len() as int % pad_multiple != 0,
{
    let t = 44 + frame.len() as int;
    lemma_packet_header((t % 0x1_0000_0000) as u32, (frame.len() as int % 0x1_0000_0000) as u32);
    if t % pad_multiple == 0 {
        vstd::arithmetic::div_mod::lemma_fundamental_div_mod(t, pad_multiple);
        vstd::arithmetic::mul::lemma_mul_is_commutative(pad_multiple, t / pad_multiple);
        vstd::arithmetic::div_mod::lemma_fundamental_div_mod_converse(t + 1, pad_multiple, t / pad_multiple, 1);
    }
}

// ----- control messages ----------------------------------------------------------------

/// The media status in an INDICATE_STATUS message.
pub open spec fn link_indicated(msg: Seq<u8>) -> Option<bool> {
    if msg.len() < 12 || le32_at(msg, 0) != MSG_INDICATE {
        None
    } else if le32_at(msg, 8) == 0x4001_000b {
        Some(true)
    } else if le32_at(msg, 8) == 0x4001_000c {
        Some(false)
    } else {
        None
    }
}

/// Media status carried by an INDICATE_STATUS message.
pub fn indicated_link(msg: &[u8]) -> (r: Option<bool>)
    ensures
        r == link_indicated(msg@),
{
    if msg.len() < 12 || le32(msg, 0) != MSG_INDICATE {
        return None;
    }
    match le32(msg, 8) {
        0x4001_000b => Some(true),
        0x4001_000c => Some(false),
        _ => None,
    }
}

/// A control request with its number.
pub open spec fn request_bytes(msg_type: u32, id: u32, body: Seq<u8>) -> Seq<u8> {
    u32_bytes(msg_type) + u32_bytes((12 + body.len()) as u32) + u32_bytes(id) + body
}

/// The answer to a keepalive.
pub open spec fn keepalive_ack(id: u32) -> Seq<u8> {
    u32_bytes(0x8000_0008) + u32_bytes(16) + u32_bytes(id) + u32_bytes(0)
}

/// The request that carries a control message of the given length.
pub open spec fn send_setup(interface: u8, length: int) -> ControlSetup {
    setup_packet(
        Direction::Out,
        ControlType::Class,
        Recipient::Interface,
        SEND_ENCAPSULATED_COMMAND,
        0,
        interface as u16,
        length as u16,
    )
}

/// The request that fetches a control message.
pub open spec fn response_setup(interface: u8) -> ControlSetup {
    setup_packet(
        Direction::In,
        ControlType::Class,
        Recipient::Interface,
        GET_ENCAPSULATED_RESPONSE,
        0,
        interface as u16,
        1025,
    )
}

/// The control channel of one RNDIS function.
#[derive(Debug, Clone, Copy, PartialEq, Eq, Structural)]
pub struct Control {
    /// The control interface.
    pub interface: u8,
    /// The endpoint that announces responses, if there is one.
    pub notify_ep: Option<u8>,
    /// The number of the next request, never 0.
    pub next_id: u32,
    /// Media status seen in INDICATE_STATUS messages while waiting for
    /// replies.
    pub link: Option<bool>,
}

/// The number after a request's number: it wraps past 0.
pub open spec fn id_after(id: u32) -> u32 {
    if id == u32::MAX {
        1
    } else {
        (id + 1) as u32
    }
}

/// Where a request stands.
#[derive(Debug, Clone, Copy, PartialEq, Eq, Structural)]
pub enum ExchangePhase {
    /// The request is being sent.
    Sending,
    /// A response is being waited for.
    Waiting,
    /// A response is being fetched.
    Reading,
    /// A keepalive is being answered.
    Acking,
    /// The exchange is over.
    Over,
}

/// A request and the wait for its completion, with the device's own status
/// indications and keepalives handled in between.
#[derive(Debug, Clone, Copy, PartialEq, Eq, Structural)]
pub struct Exchange {
    pub interface: u8,
    pub notify_ep: Option<u8>,
    pub msg_type: u32,
    pub id: u32,
    /// How often a reply will still be looked for.
    pub tries: u8,
    pub phase: ExchangePhase,
    /// The media status last indicated.
    pub link: Option<bool>,
}

/// What an [`Exchange`] asks for next.
#[derive(Debug)]
pub enum ExchangeAction {
    /// Send a control message.
    Send { setup: ControlSetup, message: Vec<u8>, timeout: u64 },
    /// Read up to `length` bytes from the notification endpoint. The device
    /// announces a response there; some never do, so a timeout only means
    /// "try reading".
    Notification { endpoint: u8, length: usize, timeout: u64 },
    /// Wait.
    Pause { time: u64 },
    /// Fetch a response of up to as many bytes as the request says.
    Fetch { setup: ControlSetup, timeout: u64 },
    /// The exchange is over; the reply.
    Finish(Result<Vec<u8>>),
}

/// What an [`ExchangeAction`] holds.
#[verifier::ext_equal]
pub enum ExchangeActionView {
    Send { setup: ControlSetup, message: Seq<u8>, timeout: u64 },
    Notification { endpoint: u8, length: usize, timeout: u64 },
    Pause { time: u64 },
    Fetch { setup: ControlSetup, timeout: u64 },
    Finish(std::result::Result<Seq<u8>, ErrorView>),
}

impl View for ExchangeAction {
    type V = ExchangeActionView;

    open spec fn view(&self) -> ExchangeActionView {
        match *self {
            ExchangeAction::Send { setup, message, timeout } => ExchangeActionView::Send {
                setup,
                message: message@,
                timeout,
            },
            ExchangeAction::Notification { endpoint, length, timeout } => ExchangeActionView::Notification {
                endpoint,
                length,
                timeout,
            },
            ExchangeAction::Pause { time } => ExchangeActionView::Pause { time },
            ExchangeAction::Fetch { setup, timeout } => ExchangeActionView::Fetch { setup, timeout },
            ExchangeAction::Finish(r) => ExchangeActionView::Finish(bytes_outcome(r)),
        }
    }
}

/// The exchange of a request that a control channel starts.
pub open spec fn exchange_of(c: Control, msg_type: u32) -> Exchange {
    Exchange {
        interface: c.interface,
        notify_ep: c.notify_ep,
        msg_type,
        id: c.next_id,
        tries: REPLY_TRIES,
        phase: ExchangePhase::Sending,
        link: c.link,
    }
}

/// The message that an exchange starts with.
pub open spec fn request_action(c: Control, msg_type: u32, body: Seq<u8>) -> ExchangeActionView {
    ExchangeActionView::Send {
        setup: send_setup(c.interface, 12 + body.len() as int),
        message: request_bytes(msg_type, c.next_id, body),
        timeout: CONTROL_TIMEOUT,
    }
}

/// A control channel after it started a request.
pub open spec fn after_request(c: Control) -> Control {
    Control { next_id: id_after(c.next_id), ..c }
}

/// An exchange that failed.
pub open spec fn exchange_failed(x: Exchange, e: ErrorView) -> (Exchange, ExchangeActionView) {
    (Exchange { phase: ExchangePhase::Over, ..x }, ExchangeActionView::Finish(Err(e)))
}

/// Looking for a reply once more, as long as tries are left.
pub open spec fn look_again(x: Exchange) -> (Exchange, ExchangeActionView) {
    if x.tries == 0 {
        exchange_failed(x, message(ErrorKind::Timeout, "no reply to RNDIS request"@))
    } else {
        (
            Exchange { tries: (x.tries - 1) as u8, phase: ExchangePhase::Waiting, ..x },
            match x.notify_ep {
                Some(endpoint) => ExchangeActionView::Notification {
                    endpoint,
                    length: NOTIFICATION_BUFFER,
                    timeout: NOTIFICATION_TIMEOUT,
                },
                None => ExchangeActionView::Pause { time: REPLY_PAUSE },
            },
        )
    }
}

/// The error of a request that the device refused.
pub open spec fn status_error(status: u32) -> ErrorView {
    message(ErrorKind::Io, "RNDIS request failed with status 0x"@ + text::hex8(status))
}

/// What a fetched message means for the exchange.
pub open spec fn reply_next(x: Exchange, reply: Seq<u8>) -> (Exchange, ExchangeActionView) {
    if reply.len() < 12 {
        look_again(x)
    } else if le32_at(reply, 0) == x.msg_type + COMPLETION && le32_at(reply, 8) == x.id {
        if reply.len() >= 16 && le32_at(reply, 12) != 0 {
            exchange_failed(x, status_error(le32_at(reply, 12)))
        } else {
            (Exchange { phase: ExchangePhase::Over, ..x }, ExchangeActionView::Finish(Ok(reply)))
        }
    } else if link_indicated(reply) is Some {
        look_again(Exchange { link: link_indicated(reply), ..x })
    } else if le32_at(reply, 0) == MSG_KEEPALIVE {
        (
            Exchange { phase: ExchangePhase::Acking, ..x },
            ExchangeActionView::Send {
                setup: send_setup(x.interface, 16),
                message: keepalive_ack(le32_at(reply, 8)),
                timeout: CONTROL_TIMEOUT,
            },
        )
    } else {
        look_again(x)
    }
}

/// The exchange after the outcome of its last action; `reply` is the message
/// that was fetched.
pub open spec fn exchange_next(
    x: Exchange,
    r: std::result::Result<(), ErrorView>,
    reply: Seq<u8>,
) -> (Exchange, ExchangeActionView) {
    match x.phase {
        ExchangePhase::Sending | ExchangePhase::Acking => match r {
            Ok(_) => look_again(x),
            Err(e) => exchange_failed(x, e),
        },
        ExchangePhase::Waiting => {
            let fetch = (
                Exchange { phase: ExchangePhase::Reading, ..x },
                ExchangeActionView::Fetch { setup: response_setup(x.interface), timeout: CONTROL_TIMEOUT },
            );
            match r {
                Ok(_) => fetch,
                Err(e) => if e.kind == ErrorKind::Timeout {
                    fetch
                } else {
                    exchange_failed(x, e)
                },
            }
        },
        ExchangePhase::Reading => match r {
            Ok(_) => reply_next(x, reply),
            // A stall: nothing queued yet.
            Err(e) => if e.kind == ErrorKind::Pipe {
                look_again(x)
            } else {
                exchange_failed(x, e)
            },
        },
        ExchangePhase::Over => exchange_failed(x, plain(ErrorKind::Other)),
    }
}

fn send_request(interface: u8, length: u16) -> (r: ControlSetup)
    ensures
        r == send_setup(interface, length as int),
{
    ControlSetup::new(
        Direction::Out,
        ControlType::Class,
        Recipient::Interface,
        SEND_ENCAPSULATED_COMMAND,
        0,
        interface as u16,
        length,
    )
}

impl Control {
    /// A control channel that has not been used yet.
    pub fn new(interface: u8, notify_ep: Option<u8>) -> (r: Control)
        ensures
            r == (Control { interface, notify_ep, next_id: 1, link: None }),
    {
        Control { interface, notify_ep, next_id: 1, link: None }
    }

    /// Starts a request: the exchange, and the message to send first.
    pub fn exchange(&mut self, msg_type: u32, body: &[u8]) -> (r: (Exchange, ExchangeAction))
        requires
            msg_type < COMPLETION,
            body@.len() <= 0xffff - 12,
        ensures
            *final(self) == after_request(*old(self)),
            r.0 == exchange_of(*old(self), msg_type),
            r.1@ == request_action(*old(self), msg_type, body@),
    {
        let id: u32 = self.next_id;
        self.next_id = if id == u32::MAX { 1 } else { id + 1 };
        let mut msg: Vec<u8> = Vec::new();
        put32(&mut msg, msg_type);
        put32(&mut msg, 12 + body.len() as u32);
        put32(&mut msg, id);
        bytes::put(&mut msg, body);
        assert(msg@ =~= request_bytes(msg_type, id, body@));
        let setup = send_request(self.interface, 12 + body.len() as u16);
        let x = Exchange {
            interface: self.interface,
            notify_ep: self.notify_ep,
            msg_type,
            id,
            tries: REPLY_TRIES,
            phase: ExchangePhase::Sending,
            link: self.link,
        };
        (x, ExchangeAction::Send { setup, message: msg, timeout: CONTROL_TIMEOUT })
    }

    /// HALT: tells the device the host is done (no reply is sent).
    pub fn halt(&self) -> (r: (ControlSetup, Vec<u8>))
        ensures
            r.0 == send_setup(self.interface, 12),
            r.1@ == request_bytes(MSG_HALT, self.next_id, Seq::empty()),
    {
        let mut msg: Vec<u8> = Vec::new();
        put32(&mut msg, MSG_HALT);
        put32(&mut msg, 12);
        put32(&mut msg, self.next_id);
        assert(msg@ =~= request_bytes(MSG_HALT, self.next_id, Seq::empty()));
        (send_request(self.interface, 12), msg)
    }
}

impl Exchange {
    fn fail(self, e: Error) -> (r: (Exchange, ExchangeAction))
        ensures
            (r.0, r.1@) == exchange_failed(self, e@),
    {
        let mut x = self;
        x.phase = ExchangePhase::Over;
        (x, ExchangeAction::Finish(Err(e)))
    }

    fn again(self) -> (r: (Exchange, ExchangeAction))
        ensures
            (r.0, r.1@) == look_again(self),
    {
        if self.tries == 0 {
            return self.fail(Error::with_message(ErrorKind::Timeout, "no reply to RNDIS request"));
        }
        let mut x = self;
        x.tries = x.tries - 1;
        x.phase = ExchangePhase::Waiting;
        match x.notify_ep {
            Some(endpoint) => (
                x,
                ExchangeAction::Notification {
                    endpoint,
                    length: NOTIFICATION_BUFFER,
                    timeout: NOTIFICATION_TIMEOUT,
                },
            ),
            None => (x, ExchangeAction::Pause { time: REPLY_PAUSE }),
        }
    }

    fn judge(self, reply: &[u8]) -> (r: (Exchange, ExchangeAction))
        requires
            self.msg_type < COMPLETION,
        ensures
            (r.0, r.1@) == reply_next(self, reply@),
    {
        if reply.len() < 12 {
            return self.again();
        }
        let ty: u32 = le32(reply, 0);
        if ty == self.msg_type + COMPLETION && le32(reply, 8) == self.id {
            if reply.len() >= 16 && le32(reply, 12) != 0 {
                let mut out = String::from_str("RNDIS request failed with status 0x");
                text::push_hex8(&mut out, le32(reply, 12));
                return self.fail(Error::with_message(ErrorKind::Io, out.as_str()));
            }
            let mut x = self;
            x.phase = ExchangePhase::Over;
            return (x, ExchangeAction::Finish(Ok(vstd::slice::slice_to_vec(reply))));
        }
        match indicated_link(reply) {
            Some(up) => {
                let mut x = self;
                x.link = Some(up);
                return x.again();
            },
            None => {},
        }
        if ty == MSG_KEEPALIVE {
            let mut ack: Vec<u8> = Vec::new();
            put32(&mut ack, 0x8000_0008);
            put32(&mut ack, 16);
            put32(&mut ack, le32(reply, 8));
            put32(&mut ack, 0);
            assert(ack@ =~= keepalive_ack(le32_at(reply@, 8)));
            let mut x = self;
            x.phase = ExchangePhase::Acking;
            return (
                x,
                ExchangeAction::Send {
                    setup: send_request(self.interface, 16),
                    message: ack,
                    timeout: CONTROL_TIMEOUT,
                },
            );
        }
        self.again()
    }

    /// Takes the outcome of the last action and says what to do next. `reply`
    /// is the message that was fetched, if one was.
    pub fn step(self, r: Result<()>, reply: &[u8]) -> (s: (Exchange, ExchangeAction))
        requires
            self.msg_type < COMPLETION,
        ensures
            (s.0, s.1@) == exchange_next(self, outcome(r), reply@),
    {
        match self.phase {
            ExchangePhase::Sending | ExchangePhase::Acking => match r {
                Ok(()) => self.again(),
                Err(e) => self.fail(e),
            },
            ExchangePhase::Waiting => {
                match r {
                    Ok(()) => {},
                    Err(e) => {
                        if !e.is_timeout() {
                            return self.fail(e);
                        }
                    },
                }
                let mut x = self;
                x.phase = ExchangePhase::Reading;
                let setup = ControlSetup::new(
                    Direction::In,
                    ControlType::Class,
                    Recipient::Interface,
                    GET_ENCAPSULATED_RESPONSE,
                    0,
                    self.interface as u16,
                    1025,
                );
                (x, ExchangeAction::Fetch { setup, timeout: CONTROL_TIMEOUT })
            },
            ExchangePhase::Reading => match r {
                Ok(()) => self.judge(reply),
                Err(e) => if e.is_stall() {
                    self.again()
                } else {
                    self.fail(e)
                },
            },
            ExchangePhase::Over => self.fail(Error::new(ErrorKind::Other)),
        }
    }
}

/// How many actions an exchange can still take.
pub open spec fn exchange_rank(x: Exchange) -> int {
    3 * x.tries + (match x.phase {
        ExchangePhase::Sending => 4int,
        ExchangePhase::Waiting => 3,
        ExchangePhase::Reading => 2,
        ExchangePhase::Acking => 1,
        ExchangePhase::Over => 0,
    })
}

/// An exchange ends: whatever the device sends, every step either finishes it
/// or brings it closer to its end.
pub proof fn lemma_exchange_ends(x: Exchange, r: std::result::Result<(), ErrorView>, reply: Seq<u8>)
    requires
        x.phase != ExchangePhase::Over,
    ensures
        0 <= exchange_rank(exchange_next(x, r, reply).0) < exchange_rank(x),
        exchange_next(x, r, reply).1 is Finish <==> exchange_next(x, r, reply).0.phase == ExchangePhase::Over,
{
}

/// Only the completion of this very request finishes an exchange with a
/// reply, and it reports no failure.
pub proof fn lemma_exchange_matches_reply(x: Exchange, r: std::result::Result<(), ErrorView>, reply: Seq<u8>)
    requires
        exchange_next(x, r, reply).1 is Finish,
        exchange_next(x, r, reply).1->Finish_0 is Ok,
    ensures
        exchange_next(x, r, reply).1->Finish_0->Ok_0 == reply,
        reply.len() >= 12,
        le32_at(reply, 0) == x.msg_type + COMPLETION,
        le32_at(reply, 8) == x.id,
        reply.len() >= 16 ==> le32_at(reply, 12) == 0,
{
}

// ----- the requests themselves -----------------------------------------------------------

/// The INITIALIZE_CMPLT fields we use.
#[derive(Debug, Clone, Copy, PartialEq, Eq, Structural)]
pub struct InitInfo {
    /// Largest transfer the device accepts from the host.
    pub max_transfer_size: u32,
}

/// The body of INITIALIZE, announcing the largest transfer we will read.
pub fn initialize_body(host_max_transfer: u32) -> (r: Vec<u8>)
    ensures
        r@ == u32_bytes(1) + u32_bytes(0) + u32_bytes(host_max_transfer),
{
    let mut body: Vec<u8> = Vec::new();
    // major version, minor version
    put32(&mut body, 1);
    put32(&mut body, 0);
    put32(&mut body, host_max_transfer);
    assert(body@ =~= u32_bytes(1) + u32_bytes(0) + u32_bytes(host_max_transfer));
    body
}

/// Interprets the reply to INITIALIZE.
pub fn initialize_reply(r: &[u8]) -> (x: Result<InitInfo>)
    ensures
        r@.len() < 40 ==> x is Err && x->Err_0@ == message(ErrorKind::Io, "short RNDIS INITIALIZE reply"@),
        r@.len() >= 40 ==> x == Ok::<InitInfo, Error>(InitInfo { max_transfer_size: le32_at(r@, 36) }),
{
    if r.len() < 40 {
        return Err(Error::with_message(ErrorKind::Io, "short RNDIS INITIALIZE reply"));
    }
    Ok(InitInfo { max_transfer_size: le32(r, 36) })
}

/// The body of a QUERY for a value of `expect` bytes, or of a SET.
pub open spec fn oid_body(oid: u32, len: int, value: Seq<u8>) -> Seq<u8> {
    u32_bytes(oid) + u32_bytes(len as u32) + u32_bytes(20) + u32_bytes(0) + value
}

fn oid_header(oid: u32, len: u32) -> (r: Vec<u8>)
    ensures
        r@ == u32_bytes(oid) + u32_bytes(len) + u32_bytes(20) + u32_bytes(0),
        r@.len() == 16,
{
    let mut body: Vec<u8> = Vec::new();
    put32(&mut body, oid);
    put32(&mut body, len);
    // buffer offset, from byte 8; device VC handle
    put32(&mut body, 20);
    put32(&mut body, 0);
    assert(body@ =~= u32_bytes(oid) + u32_bytes(len) + u32_bytes(20) + u32_bytes(0));
    body
}

/// The body of a QUERY for a value of `expect` bytes.
pub fn query_body(oid: u32, expect: u16) -> (r: Vec<u8>)
    ensures
        r@ == oid_body(oid, expect as int, zeros(expect as int)),
{
    let mut body = oid_header(oid, expect as u32);
    bytes::pad_to(&mut body, 16 + expect as usize);
    body
}

/// The body of a SET.
pub fn set_body(oid: u32, value: &[u8]) -> (r: Vec<u8>)
    requires
        value@.len() <= u32::MAX,
    ensures
        r@ == oid_body(oid, value@.len() as int, value@),
{
    let mut body = oid_header(oid, value.len() as u32);
    bytes::put(&mut body, value);
    body
}

/// The value in the reply to a QUERY, if it lies within the reply.
pub open spec fn queried_value(r: Seq<u8>) -> Option<Seq<u8>> {
    let len = le32_at(r, 16) as int;
    let off = 8 + le32_at(r, 20) as int;
    if off + len <= r.len() {
        Some(r.subrange(off, off + len))
    } else {
        None
    }
}

/// Interprets the reply to a QUERY.
pub fn query_reply(r: &[u8]) -> (x: Result<Vec<u8>>)
    ensures
        match queried_value(r@) {
            Some(v) => x is Ok && x->Ok_0@ == v,
            None => x is Err && x->Err_0@ == message(ErrorKind::Io, "malformed RNDIS QUERY reply"@),
        },
{
    let len: u64 = le32(r, 16) as u64;
    let off: u64 = 8 + le32(r, 20) as u64;
    if off + len <= r.len() as u64 {
        Ok(bytes::copy_range(r, off as usize, (off + len) as usize))
    } else {
        Err(Error::with_message(ErrorKind::Io, "malformed RNDIS QUERY reply"))
    }
}

/// A 32-bit value in the reply to a QUERY.
pub open spec fn queried_u32(
    r: std::result::Result<Seq<u8>, ErrorView>,
) -> std::result::Result<u32, ErrorView> {
    match r {
        Err(e) => Err(e),
        Ok(reply) => match queried_value(reply) {
            None => Err(message(ErrorKind::Io, "malformed RNDIS QUERY reply"@)),
            Some(v) => if v.len() < 4 {
                Err(message(ErrorKind::Io, "short RNDIS OID value"@))
            } else {
                Ok(le32_at(v, 0))
            },
        },
    }
}

/// Interprets the outcome of a QUERY for a 32-bit value.
pub fn query_u32(r: Result<Vec<u8>>) -> (x: Result<u32>)
    ensures
        outcome(x) == queried_u32(bytes_outcome(r)),
{
    match r {
        Err(e) => Err(e),
        Ok(reply) => match query_reply(reply.as_slice()) {
            Err(e) => Err(e),
            Ok(v) => {
                if v.len() < 4 {
                    return Err(Error::with_message(ErrorKind::Io, "short RNDIS OID value"));
                }
                Ok(le32(v.as_slice(), 0))
            },
        },
    }
}

/// Where the message that sets a number holds what: type 5, the length, the
/// ID, the object, the size and the offset of the value, and the value.
pub proof fn lemma_set_message(c: Control, oid: u32, value: u32)
    ensures
        ({
            let a = request_action(c, 5, oid_body(oid, 4, u32_bytes(value)));
            let m = a->Send_message;
            &&& a is Send
            &&& a->Send_setup.length == 32
            &&& m.len() == 32
            &&& le32_at(m, 0) == 5
            &&& le32_at(m, 4) == 32
            &&& le32_at(m, 8) == c.next_id
            &&& le32_at(m, 12) == oid
            &&& le32_at(m, 16) == 4
            &&& le32_at(m, 20) == 20
            &&& le32_at(m, 24) == 0
            &&& le32_at(m, 28) == value
        }),
{
    let v = u32_bytes(value);
    let b = oid_body(oid, 4, v);
    assert(v.len() == 4);
    assert(b.len() == 20);
    let m = request_bytes(5, c.next_id, b);
    lemma_request_layout(5, c.next_id, b);
    lemma_oid_body_layout(oid, 4, v);
    assert forall|k: int| 0 <= k < 20 implies byte_at(m, 12 + k) == byte_at(b, k) by {
        assert(m[12 + k] == b[k]);
    }
    lemma_same_number(m, 12, b, 0);
    lemma_same_number(m, 16, b, 4);
    lemma_same_number(m, 20, b, 8);
    lemma_same_number(m, 24, b, 12);
    lemma_same_number(m, 28, b, 16);
}

proof fn lemma_same_number(a: Seq<u8>, i: int, b: Seq<u8>, j: int)
    requires
        forall|k: int| 0 <= k < 4 ==> byte_at(a, #[trigger] (i + k)) == byte_at(b, j + k),
    ensures
        le32_at(a, i) == le32_at(b, j),
{
    assert(byte_at(a, i + 0) == byte_at(b, j + 0));
    assert(byte_at(a, i + 1) == byte_at(b, j + 1));
    assert(byte_at(a, i + 2) == byte_at(b, j + 2));
    assert(byte_at(a, i + 3) == byte_at(b, j + 3));
}

/// Every control message starts with its type, its length and its ID; then
/// comes the body.
pub proof fn lemma_request_layout(msg_type: u32, id: u32, body: Seq<u8>)
    requires
        12 + body.len() <= u32::MAX,
    ensures
        ({
            let m = request_bytes(msg_type, id, body);
            &&& m.len() == 12 + body.len()
            &&& le32_at(m, 0) == msg_type
            &&& le32_at(m, 4) == m.len()
            &&& le32_at(m, 8) == id
            &&& m.skip(12) == body
        }),
{
    let m = request_bytes(msg_type, id, body);
    let n = (12 + body.len()) as u32;
    crate::bytes::lemma_written_byte_order(0, msg_type, 0);
    crate::bytes::lemma_written_byte_order(0, n, 0);
    crate::bytes::lemma_written_byte_order(0, id, 0);
    assert(m.skip(12) =~= body);
    assert forall|k: int| 0 <= k < 4 implies byte_at(m, #[trigger] (0 + k)) == u32_bytes(msg_type)[k] by {
    }
    assert(m[0] == u32_bytes(msg_type)[0] && m[1] == u32_bytes(msg_type)[1] && m[2] == u32_bytes(msg_type)[2] && m[3]
        == u32_bytes(msg_type)[3]);
    assert(m[4] == u32_bytes(n)[0] && m[5] == u32_bytes(n)[1] && m[6] == u32_bytes(n)[2] && m[7] == u32_bytes(n)[3]);
    assert(m[8] == u32_bytes(id)[0] && m[9] == u32_bytes(id)[1] && m[10] == u32_bytes(id)[2] && m[11] == u32_bytes(
        id,
    )[3]);
}

/// A query or a setting names the object, then the size of the value and its
/// offset, which is 20, then a zero and the value.
pub proof fn lemma_oid_body_layout(oid: u32, len: int, value: Seq<u8>)
    requires
        0 <= len <= u32::MAX,
    ensures
        ({
            let b = oid_body(oid, len, value);
            &&& b.len() == 16 + value.len()
            &&& le32_at(b, 0) == oid
            &&& le32_at(b, 4) == len
            &&& le32_at(b, 8) == 20
            &&& le32_at(b, 12) == 0
            &&& b.skip(16) == value
            &&& value == u32_bytes(le32_at(value, 0)) ==> le32_at(b, 16) == le32_at(value, 0)
        }),
        forall|v: u32| #[trigger] le32_at(u32_bytes(v), 0) == v,
{
    let b = oid_body(oid, len, value);
    let n = len as u32;
    assert(b.skip(16) =~= value);
    crate::bytes::lemma_written_byte_order(0, oid, 0);
    crate::bytes::lemma_written_byte_order(0, n, 0);
    crate::bytes::lemma_written_byte_order(0, 20, 0);
    crate::bytes::lemma_written_byte_order(0, 0, 0);
    assert(b[0] == u32_bytes(oid)[0] && b[1] == u32_bytes(oid)[1] && b[2] == u32_bytes(oid)[2] && b[3] == u32_bytes(
        oid,
    )[3]);
    assert(b[4] == u32_bytes(n)[0] && b[5] == u32_bytes(n)[1] && b[6] == u32_bytes(n)[2] && b[7] == u32_bytes(n)[3]);
    assert(b[8] == u32_bytes(20)[0] && b[9] == u32_bytes(20)[1] && b[10] == u32_bytes(20)[2] && b[11] == u32_bytes(
        20,
    )[3]);
    assert(b[12] == u32_bytes(0)[0] && b[13] == u32_bytes(0)[1] && b[14] == u32_bytes(0)[2] && b[15] == u32_bytes(
        0,
    )[3]);
    if value == u32_bytes(le32_at(value, 0)) {
        assert forall|k: int| 0 <= k < 4 implies byte_at(b, #[trigger] (16 + k)) == byte_at(value, 0 + k) by {
            assert(b[16 + k] == value[k]);
        }
        lemma_same_number(b, 16, value, 0);
    }
    assert forall|v: u32| #[trigger] le32_at(u32_bytes(v), 0) == v by {
        crate::bytes::lemma_written_byte_order(0, v, 0);
    }
}

/// Where the message that asks for a value holds what: type 4, the length, the
/// ID, the object, and the room for the value.
pub proof fn lemma_query_message(c: Control, oid: u32, expect: int)
    requires
        0 <= expect <= 64,
    ensures
        ({
            let a = request_action(c, 4, oid_body(oid, expect, zeros(expect)));
            let m = a->Send_message;
            &&& a is Send
            &&& m.len() == 28 + expect
            &&& le32_at(m, 0) == 4
            &&& le32_at(m, 4) == m.len()
            &&& le32_at(m, 8) == c.next_id
            &&& le32_at(m, 12) == oid
            &&& le32_at(m, 16) == expect
            &&& le32_at(m, 20) == 20
        }),
{
    let b = oid_body(oid, expect, zeros(expect));
    let m = request_bytes(4, c.next_id, b);
    lemma_oid_body_layout(oid, expect, zeros(expect));
    lemma_request_layout(4, c.next_id, b);
    assert forall|k: int| 0 <= k < 16 implies byte_at(m, #[trigger] (12 + k)) == byte_at(b, k) by {
        assert(m[12 + k] == b[k]);
    }
    assert forall|k: int| 0 <= k < 4 implies byte_at(m, #[trigger] (16 + k)) == byte_at(b, 4 + k) by {
        assert(m[16 + k] == b[4 + k]);
    }
    assert forall|k: int| 0 <= k < 4 implies byte_at(m, #[trigger] (20 + k)) == byte_at(b, 8 + k) by {
        assert(m[20 + k] == b[8 + k]);
    }
    lemma_same_number(m, 12, b, 0);
    lemma_same_number(m, 16, b, 4);
    lemma_same_number(m, 20, b, 8);
}

/// A packet message: type 1, its length, the offset 36, the length of the
/// frame, 28 zeros, and the frame from byte 44 on; padded by one zero where it
/// would end on a packet boundary.
pub proof fn lemma_packet_layout(frame: Seq<u8>, pad_multiple: int)
    requires
        44 + frame.len() <= u32::MAX,
    ensures
        ({
            let p = packet_bytes(frame, pad_multiple);
            &&& le32_at(p, 0) == 1
            &&& le32_at(p, 4) == 44 + frame.len()
            &&& le32_at(p, 8) == 36
            &&& le32_at(p, 12) == frame.len()
            &&& forall|i: int| 16 <= i < 44 ==> #[trigger] p[i] == 0
            &&& p.subrange(44, 44 + frame.len() as int) == frame
            &&& pad_multiple > 0 && (44 + frame.len()) as int % pad_multiple == 0 ==> p.len() == 45 + frame.len() && p.last() == 0
            &&& !(pad_multiple > 0 && (44 + frame.len()) as int % pad_multiple == 0) ==> p.len() == 44 + frame.len()
        }),
{
    let p = packet_bytes(frame, pad_multiple);
    let total = (44 + frame.len()) as u32;
    let len = frame.len() as u32;
    let h = packet_header(total, len);
    lemma_packet_header(total, len);
    assert(p.take(16) =~= h);
    assert forall|k: int| 0 <= k < 16 implies byte_at(p, #[trigger] (0 + k)) == byte_at(h, k) by {
        assert(p.take(16)[k] == h[k]);
    }
    assert forall|k: int| 0 <= k < 4 implies byte_at(p, #[trigger] (4 + k)) == byte_at(h, 4 + k) by {
        assert(byte_at(p, 0 + (4 + k)) == byte_at(h, 4 + k));
    }
    assert forall|k: int| 0 <= k < 4 implies byte_at(p, #[trigger] (8 + k)) == byte_at(h, 8 + k) by {
        assert(byte_at(p, 0 + (8 + k)) == byte_at(h, 8 + k));
    }
    assert forall|k: int| 0 <= k < 4 implies byte_at(p, #[trigger] (12 + k)) == byte_at(h, 12 + k) by {
        assert(byte_at(p, 0 + (12 + k)) == byte_at(h, 12 + k));
    }
    lemma_same_number(p, 0, h, 0);
    lemma_same_number(p, 4, h, 4);
    lemma_same_number(p, 8, h, 8);
    lemma_same_number(p, 12, h, 12);
    assert(p.subrange(16, 44) =~= zeros(28));
    assert forall|i: int| 16 <= i < 44 implies #[trigger] p[i] == 0 by {
        assert(p.subrange(16, 44)[i - 16] == zeros(28)[i - 16]);
    }
    assert(p.subrange(44, 44 + frame.len() as int) =~= frame);
}

/// The link is up or down as an indication says; no other message speaks of it.
pub proof fn lemma_link_indications(m: Seq<u8>)
    requires
        m.len() >= 12,
    ensures
        link_indicated(m) == Some(true) <==> le32_at(m, 0) == 7 && le32_at(m, 8) == 0x4001_000b,
        link_indicated(m) == Some(false) <==> le32_at(m, 0) == 7 && le32_at(m, 8) == 0x4001_000c,
{
}

/// A keep-alive is answered by its completion, under its own ID and with
/// status 0.
pub proof fn lemma_keepalive_answer(id: u32)
    ensures
        keepalive_ack(id).len() == 16,
        le32_at(keepalive_ack(id), 0) == 0x8000_0008,
        le32_at(keepalive_ack(id), 4) == 16,
        le32_at(keepalive_ack(id), 8) == id,
        le32_at(keepalive_ack(id), 12) == 0,
{
    let m = keepalive_ack(id);
    bytes::lemma_written_byte_order(0, 0x8000_0008, 0);
    bytes::lemma_written_byte_order(0, 16, 0);
    bytes::lemma_written_byte_order(0, id, 0);
    bytes::lemma_written_byte_order(0, 0, 0);
    assert(m[0] == u32_bytes(0x8000_0008)[0] && m[1] == u32_bytes(0x8000_0008)[1] && m[2] == u32_bytes(0x8000_0008)[2]
        && m[3] == u32_bytes(0x8000_0008)[3]);
    assert(m[4] == u32_bytes(16)[0] && m[5] == u32_bytes(16)[1] && m[6] == u32_bytes(16)[2] && m[7] == u32_bytes(
        16,
    )[3]);
    assert(m[8] == u32_bytes(id)[0] && m[9] == u32_bytes(id)[1] && m[10] == u32_bytes(id)[2] && m[11] == u32_bytes(
        id,
    )[3]);
    assert(m[12] == u32_bytes(0)[0] && m[13] == u32_bytes(0)[1] && m[14] == u32_bytes(0)[2] && m[15] == u32_bytes(
        0,
    )[3]);
}

/// Messages are sent by request 0 and fetched by request 1, both to the
/// control interface.
pub proof fn lemma_message_requests(interface: u8, length: int)
    requires
        0 <= length <= 0xffff,
    ensures
        send_setup(interface, length).request_type == 0x21,
        send_setup(interface, length).request == 0,
        send_setup(interface, length).value == 0,
        send_setup(interface, length).index == interface,
        send_setup(interface, length).length == length,
        response_setup(interface).request_type == 0xa1,
        response_setup(interface).request == 1,
        response_setup(interface).index == interface,
        response_setup(interface).length == 1025,
{
}

/// Requests are numbered one after the other, and 0 is never a number.
pub proof fn lemma_request_ids(id: u32)
    ensures
        id < u32::MAX ==> id_after(id) == id + 1,
        id_after(id) != 0,
        id_after(id) != id,
{
}

/// An exchange is over with the reply that completes its own request: the same
/// type with bit 31 set, and the same ID. Its status decides; anything else is
/// passed over.
pub proof fn lemma_replies_are_matched(x: Exchange, reply: Seq<u8>)
    requires
        x.phase == ExchangePhase::Reading,
        x.msg_type < 0x8000_0000,
        x.tries > 0,
    ensures
        ({
            let (y, a) = exchange_next(x, Ok(()), reply);
            let ours = reply.len() >= 12 && le32_at(reply, 0) == x.msg_type + 0x8000_0000 && le32_at(reply, 8) == x.id;
            &&& ours <==> a is Finish
            &&& ours && reply.len() >= 16 && le32_at(reply, 12) != 0 ==> a->Finish_0 is Err && a->Finish_0->Err_0.kind
                == ErrorKind::Io
            &&& ours && (reply.len() < 16 || le32_at(reply, 12) == 0) ==> a == ExchangeActionView::Finish(
                Ok::<Seq<u8>, ErrorView>(reply),
            )
            &&& !ours && reply.len() >= 12 && le32_at(reply, 0) == 8 && link_indicated(reply) is None ==> a is Send
                && a->Send_message == keepalive_ack(le32_at(reply, 8))
        }),
{
}

/// A reply is looked for 20 times, each time after a notification or, where
/// there is none, a pause; a stall means that there is none yet.
pub proof fn lemma_replies_are_waited_for(c: Control, x: Exchange, msg_type: u32, e: ErrorView)
    requires
        x.phase == ExchangePhase::Sending || x.phase == ExchangePhase::Reading,
    ensures
        exchange_of(c, msg_type).tries == 20,
        exchange_of(c, msg_type).msg_type == msg_type,
        exchange_of(c, msg_type).id == c.next_id,
        exchange_of(c, msg_type).phase == ExchangePhase::Sending,
        after_request(c).next_id == id_after(c.next_id),
        ({
            let r = if x.phase == ExchangePhase::Sending {
                Ok::<(), ErrorView>(())
            } else {
                Err(e)
            };
            let (y, a) = exchange_next(x, r, Seq::empty());
            e.kind == ErrorKind::Pipe ==> {
                &&& x.tries == 0 ==> a is Finish && a->Finish_0 is Err && a->Finish_0->Err_0.kind == ErrorKind::Timeout
                &&& x.tries > 0 ==> y.tries == x.tries - 1 && y.phase == ExchangePhase::Waiting
                &&& x.tries > 0 && x.notify_ep is None ==> a == (ExchangeActionView::Pause { time: 10_000_000 })
                &&& x.tries > 0 && x.notify_ep is Some ==> a == (ExchangeActionView::Notification {
                    endpoint: x.notify_ep->0,
                    length: 64,
                    timeout: 500_000_000,
                })
            }
        }),
{
}

/// The value in the answer to a query: its length is at byte 16 and its
/// offset, counted from byte 8, at byte 20.
pub proof fn lemma_queried_value(r: Seq<u8>)
    requires
        r.len() >= 24,
    ensures
        ({
            let len = le32_at(r, 16);
            let from = 8 + le32_at(r, 20);
            &&& queried_value(r) is Some <==> from + len <= r.len()
            &&& queried_value(r) matches Some(v) ==> v.len() == len && forall|i: int|
                0 <= i < v.len() ==> #[trigger] v[i] == r[from + i]
        }),
{
}

/// The messages of a transfer are read one after the other: one that is too
/// short, or all zeros, ends it; one that is no packet, or whose frame is not
/// inside it, ends it as malformed.
pub proof fn lemma_transfer_messages(b: Seq<u8>)
    ensures
        ({
            let from = 8 + le32_at(b, 8);
            let to = from + le32_at(b, 12);
            let total = le32_at(b, 4) as int;
            let over = b.len() < 8 || (le32_at(b, 0) == 0 && total == 0);
            let good = le32_at(b, 0) == 1 && 44 <= total && total <= b.len() && from >= 44 && to <= total;
            let rest = transfer_frames(b.skip(total));
            &&& over ==> transfer_frames(b) == (Seq::<Seq<u8>>::empty(), true)
            &&& !over && !good ==> transfer_frames(b) == (Seq::<Seq<u8>>::empty(), false)
            &&& !over && good ==> transfer_frames(b) == (seq![b.subrange(from, to)] + rest.0, rest.1)
        }),
{
}

/// A number that was asked for is in the first four bytes of the value.
pub proof fn lemma_queried_numbers(r: Seq<u8>, e: ErrorView)
    ensures
        queried_u32(Err(e)) == Err::<u32, ErrorView>(e),
        queried_value(r) is None ==> queried_u32(Ok(r)) is Err && queried_u32(Ok(r))->Err_0.kind == ErrorKind::Io,
        queried_value(r) matches Some(v) ==> {
            &&& v.len() < 4 ==> queried_u32(Ok(r)) is Err
            &&& v.len() >= 4 ==> queried_u32(Ok(r)) is Ok && queried_u32(Ok(r))->Ok_0 == v[0] + 0x100 * v[1] + 0x1_0000
                * v[2] + 0x100_0000 * v[3]
        },
{
}

} // verus!
