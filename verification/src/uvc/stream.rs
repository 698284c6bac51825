//! Video streaming: probe/commit parameters, payload parsing and frame
//! reassembly, and what the transfer loop that feeds them decides.

use crate::bytes::{self, byte, byte_at, le16, le16_at, le32, le32_at};
use crate::error::{message, plain, Error, ErrorKind, ErrorView, Result};
use crate::types::{status_error, IsoPacket, TransferStatus};
use std::collections::VecDeque;
use vstd::prelude::*;
use vstd::slice::slice_subrange;

verus! {

/// Transfers kept in flight while streaming.
pub const TRANSFERS: usize = 5;

/// Completed frames buffered for the reader before newer ones are dropped.
pub const FRAME_QUEUE: usize = 4;

// ----- probe and commit -------------------------------------------------------------

/// The video probe and commit control block (UVC 1.5 §4.3.1.1): the
/// parameters host and device agree on before streaming.
///
/// Its wire size depends on the UVC version: 26 bytes for 1.0, 34 for 1.1,
/// 48 for 1.5. Fields past the negotiated size are ignored.
#[derive(Debug, Clone, Copy, PartialEq, Eq, Hash)]
pub struct StreamControl {
    /// `bmHint`: which fields the device should keep fixed (bit 0 = frame
    /// interval).
    pub hint: u16,
    /// `bFormatIndex`.
    pub format_index: u8,
    /// `bFrameIndex`.
    pub frame_index: u8,
    /// `dwFrameInterval`, 100 ns units.
    pub frame_interval: u32,
    /// `wKeyFrameRate`.
    pub key_frame_rate: u16,
    /// `wPFrameRate`.
    pub p_frame_rate: u16,
    /// `wCompQuality`.
    pub comp_quality: u16,
    /// `wCompWindowSize`.
    pub comp_window_size: u16,
    /// `wDelay`, milliseconds.
    pub delay: u16,
    /// `dwMaxVideoFrameSize`: the largest frame the device will send.
    pub max_video_frame_size: u32,
    /// `dwMaxPayloadTransferSize`: the largest payload per (micro)frame for
    /// isochronous endpoints, per transfer for bulk ones.
    pub max_payload_transfer_size: u32,
    /// `dwClockFrequency` (UVC 1.1+).
    pub clock_frequency: u32,
    /// `bmFramingInfo` (UVC 1.1+).
    pub framing_info: u8,
    /// `bPreferedVersion` (UVC 1.1+).
    pub preferred_version: u8,
    /// `bMinVersion` (UVC 1.1+).
    pub min_version: u8,
    /// `bMaxVersion` (UVC 1.1+).
    pub max_version: u8,
    /// The UVC 1.5 tail (usage, bit depth, settings, reference frames, rate
    /// control modes, layout), kept verbatim.
    pub uvc15_tail: [u8; 14],
}

/// What a [`StreamControl`] holds.
#[verifier::ext_equal]
pub struct StreamControlView {
    pub hint: u16,
    pub format_index: u8,
    pub frame_index: u8,
    pub frame_interval: u32,
    pub key_frame_rate: u16,
    pub p_frame_rate: u16,
    pub comp_quality: u16,
    pub comp_window_size: u16,
    pub delay: u16,
    pub max_video_frame_size: u32,
    pub max_payload_transfer_size: u32,
    pub clock_frequency: u32,
    pub framing_info: u8,
    pub preferred_version: u8,
    pub min_version: u8,
    pub max_version: u8,
    pub uvc15_tail: Seq<u8>,
}

impl View for StreamControl {
    type V = StreamControlView;

    open spec fn view(&self) -> StreamControlView {
        StreamControlView {
            hint: self.hint,
            format_index: self.format_index,
            frame_index: self.frame_index,
            frame_interval: self.frame_interval,
            key_frame_rate: self.key_frame_rate,
            p_frame_rate: self.p_frame_rate,
            comp_quality: self.comp_quality,
            comp_window_size: self.comp_window_size,
            delay: self.delay,
            max_video_frame_size: self.max_video_frame_size,
            max_payload_transfer_size: self.max_payload_transfer_size,
            clock_frequency: self.clock_frequency,
            framing_info: self.framing_info,
            preferred_version: self.preferred_version,
            min_version: self.min_version,
            max_version: self.max_version,
            uvc15_tail: self.uvc15_tail@,
        }
    }
}

/// The control block size for a `bcdUVC` version.
pub open spec fn block_size(uvc_version: u16) -> usize {
    if uvc_version < 0x0110 {
        26
    } else if uvc_version < 0x0150 {
        34
    } else {
        48
    }
}

/// What a control block says; missing trailing bytes read as zero.
pub open spec fn control_of(b: Seq<u8>) -> StreamControlView {
    StreamControlView {
        hint: le16_at(b, 0),
        format_index: byte_at(b, 2),
        frame_index: byte_at(b, 3),
        frame_interval: le32_at(b, 4),
        key_frame_rate: le16_at(b, 8),
        p_frame_rate: le16_at(b, 10),
        comp_quality: le16_at(b, 12),
        comp_window_size: le16_at(b, 14),
        delay: le16_at(b, 16),
        max_video_frame_size: le32_at(b, 18),
        max_payload_transfer_size: le32_at(b, 22),
        clock_frequency: le32_at(b, 26),
        framing_info: byte_at(b, 30),
        preferred_version: byte_at(b, 31),
        min_version: byte_at(b, 32),
        max_version: byte_at(b, 33),
        uvc15_tail: Seq::new(14, |i: int| byte_at(b, 34 + i)),
    }
}

/// The first and second half of a 16-bit value, and the quarters of a 32-bit
/// one, least significant first.
pub open spec fn quarter(v: u32, k: int) -> u8 {
    if k == 0 {
        (v % 256) as u8
    } else if k == 1 {
        (v / 256 % 256) as u8
    } else if k == 2 {
        (v / 65536 % 256) as u8
    } else {
        (v / 16777216) as u8
    }
}

/// The fixed part of a control block.
#[verifier::opaque]
pub open spec fn control_head(c: StreamControlView) -> Seq<u8> {
    seq![
        (c.hint % 256) as u8,
        (c.hint / 256) as u8,
        c.format_index,
        c.frame_index,
        quarter(c.frame_interval, 0),
        quarter(c.frame_interval, 1),
        quarter(c.frame_interval, 2),
        quarter(c.frame_interval, 3),
        (c.key_frame_rate % 256) as u8,
        (c.key_frame_rate / 256) as u8,
        (c.p_frame_rate % 256) as u8,
        (c.p_frame_rate / 256) as u8,
        (c.comp_quality % 256) as u8,
        (c.comp_quality / 256) as u8,
        (c.comp_window_size % 256) as u8,
        (c.comp_window_size / 256) as u8,
        (c.delay % 256) as u8,
        (c.delay / 256) as u8,
        quarter(c.max_video_frame_size, 0),
        quarter(c.max_video_frame_size, 1),
        quarter(c.max_video_frame_size, 2),
        quarter(c.max_video_frame_size, 3),
        quarter(c.max_payload_transfer_size, 0),
        quarter(c.max_payload_transfer_size, 1),
        quarter(c.max_payload_transfer_size, 2),
        quarter(c.max_payload_transfer_size, 3),
        quarter(c.clock_frequency, 0),
        quarter(c.clock_frequency, 1),
        quarter(c.clock_frequency, 2),
        quarter(c.clock_frequency, 3),
        c.framing_info,
        c.preferred_version,
        c.min_version,
        c.max_version,
    ]
}

/// The full 48-byte control block.
pub open spec fn control_bytes(c: StreamControlView) -> Seq<u8> {
    control_head(c) + c.uvc15_tail
}

fn piece(v: u32, k: u8) -> (r: u8)
    requires
        k < 4,
    ensures
        r == quarter(v, k as int),
{
    match k {
        0 => (v % 256) as u8,
        1 => (v / 256 % 256) as u8,
        2 => (v / 65536 % 256) as u8,
        _ => (v / 16777216) as u8,
    }
}

impl StreamControl {
    /// The control block size for a `bcdUVC` version, as Linux computes it.
    pub fn wire_size(uvc_version: u16) -> (r: usize)
        ensures
            r == block_size(uvc_version),
    {
        if uvc_version < 0x0110 {
            26
        } else if uvc_version < 0x0150 {
            34
        } else {
            48
        }
    }

    /// A request for a format, frame and interval, with the interval fixed.
    pub fn new(format_index: u8, frame_index: u8, frame_interval: u32) -> (r: StreamControl)
        ensures
            r@ == (StreamControlView {
                hint: 1,
                format_index,
                frame_index,
                frame_interval,
                ..control_of(Seq::empty())
            }),
    {
        let none: Vec<u8> = Vec::new();
        assert(none@ =~= Seq::<u8>::empty());
        let mut c = StreamControl::from_bytes(none.as_slice());
        c.hint = 1;
        c.format_index = format_index;
        c.frame_index = frame_index;
        c.frame_interval = frame_interval;
        c
    }

    /// Decodes a control block; missing trailing bytes read as zero.
    pub fn from_bytes(b: &[u8]) -> (r: StreamControl)
        ensures
            r@ == control_of(b@),
    {
        let uvc15_tail: [u8; 14] = [
            byte(b, 34),
            byte(b, 35),
            byte(b, 36),
            byte(b, 37),
            byte(b, 38),
            byte(b, 39),
            byte(b, 40),
            byte(b, 41),
            byte(b, 42),
            byte(b, 43),
            byte(b, 44),
            byte(b, 45),
            byte(b, 46),
            byte(b, 47),
        ];
        assert(uvc15_tail@ =~= Seq::new(14, |i: int| byte_at(b@, 34 + i)));
        StreamControl {
            hint: le16(b, 0),
            format_index: byte(b, 2),
            frame_index: byte(b, 3),
            frame_interval: le32(b, 4),
            key_frame_rate: le16(b, 8),
            p_frame_rate: le16(b, 10),
            comp_quality: le16(b, 12),
            comp_window_size: le16(b, 14),
            delay: le16(b, 16),
            max_video_frame_size: le32(b, 18),
            max_payload_transfer_size: le32(b, 22),
            clock_frequency: le32(b, 26),
            framing_info: byte(b, 30),
            preferred_version: byte(b, 31),
            min_version: byte(b, 32),
            max_version: byte(b, 33),
            uvc15_tail,
        }
    }

    /// Encodes the full 48-byte block; send the first
    /// [`wire_size`](Self::wire_size) bytes.
    pub fn to_bytes(&self) -> (r: [u8; 48])
        ensures
            r@ == control_bytes(self@),
    {
        let t = self.uvc15_tail;
        let r: [u8; 48] = [
            (self.hint % 256) as u8,
            (self.hint / 256) as u8,
            self.format_index,
            self.frame_index,
            piece(self.frame_interval, 0),
            piece(self.frame_interval, 1),
            piece(self.frame_interval, 2),
            piece(self.frame_interval, 3),
            (self.key_frame_rate % 256) as u8,
            (self.key_frame_rate / 256) as u8,
            (self.p_frame_rate % 256) as u8,
            (self.p_frame_rate / 256) as u8,
            (self.comp_quality % 256) as u8,
            (self.comp_quality / 256) as u8,
            (self.comp_window_size % 256) as u8,
            (self.comp_window_size / 256) as u8,
            (self.delay % 256) as u8,
            (self.delay / 256) as u8,
            piece(self.max_video_frame_size, 0),
            piece(self.max_video_frame_size, 1),
            piece(self.max_video_frame_size, 2),
            piece(self.max_video_frame_size, 3),
            piece(self.max_payload_transfer_size, 0),
            piece(self.max_payload_transfer_size, 1),
            piece(self.max_payload_transfer_size, 2),
            piece(self.max_payload_transfer_size, 3),
            piece(self.clock_frequency, 0),
            piece(self.clock_frequency, 1),
            piece(self.clock_frequency, 2),
            piece(self.clock_frequency, 3),
            self.framing_info,
            self.preferred_version,
            self.min_version,
            self.max_version,
            t[0],
            t[1],
            t[2],
            t[3],
            t[4],
            t[5],
            t[6],
            t[7],
            t[8],
            t[9],
            t[10],
            t[11],
            t[12],
            t[13],
        ];
        proof {
            reveal(control_head);
        }
        assert(r@ =~= control_bytes(self@));
        r
    }
}

#[verifier::rlimit(60)]
proof fn lemma_head(c: StreamControlView)
    ensures
        control_head(c).len() == 34,
        control_head(c)[0] == (c.hint % 256) as u8,
        control_head(c)[1] == (c.hint / 256) as u8,
        control_head(c)[2] == c.format_index,
        control_head(c)[3] == c.frame_index,
        control_head(c)[4] == quarter(c.frame_interval, 0),
        control_head(c)[5] == quarter(c.frame_interval, 1),
        control_head(c)[6] == quarter(c.frame_interval, 2),
        control_head(c)[7] == quarter(c.frame_interval, 3),
        control_head(c)[8] == (c.key_frame_rate % 256) as u8,
        control_head(c)[9] == (c.key_frame_rate / 256) as u8,
        control_head(c)[10] == (c.p_frame_rate % 256) as u8,
        control_head(c)[11] == (c.p_frame_rate / 256) as u8,
        control_head(c)[12] == (c.comp_quality % 256) as u8,
        control_head(c)[13] == (c.comp_quality / 256) as u8,
        control_head(c)[14] == (c.comp_window_size % 256) as u8,
        control_head(c)[15] == (c.comp_window_size / 256) as u8,
        control_head(c)[16] == (c.delay % 256) as u8,
        control_head(c)[17] == (c.delay / 256) as u8,
        control_head(c)[18] == quarter(c.max_video_frame_size, 0),
        control_head(c)[19] == quarter(c.max_video_frame_size, 1),
        control_head(c)[20] == quarter(c.max_video_frame_size, 2),
        control_head(c)[21] == quarter(c.max_video_frame_size, 3),
        control_head(c)[22] == quarter(c.max_payload_transfer_size, 0),
        control_head(c)[23] == quarter(c.max_payload_transfer_size, 1),
        control_head(c)[24] == quarter(c.max_payload_transfer_size, 2),
        control_head(c)[25] == quarter(c.max_payload_transfer_size, 3),
        control_head(c)[26] == quarter(c.clock_frequency, 0),
        control_head(c)[27] == quarter(c.clock_frequency, 1),
        control_head(c)[28] == quarter(c.clock_frequency, 2),
        control_head(c)[29] == quarter(c.clock_frequency, 3),
        control_head(c)[30] == c.framing_info,
        control_head(c)[31] == c.preferred_version,
        control_head(c)[32] == c.min_version,
        control_head(c)[33] == c.max_version,
{
    reveal(control_head);
}

proof fn lemma_quarters(v: u32)
    ensures
        quarter(v, 0) + 256 * quarter(v, 1) + 65536 * quarter(v, 2) + 16777216 * quarter(v, 3) == v,
{
}

/// Whether the bytes of a block up to `n` are those of a control block.
spec fn starts_like(b: Seq<u8>, c: StreamControlView, n: int) -> bool {
    forall|i: int| 0 <= i < n ==> #[trigger] byte_at(b, i) == control_head(c)[i]
}

proof fn lemma_first_fields(b: Seq<u8>, c: StreamControlView)
    requires
        starts_like(b, c, 26),
    ensures
        le16_at(b, 0) == c.hint,
        byte_at(b, 2) == c.format_index,
        byte_at(b, 3) == c.frame_index,
        le32_at(b, 4) == c.frame_interval,
        le16_at(b, 8) == c.key_frame_rate,
        le16_at(b, 10) == c.p_frame_rate,
        le16_at(b, 12) == c.comp_quality,
        le16_at(b, 14) == c.comp_window_size,
        le16_at(b, 16) == c.delay,
        le32_at(b, 18) == c.max_video_frame_size,
        le32_at(b, 22) == c.max_payload_transfer_size,
{
    lemma_head(c);
    lemma_quarters(c.frame_interval);
    lemma_quarters(c.max_video_frame_size);
    lemma_quarters(c.max_payload_transfer_size);
}

/// A control block reads back as it was written.
pub proof fn lemma_control_round_trip(c: StreamControlView)
    requires
        c.uvc15_tail.len() == 14,
    ensures
        control_bytes(c).len() == 48,
        control_of(control_bytes(c)) == c,
{
    let b = control_bytes(c);
    lemma_head(c);
    assert(starts_like(b, c, 34));
    lemma_first_fields(b, c);
    lemma_quarters(c.clock_frequency);
    assert(byte_at(b, 26) == control_head(c)[26]);
    assert(byte_at(b, 27) == control_head(c)[27]);
    assert(byte_at(b, 28) == control_head(c)[28]);
    assert(byte_at(b, 29) == control_head(c)[29]);
    assert(le32_at(b, 26) == c.clock_frequency);
    assert(control_of(b).uvc15_tail =~= c.uvc15_tail);
}

proof fn lemma_word_bytes(b: Seq<u8>, at: int)
    ensures
        (le16_at(b, at) % 256) as u8 == byte_at(b, at),
        (le16_at(b, at) / 256) as u8 == byte_at(b, at + 1),
{
}

proof fn lemma_long_bytes(b: Seq<u8>, at: int)
    ensures
        quarter(le32_at(b, at), 0) == byte_at(b, at),
        quarter(le32_at(b, at), 1) == byte_at(b, at + 1),
        quarter(le32_at(b, at), 2) == byte_at(b, at + 2),
        quarter(le32_at(b, at), 3) == byte_at(b, at + 3),
{
    lemma_word_bytes(b, at);
    lemma_word_bytes(b, at + 2);
    let low = le16_at(b, at);
    let high = le16_at(b, at + 2);
    let v = le32_at(b, at);
    assert(v == low + 65536 * high);
    assert(v % 65536 == low && v / 65536 == high);
}

/// The head of a control block that was read is what it was read from.
proof fn lemma_head_back(b: Seq<u8>, i: int)
    requires
        0 <= i < 34,
    ensures
        control_head(control_of(b)).len() == 34,
        control_head(control_of(b))[i] == byte_at(b, i),
{
    lemma_head(control_of(b));
    lemma_word_bytes(b, 0);
    lemma_long_bytes(b, 4);
    lemma_word_bytes(b, 8);
    lemma_word_bytes(b, 10);
    lemma_word_bytes(b, 12);
    lemma_word_bytes(b, 14);
    lemma_word_bytes(b, 16);
    lemma_long_bytes(b, 18);
    lemma_long_bytes(b, 22);
    lemma_long_bytes(b, 26);
}

/// The bytes of a control block come back as they were read, and those that
/// were missing as zeros.
pub proof fn lemma_control_bytes_round_trip(b: Seq<u8>)
    requires
        b.len() <= 48,
    ensures
        control_bytes(control_of(b)) == b + bytes::zeros(48 - b.len()),
{
    let c = control_of(b);
    let full = b + bytes::zeros(48 - b.len());
    lemma_head_back(b, 0);
    assert forall|i: int| 0 <= i < 48 implies control_bytes(c)[i] == full[i] by {
        assert(byte_at(b, i) == full[i]);
        if i < 34 {
            lemma_head_back(b, i);
        }
    }
    assert(control_bytes(c) =~= full);
}

/// Of a control block cut to the size of UVC 1.0, the fields that fit read
/// back as they were written, and the others read as zero.
pub proof fn lemma_short_control_round_trip(c: StreamControlView)
    requires
        c.uvc15_tail.len() == 14,
    ensures
        ({
            let s = control_of(control_bytes(c).take(26));
            &&& s.hint == c.hint
            &&& s.format_index == c.format_index
            &&& s.frame_index == c.frame_index
            &&& s.frame_interval == c.frame_interval
            &&& s.key_frame_rate == c.key_frame_rate
            &&& s.p_frame_rate == c.p_frame_rate
            &&& s.comp_quality == c.comp_quality
            &&& s.comp_window_size == c.comp_window_size
            &&& s.delay == c.delay
            &&& s.max_video_frame_size == c.max_video_frame_size
            &&& s.max_payload_transfer_size == c.max_payload_transfer_size
            &&& s.clock_frequency == 0
            &&& s.framing_info == 0
            &&& s.preferred_version == 0
            &&& s.min_version == 0
            &&& s.max_version == 0
        }),
{
    let b = control_bytes(c).take(26);
    lemma_head(c);
    assert(starts_like(b, c, 26));
    lemma_first_fields(b, c);
}

// ----- frames --------------------------------------------------------------------------

/// A complete video frame.
#[derive(Debug, Clone, PartialEq, Eq)]
pub struct Frame {
    /// The frame's bytes: raw pixels, a JPEG image, or a compressed access
    /// unit, depending on the format.
    pub data: Vec<u8>,
    /// Counts frames delivered by this stream, starting at 0. A gap means
    /// frames were dropped because they were not read in time.
    pub sequence: u64,
    /// Presentation timestamp from the payload header, in device clock
    /// ticks.
    pub pts: Option<u32>,
    /// The device flagged an error in one of the frame's payloads, or a
    /// packet was lost: the data may be corrupt.
    pub error: bool,
}

/// What a [`Frame`] holds.
#[verifier::ext_equal]
pub struct FrameView {
    pub data: Seq<u8>,
    pub sequence: u64,
    pub pts: Option<u32>,
    pub error: bool,
}

impl View for Frame {
    type V = FrameView;

    open spec fn view(&self) -> FrameView {
        FrameView { data: self.data@, sequence: self.sequence, pts: self.pts, error: self.error }
    }
}

/// What several frames hold.
pub open spec fn frame_views(v: Seq<Frame>) -> Seq<FrameView> {
    Seq::new(v.len(), |i: int| v[i]@)
}

/// Rebuilds frames from payloads (UVC 1.5 §2.4.3.3), the way Linux does:
/// every payload starts with a header whose FID bit toggles between frames,
/// and whose EOF bit may mark a frame's last payload. After an EOF, payloads
/// with the same FID are ignored until it toggles. A frame whose start was
/// not seen (the one in progress when streaming began) is dropped.
#[derive(Debug)]
pub struct Assembler {
    /// The frame being built.
    pub current: Option<Frame>,
    /// Whether the first payload of the frame being built was seen.
    pub whole: bool,
    /// The FID of the last payload.
    pub last_fid: Option<u8>,
    /// The next frame to start will be complete from its first payload.
    pub at_boundary: bool,
    /// An EOF closed the last frame; wait for the FID to toggle.
    pub after_eof: bool,
    /// The number of the next frame.
    pub sequence: u64,
    /// The largest frame the device will send.
    pub max_frame_size: usize,
}

/// What an [`Assembler`] holds.
#[verifier::ext_equal]
pub struct AssemblerView {
    pub current: Option<FrameView>,
    pub whole: bool,
    pub last_fid: Option<u8>,
    pub at_boundary: bool,
    pub after_eof: bool,
    pub sequence: u64,
    pub max_frame_size: usize,
}

impl View for Assembler {
    type V = AssemblerView;

    open spec fn view(&self) -> AssemblerView {
        AssemblerView {
            current: match self.current {
                Some(f) => Some(f@),
                None => None,
            },
            whole: self.whole,
            last_fid: self.last_fid,
            at_boundary: self.at_boundary,
            after_eof: self.after_eof,
            sequence: self.sequence,
            max_frame_size: self.max_frame_size,
        }
    }
}

/// An assembler that has not seen anything.
pub open spec fn fresh_assembler(max_frame_size: usize) -> AssemblerView {
    AssemblerView {
        current: None,
        whole: false,
        last_fid: None,
        at_boundary: false,
        after_eof: false,
        sequence: 0,
        max_frame_size,
    }
}

/// An assembler whose frame in progress is damaged.
pub open spec fn damaged(a: AssemblerView) -> AssemblerView {
    AssemblerView {
        current: match a.current {
            Some(f) => Some(FrameView { error: true, ..f }),
            None => None,
        },
        ..a
    }
}

/// An assembler after the frame in progress ended, and the frame if it was
/// whole and not empty.
pub open spec fn finished(a: AssemblerView) -> (AssemblerView, Seq<FrameView>) {
    let rest = AssemblerView { current: None, ..a };
    match a.current {
        Some(f) => if a.whole && f.data.len() > 0 {
            (
                AssemblerView { sequence: (a.sequence + 1) as u64, ..rest },
                seq![FrameView { sequence: a.sequence, ..f }],
            )
        } else {
            (rest, Seq::empty())
        },
        None => (rest, Seq::empty()),
    }
}

/// The most bytes that a frame may grow to: twice what the device declared.
pub open spec fn growth_limit(max_frame_size: int) -> int {
    if max_frame_size < 1 {
        2
    } else {
        2 * max_frame_size
    }
}

/// A frame with the data of one more payload. A runaway frame stops growing
/// and counts as damaged.
pub open spec fn with_payload(f: FrameView, err: bool, pts: Option<u32>, data: Seq<u8>, limit: int) -> FrameView {
    let fits = f.data.len() + data.len() <= limit;
    FrameView {
        data: if fits {
            f.data + data
        } else {
            f.data
        },
        sequence: f.sequence,
        pts: if f.pts is Some {
            f.pts
        } else {
            pts
        },
        error: f.error || err || !fits,
    }
}

/// An assembler after the data of one more payload.
pub open spec fn absorbed(a: AssemblerView, err: bool, pts: Option<u32>, data: Seq<u8>) -> AssemblerView {
    let f = match a.current {
        Some(f) => f,
        None => FrameView { data: Seq::empty(), sequence: 0, pts: None, error: false },
    };
    AssemblerView {
        current: Some(with_payload(f, err, pts, data, growth_limit(a.max_frame_size as int))),
        whole: if a.current is Some {
            a.whole
        } else {
            a.at_boundary
        },
        ..a
    }
}

/// Whether a payload's header is well formed.
pub open spec fn header_ok(p: Seq<u8>) -> bool {
    2 <= p[0] <= p.len()
}

/// The FID bit of a payload.
pub open spec fn fid_of(p: Seq<u8>) -> u8 {
    p[1] % 2
}

/// The EOF bit of a payload.
pub open spec fn eof_of(p: Seq<u8>) -> bool {
    p[1] / 2 % 2 == 1
}

/// The timestamp of a payload.
pub open spec fn pts_of(p: Seq<u8>) -> Option<u32> {
    if p[1] / 4 % 2 == 1 && p[0] >= 6 {
        Some(le32_at(p, 2))
    } else {
        None
    }
}

/// An assembler after a payload's FID was looked at, with the frame that its
/// toggling ended.
pub open spec fn after_fid(a: AssemblerView, fid: u8) -> (AssemblerView, Seq<FrameView>) {
    if a.last_fid is Some && a.last_fid->0 != fid {
        let (b, out) = finished(a);
        (AssemblerView { at_boundary: true, after_eof: false, last_fid: Some(fid), ..b }, out)
    } else {
        (AssemblerView { last_fid: Some(fid), ..a }, Seq::empty())
    }
}

/// An assembler after one payload, and the frames that it completed.
pub open spec fn payload_next(a: AssemblerView, p: Seq<u8>) -> (AssemblerView, Seq<FrameView>) {
    if p.len() < 2 {
        (a, Seq::empty())
    } else if !header_ok(p) {
        (damaged(a), Seq::empty())
    } else {
        let (b, out) = after_fid(a, fid_of(p));
        if b.after_eof {
            (b, out)
        } else {
            let c = absorbed(b, p[1] / 64 % 2 == 1, pts_of(p), p.skip(p[0] as int));
            if eof_of(p) {
                let (d, more) = finished(c);
                (AssemblerView { at_boundary: true, after_eof: true, ..d }, out + more)
            } else {
                (c, out)
            }
        }
    }
}

impl Assembler {
    /// What holds of every assembler: twice the largest frame is a size.
    pub open spec fn wf(&self) -> bool {
        self.max_frame_size <= usize::MAX / 2 && self.max_frame_size < usize::MAX
    }

    /// An assembler for frames of up to `max_frame_size` bytes.
    pub fn new(max_frame_size: usize) -> (r: Assembler)
        ensures
            r@ == fresh_assembler(max_frame_size),
    {
        Assembler {
            current: None,
            whole: false,
            last_fid: None,
            at_boundary: false,
            after_eof: false,
            sequence: 0,
            max_frame_size,
        }
    }

    /// Marks the frame being built as damaged (a lost packet).
    pub fn lost(&mut self)
        ensures
            final(self)@ == damaged(old(self)@),
    {
        let current = self.current.take();
        match current {
            Some(f) => {
                let mut f = f;
                f.error = true;
                self.current = Some(f);
            },
            None => {},
        }
    }

    /// Feeds one payload; any frame it completes is returned.
    pub fn payload(&mut self, p: &[u8]) -> (r: Vec<Frame>)
        requires
            old(self).wf(),
            old(self).sequence <= u64::MAX - 2,
        ensures
            final(self).wf(),
            (final(self)@, frame_views(r@)) == payload_next(old(self)@, p@),
            r@.len() <= 2,
            final(self).sequence == old(self).sequence + r@.len(),
    {
        let mut out: Vec<Frame> = Vec::new();
        assert(frame_views(out@) =~= Seq::empty());
        if p.len() < 2 {
            // empty packet: nothing was sent this interval
            return out;
        }
        let hlen: usize = p[0] as usize;
        let flags: u8 = p[1];
        if hlen < 2 || hlen > p.len() {
            self.lost();
            return out;
        }
        let fid: u8 = flags % 2;
        let pts: Option<u32> = if flags / 4 % 2 == 1 && hlen >= 6 {
            Some(le32(p, 2))
        } else {
            None
        };
        let data = slice_subrange(p, hlen, p.len());
        assert(data@ =~= p@.skip(hlen as int));
        self.see_fid(fid, &mut out);
        if self.after_eof {
            return out;
        }
        let ghost mid = frame_views(out@);
        self.absorb(flags / 64 % 2 == 1, pts, data);
        if flags / 2 % 2 == 1 {
            self.finish(&mut out);
            self.at_boundary = true;
            self.after_eof = true;
        }
        out
    }

    fn see_fid(&mut self, fid: u8, out: &mut Vec<Frame>)
        requires
            old(self).wf(),
            old(self).sequence < u64::MAX,
            old(out)@.len() == 0,
        ensures
            final(self).wf(),
            (final(self)@, frame_views(final(out)@)) == after_fid(old(self)@, fid),
            final(out)@.len() <= 1,
            final(self).sequence == old(self).sequence + final(out)@.len(),
    {
        let toggled = match self.last_fid {
            Some(last) => last != fid,
            None => false,
        };
        assert(frame_views(out@) =~= Seq::empty());
        if toggled {
            self.finish(out);
            self.at_boundary = true;
            self.after_eof = false;
            assert(frame_views(out@) =~= finished(old(self)@).1);
        }
        self.last_fid = Some(fid);
    }

    fn absorb(&mut self, err: bool, pts: Option<u32>, data: &[u8])
        requires
            old(self).wf(),
        ensures
            final(self).wf(),
            final(self)@ == absorbed(old(self)@, err, pts, data@),
    {
        let capacity: usize = self.max_frame_size;
        let limit: usize = if capacity < 1 {
            2
        } else {
            2 * capacity
        };
        let mut frame = match self.current.take() {
            Some(f) => f,
            None => {
                self.whole = self.at_boundary;
                Frame { data: Vec::new(), sequence: 0, pts: None, error: false }
            },
        };
        let ghost before = frame@;
        frame.error = frame.error || err;
        if frame.pts.is_none() {
            frame.pts = pts;
        }
        if frame.data.len() <= limit && data.len() <= limit - frame.data.len() {
            bytes::put(&mut frame.data, data);
        } else {
            // runaway frame: stop growing it
            frame.error = true;
        }
        self.current = Some(frame);
        assert(old(self)@.current is None ==> before.data =~= Seq::<u8>::empty());
    }

    fn finish(&mut self, out: &mut Vec<Frame>)
        requires
            old(self).wf(),
            old(self).sequence < u64::MAX,
        ensures
            final(self).wf(),
            final(self)@ == finished(old(self)@).0,
            frame_views(final(out)@) == frame_views(old(out)@) + finished(old(self)@).1,
            final(out)@.len() == old(out)@.len() + finished(old(self)@).1.len(),
            final(self).sequence == old(self).sequence + finished(old(self)@).1.len(),
    {
        let ghost before = frame_views(out@);
        match self.current.take() {
            Some(f) => {
                if self.whole && f.data.len() > 0 {
                    let mut f = f;
                    f.sequence = self.sequence;
                    self.sequence = self.sequence + 1;
                    out.push(f);
                    assert(frame_views(out@) =~= before.push(f@));
                    assert(before.push(f@) =~= before + finished(old(self)@).1);
                    return;
                }
            },
            None => {},
        }
        assert(frame_views(out@) =~= before + finished(old(self)@).1);
    }
}

// ----- what holds of frames -----------------------------------------------------------

/// Every frame that is delivered is whole, is not empty, and carries the next
/// number.
pub proof fn lemma_delivered_frames(a: AssemblerView, p: Seq<u8>)
    requires
        a.sequence <= u64::MAX - 2,
    ensures
        ({
            let (b, out) = payload_next(a, p);
            &&& out.len() <= 2
            &&& b.sequence == a.sequence + out.len()
            &&& forall|i: int|
                0 <= i < out.len() ==> (#[trigger] out[i]).sequence == a.sequence + i && out[i].data.len() > 0
        }),
{
}

/// Nothing is delivered of a frame whose start was not seen: until a boundary
/// was seen, no payload completes a frame.
pub proof fn lemma_partial_frames_are_dropped(a: AssemblerView, p: Seq<u8>)
    requires
        !a.at_boundary,
        a.current is Some ==> !a.whole,
        a.sequence <= u64::MAX - 2,
    ensures
        ({
            let (b, out) = payload_next(a, p);
            eof_of(p) || out.len() == 0
        }),
        (a.last_fid is None || a.last_fid->0 == fid_of(p)) ==> payload_next(a, p).1.len() == 0,
{
}

/// After an EOF, payloads with the same FID are ignored until it toggles.
pub proof fn lemma_after_eof_is_ignored(a: AssemblerView, p: Seq<u8>)
    requires
        p.len() >= 2,
        header_ok(p),
        a.after_eof,
        a.last_fid == Some(fid_of(p)),
    ensures
        payload_next(a, p) == (a, Seq::<FrameView>::empty()),
{
}

/// A lost packet or a payload with the error bit marks the frame in progress,
/// and the mark stays until the frame is delivered.
pub proof fn lemma_errors_stick(a: AssemblerView, err: bool, pts: Option<u32>, data: Seq<u8>)
    ensures
        a.current is Some ==> damaged(a).current->0.error,
        absorbed(damaged(a), err, pts, data).current->0.error || a.current is None,
        err ==> absorbed(a, err, pts, data).current->0.error,
{
}

/// An assembler after a run of payloads, and all frames that they completed.
pub open spec fn assembled(a: AssemblerView, ps: Seq<Seq<u8>>) -> (AssemblerView, Seq<FrameView>)
    decreases ps.len(),
{
    if ps.len() == 0 {
        (a, Seq::empty())
    } else {
        let (b, out) = assembled(a, ps.drop_last());
        let (c, more) = payload_next(b, ps.last());
        (c, out + more)
    }
}

/// Whether a payload has a well-formed header.
pub open spec fn has_header(p: Seq<u8>) -> bool {
    p.len() >= 2 && header_ok(p)
}

/// What follows a payload's header.
pub open spec fn body_of(p: Seq<u8>) -> Seq<u8> {
    p.skip(p[0] as int)
}

/// The FID of the last well-formed payload.
pub open spec fn last_fid_of(ps: Seq<Seq<u8>>) -> Option<u8>
    decreases ps.len(),
{
    if ps.len() == 0 {
        None
    } else if has_header(ps.last()) {
        Some(fid_of(ps.last()))
    } else {
        last_fid_of(ps.drop_last())
    }
}

/// Whether the FID toggles at payload `s`: it differs from that of the
/// well-formed payload before it.
pub open spec fn toggles_at(ps: Seq<Seq<u8>>, s: int) -> bool {
    &&& 0 <= s < ps.len()
    &&& has_header(ps[s])
    &&& last_fid_of(ps.take(s)) is Some
    &&& last_fid_of(ps.take(s))->0 != fid_of(ps[s])
}

/// The bodies of the well-formed payloads, one after the other, without those
/// that would exceed the limit.
pub open spec fn gathered(ps: Seq<Seq<u8>>, limit: int) -> Seq<u8>
    decreases ps.len(),
{
    if ps.len() == 0 {
        Seq::empty()
    } else {
        let before = gathered(ps.drop_last(), limit);
        if has_header(ps.last()) && before.len() + body_of(ps.last()).len() <= limit {
            before + body_of(ps.last())
        } else {
            before
        }
    }
}

/// The bodies of the well-formed payloads, one after the other.
pub open spec fn bodies(ps: Seq<Seq<u8>>) -> Seq<u8>
    decreases ps.len(),
{
    if ps.len() == 0 {
        Seq::empty()
    } else if has_header(ps.last()) {
        bodies(ps.drop_last()) + body_of(ps.last())
    } else {
        bodies(ps.drop_last())
    }
}

/// Whether a frame is made of the payloads from `s` until `e`: the FID
/// toggles at the first, all of them have that FID, none but the last has the
/// EOF bit, and its data is their whole bodies in order. If the frame is not
/// marked as damaged, no body is missing, and no payload has a malformed
/// header or the error bit.
pub open spec fn made_of(ps: Seq<Seq<u8>>, s: int, e: int, f: FrameView, limit: int) -> bool {
    let part = ps.subrange(s, e);
    &&& 0 <= s < e <= ps.len()
    &&& toggles_at(ps, s)
    &&& forall|k: int| s <= k < e && has_header(#[trigger] ps[k]) ==> fid_of(ps[k]) == fid_of(ps[s])
    &&& forall|k: int| s <= k < e - 1 && has_header(#[trigger] ps[k]) ==> !eof_of(ps[k])
    &&& f.data == gathered(part, limit)
    &&& f.data.len() <= limit
    &&& !f.error ==> f.data == bodies(part)
    &&& !f.error ==> forall|k: int|
        s <= k < e && (#[trigger] ps[k]).len() >= 2 ==> header_ok(ps[k]) && ps[k][1] / 64 % 2 == 0
}

/// Whether the part of a run until `e` ends a frame: the last payload has the
/// EOF bit, or the FID toggles at the next.
pub open spec fn ends_at(ps: Seq<Seq<u8>>, e: int) -> bool {
    ||| 0 < e <= ps.len() && has_header(ps[e - 1]) && eof_of(ps[e - 1])
    ||| toggles_at(ps, e)
}

/// Whether the frames are made of these parts of a run, one after the other.
pub open spec fn frames_from(ps: Seq<Seq<u8>>, out: Seq<FrameView>, parts: Seq<(int, int)>, limit: int) -> bool {
    &&& parts.len() == out.len()
    &&& forall|i: int|
        0 <= i < out.len() ==> {
            &&& made_of(ps, (#[trigger] parts[i]).0, parts[i].1, out[i], limit)
            &&& ends_at(ps, parts[i].1)
            &&& out[i].sequence == i
            &&& out[i].data.len() > 0
        }
    &&& forall|i: int, j: int| 0 <= i < j < out.len() ==> (#[trigger] parts[i]).1 <= (#[trigger] parts[j]).0
}

/// What holds of an assembler after a run; `open` is where the frame in
/// progress started, if its start was seen.
spec fn run_ok(ps: Seq<Seq<u8>>, a: AssemblerView, out: Seq<FrameView>, parts: Seq<(int, int)>, open: int, limit: int) -> bool {
    &&& frames_from(ps, out, parts, limit)
    &&& limit == growth_limit(a.max_frame_size as int)
    &&& a.sequence == out.len() <= 2 * ps.len()
    &&& a.last_fid == last_fid_of(ps)
    &&& a.at_boundary && a.current is None ==> a.after_eof
    &&& a.after_eof ==> a.current is None
    &&& a.current is Some && a.whole ==> {
        &&& made_of(ps, open, ps.len() as int, a.current->0, limit)
        &&& forall|k: int| open <= k < ps.len() && has_header(#[trigger] ps[k]) ==> !eof_of(ps[k])
        &&& a.last_fid == Some(fid_of(ps[open]))
        &&& forall|i: int| 0 <= i < parts.len() ==> (#[trigger] parts[i]).1 <= open
    }
}

/// A frame joins those before it.
proof fn lemma_frame_joins(
    ps: Seq<Seq<u8>>,
    out: Seq<FrameView>,
    parts: Seq<(int, int)>,
    part: (int, int),
    f: FrameView,
    limit: int,
)
    requires
        frames_from(ps, out, parts, limit),
        made_of(ps, part.0, part.1, f, limit),
        ends_at(ps, part.1),
        f.sequence == out.len(),
        f.data.len() > 0,
        forall|i: int| 0 <= i < parts.len() ==> (#[trigger] parts[i]).1 <= part.0,
    ensures
        frames_from(ps, out.push(f), parts.push(part), limit),
{
    let w = parts.push(part);
    let o = out.push(f);
    assert forall|i: int| 0 <= i < o.len() implies {
        &&& made_of(ps, (#[trigger] w[i]).0, w[i].1, o[i], limit)
        &&& ends_at(ps, w[i].1)
        &&& o[i].sequence == i
        &&& o[i].data.len() > 0
    } by {
        if i < out.len() {
            assert(w[i] == parts[i]);
        }
    }
    assert forall|i: int, j: int| 0 <= i < j < o.len() implies (#[trigger] w[i]).1 <= (#[trigger] w[j]).0 by {
        assert(w[i] == parts[i]);
        if j < out.len() {
            assert(w[j] == parts[j]);
        }
    }
}

/// A frame of an earlier part of a run is a frame of the run.
proof fn lemma_run_grows(ps: Seq<Seq<u8>>, p: Seq<u8>, out: Seq<FrameView>, parts: Seq<(int, int)>, limit: int)
    requires
        frames_from(ps, out, parts, limit),
    ensures
        frames_from(ps.push(p), out, parts, limit),
{
    let qs = ps.push(p);
    assert forall|i: int| 0 <= i < out.len() implies {
        &&& made_of(qs, (#[trigger] parts[i]).0, parts[i].1, out[i], limit)
        &&& ends_at(qs, parts[i].1)
        &&& out[i].sequence == i
        &&& out[i].data.len() > 0
    } by {
        let (s, e) = parts[i];
        assert(made_of(ps, s, e, out[i], limit));
        assert(ends_at(ps, e));
        lemma_part_grows(ps, p, s, e, out[i], limit);
        if toggles_at(ps, e) {
            assert(qs.take(e) =~= ps.take(e));
        }
    }
}

proof fn lemma_part_grows(ps: Seq<Seq<u8>>, p: Seq<u8>, s: int, e: int, f: FrameView, limit: int)
    requires
        made_of(ps, s, e, f, limit),
    ensures
        made_of(ps.push(p), s, e, f, limit),
{
    let qs = ps.push(p);
    assert(qs.subrange(s, e) =~= ps.subrange(s, e));
    assert(qs.take(s) =~= ps.take(s));
    assert forall|k: int| s <= k < e implies #[trigger] qs[k] == ps[k] by {
    }
}

/// The frame in progress with one more payload that does not toggle the FID.
proof fn lemma_part_extends(ps: Seq<Seq<u8>>, p: Seq<u8>, s: int, f: FrameView, g: FrameView, limit: int)
    requires
        made_of(ps, s, ps.len() as int, f, limit),
        forall|k: int| s <= k < ps.len() && has_header(#[trigger] ps[k]) ==> !eof_of(ps[k]),
        has_header(p) ==> fid_of(p) == fid_of(ps[s]) && g == with_payload(
            f,
            p[1] / 64 % 2 == 1,
            pts_of(p),
            body_of(p),
            limit,
        ),
        p.len() >= 2 && !header_ok(p) ==> g == (FrameView { error: true, ..f }),
        p.len() < 2 ==> g == f,
    ensures
        made_of(ps.push(p), s, ps.len() as int + 1, g, limit),
{
    let qs = ps.push(p);
    let e = ps.len() as int;
    let part = qs.subrange(s, e + 1);
    assert(part.drop_last() =~= ps.subrange(s, e));
    assert(part.last() == p);
    assert(qs.take(s) =~= ps.take(s));
    assert forall|k: int| s <= k < e implies #[trigger] qs[k] == ps[k] by {
    }
    assert(qs[e] == p);
}

proof fn lemma_run_step(ps: Seq<Seq<u8>>, p: Seq<u8>, a: AssemblerView, out: Seq<FrameView>, parts: Seq<(int, int)>, open: int, limit: int) -> (r: (Seq<(int, int)>, int))
    requires
        run_ok(ps, a, out, parts, open, limit),
        2 * ps.len() <= u64::MAX - 2,
    ensures
        run_ok(ps.push(p), payload_next(a, p).0, out + payload_next(a, p).1, r.0, r.1, limit),
{
    let qs = ps.push(p);
    let n = ps.len() as int;
    let (b, more) = payload_next(a, p);
    assert(qs.drop_last() =~= ps);
    assert(qs.last() == p);
    assert(qs.take(n) =~= ps);
    lemma_run_grows(ps, p, out, parts, limit);
    if !has_header(p) {
        assert(out + more =~= out);
        if a.current is Some && a.whole {
            lemma_part_extends(ps, p, open, a.current->0, b.current->0, limit);
            assert(qs[open] == ps[open]);
            assert forall|k: int| open <= k < qs.len() && has_header(#[trigger] qs[k]) implies !eof_of(qs[k]) by {
                assert(k < n);
                assert(qs[k] == ps[k]);
            }
        }
        assert(frames_from(qs, out + more, parts, limit));
        assert(run_ok(qs, b, out + more, parts, open, limit));
        (parts, open)
    } else {
        let fid = fid_of(p);
        let (c, first) = after_fid(a, fid);
        let toggled = a.last_fid is Some && a.last_fid->0 != fid;
        let (parts1, open1) = if toggled && a.current is Some && a.whole && a.current->0.data.len() > 0 {
            (parts.push((open, n)), n)
        } else if toggled {
            (parts, n)
        } else {
            (parts, open)
        };
        let out1 = out + first;
        if toggled {
            assert(toggles_at(qs, n));
            if parts1.len() > parts.len() {
                lemma_part_grows(ps, p, open, n, a.current->0, limit);
                assert(made_of(qs, open, n, out1[out.len() as int], limit));
                assert(ends_at(qs, n));
            } else {
                assert(out1 =~= out);
            }
        } else {
            assert(out1 =~= out);
        }
        assert(frames_from(qs, out1, parts1, limit));
        assert(forall|i: int| 0 <= i < parts1.len() ==> (#[trigger] parts1[i]).1 <= n);
        if c.after_eof {
            assert(out + more =~= out1);
            assert(frames_from(qs, out + more, parts1, limit));
            assert(run_ok(qs, b, out + more, parts1, open1, limit));
            (parts1, open1)
        } else {
            let d = absorbed(c, p[1] / 64 % 2 == 1, pts_of(p), body_of(p));
            let g = d.current->0;
            if d.whole {
                if toggled {
                    let part = qs.subrange(n, n + 1);
                    assert(part.drop_last() =~= Seq::<Seq<u8>>::empty());
                    assert(part.last() == p);
                    reveal_with_fuel(gathered, 2);
                    reveal_with_fuel(bodies, 2);
                    assert(Seq::<u8>::empty() + body_of(p) =~= body_of(p));
                    assert(qs[n] == p);
                    assert(made_of(qs, n, n + 1, g, limit));
                } else {
                    assert(a.current is Some && a.whole);
                    lemma_part_extends(ps, p, open, a.current->0, g, limit);
                    assert(qs[open] == ps[open]);
                }
            }
            if eof_of(p) {
                let (e, second) = finished(d);
                let parts2 = if second.len() > 0 {
                    parts1.push((open1, n + 1))
                } else {
                    parts1
                };
                let out2 = out1 + second;
                assert(out + more =~= out2);
                if second.len() > 0 {
                    assert(made_of(qs, open1, n + 1, second[0], limit));
                    assert(ends_at(qs, n + 1));
                    assert(parts1.len() == out1.len());
                    assert(second =~= seq![second[0]]);
                    assert(out2 =~= out1.push(second[0]));
                    lemma_frame_joins(qs, out1, parts1, (open1, n + 1), second[0], limit);
                } else {
                    assert(out2 =~= out1);
                }
                assert(frames_from(qs, out + more, parts2, limit));
                assert(run_ok(qs, b, out + more, parts2, open1, limit));
                (parts2, open1)
            } else {
                assert(out + more =~= out1);
                assert forall|k: int| open1 <= k < qs.len() && has_header(#[trigger] qs[k]) && d.whole implies !eof_of(
                    qs[k],
                ) by {
                    if k < n {
                        assert(qs[k] == ps[k]);
                    }
                }
                assert(frames_from(qs, out + more, parts1, limit));
                assert(run_ok(qs, b, out + more, parts1, open1, limit));
                (parts1, open1)
            }
        }
    }
}

proof fn lemma_run_parts(max_frame_size: usize, ps: Seq<Seq<u8>>) -> (r: (Seq<(int, int)>, int))
    requires
        2 * ps.len() <= u64::MAX,
    ensures
        run_ok(
            ps,
            assembled(fresh_assembler(max_frame_size), ps).0,
            assembled(fresh_assembler(max_frame_size), ps).1,
            r.0,
            r.1,
            growth_limit(max_frame_size as int),
        ),
    decreases ps.len(),
{
    if ps.len() == 0 {
        (Seq::empty(), 0)
    } else {
        let w = ps.drop_last();
        let (parts, open) = lemma_run_parts(max_frame_size, w);
        assert(w.push(ps.last()) =~= ps);
        let (a, out) = assembled(fresh_assembler(max_frame_size), w);
        lemma_run_step(w, ps.last(), a, out, parts, open, growth_limit(max_frame_size as int))
    }
}

/// Over any run of payloads, the frames that come out are numbered from 0
/// without gaps, are not empty and at most twice the declared size, and are
/// made of successive parts of the run: each starts where the FID toggles, so
/// that nothing from before the first boundary is delivered and nothing from
/// between an EOF and the next toggle either, consists of the whole bodies of
/// payloads with one FID in order, and ends at an EOF or the next toggle.
pub proof fn lemma_frames_are_parts_of_the_run(max_frame_size: usize, ps: Seq<Seq<u8>>)
    requires
        2 * ps.len() <= u64::MAX,
    ensures
        exists|parts: Seq<(int, int)>|
            frames_from(
                ps,
                assembled(fresh_assembler(max_frame_size), ps).1,
                parts,
                growth_limit(max_frame_size as int),
            ),
{
    let (parts, open) = lemma_run_parts(max_frame_size, ps);
    assert(frames_from(
        ps,
        assembled(fresh_assembler(max_frame_size), ps).1,
        parts,
        growth_limit(max_frame_size as int),
    ));
}

// ----- the transfer loop ---------------------------------------------------------------

/// Everything the transfer callbacks share.
#[derive(Debug)]
pub struct StreamState {
    /// The frame being built.
    pub assembler: Assembler,
    /// Frames waiting for the reader.
    pub queue: VecDeque<Frame>,
    /// Frames dropped because the queue was full.
    pub dropped: u64,
    /// Whether the stream is being stopped.
    pub stopped: bool,
    /// Why streaming ended, if it did.
    pub failure: Option<TransferStatus>,
}

/// What a [`StreamState`] holds.
#[verifier::ext_equal]
pub struct StreamStateView {
    pub assembler: AssemblerView,
    pub queue: Seq<FrameView>,
    pub dropped: u64,
    pub stopped: bool,
    pub failure: Option<TransferStatus>,
}

impl View for StreamState {
    type V = StreamStateView;

    open spec fn view(&self) -> StreamStateView {
        StreamStateView {
            assembler: self.assembler@,
            queue: frame_views(self.queue@),
            dropped: self.dropped,
            stopped: self.stopped,
            failure: self.failure,
        }
    }
}

/// A stream after completed frames were queued: the older ones are kept and
/// newer ones dropped when the reader falls behind.
pub open spec fn queued(s: StreamStateView, frames: Seq<FrameView>) -> StreamStateView
    decreases frames.len(),
{
    if frames.len() == 0 {
        s
    } else {
        let t = queued(s, frames.drop_last());
        if t.queue.len() < FRAME_QUEUE {
            StreamStateView { queue: t.queue.push(frames.last()), ..t }
        } else {
            StreamStateView { dropped: (t.dropped + 1) as u64, ..t }
        }
    }
}

/// A stream after one payload.
pub open spec fn fed(s: StreamStateView, p: Seq<u8>) -> StreamStateView {
    let (assembler, frames) = payload_next(s.assembler, p);
    queued(StreamStateView { assembler, ..s }, frames)
}

/// The payload in one packet of an isochronous transfer.
pub open spec fn packet_payload(buffer: Seq<u8>, i: int, size: int, actual: int) -> Seq<u8> {
    let start = i * size;
    let end = if start + actual < buffer.len() {
        start + actual
    } else {
        buffer.len() as int
    };
    if start < end {
        buffer.subrange(start, end)
    } else {
        Seq::empty()
    }
}

/// A stream after one packet of an isochronous transfer.
pub open spec fn packet_fed(s: StreamStateView, buffer: Seq<u8>, packets: Seq<IsoPacket>, i: int, size: int) -> StreamStateView {
    if packets[i].status != TransferStatus::Completed {
        StreamStateView { assembler: damaged(s.assembler), ..s }
    } else {
        fed(s, packet_payload(buffer, i, size, packets[i].actual_length as int))
    }
}

/// A stream after the first `n` packets of an isochronous transfer.
pub open spec fn packets_fed(s: StreamStateView, buffer: Seq<u8>, packets: Seq<IsoPacket>, n: nat, size: int) -> StreamStateView
    decreases n,
{
    if n == 0 {
        s
    } else {
        packet_fed(packets_fed(s, buffer, packets, (n - 1) as nat, size), buffer, packets, n - 1, size)
    }
}

/// What the status of a transfer means before its data is looked at.
#[derive(Debug, Clone, Copy, PartialEq, Eq, Structural)]
pub enum Verdict {
    /// It has data.
    Good,
    /// A transient error on one transfer loses data but not the stream.
    Lost,
    /// It was cancelled.
    Cancelled,
    /// The stream failed.
    Failed,
}

/// What the status of a transfer means.
pub open spec fn verdict_of(status: TransferStatus) -> Verdict {
    match status {
        TransferStatus::Completed => Verdict::Good,
        TransferStatus::Cancelled => Verdict::Cancelled,
        TransferStatus::Error | TransferStatus::Overflow | TransferStatus::TimedOut => Verdict::Lost,
        _ => Verdict::Failed,
    }
}

/// A stream after a transfer's status was looked at, before its data is.
pub open spec fn judged(s: StreamStateView, status: TransferStatus) -> StreamStateView {
    match verdict_of(status) {
        Verdict::Lost => StreamStateView { assembler: damaged(s.assembler), ..s },
        Verdict::Failed => StreamStateView { failure: Some(status), ..s },
        _ => s,
    }
}

/// Whether a transfer that ended with `status` is submitted again.
pub open spec fn resubmitted(s: StreamStateView, status: TransferStatus) -> bool {
    (verdict_of(status) == Verdict::Good || verdict_of(status) == Verdict::Lost) && !s.stopped
}

/// What waiting for a frame comes to.
#[derive(Debug)]
pub enum NextFrame {
    /// The wait is over.
    Done(Result<Frame>),
    /// Wait on.
    Wait,
}

/// What a [`NextFrame`] holds.
#[verifier::ext_equal]
pub enum NextFrameView {
    Done(std::result::Result<FrameView, ErrorView>),
    Wait,
}

impl View for NextFrame {
    type V = NextFrameView;

    open spec fn view(&self) -> NextFrameView {
        match *self {
            NextFrame::Done(Ok(f)) => NextFrameView::Done(Ok(f@)),
            NextFrame::Done(Err(e)) => NextFrameView::Done(Err(e@)),
            NextFrame::Wait => NextFrameView::Wait,
        }
    }
}

/// The error of a stream that a transfer's status ended.
pub open spec fn stream_error_of(status: TransferStatus) -> ErrorView {
    message(
        match status_error(status) {
            Some(kind) => kind,
            None => ErrorKind::Io,
        },
        "video stream stopped"@,
    )
}

/// What a reader gets; `expired` says whether its time is over.
pub open spec fn next_frame_of(s: StreamStateView, expired: bool) -> (StreamStateView, NextFrameView) {
    if s.queue.len() > 0 {
        (StreamStateView { queue: s.queue.skip(1), ..s }, NextFrameView::Done(Ok(s.queue[0])))
    } else if !expired {
        (s, NextFrameView::Wait)
    } else {
        match s.failure {
            Some(status) => (s, NextFrameView::Done(Err(stream_error_of(status)))),
            None => (s, NextFrameView::Done(Err(plain(ErrorKind::Timeout)))),
        }
    }
}

/// What holds of every stream: the queue is not over its limit, and every
/// dropped frame had a number.
pub open spec fn stream_ok(s: StreamStateView) -> bool {
    s.queue.len() <= FRAME_QUEUE && s.dropped <= s.assembler.sequence
}

/// A stream after a transfer could not be submitted again.
pub open spec fn failed_to_resubmit(s: StreamStateView, kind: ErrorKind) -> StreamStateView {
    StreamStateView {
        failure: Some(
            if kind == ErrorKind::NoDevice {
                TransferStatus::NoDevice
            } else {
                TransferStatus::Error
            },
        ),
        ..s
    }
}

impl StreamState {
    /// The state of a stream of frames of up to `max_frame_size` bytes.
    pub fn new(max_frame_size: usize) -> (r: StreamState)
        ensures
            r@ == (StreamStateView {
                assembler: fresh_assembler(max_frame_size),
                queue: Seq::empty(),
                dropped: 0,
                stopped: false,
                failure: None,
            }),
            stream_ok(r@),
    {
        let s = StreamState {
            assembler: Assembler::new(max_frame_size),
            queue: VecDeque::new(),
            dropped: 0,
            stopped: false,
            failure: None,
        };
        assert(s@.queue =~= Seq::empty());
        s
    }

    fn feed(&mut self, p: &[u8])
        requires
            old(self).assembler.wf(),
            old(self).assembler.sequence <= u64::MAX - 2,
            stream_ok(old(self)@),
        ensures
            final(self).assembler.wf(),
            stream_ok(final(self)@),
            final(self)@ == fed(old(self)@, p@),
            final(self).assembler.sequence <= old(self).assembler.sequence + 2,
            final(self).stopped == old(self).stopped,
    {
        let frames = self.assembler.payload(p);
        let ghost base = self@;
        let ghost all = frame_views(frames@);
        let ghost n = frames@.len();
        let ghost start = old(self).assembler.sequence;
        let mut left = frames;
        if left.len() == 2 {
            let second = left.pop();
            let first = left.pop();
            match (first, second) {
                (Some(a), Some(b)) => {
                    proof {
                        lemma_queued_two(base, a@, b@);
                        assert(all =~= seq![a@, b@]);
                    }
                    self.offer(a);
                    self.offer(b);
                },
                _ => {},
            }
        } else if left.len() == 1 {
            match left.pop() {
                Some(a) => {
                    proof {
                        lemma_queued_one(base, a@);
                        assert(all =~= seq![a@]);
                    }
                    self.offer(a);
                },
                None => {},
            }
        } else {
            assert(all =~= Seq::empty());
        }
    }

    fn offer(&mut self, f: Frame)
        requires
            old(self).dropped < u64::MAX,
            old(self)@.queue.len() <= FRAME_QUEUE,
        ensures
            final(self)@ == (if old(self)@.queue.len() < FRAME_QUEUE {
                StreamStateView { queue: old(self)@.queue.push(f@), ..old(self)@ }
            } else {
                StreamStateView { dropped: (old(self)@.dropped + 1) as u64, ..old(self)@ }
            }),
            final(self).assembler == old(self).assembler,
    {
        let ghost before = self.queue@;
        if self.queue.len() < FRAME_QUEUE {
            self.queue.push_back(f);
            assert(frame_views(self.queue@) =~= frame_views(before).push(f@));
        } else {
            self.dropped = self.dropped + 1;
        }
    }

    fn judge(&mut self, status: TransferStatus) -> (r: Verdict)
        ensures
            r == verdict_of(status),
            final(self)@ == judged(old(self)@, status),
            final(self).assembler.max_frame_size == old(self).assembler.max_frame_size,
    {
        match status {
            TransferStatus::Completed => Verdict::Good,
            TransferStatus::Cancelled => Verdict::Cancelled,
            TransferStatus::Error | TransferStatus::Overflow | TransferStatus::TimedOut => {
                self.assembler.lost();
                Verdict::Lost
            },
            _ => {
                self.failure = Some(status);
                Verdict::Failed
            },
        }
    }

    /// Takes a completed bulk transfer, one payload; whether to submit it
    /// again.
    pub fn bulk_completed(&mut self, status: TransferStatus, data: &[u8]) -> (r: bool)
        requires
            old(self).assembler.wf(),
            old(self).assembler.sequence <= u64::MAX - 2,
            stream_ok(old(self)@),
        ensures
            final(self).assembler.wf(),
            stream_ok(final(self)@),
            final(self)@ == (if status == TransferStatus::Completed {
                fed(old(self)@, data@)
            } else {
                judged(old(self)@, status)
            }),
            r == resubmitted(old(self)@, status),
    {
        match self.judge(status) {
            Verdict::Good => {
                self.feed(data);
                !self.stopped
            },
            Verdict::Lost => !self.stopped,
            _ => false,
        }
    }

    /// Takes a completed isochronous transfer of packets of `packet_size`
    /// bytes; whether to submit it again.
    pub fn iso_completed(
        &mut self,
        status: TransferStatus,
        buffer: &[u8],
        packets: &[IsoPacket],
        packet_size: usize,
    ) -> (r: bool)
        requires
            old(self).assembler.wf(),
            old(self).assembler.sequence + 2 * packets@.len() <= u64::MAX,
            packets@.len() * packet_size <= usize::MAX,
            stream_ok(old(self)@),
        ensures
            final(self).assembler.wf(),
            stream_ok(final(self)@),
            final(self)@ == (if status == TransferStatus::Completed {
                packets_fed(old(self)@, buffer@, packets@, packets@.len(), packet_size as int)
            } else {
                judged(old(self)@, status)
            }),
            r == resubmitted(old(self)@, status),
    {
        match self.judge(status) {
            Verdict::Good => {},
            Verdict::Lost => {
                return !self.stopped;
            },
            _ => {
                return false;
            },
        }
        let ghost start = self@;
        let mut i: usize = 0;
        while i < packets.len()
            invariant
                i <= packets@.len(),
                self.assembler.wf(),
                self.stopped == start.stopped,
                start.assembler.sequence + 2 * packets@.len() <= u64::MAX,
                self.assembler.sequence <= start.assembler.sequence + 2 * i,
                packets@.len() * packet_size <= usize::MAX,
                stream_ok(self@),
                self@ == packets_fed(start, buffer@, packets@, i as nat, packet_size as int),
            decreases packets@.len() - i,
        {
            match packets[i].status {
                TransferStatus::Completed => {
                    assert(i * packet_size <= packets@.len() * packet_size) by (nonlinear_arith)
                        requires
                            i <= packets@.len(),
                            packet_size >= 0,
                    ;
                    let from: usize = i * packet_size;
                    let actual: usize = packets[i].actual_length as usize;
                    let len: usize = buffer.len();
                    let end: usize = if from < len && actual < len - from {
                        from + actual
                    } else {
                        len
                    };
                    let p = if from < end {
                        slice_subrange(buffer, from, end)
                    } else {
                        slice_subrange(buffer, 0, 0)
                    };
                    assert(p@ =~= packet_payload(buffer@, i as int, packet_size as int, actual as int));
                    self.feed(p);
                },
                _ => {
                    self.assembler.lost();
                },
            }
            i += 1;
        }
        !self.stopped
    }

    /// Notes that a transfer could not be submitted again.
    pub fn resubmit_failed(&mut self, e: &Error)
        ensures
            final(self)@ == failed_to_resubmit(old(self)@, e@.kind),
    {
        self.failure = Some(
            if e.is_no_device() {
                TransferStatus::NoDevice
            } else {
                TransferStatus::Error
            },
        );
    }

    /// Stops resubmitting.
    pub fn stop(&mut self)
        ensures
            final(self)@ == (StreamStateView { stopped: true, ..old(self)@ }),
    {
        self.stopped = true;
    }

    /// Frames dropped so far because the queue was full.
    pub fn dropped_frames(&self) -> (r: u64)
        ensures
            r == self@.dropped,
    {
        self.dropped
    }

    /// Takes the next complete frame, or says to wait for one. Once the
    /// reader's time is over (`expired`), fails with [`ErrorKind::Timeout`] or
    /// with the transfer error that stopped the stream (for example
    /// [`ErrorKind::NoDevice`] after an unplug).
    pub fn next_frame(&mut self, expired: bool) -> (r: NextFrame)
        ensures
            (final(self)@, r@) == next_frame_of(old(self)@, expired),
    {
        let ghost before = self.queue@;
        if self.queue.len() > 0 {
            match self.queue.pop_front() {
                Some(f) => {
                    assert(frame_views(self.queue@) =~= frame_views(before).skip(1));
                    assert(frame_views(before)[0] == f@);
                    return NextFrame::Done(Ok(f));
                },
                None => {},
            }
        }
        if !expired {
            return NextFrame::Wait;
        }
        match self.failure {
            Some(status) => {
                let e = match status.into_result() {
                    Ok(()) => Error::new(ErrorKind::Io),
                    Err(e) => e,
                };
                NextFrame::Done(Err(e.context("video stream stopped")))
            },
            None => NextFrame::Done(Err(Error::new(ErrorKind::Timeout))),
        }
    }
}

proof fn lemma_queued_one(s: StreamStateView, a: FrameView)
    ensures
        queued(s, seq![a]) == (if s.queue.len() < FRAME_QUEUE {
            StreamStateView { queue: s.queue.push(a), ..s }
        } else {
            StreamStateView { dropped: (s.dropped + 1) as u64, ..s }
        }),
{
    assert(seq![a].drop_last() =~= Seq::empty());
    assert(queued(s, seq![a].drop_last()) == s);
}

proof fn lemma_queued_two(s: StreamStateView, a: FrameView, b: FrameView)
    ensures
        ({
            let t = queued(s, seq![a]);
            queued(s, seq![a, b]) == (if t.queue.len() < FRAME_QUEUE {
                StreamStateView { queue: t.queue.push(b), ..t }
            } else {
                StreamStateView { dropped: (t.dropped + 1) as u64, ..t }
            })
        }),
        queued(s, seq![a]) == (if s.queue.len() < FRAME_QUEUE {
            StreamStateView { queue: s.queue.push(a), ..s }
        } else {
            StreamStateView { dropped: (s.dropped + 1) as u64, ..s }
        }),
{
    lemma_queued_one(s, a);
    assert(seq![a, b].drop_last() =~= seq![a]);
}

/// Frames are queued four at most: the older ones are kept, and every one that
/// is not queued is counted as dropped.
pub proof fn lemma_queue_keeps_older_frames(s: StreamStateView, frames: Seq<FrameView>)
    requires
        s.queue.len() <= FRAME_QUEUE,
        s.dropped + frames.len() <= u64::MAX,
    ensures
        queued(s, frames).queue.len() <= FRAME_QUEUE,
        s.queue.is_prefix_of(queued(s, frames).queue),
        queued(s, frames).queue.len() + queued(s, frames).dropped == s.queue.len() + s.dropped + frames.len(),
        queued(s, frames).dropped <= s.dropped + frames.len(),
        queued(s, frames).assembler == s.assembler,
    decreases frames.len(),
{
    if frames.len() > 0 {
        lemma_queue_keeps_older_frames(s, frames.drop_last());
    }
}

/// Where a negotiation block holds what.
pub proof fn lemma_control_layout(b: Seq<u8>)
    requires
        b.len() >= 48,
    ensures
        ({
            let c = control_of(b);
            &&& c.hint == b[0] + 256 * b[1]
            &&& (c.format_index, c.frame_index) == (b[2], b[3])
            &&& c.frame_interval == le32_at(b, 4)
            &&& c.key_frame_rate == b[8] + 256 * b[9]
            &&& c.p_frame_rate == b[10] + 256 * b[11]
            &&& c.comp_quality == b[12] + 256 * b[13]
            &&& c.comp_window_size == b[14] + 256 * b[15]
            &&& c.delay == b[16] + 256 * b[17]
            &&& c.max_video_frame_size == le32_at(b, 18)
            &&& c.max_payload_transfer_size == le32_at(b, 22)
            &&& c.clock_frequency == le32_at(b, 26)
            &&& (c.framing_info, c.preferred_version) == (b[30], b[31])
            &&& (c.min_version, c.max_version) == (b[32], b[33])
            &&& c.uvc15_tail =~= b.subrange(34, 48)
        }),
{
}

/// How long the block is, by the version of the class.
pub proof fn lemma_block_size(version: u16)
    ensures
        block_size(version) == 26 <==> version < 0x0110,
        block_size(version) == 34 <==> 0x0110 <= version < 0x0150,
        block_size(version) == 48 <==> version >= 0x0150,
{
}

/// What the header of a payload says: its length in the first byte, and in the
/// second the frame it belongs to (bit 0), whether it is the last (bit 1),
/// whether a time stamp follows (bit 2) and whether something went wrong
/// (bit 6).
pub proof fn lemma_payload_header(p: Seq<u8>)
    requires
        p.len() >= 6,
    ensures
        header_ok(p) <==> 2 <= p[0] && p[0] <= p.len(),
        fid_of(p) == p[1] % 2,
        eof_of(p) <==> p[1] / 2 % 2 == 1,
        pts_of(p) is Some <==> p[1] / 4 % 2 == 1 && p[0] >= 6,
        pts_of(p) matches Some(t) ==> t == le32_at(p, 2),
{
}

/// A payload inside a frame adds what follows its header to it, sets its time
/// stamp if it has none, and marks it if an error is flagged; the frame is
/// delivered with its last payload, under the next number.
pub proof fn lemma_payload_extends_frame(a: AssemblerView, p: Seq<u8>)
    requires
        p.len() >= 2,
        2 <= p[0] <= p.len(),
        a.current is Some,
        a.whole,
        !a.after_eof,
        a.last_fid == Some(p[1] % 2),
        a.max_frame_size >= 1,
        a.current->0.data.len() + p.len() - p[0] <= 2 * a.max_frame_size,
        a.sequence < u64::MAX,
    ensures
        ({
            let (b, out) = payload_next(a, p);
            let f = a.current->0;
            let data = f.data + p.skip(p[0] as int);
            let error = f.error || p[1] / 64 % 2 == 1;
            &&& p[1] / 2 % 2 == 0 ==> {
                &&& out.len() == 0
                &&& b.current is Some
                &&& b.current->0.data == data
                &&& b.current->0.error == error
                &&& f.pts is Some ==> b.current->0.pts == f.pts
                &&& b.sequence == a.sequence
            }
            &&& p[1] / 2 % 2 == 1 && data.len() > 0 ==> {
                &&& out.len() == 1
                &&& out[0].data == data
                &&& out[0].error == error
                &&& out[0].sequence == a.sequence
                &&& b.current is None
                &&& b.after_eof
                &&& b.sequence == a.sequence + 1
            }
        }),
{
}

/// A toggle of the frame bit ends the frame that was under way and starts
/// another with this payload.
pub proof fn lemma_toggle_starts_frame(a: AssemblerView, p: Seq<u8>)
    requires
        p.len() >= 2,
        2 <= p[0] <= p.len(),
        a.last_fid is Some,
        a.last_fid->0 != p[1] % 2,
        p[1] / 2 % 2 == 0,
        a.max_frame_size >= 1,
        p.len() - p[0] <= 2 * a.max_frame_size,
        a.sequence < u64::MAX,
    ensures
        ({
            let (b, out) = payload_next(a, p);
            let delivers = a.current is Some && a.whole && a.current->0.data.len() > 0;
            &&& delivers ==> out.len() == 1 && out[0].data == a.current->0.data && out[0].error == a.current->0.error
                && out[0].pts == a.current->0.pts && out[0].sequence == a.sequence
            &&& !delivers ==> out.len() == 0
            &&& b.current is Some
            &&& b.current->0.data == p.skip(p[0] as int)
            &&& b.current->0.error == (p[1] / 64 % 2 == 1)
            &&& b.whole
            &&& b.last_fid == Some((p[1] % 2) as u8)
        }),
{
    assert(Seq::<u8>::empty() + p.skip(p[0] as int) =~= p.skip(p[0] as int));
}

/// A frame that grows beyond twice its declared size keeps what it has and is
/// marked.
pub proof fn lemma_overlong_frames(f: FrameView, err: bool, pts: Option<u32>, data: Seq<u8>, max_frame_size: int)
    requires
        max_frame_size >= 1,
    ensures
        ({
            let g = with_payload(f, err, pts, data, growth_limit(max_frame_size));
            &&& f.data.len() + data.len() <= 2 * max_frame_size ==> g.data == f.data + data && g.error == (f.error || err)
            &&& f.data.len() + data.len() > 2 * max_frame_size ==> g.data == f.data && g.error
            &&& f.pts is Some ==> g.pts == f.pts
            &&& f.pts is None ==> g.pts == pts
        }),
{
}

/// A payload that is lost, or whose header is broken, marks the frame under
/// way and changes nothing else.
pub proof fn lemma_losses_are_marked(a: AssemblerView, p: Seq<u8>)
    requires
        p.len() >= 2,
        p[0] < 2 || p[0] > p.len(),
    ensures
        payload_next(a, p) == (damaged(a), Seq::<FrameView>::empty()),
        a.current matches Some(f) ==> damaged(a).current == Some(FrameView { error: true, ..f }),
        damaged(a) == (AssemblerView { current: damaged(a).current, ..a }),
        a.current is None ==> damaged(a) == a,
{
}

/// Four frames wait at most; a new one that finds no room is dropped and
/// counted.
pub proof fn lemma_frames_wait(s: StreamStateView, f: FrameView)
    requires
        s.dropped < u64::MAX,
    ensures
        s.queue.len() < 4 ==> queued(s, seq![f]) == (StreamStateView { queue: s.queue.push(f), ..s }),
        s.queue.len() >= 4 ==> queued(s, seq![f]).queue == s.queue && queued(s, seq![f]).dropped == s.dropped + 1,
        queued(s, Seq::empty()) == s,
{
    assert(seq![f].drop_last() =~= Seq::<FrameView>::empty());
    assert(queued(s, seq![f].drop_last()) == s);
}

/// The packets of a transfer are fed one after the other, each as far as it
/// was filled; one that failed marks the frame.
pub proof fn lemma_packets_are_fed(s: StreamStateView, buffer: Seq<u8>, packets: Seq<IsoPacket>, n: nat, size: int)
    requires
        n < packets.len(),
        0 <= size,
        packets.len() * size <= buffer.len(),
        packets[n as int].actual_length <= size,
    ensures
        ({
            let t = packets_fed(s, buffer, packets, n, size);
            let u = packets_fed(s, buffer, packets, n + 1, size);
            let from = n * size;
            &&& packets[n as int].status != TransferStatus::Completed ==> u == (StreamStateView {
                assembler: damaged(t.assembler),
                ..t
            })
            &&& packets[n as int].status == TransferStatus::Completed && packets[n as int].actual_length > 0 ==> u == fed(
                t,
                buffer.subrange(from as int, from + packets[n as int].actual_length),
            )
        }),
        packets_fed(s, buffer, packets, 0, size) == s,
{
    assert(n * size + size <= packets.len() * size) by (nonlinear_arith)
        requires
            n + 1 <= packets.len(),
            0 <= size,
    ;
}

/// What the end of a transfer means: it is submitted again where it succeeded
/// or only its data were lost, unless the stream was stopped; a stall or a
/// vanished device ends the stream.
pub proof fn lemma_stream_transfers(s: StreamStateView, status: TransferStatus)
    ensures
        s.stopped ==> !resubmitted(s, status),
        !s.stopped ==> (resubmitted(s, status) <==> status == TransferStatus::Completed || status == TransferStatus::Error
            || status == TransferStatus::Overflow || status == TransferStatus::TimedOut),
        status == TransferStatus::Stall || status == TransferStatus::NoDevice ==> judged(s, status) == (StreamStateView {
            failure: Some(status),
            ..s
        }),
        status == TransferStatus::Cancelled || status == TransferStatus::Completed ==> judged(s, status) == s,
        status == TransferStatus::Error || status == TransferStatus::Overflow || status == TransferStatus::TimedOut
            ==> judged(s, status) == (StreamStateView { assembler: damaged(s.assembler), ..s }),
{
}

/// The oldest frame is taken first; without one, the wait goes on until the
/// time is up and then ends in the error of the stream, or in a timeout.
pub proof fn lemma_next_frames(s: StreamStateView, expired: bool)
    ensures
        ({
            let (t, r) = next_frame_of(s, expired);
            &&& s.queue.len() > 0 ==> r == NextFrameView::Done(Ok::<FrameView, ErrorView>(s.queue[0])) && t.queue
                == s.queue.drop_first()
            &&& s.queue.len() == 0 ==> t == s
            &&& s.queue.len() == 0 && !expired ==> r is Wait
            &&& s.queue.len() == 0 && expired && s.failure is None ==> r is Done && r->Done_0 is Err
                && r->Done_0->Err_0.kind == ErrorKind::Timeout
            &&& s.queue.len() == 0 && expired && s.failure == Some(TransferStatus::NoDevice) ==> r is Done && r->Done_0
                is Err && r->Done_0->Err_0.kind == ErrorKind::NoDevice
            &&& s.queue.len() == 0 && expired && s.failure == Some(TransferStatus::Stall) ==> r is Done && r->Done_0 is Err
                && r->Done_0->Err_0.kind == ErrorKind::Pipe
        }),
{
}

/// A cancelled transfer ends the stream, one with a broken payload loses it,
/// and any other failure fails.
pub proof fn lemma_verdicts()
    ensures
        verdict_of(TransferStatus::Completed) == Verdict::Good,
        verdict_of(TransferStatus::Cancelled) == Verdict::Cancelled,
        verdict_of(TransferStatus::Error) == Verdict::Lost,
        verdict_of(TransferStatus::Overflow) == Verdict::Lost,
        verdict_of(TransferStatus::TimedOut) == Verdict::Lost,
        verdict_of(TransferStatus::Stall) == Verdict::Failed,
        verdict_of(TransferStatus::NoDevice) == Verdict::Failed,
{
}

/// A stream whose transfer could not be submitted again has failed, and the
/// frames that it has stay.
pub proof fn lemma_failed_to_resubmit(s: StreamStateView, kind: ErrorKind)
    ensures
        failed_to_resubmit(s, ErrorKind::NoDevice).failure == Some(TransferStatus::NoDevice),
        kind != ErrorKind::NoDevice ==> failed_to_resubmit(s, kind).failure == Some(TransferStatus::Error),
        failed_to_resubmit(s, kind) == (StreamStateView { failure: failed_to_resubmit(s, kind).failure, ..s }),
{
}

} // verus!
