//! USB Video Class (UVC 1.0-1.5): webcams, capture cards, USB microscopes.
//!
//! [`Camera`] holds what the video function's descriptors say (formats, frame
//! sizes, frame rates, control topology) and forms the requests that get and
//! set camera controls. Starting a stream is a [`Starting`] (it negotiates the
//! parameters with the device, probe and commit) followed by a
//! [`StreamPlan`], which picks the alternate setting with enough bandwidth.
//! [`stream`] reassembles payloads into frames.

use crate::bytes::{self, copy_range, u32_bytes};
use crate::class::{self, endpoint_at, interface_numbered, settings, settings_where};
use crate::descriptors::{
    alt_position, bytes_per_frame, main_alt, ConfigDescriptor, EndpointDescriptor, Interface, InterfaceDescriptor,
};
use crate::error::{bytes_outcome, message, outcome, Error, ErrorKind, ErrorView, Result};
use crate::types::{setup_packet, transfer_type_of, ControlSetup, ControlType, Direction, Recipient, TransferType};
use descriptors::{
    control_in, format_at, format_named, frame_at, streaming_in, ControlInterface, ControlInterfaceView,
    FormatDescriptor, FormatDescriptorView, FrameDescriptor, FrameDescriptorView, StreamingInterface,
    StreamingInterfaceView,
};
use stream::{block_size, control_bytes, control_of, StreamControl, StreamControlView};
use vstd::prelude::*;

pub mod ct;
pub mod descriptors;
pub mod pu;
pub mod stream;

verus! {

/// How long a control request may take: 1 s.
pub const CONTROL_TIMEOUT: u64 = 1_000_000_000;

/// How long a request of the negotiation may take: 5 s. On some cameras it
/// reconfigures the sensor.
pub const NEGOTIATION_TIMEOUT: u64 = 5_000_000_000;

/// Packets per isochronous transfer.
pub const ISO_PACKETS: usize = 32;

/// SET_CUR
pub const SET_CUR: u8 = 0x01;

/// The probe control of a streaming interface.
pub const VS_PROBE_CONTROL: u8 = 0x01;

/// The commit control of a streaming interface.
pub const VS_COMMIT_CONTROL: u8 = 0x02;

/// A GET request on a control (UVC 1.5 §4.2): which value to read.
#[derive(Debug, Clone, Copy, PartialEq, Eq, Hash, Structural)]
pub enum ControlRequest {
    /// The current value.
    Cur,
    /// The minimum value.
    Min,
    /// The maximum value.
    Max,
    /// The resolution (step).
    Res,
    /// The default value.
    Def,
    /// The control's length in bytes (a 2-byte answer).
    Len,
    /// The capabilities bitmap (a 1-byte answer: bit 0 GET supported, bit 1
    /// SET supported, bit 3 auto mode active, ...).
    Info,
}

/// The number of a GET request.
pub open spec fn request_code(r: ControlRequest) -> u8 {
    match r {
        ControlRequest::Cur => 0x81,
        ControlRequest::Min => 0x82,
        ControlRequest::Max => 0x83,
        ControlRequest::Res => 0x84,
        ControlRequest::Len => 0x85,
        ControlRequest::Info => 0x86,
        ControlRequest::Def => 0x87,
    }
}

impl ControlRequest {
    /// The number of the request.
    pub fn code(self) -> (r: u8)
        ensures
            r == request_code(self),
    {
        match self {
            ControlRequest::Cur => 0x81,
            ControlRequest::Min => 0x82,
            ControlRequest::Max => 0x83,
            ControlRequest::Res => 0x84,
            ControlRequest::Len => 0x85,
            ControlRequest::Info => 0x86,
            ControlRequest::Def => 0x87,
        }
    }
}

/// What to stream: a streaming interface, format, frame size and interval.
#[derive(Debug, Clone, Copy, PartialEq, Eq, Hash, Structural)]
pub struct StreamRequest {
    /// The VideoStreaming interface number.
    pub interface: u8,
    /// `bFormatIndex`.
    pub format_index: u8,
    /// `bFrameIndex`.
    pub frame_index: u8,
    /// Frame interval in 100 ns units (333333 for 30 fps); 0 for the frame's
    /// default.
    pub frame_interval: u32,
}

// ----- opening a video function -----------------------------------------------------

/// Whether an interface is a video control interface.
pub open spec fn video_control(a: InterfaceDescriptor) -> bool {
    a.class == crate::types::class::VIDEO && a.sub_class == 0x01
}

/// The video control interfaces among those of a configuration.
pub open spec fn video_controls(cfg: ConfigDescriptor) -> Seq<InterfaceDescriptor> {
    settings_where(cfg.interfaces@, |a: InterfaceDescriptor| video_control(a))
}

fn is_video_control(a: &InterfaceDescriptor) -> (r: bool)
    ensures
        r == video_control(*a),
{
    a.class == crate::types::class::VIDEO && a.sub_class == 0x01
}

/// The video functions of a configuration, by their VideoControl interfaces
/// (alternate setting 0 of each), in descriptor order.
pub fn interfaces(cfg: &ConfigDescriptor) -> (r: Vec<&InterfaceDescriptor>)
    requires
        cfg.wf(),
    ensures
        settings(r@) == video_controls(*cfg),
{
    class::interfaces_where(cfg, is_video_control, Ghost(|a: InterfaceDescriptor| video_control(a)))
}

impl Camera {
    /// The function that opening a device opens: the VideoControl interface of
    /// its first video function.
    pub fn open(cfg: &ConfigDescriptor) -> (r: Result<u8>)
        requires
            cfg.wf(),
        ensures
            outcome(r) == (if video_controls(*cfg).len() > 0 {
                Ok::<u8, ErrorView>(video_controls(*cfg)[0].number)
            } else {
                Err(message(ErrorKind::NotFound, "device has no video control interface"@))
            }),
    {
        let all = interfaces(cfg);
        assert(settings(all@).len() == all@.len());
        if all.len() == 0 {
            return Err(Error::with_message(ErrorKind::NotFound, "device has no video control interface"));
        }
        assert(settings(all@)[0] == *all@[0]);
        Ok(all[0].number)
    }
}

/// A video function. See the [module documentation](self).
#[derive(Debug)]
pub struct Camera {
    /// The VideoControl interface.
    pub control: ControlInterface,
    /// The VideoStreaming interfaces.
    pub streaming: Vec<StreamingInterface>,
}

/// What a [`Camera`] holds.
#[verifier::ext_equal]
pub struct CameraView {
    pub control: ControlInterfaceView,
    pub streaming: Seq<StreamingInterfaceView>,
}

/// What several streaming interfaces hold.
pub open spec fn streaming_views(v: Seq<StreamingInterface>) -> Seq<StreamingInterfaceView> {
    Seq::new(v.len(), |i: int| v[i]@)
}

impl View for Camera {
    type V = CameraView;

    open spec fn view(&self) -> CameraView {
        CameraView { control: self.control@, streaming: streaming_views(self.streaming@) }
    }
}

/// The streaming interface with the given number, if it is one.
pub open spec fn stream_of(v: Seq<Interface>, number: u8) -> Option<StreamingInterfaceView> {
    match interface_numbered(v, number) {
        Some(i) => streaming_in(main_alt(i)),
        None => None,
    }
}

/// The streaming interfaces with the given numbers.
pub open spec fn streams_of(v: Seq<Interface>, numbers: Seq<u8>) -> Seq<StreamingInterfaceView>
    decreases numbers.len(),
{
    if numbers.len() == 0 {
        Seq::empty()
    } else {
        match stream_of(v, numbers.last()) {
            Some(s) => streams_of(v, numbers.drop_last()).push(s),
            None => streams_of(v, numbers.drop_last()),
        }
    }
}

/// The video function with the given control interface, or why it cannot be
/// opened.
pub open spec fn camera_on(v: Seq<Interface>, control_interface: u8) -> std::result::Result<CameraView, ErrorView> {
    match class::setting_of(v, control_interface) {
        Err(e) => Err(e),
        Ok(a) => if !video_control(a) {
            Err(message(ErrorKind::InvalidParam, "not a video control interface"@))
        } else {
            match control_in(a) {
                None => Err(message(ErrorKind::Io, "malformed video control descriptors"@)),
                Some(control) => Ok(
                    CameraView { control, streaming: streams_of(v, control.streaming_interfaces) },
                ),
            }
        },
    }
}

fn find_stream(cfg: &ConfigDescriptor, number: u8) -> (r: Option<StreamingInterface>)
    requires
        cfg.wf(),
    ensures
        match stream_of(cfg.interfaces@, number) {
            Some(s) => r is Some && r->0@ == s,
            None => r is None,
        },
{
    match cfg.interface(number) {
        Some(i) => {
            proof {
                class::lemma_interface_numbered(cfg.interfaces@, number, *i);
            }
            StreamingInterface::parse(i.main_setting())
        },
        None => {
            proof {
                class::lemma_no_interface_numbered(cfg.interfaces@, number);
            }
            None
        },
    }
}

/// The numbers of streaming interfaces.
pub open spec fn stream_numbers(v: Seq<StreamingInterfaceView>) -> Seq<u8> {
    Seq::new(v.len(), |i: int| v[i].interface)
}

/// The first frame size of the given width and height.
pub open spec fn frame_sized(v: Seq<FrameDescriptorView>, width: u16, height: u16) -> Option<FrameDescriptorView>
    decreases v.len(),
{
    if v.len() == 0 {
        None
    } else if v[0].width == width && v[0].height == height {
        Some(v[0])
    } else {
        frame_sized(v.skip(1), width, height)
    }
}

/// The request for a format and frame size of a streaming interface.
pub open spec fn request_on(s: StreamingInterfaceView, fourcc: Seq<u8>, width: u16, height: u16) -> Option<StreamRequest> {
    match format_named(s.formats, fourcc) {
        None => None,
        Some(format) => match frame_sized(format.frames, width, height) {
            None => None,
            Some(frame) => Some(
                StreamRequest {
                    interface: s.interface,
                    format_index: format.index,
                    frame_index: frame.index,
                    frame_interval: 0,
                },
            ),
        },
    }
}

/// The request for a format and frame size of the first streaming interface
/// that has it.
pub open spec fn request_among(
    v: Seq<StreamingInterfaceView>,
    fourcc: Seq<u8>,
    width: u16,
    height: u16,
) -> Option<StreamRequest>
    decreases v.len(),
{
    if v.len() == 0 {
        None
    } else {
        match request_on(v[0], fourcc, width, height) {
            Some(r) => Some(r),
            None => request_among(v.skip(1), fourcc, width, height),
        }
    }
}

fn find_frame(format: &FormatDescriptor, width: u16, height: u16) -> (r: Option<&FrameDescriptor>)
    ensures
        match frame_sized(format@.frames, width, height) {
            Some(f) => r is Some && r->0@ == f,
            None => r is None,
        },
{
    let ghost v = format@.frames;
    let mut i: usize = 0;
    assert(v.skip(0) =~= v);
    while i < format.frames.len()
        invariant
            i <= format.frames@.len(),
            v == format@.frames,
            frame_sized(v, width, height) == frame_sized(v.skip(i as int), width, height),
        decreases format.frames@.len() - i,
    {
        assert(v.skip(i as int)[0] == format.frames@[i as int]@);
        assert(v.skip(i as int).skip(1) =~= v.skip(i + 1));
        if format.frames[i].width == width && format.frames[i].height == height {
            return Some(&format.frames[i]);
        }
        i += 1;
    }
    None
}

/// The first streaming interface with the given number.
pub open spec fn streaming_at(v: Seq<StreamingInterfaceView>, interface: u8) -> Option<StreamingInterfaceView>
    decreases v.len(),
{
    if v.len() == 0 {
        None
    } else if v[0].interface == interface {
        Some(v[0])
    } else {
        streaming_at(v.skip(1), interface)
    }
}

/// A class request that reads or writes a unit or terminal control. Its
/// length is filled in when the data is known.
pub open spec fn control_setup(direction: Direction, request: u8, entity: u8, selector: u8, interface: u8) -> ControlSetup {
    setup_packet(
        direction,
        ControlType::Class,
        Recipient::Interface,
        request,
        (selector * 256) as u16,
        (entity * 256 + interface) as u16,
        0,
    )
}

/// The number of values that a control of `size` bytes can have.
pub open spec fn value_range(size: int) -> int {
    if size == 1 {
        0x100
    } else if size == 2 {
        0x1_0000
    } else if size == 3 {
        0x100_0000
    } else {
        0x1_0000_0000
    }
}

/// The value of an integer control.
pub open spec fn int_value(b: Seq<u8>, signed: bool) -> int {
    let raw = bytes::le32_at(b, 0) as int;
    let range = value_range(b.len() as int);
    if signed && raw >= range / 2 {
        raw - range
    } else {
        raw
    }
}

/// The bytes of an integer control's value.
pub open spec fn int_bytes(value: i64, size: int) -> Seq<u8> {
    u32_bytes((value as int % 0x1_0000_0000) as u32).take(size)
}

impl Camera {
    /// Opens a video function given its VideoControl interface: reads its
    /// descriptors.
    pub fn open_interface(cfg: &ConfigDescriptor, control_interface: u8) -> (r: Result<Camera>)
        requires
            cfg.wf(),
        ensures
            match camera_on(cfg.interfaces@, control_interface) {
                Ok(c) => r is Ok && r->Ok_0@ == c,
                Err(e) => r is Err && r->Err_0@ == e,
            },
    {
        let vc = match class::interface(cfg, control_interface) {
            Ok(a) => a,
            Err(e) => {
                return Err(e);
            },
        };
        if !is_video_control(vc) {
            return Err(Error::with_message(ErrorKind::InvalidParam, "not a video control interface"));
        }
        let control = match ControlInterface::parse(vc) {
            Some(c) => c,
            None => {
                return Err(Error::with_message(ErrorKind::Io, "malformed video control descriptors"));
            },
        };
        let ghost numbers = control@.streaming_interfaces;
        let ghost v = cfg.interfaces@;
        let mut streaming: Vec<StreamingInterface> = Vec::new();
        let mut i: usize = 0;
        assert(numbers.take(0) =~= Seq::empty());
        assert(streaming_views(streaming@) =~= Seq::empty());
        while i < control.streaming_interfaces.len()
            invariant
                cfg.wf(),
                i <= control.streaming_interfaces@.len(),
                numbers == control.streaming_interfaces@,
                v == cfg.interfaces@,
                streaming_views(streaming@) == streams_of(v, numbers.take(i as int)),
            decreases control.streaming_interfaces@.len() - i,
        {
            assert(numbers.take(i + 1).drop_last() =~= numbers.take(i as int));
            let ghost before = streaming_views(streaming@);
            match find_stream(cfg, control.streaming_interfaces[i]) {
                Some(s) => {
                    streaming.push(s);
                    assert(streaming_views(streaming@) =~= before.push(s@));
                },
                None => {},
            }
            i += 1;
        }
        assert(numbers.take(i as int) =~= numbers);
        Ok(Camera { control, streaming })
    }

    /// The interfaces to claim: the control interface and all its streaming
    /// interfaces.
    pub fn interfaces(&self, control_interface: u8) -> (r: Vec<u8>)
        ensures
            r@ == seq![control_interface] + stream_numbers(self@.streaming),
    {
        let mut out: Vec<u8> = Vec::new();
        out.push(control_interface);
        let ghost all = stream_numbers(self@.streaming);
        let mut i: usize = 0;
        assert(out@ =~= seq![control_interface] + all.take(0));
        while i < self.streaming.len()
            invariant
                i <= self.streaming@.len(),
                all == stream_numbers(self@.streaming),
                out@ =~= seq![control_interface] + all.take(i as int),
            decreases self.streaming@.len() - i,
        {
            out.push(self.streaming[i].interface);
            i += 1;
        }
        assert(all.take(i as int) =~= all);
        out
    }

    /// The VideoControl interface: UVC version, clock, terminals and units.
    pub fn control_interface(&self) -> (r: &ControlInterface)
        ensures
            r@ == self@.control,
    {
        &self.control
    }

    /// The VideoStreaming interfaces (video inputs to the host) with their
    /// formats and frame sizes.
    pub fn streaming_interfaces(&self) -> (r: &[StreamingInterface])
        ensures
            streaming_views(r@) == self@.streaming,
    {
        self.streaming.as_slice()
    }

    /// Finds a format by FourCC and frame size on any streaming interface,
    /// at the frame's default interval.
    pub fn find_format(&self, fourcc: [u8; 4], width: u16, height: u16) -> (r: Option<StreamRequest>)
        ensures
            r == request_among(self@.streaming, fourcc@, width, height),
    {
        let ghost v = self@.streaming;
        let mut i: usize = 0;
        assert(v.skip(0) =~= v);
        while i < self.streaming.len()
            invariant
                i <= self.streaming@.len(),
                v == self@.streaming,
                request_among(v, fourcc@, width, height) == request_among(v.skip(i as int), fourcc@, width, height),
            decreases self.streaming@.len() - i,
        {
            assert(v.skip(i as int)[0] == self.streaming@[i as int]@);
            assert(v.skip(i as int).skip(1) =~= v.skip(i + 1));
            let s = &self.streaming[i];
            match s.format_by_fourcc(fourcc) {
                Some(format) => match find_frame(format, width, height) {
                    Some(frame) => {
                        return Some(
                            StreamRequest {
                                interface: s.interface,
                                format_index: format.index,
                                frame_index: frame.index,
                                frame_interval: 0,
                            },
                        );
                    },
                    None => {},
                },
                None => {},
            }
            i += 1;
        }
        None
    }

    // ----- controls --------------------------------------------------------

    /// The request that reads a unit or terminal control. `entity` is the
    /// unit/terminal ID (0 addresses the interface itself); `selector` comes
    /// from [`ct`], [`pu`] or an extension unit's documentation.
    pub fn get_control(&self, entity: u8, selector: u8, request: ControlRequest) -> (r: ControlSetup)
        ensures
            r == control_setup(
                Direction::In,
                request_code(request),
                entity,
                selector,
                self@.control.interface,
            ),
    {
        ControlSetup::new(
            Direction::In,
            ControlType::Class,
            Recipient::Interface,
            request.code(),
            selector as u16 * 256,
            entity as u16 * 256 + self.control.interface as u16,
            0,
        )
    }

    /// The request that writes a unit or terminal control (SET_CUR).
    pub fn set_control(&self, entity: u8, selector: u8) -> (r: ControlSetup)
        ensures
            r == control_setup(Direction::Out, SET_CUR, entity, selector, self@.control.interface),
    {
        ControlSetup::new(
            Direction::Out,
            ControlType::Class,
            Recipient::Interface,
            SET_CUR,
            selector as u16 * 256,
            entity as u16 * 256 + self.control.interface as u16,
            0,
        )
    }

    /// The request that reads a control of `size` bytes, up to 4, as an
    /// integer; what it returns goes to [`int_outcome`].
    pub fn get_control_int(&self, entity: u8, selector: u8, request: ControlRequest, size: usize) -> (r: Result<
        ControlSetup,
    >)
        ensures
            outcome(r) == (if 1 <= size <= 4 {
                Ok::<ControlSetup, ErrorView>(
                    (ControlSetup {
                        length: size as u16,
                        ..control_setup(
                            Direction::In,
                            request_code(request),
                            entity,
                            selector,
                            self@.control.interface,
                        )
                    }),
                )
            } else {
                Err(message(ErrorKind::InvalidParam, "integer controls are 1 to 4 bytes"@))
            }),
    {
        if size < 1 || size > 4 {
            return Err(Error::with_message(ErrorKind::InvalidParam, "integer controls are 1 to 4 bytes"));
        }
        let mut setup = self.get_control(entity, selector, request);
        setup.length = size as u16;
        Ok(setup)
    }

    /// The request that writes a control of `size` bytes, up to 4, from an
    /// integer, and its bytes.
    pub fn set_control_int(&self, entity: u8, selector: u8, size: usize, value: i64) -> (r: Result<
        (ControlSetup, Vec<u8>),
    >)
        ensures
            1 <= size <= 4 ==> r is Ok && r->Ok_0.0 == (ControlSetup {
                length: size as u16,
                ..control_setup(Direction::Out, SET_CUR, entity, selector, self@.control.interface)
            }) && r->Ok_0.1@ == int_bytes(value, size as int),
            !(1 <= size <= 4) ==> r is Err && r->Err_0@ == message(
                ErrorKind::InvalidParam,
                "integer controls are 1 to 4 bytes"@,
            ),
    {
        if size < 1 || size > 4 {
            return Err(Error::with_message(ErrorKind::InvalidParam, "integer controls are 1 to 4 bytes"));
        }
        let mut b: Vec<u8> = Vec::new();
        bytes::put32(&mut b, low_half(value));
        assert(b@ =~= u32_bytes((value as int % 0x1_0000_0000) as u32));
        let data = copy_range(b.as_slice(), 0, size);
        assert(data@ =~= int_bytes(value, size as int));
        let mut setup = self.set_control(entity, selector);
        setup.length = size as u16;
        Ok((setup, data))
    }

    fn streaming(&self, interface: u8) -> (r: Result<&StreamingInterface>)
        ensures
            match streaming_at(self@.streaming, interface) {
                Some(s) => r is Ok && r->Ok_0@ == s,
                None => r is Err && r->Err_0@ == message(
                    ErrorKind::InvalidParam,
                    "not a streaming interface of this camera"@,
                ),
            },
    {
        let ghost v = self@.streaming;
        let mut i: usize = 0;
        assert(v.skip(0) =~= v);
        while i < self.streaming.len()
            invariant
                i <= self.streaming@.len(),
                v == self@.streaming,
                streaming_at(v, interface) == streaming_at(v.skip(i as int), interface),
            decreases self.streaming@.len() - i,
        {
            assert(v.skip(i as int)[0] == self.streaming@[i as int]@);
            assert(v.skip(i as int).skip(1) =~= v.skip(i + 1));
            if self.streaming[i].interface == interface {
                return Ok(&self.streaming[i]);
            }
            i += 1;
        }
        Err(Error::with_message(ErrorKind::InvalidParam, "not a streaming interface of this camera"))
    }
}

fn low_half(value: i64) -> (r: u32)
    ensures
        r == value as int % 0x1_0000_0000,
{
    if value >= 0 {
        (value as u64 % 0x1_0000_0000) as u32
    } else {
        let m: u64 = (-(value + 1)) as u64;
        (0xffff_ffff - m % 0x1_0000_0000) as u32
    }
}

/// Interprets what reading an integer control of `size` bytes returned,
/// sign-extending when `signed` (brightness and hue are signed; most others
/// are not).
pub fn int_outcome(r: Result<Vec<u8>>, size: usize, signed: bool) -> (x: Result<i64>)
    requires
        1 <= size <= 4,
    ensures
        match bytes_outcome(r) {
            Err(e) => outcome(x) == Err::<i64, ErrorView>(e),
            Ok(b) => if b.len() != size {
                outcome(x) == Err::<i64, ErrorView>(message(ErrorKind::Io, "short control value"@))
            } else {
                x is Ok && x->Ok_0 == int_value(b, signed)
            },
        },
{
    let b = match r {
        Err(e) => {
            return Err(e);
        },
        Ok(b) => b,
    };
    if b.len() != size {
        return Err(Error::with_message(ErrorKind::Io, "short control value"));
    }
    let raw: i64 = bytes::le32(b.as_slice(), 0) as i64;
    let range: i64 = match size {
        1 => 0x100,
        2 => 0x1_0000,
        3 => 0x100_0000,
        _ => 0x1_0000_0000,
    };
    if signed && raw >= range / 2 {
        Ok(raw - range)
    } else {
        Ok(raw)
    }
}

// ----- negotiation -----------------------------------------------------------------------

/// A class request to a streaming interface.
pub open spec fn vs_setup(direction: Direction, request: u8, selector: u8, interface: u8, length: usize) -> ControlSetup {
    setup_packet(
        direction,
        ControlType::Class,
        Recipient::Interface,
        request,
        (selector * 256) as u16,
        interface as u16,
        length as u16,
    )
}

fn vs_control(direction: Direction, request: u8, selector: u8, interface: u8, length: usize) -> (r: ControlSetup)
    requires
        length <= 48,
    ensures
        r == vs_setup(direction, request, selector, interface, length),
{
    ControlSetup::new(
        direction,
        ControlType::Class,
        Recipient::Interface,
        request,
        selector as u16 * 256,
        interface as u16,
        length as u16,
    )
}

/// Where a negotiation stands.
#[derive(Debug, Clone, Copy, PartialEq, Eq, Structural)]
pub enum StartPhase {
    /// Parameters are being proposed.
    Proposing,
    /// The device's answer is being read.
    Answering,
    /// The answer is being committed.
    Committing,
    /// Negotiation is over.
    Over,
}

/// The negotiation of stream parameters: propose, read the answer, and, unless
/// only probing, commit to it.
#[derive(Debug, Clone, Copy, PartialEq, Eq)]
pub struct Starting {
    /// The streaming interface.
    pub interface: u8,
    /// The control block size.
    pub size: usize,
    /// Whether the answer is committed to.
    pub commit: bool,
    /// Where negotiation stands.
    pub phase: StartPhase,
    /// The parameters proposed, then those answered.
    pub control: StreamControl,
}

/// What a [`Starting`] holds.
#[verifier::ext_equal]
pub struct StartingView {
    pub interface: u8,
    pub size: usize,
    pub commit: bool,
    pub phase: StartPhase,
    pub control: StreamControlView,
}

impl View for Starting {
    type V = StartingView;

    open spec fn view(&self) -> StartingView {
        StartingView {
            interface: self.interface,
            size: self.size,
            commit: self.commit,
            phase: self.phase,
            control: self.control@,
        }
    }
}

/// What a [`Starting`] asks for.
#[derive(Debug)]
pub enum StartAction {
    /// Write bytes.
    Write { setup: ControlSetup, data: Vec<u8>, timeout: u64 },
    /// Read up to as many bytes as the request says.
    Read { setup: ControlSetup, timeout: u64 },
    /// Negotiation is over; the parameters are those of the [`Starting`].
    Finish(Result<()>),
}

/// What a [`StartAction`] holds.
#[verifier::ext_equal]
pub enum StartActionView {
    Write { setup: ControlSetup, data: Seq<u8>, timeout: u64 },
    Read { setup: ControlSetup, timeout: u64 },
    Finish(std::result::Result<(), ErrorView>),
}

impl View for StartAction {
    type V = StartActionView;

    open spec fn view(&self) -> StartActionView {
        match *self {
            StartAction::Write { setup, data, timeout } => StartActionView::Write { setup, data: data@, timeout },
            StartAction::Read { setup, timeout } => StartActionView::Read { setup, timeout },
            StartAction::Finish(r) => StartActionView::Finish(outcome(r)),
        }
    }
}

/// Sending a control block.
pub open spec fn send_block(s: StartingView, phase: StartPhase, selector: u8) -> (StartingView, StartActionView) {
    (
        StartingView { phase, ..s },
        StartActionView::Write {
            setup: vs_setup(Direction::Out, SET_CUR, selector, s.interface, s.size),
            data: control_bytes(s.control).take(s.size as int),
            timeout: NEGOTIATION_TIMEOUT,
        },
    )
}

/// The negotiation after what its last request returned.
pub open spec fn start_next(s: StartingView, r: std::result::Result<Seq<u8>, ErrorView>) -> (
    StartingView,
    StartActionView,
) {
    let over = StartingView { phase: StartPhase::Over, ..s };
    match r {
        Err(e) => (over, StartActionView::Finish(Err(e))),
        Ok(b) => match s.phase {
            StartPhase::Proposing => (
                StartingView { phase: StartPhase::Answering, ..s },
                StartActionView::Read {
                    setup: vs_setup(Direction::In, 0x81, VS_PROBE_CONTROL, s.interface, s.size),
                    timeout: NEGOTIATION_TIMEOUT,
                },
            ),
            StartPhase::Answering => {
                let answered = StartingView { control: control_of(b), ..s };
                if s.commit {
                    send_block(answered, StartPhase::Committing, VS_COMMIT_CONTROL)
                } else {
                    (StartingView { phase: StartPhase::Over, ..answered }, StartActionView::Finish(Ok(())))
                }
            },
            _ => (over, StartActionView::Finish(Ok(()))),
        },
    }
}

/// A negotiation at its start.
pub open spec fn start_of(uvc_version: u16, interface: u8, control: StreamControlView, commit: bool) -> (
    StartingView,
    StartActionView,
) {
    send_block(
        StartingView {
            interface,
            size: block_size(uvc_version),
            commit,
            phase: StartPhase::Proposing,
            control,
        },
        StartPhase::Proposing,
        VS_PROBE_CONTROL,
    )
}

impl Starting {
    /// What holds throughout: the size is that of a control block.
    pub open spec fn wf(&self) -> bool {
        self.size <= 48
    }

    fn send(self, phase: StartPhase, selector: u8) -> (r: (Starting, StartAction))
        requires
            self.wf(),
        ensures
            r.0.wf(),
            (r.0@, r.1@) == send_block(self@, phase, selector),
    {
        let mut s = self;
        s.phase = phase;
        let block = s.control.to_bytes();
        let data = copy_range(block.as_slice(), 0, s.size);
        assert(data@ =~= control_bytes(self@.control).take(self.size as int));
        let setup = vs_control(Direction::Out, SET_CUR, selector, s.interface, s.size);
        (s, StartAction::Write { setup, data, timeout: NEGOTIATION_TIMEOUT })
    }

    /// Takes what the last request returned and says what to do next.
    pub fn step(self, r: Result<Vec<u8>>) -> (x: (Starting, StartAction))
        requires
            self.wf(),
        ensures
            x.0.wf(),
            (x.0@, x.1@) == start_next(self@, bytes_outcome(r)),
    {
        let mut s = self;
        let b = match r {
            Err(e) => {
                s.phase = StartPhase::Over;
                return (s, StartAction::Finish(Err(e)));
            },
            Ok(b) => b,
        };
        match s.phase {
            StartPhase::Proposing => {
                s.phase = StartPhase::Answering;
                let setup = vs_control(
                    Direction::In,
                    ControlRequest::Cur.code(),
                    VS_PROBE_CONTROL,
                    s.interface,
                    s.size,
                );
                (s, StartAction::Read { setup, timeout: NEGOTIATION_TIMEOUT })
            },
            StartPhase::Answering => {
                s.control = StreamControl::from_bytes(b.as_slice());
                if s.commit {
                    s.send(StartPhase::Committing, VS_COMMIT_CONTROL)
                } else {
                    s.phase = StartPhase::Over;
                    (s, StartAction::Finish(Ok(())))
                }
            },
            _ => {
                s.phase = StartPhase::Over;
                (s, StartAction::Finish(Ok(())))
            },
        }
    }
}

/// The streaming interface, format and frame size that a request names, or
/// why it names none.
pub open spec fn chosen(c: CameraView, q: StreamRequest) -> std::result::Result<
    (StreamingInterfaceView, FormatDescriptorView, FrameDescriptorView),
    ErrorView,
> {
    match streaming_at(c.streaming, q.interface) {
        None => Err(message(ErrorKind::InvalidParam, "not a streaming interface of this camera"@)),
        Some(s) => match format_at(s.formats, q.format_index) {
            None => Err(message(ErrorKind::InvalidParam, "no such format"@)),
            Some(format) => match frame_at(format.frames, q.frame_index) {
                None => Err(message(ErrorKind::InvalidParam, "no such frame"@)),
                Some(frame) => Ok((s, format, frame)),
            },
        },
    }
}

/// The parameters that a request proposes.
pub open spec fn proposal(format: FormatDescriptorView, frame: FrameDescriptorView, q: StreamRequest) -> StreamControlView {
    StreamControlView {
        hint: 1,
        format_index: format.index,
        frame_index: frame.index,
        frame_interval: if q.frame_interval == 0 {
            frame.default_interval
        } else {
            q.frame_interval
        },
        ..control_of(Seq::empty())
    }
}

// ----- the stream -------------------------------------------------------------------------

/// How a stream is transferred.
#[derive(Debug, Clone, Copy, PartialEq, Eq, Structural)]
pub enum Mode {
    /// Isochronous packets.
    Isochronous,
    /// Bulk transfers.
    Bulk,
}

/// What streaming needs to know once parameters are agreed on.
#[derive(Debug, Clone, Copy, PartialEq, Eq, Structural)]
pub struct StreamPlan {
    /// The streaming interface.
    pub interface: u8,
    /// The video data endpoint.
    pub endpoint: u8,
    /// How the stream is transferred.
    pub mode: Mode,
    /// The alternate setting to select, for an isochronous stream.
    pub alternate: u8,
    /// The size of a packet, or of a bulk transfer.
    pub packet_size: usize,
    /// Packets per transfer.
    pub packets: usize,
    /// The largest frame.
    pub max_frame_size: u32,
}

/// Where the launch of a stream stands.
#[derive(Debug)]
pub enum LaunchPhase {
    /// The alternate setting is being selected.
    Selecting,
    /// The transfers are being started.
    Starting,
    /// They could not be; the interface is being set back.
    Restoring(Error),
    /// It is over.
    Over,
}

/// What a [`LaunchPhase`] holds.
#[verifier::ext_equal]
pub enum LaunchPhaseView {
    Selecting,
    Starting,
    Restoring(ErrorView),
    Over,
}

impl View for LaunchPhase {
    type V = LaunchPhaseView;

    open spec fn view(&self) -> LaunchPhaseView {
        match *self {
            LaunchPhase::Selecting => LaunchPhaseView::Selecting,
            LaunchPhase::Starting => LaunchPhaseView::Starting,
            LaunchPhase::Restoring(e) => LaunchPhaseView::Restoring(e@),
            LaunchPhase::Over => LaunchPhaseView::Over,
        }
    }
}

/// The launch of a stream whose parameters are agreed on.
#[derive(Debug)]
pub struct Launching {
    pub plan: StreamPlan,
    pub phase: LaunchPhase,
}

/// What a [`Launching`] holds.
#[verifier::ext_equal]
pub struct LaunchingView {
    pub plan: StreamPlan,
    pub phase: LaunchPhaseView,
}

impl View for Launching {
    type V = LaunchingView;

    open spec fn view(&self) -> LaunchingView {
        LaunchingView { plan: self.plan, phase: self.phase@ }
    }
}

/// What a [`Launching`] asks for.
#[derive(Debug)]
pub enum LaunchAction {
    /// Select an alternate setting.
    Select { interface: u8, alternate: u8 },
    /// Start the transfers of the plan.
    Start,
    /// The launch is over.
    Finish(Result<()>),
}

/// What a [`LaunchAction`] holds.
#[verifier::ext_equal]
pub enum LaunchActionView {
    Select { interface: u8, alternate: u8 },
    Start,
    Finish(std::result::Result<(), ErrorView>),
}

impl View for LaunchAction {
    type V = LaunchActionView;

    open spec fn view(&self) -> LaunchActionView {
        match *self {
            LaunchAction::Select { interface, alternate } => LaunchActionView::Select { interface, alternate },
            LaunchAction::Start => LaunchActionView::Start,
            LaunchAction::Finish(r) => LaunchActionView::Finish(outcome(r)),
        }
    }
}

/// The first step of a launch: an isochronous stream has its bandwidth
/// reserved, a bulk one starts at once.
pub open spec fn launch_first(plan: StreamPlan) -> (LaunchingView, LaunchActionView) {
    match plan.mode {
        Mode::Isochronous => (
            LaunchingView { plan, phase: LaunchPhaseView::Selecting },
            LaunchActionView::Select { interface: plan.interface, alternate: plan.alternate },
        ),
        Mode::Bulk => (LaunchingView { plan, phase: LaunchPhaseView::Starting }, LaunchActionView::Start),
    }
}

/// A launch that is over.
pub open spec fn launch_over(s: LaunchingView, r: std::result::Result<(), ErrorView>) -> (LaunchingView, LaunchActionView) {
    (LaunchingView { phase: LaunchPhaseView::Over, ..s }, LaunchActionView::Finish(r))
}

/// The launch after the outcome of its last action. The bandwidth of an
/// isochronous stream that could not be started is given back.
pub open spec fn launch_next(s: LaunchingView, r: std::result::Result<(), ErrorView>) -> (LaunchingView, LaunchActionView) {
    match s.phase {
        LaunchPhaseView::Selecting => match r {
            Ok(_) => (LaunchingView { phase: LaunchPhaseView::Starting, ..s }, LaunchActionView::Start),
            Err(e) => launch_over(s, Err(e)),
        },
        LaunchPhaseView::Starting => match r {
            Ok(_) => launch_over(s, Ok(())),
            Err(e) => match s.plan.mode {
                Mode::Isochronous => (
                    LaunchingView { phase: LaunchPhaseView::Restoring(e), ..s },
                    LaunchActionView::Select { interface: s.plan.interface, alternate: 0 },
                ),
                Mode::Bulk => launch_over(s, Err(e)),
            },
        },
        LaunchPhaseView::Restoring(e) => launch_over(s, Err(e)),
        LaunchPhaseView::Over => launch_over(s, r),
    }
}

impl StreamPlan {
    /// Starts the launch of the stream.
    pub fn launch(self) -> (r: (Launching, LaunchAction))
        ensures
            (r.0@, r.1@) == launch_first(self),
    {
        match self.mode {
            Mode::Isochronous => (
                Launching { plan: self, phase: LaunchPhase::Selecting },
                LaunchAction::Select { interface: self.interface, alternate: self.alternate },
            ),
            Mode::Bulk => (Launching { plan: self, phase: LaunchPhase::Starting }, LaunchAction::Start),
        }
    }
}

impl Launching {
    /// Takes the outcome of the last action and says what to do next.
    pub fn step(self, r: Result<()>) -> (x: (Launching, LaunchAction))
        ensures
            (x.0@, x.1@) == launch_next(self@, outcome(r)),
    {
        let plan = self.plan;
        let over = Launching { plan, phase: LaunchPhase::Over };
        match self.phase {
            LaunchPhase::Selecting => match r {
                Ok(()) => (Launching { plan, phase: LaunchPhase::Starting }, LaunchAction::Start),
                Err(e) => (over, LaunchAction::Finish(Err(e))),
            },
            LaunchPhase::Starting => match r {
                Ok(()) => (over, LaunchAction::Finish(Ok(()))),
                Err(e) => match plan.mode {
                    Mode::Isochronous => (
                        Launching { plan, phase: LaunchPhase::Restoring(e) },
                        LaunchAction::Select { interface: plan.interface, alternate: 0 },
                    ),
                    Mode::Bulk => (over, LaunchAction::Finish(Err(e))),
                },
            },
            LaunchPhase::Restoring(e) => (over, LaunchAction::Finish(Err(e))),
            LaunchPhase::Over => (over, LaunchAction::Finish(r)),
        }
    }
}

/// A launch that fails leaves no bandwidth reserved: once a setting was
/// selected and the transfers could not be started, setting 0 is selected,
/// and the launch fails with the reason whatever comes of that.
pub proof fn lemma_failed_launch_sets_back(plan: StreamPlan, e: ErrorView, r: std::result::Result<(), ErrorView>)
    requires
        plan.mode == Mode::Isochronous,
    ensures
        ({
            let s = launch_first(plan).0;
            let started = launch_next(s, Ok(()));
            let failed = launch_next(started.0, Err(e));
            &&& started.1 is Start
            &&& failed.1 == (LaunchActionView::Select { interface: plan.interface, alternate: 0 })
            &&& launch_next(failed.0, r).1 == LaunchActionView::Finish(Err(e))
        }),
{
}

/// Bytes an isochronous endpoint moves per service interval.
pub open spec fn bandwidth_of(e: EndpointDescriptor) -> u32 {
    match e.ss_companion {
        Some(c) => if c.bytes_per_interval != 0 {
            c.bytes_per_interval as u32
        } else {
            bytes_per_frame(e.max_packet_size) as u32
        },
        None => bytes_per_frame(e.max_packet_size) as u32,
    }
}

/// Bytes an isochronous endpoint moves per service interval, sized the way
/// the Windows backend expects isochronous packets to be.
pub fn iso_bandwidth(e: &EndpointDescriptor) -> (r: u32)
    ensures
        r == bandwidth_of(*e),
{
    match e.ss_companion {
        Some(c) => if c.bytes_per_interval != 0 {
            c.bytes_per_interval as u32
        } else {
            e.max_packet_size()
        },
        None => e.max_packet_size(),
    }
}

/// The bandwidth and number of a setting that can carry the stream.
pub open spec fn candidate_of(a: InterfaceDescriptor, endpoint: u8) -> Option<(u32, u8)> {
    match endpoint_at(a.endpoints@, endpoint) {
        Some(e) => if transfer_type_of(e.attributes) == TransferType::Isochronous && bandwidth_of(e) > 0 {
            Some((bandwidth_of(e), a.alternate_setting))
        } else {
            None
        },
        None => None,
    }
}

/// The candidates among a list of settings.
pub open spec fn candidates_of(v: Seq<InterfaceDescriptor>, endpoint: u8) -> Seq<(u32, u8)>
    decreases v.len(),
{
    if v.len() == 0 {
        Seq::empty()
    } else {
        match candidate_of(v.last(), endpoint) {
            Some(c) => candidates_of(v.drop_last(), endpoint).push(c),
            None => candidates_of(v.drop_last(), endpoint),
        }
    }
}

/// Whether one candidate needs less than another, the lower setting counting
/// as less where both need the same.
pub open spec fn less(a: (u32, u8), b: (u32, u8)) -> bool {
    a.0 < b.0 || (a.0 == b.0 && a.1 < b.1)
}

/// The better of two candidates for a payload: one that covers it is better
/// than one that does not; of two that do the smaller is better, of two that
/// do not the larger.
pub open spec fn better(a: (u32, u8), b: (u32, u8), payload: u32) -> (u32, u8) {
    if a.0 >= payload && b.0 >= payload {
        if less(b, a) {
            b
        } else {
            a
        }
    } else if a.0 >= payload {
        a
    } else if b.0 >= payload {
        b
    } else if less(a, b) {
        b
    } else {
        a
    }
}

/// The best candidate for a payload.
pub open spec fn best(v: Seq<(u32, u8)>, payload: u32) -> Option<(u32, u8)>
    decreases v.len(),
{
    if v.len() == 0 {
        None
    } else {
        match best(v.drop_last(), payload) {
            Some(a) => Some(better(a, v.last(), payload)),
            None => Some(v.last()),
        }
    }
}

fn pick_better(a: (u32, u8), b: (u32, u8), payload: u32) -> (r: (u32, u8))
    ensures
        r == better(a, b, payload),
{
    let b_less = b.0 < a.0 || (b.0 == a.0 && b.1 < a.1);
    let a_less = a.0 < b.0 || (a.0 == b.0 && a.1 < b.1);
    if a.0 >= payload && b.0 >= payload {
        if b_less {
            b
        } else {
            a
        }
    } else if a.0 >= payload {
        a
    } else if b.0 >= payload {
        b
    } else if a_less {
        b
    } else {
        a
    }
}

fn find_candidate(a: &InterfaceDescriptor, endpoint: u8) -> (r: Option<(u32, u8)>)
    ensures
        r == candidate_of(*a, endpoint),
{
    match class::find_endpoint(a, endpoint) {
        Some(e) => match e.transfer_type() {
            TransferType::Isochronous => {
                let bandwidth: u32 = iso_bandwidth(e);
                if bandwidth > 0 {
                    Some((bandwidth, a.alternate_setting))
                } else {
                    None
                }
            },
            _ => None,
        },
        None => None,
    }
}

fn find_best(i: &Interface, endpoint: u8, payload: u32) -> (r: Option<(u32, u8)>)
    ensures
        r == best(candidates_of(i.alt_settings@, endpoint), payload),
{
    let ghost v = i.alt_settings@;
    let mut found: Option<(u32, u8)> = None;
    let mut k: usize = 0;
    assert(v.take(0) =~= Seq::empty());
    while k < i.alt_settings.len()
        invariant
            k <= i.alt_settings@.len(),
            v == i.alt_settings@,
            found == best(candidates_of(v.take(k as int), endpoint), payload),
        decreases i.alt_settings@.len() - k,
    {
        assert(v.take(k + 1).drop_last() =~= v.take(k as int));
        let ghost before = candidates_of(v.take(k as int), endpoint);
        match find_candidate(&i.alt_settings[k], endpoint) {
            Some(c) => {
                assert(before.push(c).drop_last() =~= before);
                found = match found {
                    Some(a) => Some(pick_better(a, c, payload)),
                    None => Some(c),
                };
            },
            None => {},
        }
        k += 1;
    }
    assert(v.take(k as int) =~= v);
    found
}

/// The bulk endpoint that carries the stream, if setting 0 has it.
pub open spec fn bulk_endpoint(i: Interface, endpoint: u8) -> Option<EndpointDescriptor> {
    let k = alt_position(i.alt_settings@, 0);
    if k < i.alt_settings@.len() {
        match endpoint_at(i.alt_settings@[k].endpoints@, endpoint) {
            Some(e) => if transfer_type_of(e.attributes) == TransferType::Bulk {
                Some(e)
            } else {
                None
            },
            None => None,
        }
    } else {
        None
    }
}

fn find_bulk(i: &Interface, endpoint: u8) -> (r: Option<&EndpointDescriptor>)
    ensures
        match bulk_endpoint(*i, endpoint) {
            Some(e) => r == Some(&e),
            None => r is None,
        },
{
    match i.alt_setting(0) {
        Some(a) => match class::find_endpoint(a, endpoint) {
            Some(e) => match e.transfer_type() {
                TransferType::Bulk => Some(e),
                _ => None,
            },
            None => None,
        },
        None => None,
    }
}

/// The largest frame: what was agreed on, or what the frame size declares, or
/// two bytes per pixel.
pub open spec fn largest_frame(c: StreamControlView, f: FrameDescriptorView) -> int {
    if c.max_video_frame_size != 0 {
        c.max_video_frame_size as int
    } else if f.max_frame_size != 0 {
        f.max_frame_size as int
    } else {
        f.width * f.height * 2
    }
}

/// The size of a bulk transfer: one payload, rounded up to whole packets.
pub open spec fn bulk_len(payload: u32, raw_packet: u16) -> int {
    let packet = crate::net::packet_of(raw_packet) as int;
    let n = if payload > packet {
        payload as int
    } else {
        packet
    };
    ((n + packet - 1) / packet) * packet
}

/// How to stream with the parameters that were agreed on, or why it cannot be
/// done.
pub open spec fn stream_plan(
    v: Seq<Interface>,
    s: StreamingInterfaceView,
    frame: FrameDescriptorView,
    c: StreamControlView,
) -> std::result::Result<StreamPlan, ErrorView> {
    match interface_numbered(v, s.interface) {
        None => Err(message(ErrorKind::NotFound, "streaming interface vanished"@)),
        Some(i) => match bulk_endpoint(i, s.endpoint) {
            Some(e) => Ok(
                StreamPlan {
                    interface: s.interface,
                    endpoint: s.endpoint,
                    mode: Mode::Bulk,
                    alternate: 0,
                    packet_size: bulk_len(c.max_payload_transfer_size, e.max_packet_size) as usize,
                    packets: 1,
                    max_frame_size: largest_frame(c, frame) as u32,
                },
            ),
            None => match best(candidates_of(i.alt_settings@, s.endpoint), c.max_payload_transfer_size) {
                None => Err(
                    message(
                        ErrorKind::NotSupported,
                        "no isochronous alternate setting for the video endpoint"@,
                    ),
                ),
                Some((bandwidth, alternate)) => Ok(
                    StreamPlan {
                        interface: s.interface,
                        endpoint: s.endpoint,
                        mode: Mode::Isochronous,
                        alternate,
                        packet_size: bandwidth as usize,
                        packets: ISO_PACKETS,
                        max_frame_size: largest_frame(c, frame) as u32,
                    },
                ),
            },
        },
    }
}

fn bulk_size(payload: u32, packet: u16) -> (r: u64)
    requires
        packet > 0,
    ensures
        r == ({
            let p = packet as int;
            let n = if payload > p {
                payload as int
            } else {
                p
            };
            ((n + p - 1) / p) * p
        }),
        r <= u32::MAX + 0xffff,
{
    let p: u64 = packet as u64;
    let n: u64 = if payload as u64 > p {
        payload as u64
    } else {
        p
    };
    let k: u64 = (n + p - 1) / p;
    assert(k * p <= n + p - 1) by (nonlinear_arith)
        requires
            p > 0,
            k == (n + p - 1) / (p as int),
    ;
    k * p
}

impl Camera {
    /// Starts one probe exchange: proposes `control`; what the device made of
    /// it is in the [`Starting`] when it is over. Useful to learn the
    /// negotiated frame and payload sizes without streaming.
    pub fn probe(&self, interface: u8, control: &StreamControl) -> (r: (Starting, StartAction))
        ensures
            r.0.wf(),
            (r.0@, r.1@) == start_of(self@.control.uvc_version, interface, control@, false),
    {
        let s = Starting {
            interface,
            size: StreamControl::wire_size(self.control.uvc_version),
            commit: false,
            phase: StartPhase::Proposing,
            control: *control,
        };
        s.send(StartPhase::Proposing, VS_PROBE_CONTROL)
    }

    fn choose_frame(&self, request: &StreamRequest) -> (r: Result<
        (&StreamingInterface, &FormatDescriptor, &FrameDescriptor),
    >)
        ensures
            match chosen(self@, *request) {
                Ok(c) => r is Ok && r->Ok_0.0@ == c.0 && r->Ok_0.1@ == c.1 && r->Ok_0.2@ == c.2,
                Err(e) => r is Err && r->Err_0@ == e,
            },
    {
        let s = match self.streaming(request.interface) {
            Ok(s) => s,
            Err(e) => {
                return Err(e);
            },
        };
        let format = match s.format(request.format_index) {
            Some(f) => f,
            None => {
                return Err(Error::with_message(ErrorKind::InvalidParam, "no such format"));
            },
        };
        match format.frame(request.frame_index) {
            Some(frame) => Ok((s, format, frame)),
            None => Err(Error::with_message(ErrorKind::InvalidParam, "no such frame")),
        }
    }

    /// Starts negotiating a stream. Once it is over, [`plan`](Self::plan) says
    /// how to stream.
    pub fn start(&self, request: &StreamRequest) -> (r: Result<(Starting, StartAction)>)
        ensures
            match chosen(self@, *request) {
                Ok((s, format, frame)) => r is Ok && r->Ok_0.0.wf() && (r->Ok_0.0@, r->Ok_0.1@) == start_of(
                    self@.control.uvc_version,
                    s.interface,
                    proposal(format, frame, *request),
                    true,
                ),
                Err(e) => r is Err && r->Err_0@ == e,
            },
    {
        let (s, format, frame) = match self.choose_frame(request) {
            Ok(c) => c,
            Err(e) => {
                return Err(e);
            },
        };
        let interval: u32 = if request.frame_interval == 0 {
            frame.default_interval
        } else {
            request.frame_interval
        };
        let starting = Starting {
            interface: s.interface,
            size: StreamControl::wire_size(self.control.uvc_version),
            commit: true,
            phase: StartPhase::Proposing,
            control: StreamControl::new(format.index, frame.index, interval),
        };
        Ok(starting.send(StartPhase::Proposing, VS_PROBE_CONTROL))
    }

    /// How to stream with the parameters that were agreed on. Two bytes per
    /// pixel of a frame whose size nobody declares, and a bulk transfer of one
    /// payload, must be sizes.
    pub fn plan(&self, cfg: &ConfigDescriptor, request: &StreamRequest, negotiated: &StreamControl) -> (r: Result<
        StreamPlan,
    >)
        requires
            chosen(self@, *request) is Ok ==> largest_frame(negotiated@, chosen(self@, *request)->Ok_0.2)
                <= u32::MAX,
            negotiated@.max_payload_transfer_size <= usize::MAX - 0xffff,
        ensures
            outcome(r) == (match chosen(self@, *request) {
                Err(e) => Err::<StreamPlan, ErrorView>(e),
                Ok((s, _, frame)) => stream_plan(cfg.interfaces@, s, frame, negotiated@),
            }),
    {
        let (s, _, frame) = match self.choose_frame(request) {
            Ok(c) => c,
            Err(e) => {
                return Err(e);
            },
        };
        let i = match cfg.interface(s.interface) {
            Some(i) => i,
            None => {
                proof {
                    class::lemma_no_interface_numbered(cfg.interfaces@, s.interface);
                }
                return Err(Error::with_message(ErrorKind::NotFound, "streaming interface vanished"));
            },
        };
        proof {
            class::lemma_interface_numbered(cfg.interfaces@, s.interface, *i);
        }
        let max_frame_size: u32 = if negotiated.max_video_frame_size != 0 {
            negotiated.max_video_frame_size
        } else if frame.max_frame_size != 0 {
            frame.max_frame_size
        } else {
            assert(frame.width * frame.height <= 0xffff * 0xffff) by (nonlinear_arith)
                requires
                    frame.width <= 0xffff,
                    frame.height <= 0xffff,
            ;
            (frame.width as u64 * frame.height as u64 * 2) as u32
        };
        let payload: u32 = negotiated.max_payload_transfer_size;
        match find_bulk(i, s.endpoint) {
            Some(e) => {
                let size: u16 = e.packet_size();
                let packet: u16 = if size == 0 {
                    1
                } else {
                    size
                };
                let len: u64 = bulk_size(payload, packet);
                assert(len <= payload + 0xffff || len <= 2 * 0xffff) by {
                    lemma_bulk_len_bound(payload, packet);
                }
                Ok(
                    StreamPlan {
                        interface: s.interface,
                        endpoint: s.endpoint,
                        mode: Mode::Bulk,
                        alternate: 0,
                        packet_size: len as usize,
                        packets: 1,
                        max_frame_size,
                    },
                )
            },
            None => match find_best(i, s.endpoint, payload) {
                Some((bandwidth, alternate)) => Ok(
                    StreamPlan {
                        interface: s.interface,
                        endpoint: s.endpoint,
                        mode: Mode::Isochronous,
                        alternate,
                        packet_size: bandwidth as usize,
                        packets: ISO_PACKETS,
                        max_frame_size,
                    },
                ),
                None => Err(
                    Error::with_message(
                        ErrorKind::NotSupported,
                        "no isochronous alternate setting for the video endpoint",
                    ),
                ),
            },
        }
    }
}

proof fn lemma_bulk_len_bound(payload: u32, packet: u16)
    requires
        packet > 0,
    ensures
        ({
            let p = packet as int;
            let n = if payload > p {
                payload as int
            } else {
                p
            };
            ((n + p - 1) / p) * p < n + p
        }),
{
    let p = packet as int;
    let n = if payload > p {
        payload as int
    } else {
        p
    };
    assert(((n + p - 1) / p) * p < n + p) by (nonlinear_arith)
        requires
            p > 0,
    ;
}

/// What stopping a stream asks for once its transfers have ended.
#[derive(Debug, Clone, Copy, PartialEq, Eq, Structural)]
pub enum StopAction {
    /// Alternate setting 0 releases the reserved bandwidth.
    SetAlternate { interface: u8, alternate: u8 },
    /// Bulk devices stop streaming when the endpoint is reset.
    ClearHalt { endpoint: u8 },
}

/// What stops a stream.
pub open spec fn stop_action(mode: Mode, interface: u8, endpoint: u8) -> StopAction {
    match mode {
        Mode::Isochronous => StopAction::SetAlternate { interface, alternate: 0 },
        Mode::Bulk => StopAction::ClearHalt { endpoint },
    }
}

impl StreamPlan {
    /// What stopping the stream asks for.
    pub fn stop(&self) -> (r: StopAction)
        ensures
            r == stop_action(self.mode, self.interface, self.endpoint),
    {
        match self.mode {
            Mode::Isochronous => StopAction::SetAlternate { interface: self.interface, alternate: 0 },
            Mode::Bulk => StopAction::ClearHalt { endpoint: self.endpoint },
        }
    }
}

// ----- what holds of streams ---------------------------------------------------------------

/// An isochronous stream uses the smallest alternate setting whose bandwidth
/// covers the payload; where none does, the largest one.
pub proof fn lemma_best_setting(v: Seq<(u32, u8)>, payload: u32, k: int)
    requires
        0 <= k < v.len(),
    ensures
        best(v, payload) is Some,
        v.contains(best(v, payload)->0),
        v[k].0 >= payload ==> (best(v, payload)->0).0 >= payload && !less(v[k], best(v, payload)->0),
        (best(v, payload)->0).0 < payload ==> !less(best(v, payload)->0, v[k]),
    decreases v.len(),
{
    let front = v.drop_last();
    if front.len() == 0 {
        assert(best(front, payload) is None);
        assert(v[0] == v.last());
    } else {
        if k < v.len() - 1 {
            lemma_best_setting(front, payload, k);
        } else {
            lemma_best_setting(front, payload, 0);
        }
        let a = best(front, payload)->0;
        let j = choose|j: int| 0 <= j < front.len() && front[j] == a;
        assert(v[j] == a);
        assert(v[v.len() - 1] == v.last());
        assert(best(v, payload)->0 == better(a, v.last(), payload));
    }
}

/// An integer control reads back as it was written, where it fits.
pub proof fn lemma_int_round_trip(value: i64, size: int, signed: bool)
    requires
        1 <= size <= 4,
        signed ==> -(value_range(size) / 2) <= value < value_range(size) / 2,
        !signed ==> 0 <= value < value_range(size),
    ensures
        int_bytes(value, size).len() == size,
        int_value(int_bytes(value, size), signed) == value,
{
    let v = (value as int % 0x1_0000_0000) as u32;
    lemma_low_bytes(v, size);
    lemma_low_part(value as int, size, signed);
}

proof fn lemma_low_bytes(v: u32, size: int)
    requires
        1 <= size <= 4,
    ensures
        u32_bytes(v).take(size).len() == size,
        bytes::le32_at(u32_bytes(v).take(size), 0) == v as int % value_range(size),
{
    let b = u32_bytes(v).take(size);
    assert(bytes::byte_at(b, 0) == (v % 256) as u8);
    if size == 1 {
        assert(bytes::byte_at(b, 1) == 0 && bytes::byte_at(b, 2) == 0 && bytes::byte_at(b, 3) == 0);
    } else {
        assert(bytes::byte_at(b, 1) == (v / 256 % 256) as u8);
        if size == 2 {
            assert(bytes::byte_at(b, 2) == 0 && bytes::byte_at(b, 3) == 0);
        } else {
            assert(bytes::byte_at(b, 2) == (v / 65536 % 256) as u8);
            if size == 3 {
                assert(bytes::byte_at(b, 3) == 0);
            } else {
                assert(bytes::byte_at(b, 3) == (v / 16777216) as u8);
            }
        }
    }
}

proof fn lemma_low_part(value: int, size: int, signed: bool)
    requires
        1 <= size <= 4,
        signed ==> -(value_range(size) / 2) <= value < value_range(size) / 2,
        !signed ==> 0 <= value < value_range(size),
    ensures
        ({
            let raw = (value % 0x1_0000_0000) % value_range(size);
            raw == (if value < 0 {
                value + value_range(size)
            } else {
                value
            })
        }),
{
    if size == 1 {
        lemma_wraps(value, 256, 16777216);
    } else if size == 2 {
        lemma_wraps(value, 65536, 65536);
    } else if size == 3 {
        lemma_wraps(value, 16777216, 256);
    } else {
        lemma_wraps(value, 4294967296, 1);
    }
}

proof fn lemma_wraps(value: int, range: int, times: int)
    requires
        range > 0,
        times > 0,
        range * times == 0x1_0000_0000,
        -range <= value < range,
    ensures
        (value % 0x1_0000_0000) % range == (if value < 0 {
            value + range
        } else {
            value
        }),
{
    vstd::arithmetic::div_mod::lemma_mod_mod(value, range, times);
    if value < 0 {
        vstd::arithmetic::div_mod::lemma_mod_add_multiples_vanish(value, range);
        vstd::arithmetic::div_mod::lemma_small_mod((value + range) as nat, range as nat);
    } else {
        vstd::arithmetic::div_mod::lemma_small_mod(value as nat, range as nat);
    }
}

/// What is committed to is what the device answered to the proposal.
pub proof fn lemma_commits_to_the_answer(s: StartingView, answer: Seq<u8>)
    requires
        s.phase == StartPhase::Answering,
        s.commit,
    ensures
        start_next(s, Ok(answer)).1 == (StartActionView::Write {
            setup: vs_setup(Direction::Out, SET_CUR, VS_COMMIT_CONTROL, s.interface, s.size),
            data: control_bytes(control_of(answer)).take(s.size as int),
            timeout: NEGOTIATION_TIMEOUT,
        }),
        start_next(s, Ok(answer)).0.control == control_of(answer),
{
}

/// The frame of a size is the first one that has it, if any has.
pub proof fn lemma_frame_sized(v: Seq<FrameDescriptorView>, width: u16, height: u16, k: int)
    requires
        0 <= k <= v.len(),
        forall|j: int| 0 <= j < k ==> !(((#[trigger] v[j]).width == width && v[j].height == height)),
    ensures
        k == v.len() ==> frame_sized(v, width, height) is None,
        k < v.len() && (v[k].width == width && v[k].height == height) ==> frame_sized(v, width, height) == Some(v[k]),
    decreases k,
{
    if k > 0 {
        let w = v.skip(1);
        assert(!((v[0].width == width && v[0].height == height)));
        assert forall|j: int| 0 <= j < k - 1 implies !(((#[trigger] w[j]).width == width && w[j].height == height)) by {
            assert(w[j] == v[j + 1]);
        }
        if k < v.len() {
            assert(w[k - 1] == v[k]);
        }
        lemma_frame_sized(w, width, height, k - 1);
    }
}

/// The streaming interface with a number is the first one that has it.
pub proof fn lemma_streaming_at(v: Seq<StreamingInterfaceView>, interface: u8, k: int)
    requires
        0 <= k <= v.len(),
        forall|j: int| 0 <= j < k ==> !((#[trigger] v[j]).interface == interface),
    ensures
        k == v.len() ==> streaming_at(v, interface) is None,
        k < v.len() && v[k].interface == interface ==> streaming_at(v, interface) == Some(v[k]),
    decreases k,
{
    if k > 0 {
        let w = v.skip(1);
        assert(!(v[0].interface == interface));
        assert forall|j: int| 0 <= j < k - 1 implies !((#[trigger] w[j]).interface == interface) by {
            assert(w[j] == v[j + 1]);
        }
        if k < v.len() {
            assert(w[k - 1] == v[k]);
        }
        lemma_streaming_at(w, interface, k - 1);
    }
}

/// A request for a format names a streaming interface of the camera, a format
/// of it with that FourCC and a frame of that format with that size, and asks
/// for its default interval.
pub proof fn lemma_found_format(v: Seq<StreamingInterfaceView>, fourcc: Seq<u8>, width: u16, height: u16)
    ensures
        request_among(v, fourcc, width, height) matches Some(r) ==> exists|i: int|
            0 <= i < v.len() && r.interface == (#[trigger] v[i]).interface && format_named(v[i].formats, fourcc) is Some
                && r.format_index == format_named(v[i].formats, fourcc)->0.index && frame_sized(
                format_named(v[i].formats, fourcc)->0.frames,
                width,
                height,
            ) is Some && r.frame_index == frame_sized(
                format_named(v[i].formats, fourcc)->0.frames,
                width,
                height,
            )->0.index && r.frame_interval == 0,
        request_among(v, fourcc, width, height) is None ==> forall|i: int|
            0 <= i < v.len() ==> format_named((#[trigger] v[i]).formats, fourcc) is None || frame_sized(
                format_named(v[i].formats, fourcc)->0.frames,
                width,
                height,
            ) is None,
    decreases v.len(),
{
    if v.len() > 0 {
        let w = v.skip(1);
        lemma_found_format(w, fourcc, width, height);
        if request_on(v[0], fourcc, width, height) is None {
            if request_among(w, fourcc, width, height) is Some {
                let r = request_among(w, fourcc, width, height)->0;
                let i = choose|i: int|
                    0 <= i < w.len() && r.interface == (#[trigger] w[i]).interface && format_named(
                        w[i].formats,
                        fourcc,
                    ) is Some && r.format_index == format_named(w[i].formats, fourcc)->0.index && frame_sized(
                        format_named(w[i].formats, fourcc)->0.frames,
                        width,
                        height,
                    ) is Some && r.frame_index == frame_sized(
                        format_named(w[i].formats, fourcc)->0.frames,
                        width,
                        height,
                    )->0.index && r.frame_interval == 0;
                assert(v[i + 1] == w[i]);
            } else {
                assert forall|i: int| 0 <= i < v.len() implies format_named((#[trigger] v[i]).formats, fourcc) is None
                    || frame_sized(format_named(v[i].formats, fourcc)->0.frames, width, height) is None by {
                    if i > 0 {
                        assert(v[i] == w[i - 1]);
                    }
                }
            }
        } else {
            assert(v[0].interface == request_among(v, fourcc, width, height)->0.interface);
        }
    }
}

/// A camera has a control interface of class 14 and subclass 1, and those of
/// the streaming interfaces which its header lists that exist and have an
/// input header, in order.
pub proof fn lemma_camera(v: Seq<Interface>, control_interface: u8, numbers: Seq<u8>, n: u8)
    ensures
        camera_on(v, control_interface) matches Ok(c) ==> {
            let a = class::setting_of(v, control_interface)->Ok_0;
            &&& a.class == 14 && a.sub_class == 1
            &&& control_in(a) == Some(c.control)
            &&& c.streaming == streams_of(v, c.control.streaming_interfaces)
        },
        class::setting_of(v, control_interface) matches Ok(a) ==> {
            &&& a.class != 14 || a.sub_class != 1 ==> camera_on(v, control_interface) is Err && camera_on(
                v,
                control_interface,
            )->Err_0.kind == ErrorKind::InvalidParam
            &&& a.class == 14 && a.sub_class == 1 ==> (camera_on(v, control_interface) is Ok <==> control_in(a) is Some)
        },
        streams_of(v, Seq::empty()).len() == 0,
        stream_of(v, n) is None ==> streams_of(v, numbers.push(n)) == streams_of(v, numbers),
        stream_of(v, n) matches Some(s) ==> streams_of(v, numbers.push(n)) == streams_of(v, numbers).push(s),
        interface_numbered(v, n) matches Some(i) ==> stream_of(v, n) == streaming_in(main_alt(i)),
        interface_numbered(v, n) is None ==> stream_of(v, n) is None,
{
    assert(numbers.push(n).drop_last() =~= numbers);
}

/// A control of an entity is addressed by its selector in the high byte of the
/// value and its entity in the high byte of the index, above the interface;
/// each request has its number.
pub proof fn lemma_control_requests(r: ControlRequest, entity: u8, selector: u8, interface: u8)
    ensures
        ({
            let g = control_setup(Direction::In, request_code(r), entity, selector, interface);
            let s = control_setup(Direction::Out, SET_CUR, entity, selector, interface);
            &&& g.request_type == 0xa1
            &&& s.request_type == 0x21
            &&& s.request == 1
            &&& g.request == 0x81 <==> r == ControlRequest::Cur
            &&& g.request == 0x82 <==> r == ControlRequest::Min
            &&& g.request == 0x83 <==> r == ControlRequest::Max
            &&& g.request == 0x84 <==> r == ControlRequest::Res
            &&& g.request == 0x85 <==> r == ControlRequest::Len
            &&& g.request == 0x86 <==> r == ControlRequest::Info
            &&& g.request == 0x87 <==> r == ControlRequest::Def
            &&& g.value == s.value && g.index == s.index
            &&& s.value / 256 == selector && s.value % 256 == 0
            &&& s.index / 256 == entity && s.index % 256 == interface
        }),
{
}

/// A control value is little-endian; a signed one has its sign in the highest
/// bit of its size.
pub proof fn lemma_control_values(a: u8, b: u8, c: u8, d: u8)
    ensures
        int_value(seq![a], false) == a,
        int_value(seq![a], true) == a - (if a >= 0x80 { 0x100int } else { 0 }),
        int_value(seq![a, b], false) == a + 0x100 * b,
        int_value(seq![a, b], true) == a + 0x100 * b - (if b >= 0x80 { 0x1_0000int } else { 0 }),
        int_value(seq![a, b, c], false) == a + 0x100 * b + 0x1_0000 * c,
        int_value(seq![a, b, c], true) == a + 0x100 * b + 0x1_0000 * c - (if c >= 0x80 { 0x100_0000int } else { 0 }),
        int_value(seq![a, b, c, d], false) == a + 0x100 * b + 0x1_0000 * c + 0x100_0000 * d,
        int_value(seq![a, b, c, d], true) == a + 0x100 * b + 0x1_0000 * c + 0x100_0000 * d - (if d >= 0x80 {
            0x1_0000_0000int
        } else {
            0
        }),
{
}

/// The negotiation: the block is proposed by a write to the probe control (1),
/// read back from it, and, where the stream is to start, written to the commit
/// control (2).
pub proof fn lemma_negotiation(uvc_version: u16, interface: u8, control: StreamControlView, answer: Seq<u8>)
    ensures
        ({
            let (s, a) = start_of(uvc_version, interface, control, true);
            let (t, b) = start_next(s, Ok(Seq::empty()));
            let (u, c) = start_next(t, Ok(answer));
            let size = if uvc_version < 0x0110 { 26int } else if uvc_version < 0x0150 { 34 } else { 48 };
            &&& a is Write
            &&& (a->Write_setup.request_type, a->Write_setup.request) == (0x21u8, 1u8)
            &&& (a->Write_setup.value, a->Write_setup.index) == (0x0100u16, interface as u16)
            &&& a->Write_setup.length == size
            &&& a->Write_data == control_bytes(control).take(size)
            &&& b is Read
            &&& (b->Read_setup.request_type, b->Read_setup.request) == (0xa1u8, 0x81u8)
            &&& (b->Read_setup.value, b->Read_setup.index) == (0x0100u16, interface as u16)
            &&& b->Read_setup.length == size
            &&& c is Write
            &&& (c->Write_setup.request_type, c->Write_setup.request) == (0x21u8, 1u8)
            &&& (c->Write_setup.value, c->Write_setup.index) == (0x0200u16, interface as u16)
            &&& c->Write_setup.length == size
            &&& c->Write_data == control_bytes(control_of(answer)).take(size)
            &&& start_next(u, Ok(Seq::empty())).1 == StartActionView::Finish(Ok::<(), ErrorView>(()))
        }),
        ({
            let (s, a) = start_of(uvc_version, interface, control, false);
            let (t, b) = start_next(s, Ok(Seq::empty()));
            let (u, c) = start_next(t, Ok(answer));
            &&& c == StartActionView::Finish(Ok::<(), ErrorView>(()))
            &&& u.control == control_of(answer)
        }),
{
}

/// A failure ends the negotiation with its error.
pub proof fn lemma_negotiation_fails(s: StartingView, e: ErrorView)
    ensures
        start_next(s, Err(e)).1 == StartActionView::Finish(Err::<(), ErrorView>(e)),
        start_next(s, Err(e)).0.phase == StartPhase::Over,
{
}

/// What is proposed: the format and the frame that were chosen, and the
/// interval that was asked for, or else the frame's own.
pub proof fn lemma_proposal(format: FormatDescriptorView, frame: FrameDescriptorView, q: StreamRequest)
    ensures
        ({
            let p = proposal(format, frame, q);
            &&& p.hint == 1
            &&& p.format_index == format.index
            &&& p.frame_index == frame.index
            &&& q.frame_interval != 0 ==> p.frame_interval == q.frame_interval
            &&& q.frame_interval == 0 ==> p.frame_interval == frame.default_interval
            &&& p.max_video_frame_size == 0 && p.max_payload_transfer_size == 0
        }),
{
}

/// What is chosen is what the request names; a request that names something
/// that is not there is refused.
pub proof fn lemma_choice(c: CameraView, q: StreamRequest)
    ensures
        chosen(c, q) is Ok <==> streaming_at(c.streaming, q.interface) is Some && format_at(
            streaming_at(c.streaming, q.interface)->0.formats,
            q.format_index,
        ) is Some && frame_at(
            format_at(streaming_at(c.streaming, q.interface)->0.formats, q.format_index)->0.frames,
            q.frame_index,
        ) is Some,
        chosen(c, q) matches Ok((s, format, frame)) ==> {
            &&& streaming_at(c.streaming, q.interface) == Some(s)
            &&& format_at(s.formats, q.format_index) == Some(format)
            &&& frame_at(format.frames, q.frame_index) == Some(frame)
        },
        chosen(c, q) matches Err(e) ==> e.kind == ErrorKind::InvalidParam,
{
}

/// An isochronous stream selects its setting before it starts, a bulk stream
/// starts at once.
pub proof fn lemma_launch(plan: StreamPlan)
    ensures
        plan.mode == Mode::Isochronous ==> launch_first(plan).1 == (LaunchActionView::Select {
            interface: plan.interface,
            alternate: plan.alternate,
        }),
        plan.mode == Mode::Bulk ==> launch_first(plan).1 is Start,
        plan.mode == Mode::Isochronous ==> launch_next(launch_first(plan).0, Ok(())).1 is Start,
        plan.mode == Mode::Bulk ==> launch_next(launch_first(plan).0, Ok(())).1 == LaunchActionView::Finish(
            Ok::<(), ErrorView>(()),
        ),
{
}

/// What an isochronous endpoint carries per interval: what its companion
/// declares, or the packets of one microframe.
pub proof fn lemma_bandwidth(e: EndpointDescriptor)
    ensures
        e.ss_companion is None ==> bandwidth_of(e) == bytes_per_frame(e.max_packet_size),
        e.ss_companion matches Some(c) ==> {
            &&& c.bytes_per_interval != 0 ==> bandwidth_of(e) == c.bytes_per_interval
            &&& c.bytes_per_interval == 0 ==> bandwidth_of(e) == bytes_per_frame(e.max_packet_size)
        },
{
    crate::descriptors::lemma_frame_bound(e.max_packet_size);
}

/// The settings that a stream can use are those in which its endpoint is
/// isochronous and carries something, in order, each with its bandwidth.
pub proof fn lemma_candidates(v: Seq<InterfaceDescriptor>, a: InterfaceDescriptor, endpoint: u8)
    ensures
        candidates_of(Seq::empty(), endpoint).len() == 0,
        ({
            let e = endpoint_at(a.endpoints@, endpoint);
            let fits = e is Some && transfer_type_of(e->0.attributes) == TransferType::Isochronous && bandwidth_of(e->0)
                > 0;
            &&& fits ==> candidates_of(v.push(a), endpoint) == candidates_of(v, endpoint).push(
                (bandwidth_of(e->0), a.alternate_setting),
            )
            &&& !fits ==> candidates_of(v.push(a), endpoint) == candidates_of(v, endpoint)
        }),
{
    assert(v.push(a).drop_last() =~= v);
}

/// The setting that is taken has the least bandwidth that suffices or, where
/// none suffices, the most there is.
pub proof fn lemma_best_bandwidth(v: Seq<(u32, u8)>, payload: u32, k: int)
    requires
        0 <= k < v.len(),
    ensures
        ({
            let b = best(v, payload)->0;
            &&& best(v, payload) is Some
            &&& v.contains(b)
            &&& v[k].0 >= payload ==> payload <= b.0 <= v[k].0
            &&& v[k].0 >= payload && v[k].0 == b.0 ==> b.1 <= v[k].1
            &&& b.0 < payload ==> v[k].0 <= b.0
        }),
{
    lemma_best_setting(v, payload, k);
}

/// A bulk transfer is as long as a payload, rounded up to whole packets.
pub proof fn lemma_bulk_length(payload: u32, raw_packet: u16)
    ensures
        ({
            let packet = crate::net::packet_of(raw_packet) as int;
            let n = bulk_len(payload, raw_packet);
            &&& n >= payload
            &&& n >= packet
            &&& n % packet == 0
            &&& n < payload + packet || n == packet
        }),
{
    let packet = crate::net::packet_of(raw_packet) as int;
    let m = if payload > packet {
        payload as int
    } else {
        packet
    };
    let q = (m + packet - 1) / packet;
    assert(q * packet <= m + packet - 1 < (q + 1) * packet) by (nonlinear_arith)
        requires
            q == (m + packet - 1) / packet,
            packet > 0,
    ;
    assert((q + 1) * packet == q * packet + packet) by (nonlinear_arith);
    assert((q * packet) % packet == 0) by (nonlinear_arith)
        requires
            packet > 0,
    ;
    if m == packet {
        assert(q == 1) by (nonlinear_arith)
            requires
                q * packet <= 2 * packet - 1,
                2 * packet - 1 < q * packet + packet,
                packet > 0,
        ;
        assert(q * packet == packet);
    }
}

/// The largest frame is what was negotiated, else what the frame declares,
/// else two bytes per pixel.
pub proof fn lemma_largest_frame(c: StreamControlView, f: FrameDescriptorView)
    ensures
        c.max_video_frame_size != 0 ==> largest_frame(c, f) == c.max_video_frame_size,
        c.max_video_frame_size == 0 && f.max_frame_size != 0 ==> largest_frame(c, f) == f.max_frame_size,
        c.max_video_frame_size == 0 && f.max_frame_size == 0 ==> largest_frame(c, f) == 2 * (f.width * f.height),
{
    let p = f.width * f.height;
    assert(f.width * f.height * 2 == 2 * p) by (nonlinear_arith)
        requires
            p == f.width * f.height,
    ;
}

/// What a stream is run with: its endpoint as bulk where the first setting has
/// it so, and otherwise the best isochronous setting with 32 packets a
/// transfer.
pub proof fn lemma_stream_plan(
    v: Seq<Interface>,
    i: Interface,
    s: StreamingInterfaceView,
    frame: FrameDescriptorView,
    c: StreamControlView,
)
    requires
        interface_numbered(v, s.interface) == Some(i),
        largest_frame(c, frame) <= u32::MAX,
    ensures
        ({
            let r = stream_plan(v, s, frame, c);
            let p = r->Ok_0;
            let b = best(candidates_of(i.alt_settings@, s.endpoint), c.max_payload_transfer_size);
            &&& r is Ok ==> p.interface == s.interface && p.endpoint == s.endpoint && p.max_frame_size
                == largest_frame(c, frame)
            &&& bulk_endpoint(i, s.endpoint) is Some ==> r is Ok && p.mode == Mode::Bulk && p.alternate == 0 && p.packets
                == 1
            &&& bulk_endpoint(i, s.endpoint) is None && b is Some ==> r is Ok && p.mode == Mode::Isochronous && p.alternate
                == (b->0).1 && p.packet_size == (b->0).0 as usize && p.packets == 32
            &&& bulk_endpoint(i, s.endpoint) is None && b is None ==> r is Err && r->Err_0.kind == ErrorKind::NotSupported
        }),
        bulk_endpoint(i, s.endpoint) matches Some(e) ==> transfer_type_of(e.attributes) == TransferType::Bulk
            && e.address == s.endpoint,
{
    if bulk_endpoint(i, s.endpoint) is Some {
        let k = alt_position(i.alt_settings@, 0);
        lemma_found_address(i.alt_settings@[k].endpoints@, s.endpoint);
    }
}

proof fn lemma_found_address(es: Seq<EndpointDescriptor>, address: u8)
    ensures
        endpoint_at(es, address) matches Some(e) ==> e.address == address,
    decreases es.len(),
{
    if es.len() > 0 && es[0].address != address {
        lemma_found_address(es.skip(1), address);
    }
}

/// A camera needs its control interface and then its streaming interfaces, in
/// their order.
pub proof fn lemma_stream_numbers(v: Seq<StreamingInterfaceView>, i: int)
    requires
        0 <= i < v.len(),
    ensures
        stream_numbers(v).len() == v.len(),
        stream_numbers(v)[i] == v[i].interface,
{
}

/// A video control interface has class 14 and subclass 1.
pub proof fn lemma_video_control(a: InterfaceDescriptor)
    ensures
        video_control(a) <==> a.class == 14 && a.sub_class == 1,
{
}

/// A setting can carry a stream if the endpoint is isochronous there and moves
/// something.
pub proof fn lemma_candidate(a: InterfaceDescriptor, endpoint: u8)
    ensures
        endpoint_at(a.endpoints@, endpoint) is None ==> candidate_of(a, endpoint) is None,
        endpoint_at(a.endpoints@, endpoint) matches Some(e) ==> {
            let iso = e.attributes % 4 == 1;
            &&& !iso || bandwidth_of(e) == 0 ==> candidate_of(a, endpoint) is None
            &&& iso && bandwidth_of(e) > 0 ==> candidate_of(a, endpoint) == Some((bandwidth_of(e), a.alternate_setting))
        },
{
}

/// An isochronous stream is stopped by the setting without bandwidth, one in
/// bulk by clearing its endpoint.
pub proof fn lemma_stops(interface: u8, endpoint: u8)
    ensures
        stop_action(Mode::Isochronous, interface, endpoint) == (StopAction::SetAlternate { interface, alternate: 0 }),
        stop_action(Mode::Bulk, interface, endpoint) == (StopAction::ClearHalt { endpoint }),
{
}

/// A stream goes in bulk if its endpoint is a bulk endpoint in the first
/// setting 0; other settings do not count.
pub proof fn lemma_bulk_streams(i: Interface, k: int, endpoint: u8)
    requires
        0 <= k <= i.alt_settings@.len(),
        forall|j: int| 0 <= j < k ==> (#[trigger] i.alt_settings@[j]).alternate_setting != 0,
    ensures
        k == i.alt_settings@.len() ==> bulk_endpoint(i, endpoint) is None,
        k < i.alt_settings@.len() && i.alt_settings@[k].alternate_setting == 0 ==> {
            let e = endpoint_at(i.alt_settings@[k].endpoints@, endpoint);
            &&& e is None ==> bulk_endpoint(i, endpoint) is None
            &&& e is Some && (e->0).attributes % 4 == 2 ==> bulk_endpoint(i, endpoint) == e
            &&& e is Some && (e->0).attributes % 4 != 2 ==> bulk_endpoint(i, endpoint) is None
        },
{
    let v = i.alt_settings@;
    crate::descriptors::lemma_alt_found(v, 0);
    let p = alt_position(v, 0);
    if p < v.len() && p < k {
        assert(v[p].alternate_setting != 0);
    }
    if k < v.len() && v[k].alternate_setting == 0 && k < p {
        assert(v[k].alternate_setting != 0);
    }
}

} // verus!
