//! UVC class-specific descriptors (UVC 1.5 §3.7 and §3.9, plus the payload
//! format specifications for uncompressed, MJPEG and frame-based video).

use crate::bytes::{byte, byte_at, copy_range, le16, le16_at, le32, le32_at};
use crate::class::{all_extras, interface_extras, slice_views};
use crate::descriptors::InterfaceDescriptor;
use vstd::prelude::*;

pub mod vc;
pub mod vs;

verus! {

/// Class-specific interface descriptor.
pub const CS_INTERFACE: u8 = 0x24;

/// Whether a descriptor is a class-specific one with a subtype.
pub open spec fn is_class_specific(d: Seq<u8>) -> bool {
    d.len() >= 3 && d[1] == CS_INTERFACE
}

/// One byte of a bitmap of `size` bytes.
pub open spec fn bitmap_byte(b: Seq<u8>, at: int, size: int, i: int) -> int {
    if i < size {
        byte_at(b, at + i) as int
    } else {
        0
    }
}

/// Little-endian bitmap of `size` bytes at `at`, truncated to 64 bits.
pub open spec fn bitmap_of(b: Seq<u8>, at: int, size: int) -> u64 {
    (bitmap_byte(b, at, size, 0) + bitmap_byte(b, at, size, 1) * 0x100 + bitmap_byte(b, at, size, 2) * 0x1_0000
        + bitmap_byte(b, at, size, 3) * 0x100_0000 + bitmap_byte(b, at, size, 4) * 0x1_0000_0000 + bitmap_byte(
        b,
        at,
        size,
        5,
    ) * 0x100_0000_0000 + bitmap_byte(b, at, size, 6) * 0x1_0000_0000_0000 + bitmap_byte(b, at, size, 7)
        * 0x100_0000_0000_0000) as u64
}

fn part(b: &[u8], at: usize, size: usize, i: usize) -> (r: u64)
    requires
        at < 0x1000,
        i < 8,
    ensures
        r == bitmap_byte(b@, at as int, size as int, i as int),
        r < 256,
{
    if i < size {
        byte(b, at + i) as u64
    } else {
        0
    }
}

fn bitmap(b: &[u8], at: usize, size: usize) -> (r: u64)
    requires
        at < 0x1000,
    ensures
        r == bitmap_of(b@, at as int, size as int),
{
    part(b, at, size, 0) + part(b, at, size, 1) * 0x100 + part(b, at, size, 2) * 0x1_0000 + part(b, at, size, 3)
        * 0x100_0000 + part(b, at, size, 4) * 0x1_0000_0000 + part(b, at, size, 5) * 0x100_0000_0000 + part(
        b,
        at,
        size,
        6,
    ) * 0x1_0000_0000_0000 + part(b, at, size, 7) * 0x100_0000_0000_0000
}

/// A terminal or unit in the camera's control topology.
#[derive(Debug, Clone, PartialEq, Eq)]
pub struct Entity {
    /// `bTerminalID` / `bUnitID`: the value to address controls with.
    pub id: u8,
    /// What it is.
    pub kind: EntityKind,
    /// Controls bitmap (`bmControls`), bit `n` meaning control selector
    /// `n + 1` is supported. 0 for entities without controls.
    pub controls: u64,
}

/// The kind of a terminal or unit.
#[derive(Debug, Clone, PartialEq, Eq)]
#[non_exhaustive]
pub enum EntityKind {
    /// The camera sensor (input terminal of type 0x0201).
    CameraTerminal,
    /// Another input terminal, with its `wTerminalType`.
    InputTerminal(u16),
    /// An output terminal (normally the USB streaming terminal).
    OutputTerminal(u16),
    /// A selector unit.
    SelectorUnit,
    /// The processing unit: brightness, contrast, white balance, ...
    ProcessingUnit,
    /// A vendor extension unit, identified by its GUID.
    ExtensionUnit {
        /// `guidExtensionCode`, in wire byte order.
        guid: [u8; 16],
        /// `bNumControls`.
        num_controls: u8,
    },
    /// An encoding unit (UVC 1.5).
    EncodingUnit,
}

/// What an [`EntityKind`] holds.
#[verifier::ext_equal]
pub enum EntityKindView {
    CameraTerminal,
    InputTerminal(u16),
    OutputTerminal(u16),
    SelectorUnit,
    ProcessingUnit,
    ExtensionUnit { guid: Seq<u8>, num_controls: u8 },
    EncodingUnit,
}

impl View for EntityKind {
    type V = EntityKindView;

    open spec fn view(&self) -> EntityKindView {
        match *self {
            EntityKind::CameraTerminal => EntityKindView::CameraTerminal,
            EntityKind::InputTerminal(t) => EntityKindView::InputTerminal(t),
            EntityKind::OutputTerminal(t) => EntityKindView::OutputTerminal(t),
            EntityKind::SelectorUnit => EntityKindView::SelectorUnit,
            EntityKind::ProcessingUnit => EntityKindView::ProcessingUnit,
            EntityKind::ExtensionUnit { guid, num_controls } => EntityKindView::ExtensionUnit {
                guid: guid@,
                num_controls,
            },
            EntityKind::EncodingUnit => EntityKindView::EncodingUnit,
        }
    }
}

/// What an [`Entity`] holds.
#[verifier::ext_equal]
pub struct EntityView {
    pub id: u8,
    pub kind: EntityKindView,
    pub controls: u64,
}

impl View for Entity {
    type V = EntityView;

    open spec fn view(&self) -> EntityView {
        EntityView { id: self.id, kind: self.kind@, controls: self.controls }
    }
}

/// What several entities hold.
pub open spec fn entity_views(v: Seq<Entity>) -> Seq<EntityView> {
    Seq::new(v.len(), |i: int| v[i]@)
}

/// The VideoControl interface: UVC version and control topology.
#[derive(Debug, Clone, PartialEq, Eq)]
pub struct ControlInterface {
    /// `bInterfaceNumber`.
    pub interface: u8,
    /// `bcdUVC`.
    pub uvc_version: u16,
    /// `dwClockFrequency` (Hz), the unit of the payload timestamps.
    pub clock_frequency: u32,
    /// The streaming interfaces that belong to this function.
    pub streaming_interfaces: Vec<u8>,
    /// Terminals and units.
    pub entities: Vec<Entity>,
}

/// What a [`ControlInterface`] holds.
#[verifier::ext_equal]
pub struct ControlInterfaceView {
    pub interface: u8,
    pub uvc_version: u16,
    pub clock_frequency: u32,
    pub streaming_interfaces: Seq<u8>,
    pub entities: Seq<EntityView>,
}

impl View for ControlInterface {
    type V = ControlInterfaceView;

    open spec fn view(&self) -> ControlInterfaceView {
        ControlInterfaceView {
            interface: self.interface,
            uvc_version: self.uvc_version,
            clock_frequency: self.clock_frequency,
            streaming_interfaces: self.streaming_interfaces@,
            entities: entity_views(self.entities@),
        }
    }
}

/// The entity that a descriptor declares, if it declares one.
pub open spec fn entity_in(d: Seq<u8>) -> Option<EntityView> {
    let entity = |kind: EntityKindView, controls: u64| Some(EntityView { id: byte_at(d, 3), kind, controls });
    if !is_class_specific(d) {
        None
    } else if d[2] == vc::INPUT_TERMINAL && d.len() >= 8 {
        if le16_at(d, 4) == 0x0201 && d.len() >= 15 {
            entity(EntityKindView::CameraTerminal, bitmap_of(d, 15, d[14] as int))
        } else {
            entity(EntityKindView::InputTerminal(le16_at(d, 4)), 0)
        }
    } else if d[2] == vc::OUTPUT_TERMINAL && d.len() >= 9 {
        entity(EntityKindView::OutputTerminal(le16_at(d, 4)), 0)
    } else if d[2] == vc::SELECTOR_UNIT && d.len() >= 5 {
        entity(EntityKindView::SelectorUnit, 0)
    } else if d[2] == vc::PROCESSING_UNIT && d.len() >= 8 {
        entity(EntityKindView::ProcessingUnit, bitmap_of(d, 8, d[7] as int))
    } else if d[2] == vc::EXTENSION_UNIT && d.len() >= 22 {
        entity(
            EntityKindView::ExtensionUnit { guid: d.subrange(4, 20), num_controls: d[20] },
            bitmap_of(d, 23 + d[21], byte_at(d, 22 + d[21]) as int),
        )
    } else if d[2] == vc::ENCODING_UNIT && d.len() >= 5 {
        entity(EntityKindView::EncodingUnit, 0)
    } else {
        None
    }
}

/// Whether a descriptor is the header of a VideoControl interface.
pub open spec fn is_control_header(d: Seq<u8>) -> bool {
    is_class_specific(d) && d[2] == vc::HEADER && d.len() >= 12
}

/// The streaming interfaces that a header lists, as far as they fit.
pub open spec fn listed_streams(d: Seq<u8>) -> Seq<u8> {
    if 12 + d[11] <= d.len() {
        d.subrange(12, 12 + d[11])
    } else {
        d.skip(12)
    }
}

/// What is known of a VideoControl interface after one more descriptor; the
/// flag says whether a header was seen.
pub open spec fn control_step(s: (ControlInterfaceView, bool), d: Seq<u8>) -> (ControlInterfaceView, bool) {
    if is_control_header(d) {
        (
            ControlInterfaceView {
                uvc_version: le16_at(d, 3),
                clock_frequency: le32_at(d, 7),
                streaming_interfaces: listed_streams(d),
                ..s.0
            },
            true,
        )
    } else {
        match entity_in(d) {
            Some(e) => (ControlInterfaceView { entities: s.0.entities.push(e), ..s.0 }, s.1),
            None => s,
        }
    }
}

/// What a list of descriptors says of a VideoControl interface.
pub open spec fn control_after(interface: u8, ds: Seq<Seq<u8>>) -> (ControlInterfaceView, bool)
    decreases ds.len(),
{
    if ds.len() == 0 {
        (
            ControlInterfaceView {
                interface,
                uvc_version: 0,
                clock_frequency: 0,
                streaming_interfaces: Seq::empty(),
                entities: Seq::empty(),
            },
            false,
        )
    } else {
        control_step(control_after(interface, ds.drop_last()), ds.last())
    }
}

/// What the descriptors of a VideoControl interface say, if they have a
/// header.
pub open spec fn control_in(a: InterfaceDescriptor) -> Option<ControlInterfaceView> {
    let (c, seen) = control_after(a.number, interface_extras(a));
    if seen {
        Some(c)
    } else {
        None
    }
}

/// The ID of the first entity of the given kind.
pub open spec fn first_of_kind(v: Seq<EntityView>, kind: EntityKindView) -> Option<u8>
    decreases v.len(),
{
    if v.len() == 0 {
        None
    } else if v[0].kind == kind {
        Some(v[0].id)
    } else {
        first_of_kind(v.skip(1), kind)
    }
}

fn guid_at(d: &[u8], at: usize) -> (r: [u8; 16])
    requires
        at + 16 <= d@.len(),
    ensures
        r@ == d@.subrange(at as int, at + 16),
{
    let g: [u8; 16] = [
        d[at],
        d[at + 1],
        d[at + 2],
        d[at + 3],
        d[at + 4],
        d[at + 5],
        d[at + 6],
        d[at + 7],
        d[at + 8],
        d[at + 9],
        d[at + 10],
        d[at + 11],
        d[at + 12],
        d[at + 13],
        d[at + 14],
        d[at + 15],
    ];
    assert(g@ =~= d@.subrange(at as int, at + 16));
    g
}

fn parse_entity(d: &[u8]) -> (r: Option<Entity>)
    ensures
        match entity_in(d@) {
            Some(e) => r is Some && r->0@ == e,
            None => r is None,
        },
{
    if d.len() < 3 || d[1] != CS_INTERFACE {
        return None;
    }
    let id: u8 = byte(d, 3);
    match d[2] {
        vc::INPUT_TERMINAL => {
            if d.len() < 8 {
                return None;
            }
            let ty: u16 = le16(d, 4);
            if ty == 0x0201 && d.len() >= 15 {
                let controls: u64 = bitmap(d, 15, d[14] as usize);
                Some(Entity { id, kind: EntityKind::CameraTerminal, controls })
            } else {
                Some(Entity { id, kind: EntityKind::InputTerminal(ty), controls: 0 })
            }
        },
        vc::OUTPUT_TERMINAL => if d.len() >= 9 {
            Some(Entity { id, kind: EntityKind::OutputTerminal(le16(d, 4)), controls: 0 })
        } else {
            None
        },
        vc::SELECTOR_UNIT => if d.len() >= 5 {
            Some(Entity { id, kind: EntityKind::SelectorUnit, controls: 0 })
        } else {
            None
        },
        vc::PROCESSING_UNIT => if d.len() >= 8 {
            let controls: u64 = bitmap(d, 8, d[7] as usize);
            Some(Entity { id, kind: EntityKind::ProcessingUnit, controls })
        } else {
            None
        },
        vc::EXTENSION_UNIT => if d.len() >= 22 {
            let pins: usize = d[21] as usize;
            let size: usize = byte(d, 22 + pins) as usize;
            let controls: u64 = bitmap(d, 23 + pins, size);
            let guid = guid_at(d, 4);
            Some(Entity { id, kind: EntityKind::ExtensionUnit { guid, num_controls: d[20] }, controls })
        } else {
            None
        },
        vc::ENCODING_UNIT => if d.len() >= 5 {
            Some(Entity { id, kind: EntityKind::EncodingUnit, controls: 0 })
        } else {
            None
        },
        _ => None,
    }
}

impl ControlInterface {
    /// Parses the class-specific descriptors of a VideoControl interface.
    pub fn parse(iface: &InterfaceDescriptor) -> (r: Option<ControlInterface>)
        ensures
            match control_in(*iface) {
                Some(c) => r is Some && r->0@ == c,
                None => r is None,
            },
    {
        let list = all_extras(iface);
        let ghost ds = interface_extras(*iface);
        let mut out = ControlInterface {
            interface: iface.number,
            uvc_version: 0,
            clock_frequency: 0,
            streaming_interfaces: Vec::new(),
            entities: Vec::new(),
        };
        let mut seen_header = false;
        let mut k: usize = 0;
        assert(ds.take(0) =~= Seq::empty());
        assert(out@ =~= control_after(iface.number, ds.take(0)).0);
        while k < list.len()
            invariant
                k <= list@.len(),
                slice_views(list@) == ds,
                list@.len() == ds.len(),
                (out@, seen_header) == control_after(iface.number, ds.take(k as int)),
            decreases list@.len() - k,
        {
            assert(ds.take(k + 1).drop_last() =~= ds.take(k as int));
            assert(ds.take(k + 1).last() == slice_views(list@)[k as int]);
            let d = list[k];
            let ghost before = out@;
            if d.len() >= 12 && d[1] == CS_INTERFACE && d[2] == vc::HEADER {
                seen_header = true;
                out.uvc_version = le16(d, 3);
                out.clock_frequency = le32(d, 7);
                let n: usize = d[11] as usize;
                let end: usize = if 12 + n <= d.len() {
                    12 + n
                } else {
                    d.len()
                };
                out.streaming_interfaces = copy_range(d, 12, end);
                assert(out@.streaming_interfaces =~= listed_streams(d@));
            } else {
                match parse_entity(d) {
                    Some(e) => {
                        out.entities.push(e);
                        assert(out@.entities =~= before.entities.push(e@));
                    },
                    None => {},
                }
            }
            assert(out@ =~= control_step((before, false), d@).0);
            k += 1;
        }
        assert(ds.take(k as int) =~= ds);
        if seen_header {
            Some(out)
        } else {
            None
        }
    }

    /// The ID of the camera terminal, if there is one.
    pub fn camera_terminal(&self) -> (r: Option<u8>)
        ensures
            r == first_of_kind(self@.entities, EntityKindView::CameraTerminal),
    {
        let ghost v = self@.entities;
        let mut i: usize = 0;
        assert(v.skip(0) =~= v);
        while i < self.entities.len()
            invariant
                i <= self.entities@.len(),
                v == self@.entities,
                first_of_kind(v, EntityKindView::CameraTerminal) == first_of_kind(
                    v.skip(i as int),
                    EntityKindView::CameraTerminal,
                ),
            decreases self.entities@.len() - i,
        {
            assert(v.skip(i as int)[0] == self.entities@[i as int]@);
            assert(v.skip(i as int).skip(1) =~= v.skip(i + 1));
            if matches!(self.entities[i].kind, EntityKind::CameraTerminal) {
                return Some(self.entities[i].id);
            }
            i += 1;
        }
        None
    }

    /// The ID of the (first) processing unit, if there is one.
    pub fn processing_unit(&self) -> (r: Option<u8>)
        ensures
            r == first_of_kind(self@.entities, EntityKindView::ProcessingUnit),
    {
        let ghost v = self@.entities;
        let mut i: usize = 0;
        assert(v.skip(0) =~= v);
        while i < self.entities.len()
            invariant
                i <= self.entities@.len(),
                v == self@.entities,
                first_of_kind(v, EntityKindView::ProcessingUnit) == first_of_kind(
                    v.skip(i as int),
                    EntityKindView::ProcessingUnit,
                ),
            decreases self.entities@.len() - i,
        {
            assert(v.skip(i as int)[0] == self.entities@[i as int]@);
            assert(v.skip(i as int).skip(1) =~= v.skip(i + 1));
            if matches!(self.entities[i].kind, EntityKind::ProcessingUnit) {
                return Some(self.entities[i].id);
            }
            i += 1;
        }
        None
    }
}

// ----- formats and frame sizes --------------------------------------------------------

/// How a frame's supported intervals are listed.
#[derive(Debug, Clone, PartialEq, Eq)]
pub enum FrameIntervals {
    /// A list of discrete intervals, in 100 ns units.
    Discrete(Vec<u32>),
    /// Any interval from `min` to `max` in steps of `step` (100 ns units).
    Continuous {
        /// Shortest interval.
        min: u32,
        /// Longest interval.
        max: u32,
        /// Granularity.
        step: u32,
    },
}

/// What a [`FrameIntervals`] holds.
#[verifier::ext_equal]
pub enum FrameIntervalsView {
    Discrete(Seq<u32>),
    Continuous { min: u32, max: u32, step: u32 },
}

impl View for FrameIntervals {
    type V = FrameIntervalsView;

    open spec fn view(&self) -> FrameIntervalsView {
        match *self {
            FrameIntervals::Discrete(v) => FrameIntervalsView::Discrete(v@),
            FrameIntervals::Continuous { min, max, step } => FrameIntervalsView::Continuous { min, max, step },
        }
    }
}

/// One frame size of a format.
#[derive(Debug, Clone, PartialEq, Eq)]
pub struct FrameDescriptor {
    /// `bFrameIndex`, used in stream negotiation.
    pub index: u8,
    /// Width in pixels.
    pub width: u16,
    /// Height in pixels.
    pub height: u16,
    /// `dwMaxVideoFrameBufferSize` (0 for frame-based formats, which do not
    /// declare one).
    pub max_frame_size: u32,
    /// Default frame interval, in 100 ns units (333333 is 30 fps).
    pub default_interval: u32,
    /// Supported frame intervals.
    pub intervals: FrameIntervals,
}

/// What a [`FrameDescriptor`] holds.
#[verifier::ext_equal]
pub struct FrameDescriptorView {
    pub index: u8,
    pub width: u16,
    pub height: u16,
    pub max_frame_size: u32,
    pub default_interval: u32,
    pub intervals: FrameIntervalsView,
}

impl View for FrameDescriptor {
    type V = FrameDescriptorView;

    open spec fn view(&self) -> FrameDescriptorView {
        FrameDescriptorView {
            index: self.index,
            width: self.width,
            height: self.height,
            max_frame_size: self.max_frame_size,
            default_interval: self.default_interval,
            intervals: self.intervals@,
        }
    }
}

/// The intervals listed from position `i` on, up to the first zero.
pub open spec fn interval_list(d: Seq<u8>, i: int, count: int) -> Seq<u32>
    decreases count - i,
{
    if i >= count || le32_at(d, 26 + 4 * i) == 0 {
        Seq::empty()
    } else {
        seq![le32_at(d, 26 + 4 * i)] + interval_list(d, i + 1, count)
    }
}

/// The intervals of a frame size whose interval type is `kind`.
pub open spec fn intervals_of(d: Seq<u8>, kind: u8) -> FrameIntervalsView {
    if kind == 0 {
        FrameIntervalsView::Continuous { min: le32_at(d, 26), max: le32_at(d, 30), step: le32_at(d, 34) }
    } else {
        FrameIntervalsView::Discrete(interval_list(d, 0, kind as int))
    }
}

/// What a frame size descriptor says. Frame-based frames replace the buffer
/// size with `dwBytesPerLine` after the interval fields.
pub open spec fn frame_of(d: Seq<u8>, frame_based: bool) -> Option<FrameDescriptorView> {
    if d.len() < 26 {
        None
    } else {
        Some(
            FrameDescriptorView {
                index: d[3],
                width: le16_at(d, 5),
                height: le16_at(d, 7),
                max_frame_size: if frame_based {
                    0
                } else {
                    le32_at(d, 17)
                },
                default_interval: if frame_based {
                    le32_at(d, 17)
                } else {
                    le32_at(d, 21)
                },
                intervals: intervals_of(
                    d,
                    if frame_based {
                        d[21]
                    } else {
                        d[25]
                    },
                ),
            },
        )
    }
}

fn parse_intervals(d: &[u8], kind: u8) -> (r: FrameIntervals)
    ensures
        r@ == intervals_of(d@, kind),
{
    if kind == 0 {
        return FrameIntervals::Continuous { min: le32(d, 26), max: le32(d, 30), step: le32(d, 34) };
    }
    let count: usize = kind as usize;
    let mut list: Vec<u32> = Vec::new();
    let mut i: usize = 0;
    let ghost all = interval_list(d@, 0, count as int);
    assert(list@ + all =~= all);
    while i < count
        invariant
            i <= count <= 255,
            count == kind,
            kind != 0,
            all == interval_list(d@, 0, count as int),
            list@ + interval_list(d@, i as int, count as int) =~= all,
        decreases count - i,
    {
        let v: u32 = le32(d, 26 + 4 * i);
        if v == 0 {
            assert(list@ =~= all);
            return FrameIntervals::Discrete(list);
        }
        let ghost before = list@;
        list.push(v);
        assert(before + (seq![v] + interval_list(d@, i + 1, count as int)) =~= list@ + interval_list(
            d@,
            i + 1,
            count as int,
        ));
        i += 1;
    }
    assert(list@ =~= all);
    FrameIntervals::Discrete(list)
}

impl FrameDescriptor {
    /// Frames per second at an interval given in 100 ns units, as a fraction:
    /// its numerator and its denominator. 0 at an interval of 0.
    pub fn fps(interval: u32) -> (r: (u32, u32))
        ensures
            interval > 0 ==> r == (10_000_000u32, interval),
            interval == 0 ==> r == (0u32, 1u32),
    {
        if interval == 0 {
            (0, 1)
        } else {
            (10_000_000, interval)
        }
    }

    /// Parses a frame size descriptor.
    pub fn parse(d: &[u8], frame_based: bool) -> (r: Option<FrameDescriptor>)
        ensures
            match frame_of(d@, frame_based) {
                Some(f) => r is Some && r->0@ == f,
                None => r is None,
            },
    {
        if d.len() < 26 {
            return None;
        }
        let kind: u8 = if frame_based {
            d[21]
        } else {
            d[25]
        };
        let max_frame_size: u32 = if frame_based {
            0
        } else {
            le32(d, 17)
        };
        let default_interval: u32 = if frame_based {
            le32(d, 17)
        } else {
            le32(d, 21)
        };
        Some(
            FrameDescriptor {
                index: d[3],
                width: le16(d, 5),
                height: le16(d, 7),
                max_frame_size,
                default_interval,
                intervals: parse_intervals(d, kind),
            },
        )
    }
}

/// The encoding of a format.
#[derive(Debug, Clone, Copy, PartialEq, Eq, Hash)]
pub enum FormatKind {
    /// Raw pixels (YUY2, NV12, ...), identified by GUID.
    Uncompressed {
        /// `guidFormat`, in wire byte order.
        guid: [u8; 16],
        /// Bits per pixel.
        bits_per_pixel: u8,
    },
    /// Motion JPEG: each frame is a JPEG image.
    Mjpeg,
    /// Frame-based compressed video (H.264, HEVC, ...), identified by GUID.
    FrameBased {
        /// `guidFormat`, in wire byte order.
        guid: [u8; 16],
        /// Whether frames vary in size.
        variable_size: bool,
    },
}

/// What a [`FormatKind`] holds.
#[verifier::ext_equal]
pub enum FormatKindView {
    Uncompressed { guid: Seq<u8>, bits_per_pixel: u8 },
    Mjpeg,
    FrameBased { guid: Seq<u8>, variable_size: bool },
}

impl View for FormatKind {
    type V = FormatKindView;

    open spec fn view(&self) -> FormatKindView {
        match *self {
            FormatKind::Uncompressed { guid, bits_per_pixel } => FormatKindView::Uncompressed {
                guid: guid@,
                bits_per_pixel,
            },
            FormatKind::Mjpeg => FormatKindView::Mjpeg,
            FormatKind::FrameBased { guid, variable_size } => FormatKindView::FrameBased {
                guid: guid@,
                variable_size,
            },
        }
    }
}

/// One video format a streaming interface offers, with its frame sizes.
#[derive(Debug, Clone, PartialEq, Eq)]
pub struct FormatDescriptor {
    /// `bFormatIndex`, used in stream negotiation.
    pub index: u8,
    /// The encoding.
    pub kind: FormatKind,
    /// `bDefaultFrameIndex`.
    pub default_frame_index: u8,
    /// Frame sizes.
    pub frames: Vec<FrameDescriptor>,
}

/// What a [`FormatDescriptor`] holds.
#[verifier::ext_equal]
pub struct FormatDescriptorView {
    pub index: u8,
    pub kind: FormatKindView,
    pub default_frame_index: u8,
    pub frames: Seq<FrameDescriptorView>,
}

/// What several frame sizes hold.
pub open spec fn frame_views(v: Seq<FrameDescriptor>) -> Seq<FrameDescriptorView> {
    Seq::new(v.len(), |i: int| v[i]@)
}

impl View for FormatDescriptor {
    type V = FormatDescriptorView;

    open spec fn view(&self) -> FormatDescriptorView {
        FormatDescriptorView {
            index: self.index,
            kind: self.kind@,
            default_frame_index: self.default_frame_index,
            frames: frame_views(self.frames@),
        }
    }
}

/// A format's FourCC.
pub open spec fn fourcc_of(kind: FormatKindView) -> Seq<u8> {
    match kind {
        FormatKindView::Mjpeg => seq![0x4d, 0x4a, 0x50, 0x47],
        FormatKindView::Uncompressed { guid, .. } => guid.take(4),
        FormatKindView::FrameBased { guid, .. } => guid.take(4),
    }
}

/// The first frame size with the given index.
pub open spec fn frame_at(v: Seq<FrameDescriptorView>, index: u8) -> Option<FrameDescriptorView>
    decreases v.len(),
{
    if v.len() == 0 {
        None
    } else if v[0].index == index {
        Some(v[0])
    } else {
        frame_at(v.skip(1), index)
    }
}

impl FormatDescriptor {
    /// The format's FourCC: the first four bytes of the GUID for GUID-based
    /// formats (`YUY2`, `NV12`, `H264`, ...), `MJPG` for Motion JPEG.
    pub fn fourcc(&self) -> (r: [u8; 4])
        ensures
            r@ == fourcc_of(self@.kind),
    {
        let r: [u8; 4] = match self.kind {
            FormatKind::Mjpeg => [0x4d, 0x4a, 0x50, 0x47],
            FormatKind::Uncompressed { guid, .. } => [guid[0], guid[1], guid[2], guid[3]],
            FormatKind::FrameBased { guid, .. } => [guid[0], guid[1], guid[2], guid[3]],
        };
        assert(r@ =~= fourcc_of(self@.kind));
        r
    }

    /// The frame with the given `bFrameIndex`.
    pub fn frame(&self, index: u8) -> (r: Option<&FrameDescriptor>)
        ensures
            match frame_at(self@.frames, index) {
                Some(f) => r is Some && r->0@ == f,
                None => r is None,
            },
    {
        let ghost v = self@.frames;
        let mut i: usize = 0;
        assert(v.skip(0) =~= v);
        while i < self.frames.len()
            invariant
                i <= self.frames@.len(),
                v == self@.frames,
                frame_at(v, index) == frame_at(v.skip(i as int), index),
            decreases self.frames@.len() - i,
        {
            assert(v.skip(i as int)[0] == self.frames@[i as int]@);
            assert(v.skip(i as int).skip(1) =~= v.skip(i + 1));
            if self.frames[i].index == index {
                return Some(&self.frames[i]);
            }
            i += 1;
        }
        None
    }
}

/// A VideoStreaming interface: its endpoint and formats.
#[derive(Debug, Clone, PartialEq, Eq)]
pub struct StreamingInterface {
    /// `bInterfaceNumber`.
    pub interface: u8,
    /// `bEndpointAddress` of the video data endpoint.
    pub endpoint: u8,
    /// The formats offered, in descriptor order.
    pub formats: Vec<FormatDescriptor>,
}

/// What a [`StreamingInterface`] holds.
#[verifier::ext_equal]
pub struct StreamingInterfaceView {
    pub interface: u8,
    pub endpoint: u8,
    pub formats: Seq<FormatDescriptorView>,
}

/// What several formats hold.
pub open spec fn format_views(v: Seq<FormatDescriptor>) -> Seq<FormatDescriptorView> {
    Seq::new(v.len(), |i: int| v[i]@)
}

impl View for StreamingInterface {
    type V = StreamingInterfaceView;

    open spec fn view(&self) -> StreamingInterfaceView {
        StreamingInterfaceView {
            interface: self.interface,
            endpoint: self.endpoint,
            formats: format_views(self.formats@),
        }
    }
}

/// The format that a descriptor declares, if it declares one.
pub open spec fn format_in(d: Seq<u8>) -> Option<FormatDescriptorView> {
    if !is_class_specific(d) {
        None
    } else if d[2] == vs::FORMAT_UNCOMPRESSED && d.len() >= 23 {
        Some(
            FormatDescriptorView {
                index: d[3],
                kind: FormatKindView::Uncompressed { guid: d.subrange(5, 21), bits_per_pixel: d[21] },
                default_frame_index: d[22],
                frames: Seq::empty(),
            },
        )
    } else if d[2] == vs::FORMAT_FRAME_BASED && d.len() >= 23 {
        Some(
            FormatDescriptorView {
                index: d[3],
                kind: FormatKindView::FrameBased { guid: d.subrange(5, 21), variable_size: byte_at(d, 27) != 0 },
                default_frame_index: d[22],
                frames: Seq::empty(),
            },
        )
    } else if d[2] == vs::FORMAT_MJPEG && d.len() >= 7 {
        Some(
            FormatDescriptorView {
                index: d[3],
                kind: FormatKindView::Mjpeg,
                default_frame_index: d[6],
                frames: Seq::empty(),
            },
        )
    } else {
        None
    }
}

/// The frame size that a descriptor declares, if it declares one.
pub open spec fn frame_in(d: Seq<u8>) -> Option<FrameDescriptorView> {
    if is_class_specific(d) && (d[2] == vs::FRAME_UNCOMPRESSED || d[2] == vs::FRAME_MJPEG || d[2]
        == vs::FRAME_FRAME_BASED) {
        frame_of(d, d[2] == vs::FRAME_FRAME_BASED)
    } else {
        None
    }
}

/// A list of formats with one more frame size on the last of them.
pub open spec fn with_frame(v: Seq<FormatDescriptorView>, f: FrameDescriptorView) -> Seq<FormatDescriptorView> {
    if v.len() == 0 {
        v
    } else {
        v.update(v.len() - 1, FormatDescriptorView { frames: v.last().frames.push(f), ..v.last() })
    }
}

/// What is known of a VideoStreaming interface after one more descriptor.
pub open spec fn streaming_step(
    interface: u8,
    s: Option<StreamingInterfaceView>,
    d: Seq<u8>,
) -> Option<StreamingInterfaceView> {
    match s {
        None => if is_class_specific(d) && d[2] == vs::INPUT_HEADER && d.len() >= 7 {
            Some(StreamingInterfaceView { interface, endpoint: d[6], formats: Seq::empty() })
        } else {
            None
        },
        Some(v) => match format_in(d) {
            Some(f) => Some(StreamingInterfaceView { formats: v.formats.push(f), ..v }),
            None => match frame_in(d) {
                Some(f) => Some(StreamingInterfaceView { formats: with_frame(v.formats, f), ..v }),
                None => s,
            },
        },
    }
}

/// What a list of descriptors says of a VideoStreaming interface.
pub open spec fn streaming_after(interface: u8, ds: Seq<Seq<u8>>) -> Option<StreamingInterfaceView>
    decreases ds.len(),
{
    if ds.len() == 0 {
        None
    } else {
        streaming_step(interface, streaming_after(interface, ds.drop_last()), ds.last())
    }
}

/// What the descriptors of a VideoStreaming interface say.
pub open spec fn streaming_in(a: InterfaceDescriptor) -> Option<StreamingInterfaceView> {
    streaming_after(a.number, interface_extras(a))
}

fn parse_format(d: &[u8]) -> (r: Option<FormatDescriptor>)
    ensures
        match format_in(d@) {
            Some(f) => r is Some && r->0@ == f,
            None => r is None,
        },
{
    if d.len() < 3 || d[1] != CS_INTERFACE {
        return None;
    }
    let frames: Vec<FrameDescriptor> = Vec::new();
    assert(frame_views(frames@) =~= Seq::empty());
    match d[2] {
        vs::FORMAT_UNCOMPRESSED => if d.len() >= 23 {
            let kind = FormatKind::Uncompressed { guid: guid_at(d, 5), bits_per_pixel: d[21] };
            Some(FormatDescriptor { index: d[3], kind, default_frame_index: d[22], frames })
        } else {
            None
        },
        vs::FORMAT_FRAME_BASED => if d.len() >= 23 {
            let kind = FormatKind::FrameBased { guid: guid_at(d, 5), variable_size: byte(d, 27) != 0 };
            Some(FormatDescriptor { index: d[3], kind, default_frame_index: d[22], frames })
        } else {
            None
        },
        vs::FORMAT_MJPEG => if d.len() >= 7 {
            Some(FormatDescriptor { index: d[3], kind: FormatKind::Mjpeg, default_frame_index: d[6], frames })
        } else {
            None
        },
        _ => None,
    }
}

fn parse_frame(d: &[u8]) -> (r: Option<FrameDescriptor>)
    ensures
        match frame_in(d@) {
            Some(f) => r is Some && r->0@ == f,
            None => r is None,
        },
{
    if d.len() < 3 || d[1] != CS_INTERFACE {
        return None;
    }
    match d[2] {
        vs::FRAME_UNCOMPRESSED | vs::FRAME_MJPEG => FrameDescriptor::parse(d, false),
        vs::FRAME_FRAME_BASED => FrameDescriptor::parse(d, true),
        _ => None,
    }
}

fn add_frame(formats: &mut Vec<FormatDescriptor>, f: FrameDescriptor)
    ensures
        format_views(final(formats)@) == with_frame(format_views(old(formats)@), f@),
{
    let ghost before = formats@;
    match formats.pop() {
        Some(last) => {
            let mut last = last;
            let ghost had = last@.frames;
            last.frames.push(f);
            assert(last@.frames =~= had.push(f@));
            let ghost now = last@;
            formats.push(last);
            assert(format_views(formats@) =~= with_frame(format_views(before), f@));
        },
        None => {
            assert(format_views(formats@) =~= with_frame(format_views(before), f@));
        },
    }
}

/// Whether some format of a list has the FourCC.
pub open spec fn format_named(v: Seq<FormatDescriptorView>, fourcc: Seq<u8>) -> Option<FormatDescriptorView>
    decreases v.len(),
{
    if v.len() == 0 {
        None
    } else if fourcc_of(v[0].kind) == fourcc {
        Some(v[0])
    } else {
        format_named(v.skip(1), fourcc)
    }
}

/// The first format with the given index.
pub open spec fn format_at(v: Seq<FormatDescriptorView>, index: u8) -> Option<FormatDescriptorView>
    decreases v.len(),
{
    if v.len() == 0 {
        None
    } else if v[0].index == index {
        Some(v[0])
    } else {
        format_at(v.skip(1), index)
    }
}

fn same_code(a: [u8; 4], b: [u8; 4]) -> (r: bool)
    ensures
        r == (a@ == b@),
{
    let r = a[0] == b[0] && a[1] == b[1] && a[2] == b[2] && a[3] == b[3];
    assert(r ==> a@ =~= b@);
    r
}

impl StreamingInterface {
    /// Parses the class-specific descriptors of a VideoStreaming interface
    /// (alternate setting 0). `None` for output (host-to-device) streams
    /// and malformed descriptors.
    pub fn parse(iface: &InterfaceDescriptor) -> (r: Option<StreamingInterface>)
        ensures
            match streaming_in(*iface) {
                Some(s) => r is Some && r->0@ == s,
                None => r is None,
            },
    {
        let list = all_extras(iface);
        let ghost ds = interface_extras(*iface);
        let mut seen_header = false;
        let mut out = StreamingInterface { interface: iface.number, endpoint: 0, formats: Vec::new() };
        let mut k: usize = 0;
        assert(ds.take(0) =~= Seq::empty());
        while k < list.len()
            invariant
                k <= list@.len(),
                slice_views(list@) == ds,
                list@.len() == ds.len(),
                out.interface == iface.number,
                !seen_header ==> out.formats@.len() == 0 && streaming_after(iface.number, ds.take(k as int)) is None,
                seen_header ==> streaming_after(iface.number, ds.take(k as int)) == Some(out@),
            decreases list@.len() - k,
        {
            assert(ds.take(k + 1).drop_last() =~= ds.take(k as int));
            assert(ds.take(k + 1).last() == slice_views(list@)[k as int]);
            let d = list[k];
            let ghost before = out@;
            if !seen_header {
                if d.len() >= 7 && d[1] == CS_INTERFACE && d[2] == vs::INPUT_HEADER {
                    out.endpoint = d[6];
                    seen_header = true;
                    assert(out@.formats =~= Seq::empty());
                }
            } else {
                match parse_format(d) {
                    Some(f) => {
                        out.formats.push(f);
                        assert(out@.formats =~= before.formats.push(f@));
                    },
                    None => match parse_frame(d) {
                        Some(f) => {
                            add_frame(&mut out.formats, f);
                        },
                        None => {},
                    },
                }
            }
            k += 1;
        }
        assert(ds.take(k as int) =~= ds);
        if seen_header {
            Some(out)
        } else {
            None
        }
    }

    /// Finds a format by FourCC.
    pub fn format_by_fourcc(&self, fourcc: [u8; 4]) -> (r: Option<&FormatDescriptor>)
        ensures
            match format_named(self@.formats, fourcc@) {
                Some(f) => r is Some && r->0@ == f,
                None => r is None,
            },
    {
        let ghost v = self@.formats;
        let mut i: usize = 0;
        assert(v.skip(0) =~= v);
        while i < self.formats.len()
            invariant
                i <= self.formats@.len(),
                v == self@.formats,
                format_named(v, fourcc@) == format_named(v.skip(i as int), fourcc@),
            decreases self.formats@.len() - i,
        {
            assert(v.skip(i as int)[0] == self.formats@[i as int]@);
            assert(v.skip(i as int).skip(1) =~= v.skip(i + 1));
            if same_code(self.formats[i].fourcc(), fourcc) {
                return Some(&self.formats[i]);
            }
            i += 1;
        }
        None
    }

    /// The format with the given `bFormatIndex`.
    pub fn format(&self, index: u8) -> (r: Option<&FormatDescriptor>)
        ensures
            match format_at(self@.formats, index) {
                Some(f) => r is Some && r->0@ == f,
                None => r is None,
            },
    {
        let ghost v = self@.formats;
        let mut i: usize = 0;
        assert(v.skip(0) =~= v);
        while i < self.formats.len()
            invariant
                i <= self.formats@.len(),
                v == self@.formats,
                format_at(v, index) == format_at(v.skip(i as int), index),
            decreases self.formats@.len() - i,
        {
            assert(v.skip(i as int)[0] == self.formats@[i as int]@);
            assert(v.skip(i as int).skip(1) =~= v.skip(i + 1));
            if self.formats[i].index == index {
                return Some(&self.formats[i]);
            }
            i += 1;
        }
        None
    }
}

/// A descriptor that is cut short or unknown changes nothing of what the
/// descriptors before it said.
pub proof fn lemma_unknown_descriptors_are_skipped(interface: u8, ds: Seq<Seq<u8>>, d: Seq<u8>)
    requires
        format_in(d) is None,
        frame_in(d) is None,
        !(is_class_specific(d) && d[2] == vs::INPUT_HEADER),
    ensures
        streaming_after(interface, ds.push(d)) == streaming_after(interface, ds),
{
    assert(ds.push(d).drop_last() =~= ds);
}

/// The frame size with an index is the first one that has it, if any has.
pub proof fn lemma_frame_at(v: Seq<FrameDescriptorView>, index: u8, k: int)
    requires
        0 <= k <= v.len(),
        forall|j: int| 0 <= j < k ==> !((#[trigger] v[j]).index == index),
    ensures
        k == v.len() ==> frame_at(v, index) is None,
        k < v.len() && v[k].index == index ==> frame_at(v, index) == Some(v[k]),
    decreases k,
{
    if k > 0 {
        let w = v.skip(1);
        assert(!(v[0].index == index));
        assert forall|j: int| 0 <= j < k - 1 implies !((#[trigger] w[j]).index == index) by {
            assert(w[j] == v[j + 1]);
        }
        if k < v.len() {
            assert(w[k - 1] == v[k]);
        }
        lemma_frame_at(w, index, k - 1);
    }
}

/// The format with an index is the first one that has it, if any has.
pub proof fn lemma_format_at(v: Seq<FormatDescriptorView>, index: u8, k: int)
    requires
        0 <= k <= v.len(),
        forall|j: int| 0 <= j < k ==> !((#[trigger] v[j]).index == index),
    ensures
        k == v.len() ==> format_at(v, index) is None,
        k < v.len() && v[k].index == index ==> format_at(v, index) == Some(v[k]),
    decreases k,
{
    if k > 0 {
        let w = v.skip(1);
        assert(!(v[0].index == index));
        assert forall|j: int| 0 <= j < k - 1 implies !((#[trigger] w[j]).index == index) by {
            assert(w[j] == v[j + 1]);
        }
        if k < v.len() {
            assert(w[k - 1] == v[k]);
        }
        lemma_format_at(w, index, k - 1);
    }
}

/// The format with a FourCC is the first one that has it, if any has.
pub proof fn lemma_format_named(v: Seq<FormatDescriptorView>, fourcc: Seq<u8>, k: int)
    requires
        0 <= k <= v.len(),
        forall|j: int| 0 <= j < k ==> !(fourcc_of((#[trigger] v[j]).kind) == fourcc),
    ensures
        k == v.len() ==> format_named(v, fourcc) is None,
        k < v.len() && fourcc_of(v[k].kind) == fourcc ==> format_named(v, fourcc) == Some(v[k]),
    decreases k,
{
    if k > 0 {
        let w = v.skip(1);
        assert(!(fourcc_of(v[0].kind) == fourcc));
        assert forall|j: int| 0 <= j < k - 1 implies !(fourcc_of((#[trigger] w[j]).kind) == fourcc) by {
            assert(w[j] == v[j + 1]);
        }
        if k < v.len() {
            assert(w[k - 1] == v[k]);
        }
        lemma_format_named(w, fourcc, k - 1);
    }
}

/// The entity of a kind is the first one of it, if there is one.
pub proof fn lemma_first_of_kind(v: Seq<EntityView>, kind: EntityKindView, k: int)
    requires
        0 <= k <= v.len(),
        forall|j: int| 0 <= j < k ==> !((#[trigger] v[j]).kind == kind),
    ensures
        k == v.len() ==> first_of_kind(v, kind) is None,
        k < v.len() && v[k].kind == kind ==> first_of_kind(v, kind) == Some(v[k].id),
    decreases k,
{
    if k > 0 {
        let w = v.skip(1);
        assert(!(v[0].kind == kind));
        assert forall|j: int| 0 <= j < k - 1 implies !((#[trigger] w[j]).kind == kind) by {
            assert(w[j] == v[j + 1]);
        }
        if k < v.len() {
            assert(w[k - 1] == v[k]);
        }
        lemma_first_of_kind(w, kind, k - 1);
    }
}

/// Motion JPEG is `MJPG`; any other format is named by how its GUID starts.
pub proof fn lemma_fourcc(guid: Seq<u8>, bits_per_pixel: u8, variable_size: bool, i: int)
    requires
        guid.len() == 16,
        0 <= i < 4,
    ensures
        fourcc_of(FormatKindView::Mjpeg) == seq!['M' as u8, 'J' as u8, 'P' as u8, 'G' as u8],
        fourcc_of(FormatKindView::Uncompressed { guid, bits_per_pixel }).len() == 4,
        fourcc_of(FormatKindView::Uncompressed { guid, bits_per_pixel })[i] == guid[i],
        fourcc_of(FormatKindView::FrameBased { guid, variable_size }).len() == 4,
        fourcc_of(FormatKindView::FrameBased { guid, variable_size })[i] == guid[i],
{
}

/// Nothing is known of a VideoStreaming interface before its input header,
/// which names the endpoint; at that point there are no formats.
pub proof fn lemma_stream_header_opens(interface: u8, ds: Seq<Seq<u8>>, d: Seq<u8>)
    requires
        streaming_after(interface, ds) is None,
    ensures
        streaming_after(interface, Seq::empty()) is None,
        streaming_after(interface, ds.push(d)) is Some <==> d.len() >= 7 && d[1] == 0x24 && d[2] == 1,
        streaming_after(interface, ds.push(d)) matches Some(s) ==> s.interface == interface && s.endpoint == d[6]
            && s.formats.len() == 0,
{
    assert(ds.push(d).drop_last() =~= ds);
}

/// Whether a descriptor declares a format: class-specific, of one of the
/// three subtypes, and long enough for its fields.
pub open spec fn declares_format(d: Seq<u8>) -> bool {
    &&& d.len() >= 7
    &&& d[1] == 0x24
    &&& d[2] == 6 || ((d[2] == 4 || d[2] == 0x10) && d.len() >= 23)
}

/// Whether a descriptor declares a frame size: class-specific, of one of the
/// three subtypes, and long enough for its fields.
pub open spec fn declares_frame(d: Seq<u8>) -> bool {
    &&& d.len() >= 26
    &&& d[1] == 0x24
    &&& d[2] == 5 || d[2] == 7 || d[2] == 0x11
}

/// A format descriptor adds a format behind those there are, with what its
/// bytes say and no frame sizes yet.
pub proof fn lemma_format_is_added(interface: u8, ds: Seq<Seq<u8>>, d: Seq<u8>)
    requires
        streaming_after(interface, ds) is Some,
        declares_format(d),
    ensures
        ({
            let before = streaming_after(interface, ds)->0;
            let after = streaming_after(interface, ds.push(d))->0;
            let f = after.formats.last();
            &&& streaming_after(interface, ds.push(d)) is Some
            &&& (after.interface, after.endpoint) == (before.interface, before.endpoint)
            &&& after.formats.len() == before.formats.len() + 1
            &&& after.formats.drop_last() == before.formats
            &&& f.index == d[3]
            &&& f.frames.len() == 0
            &&& d[2] == 4 ==> f.kind == (FormatKindView::Uncompressed {
                guid: d.subrange(5, 21),
                bits_per_pixel: d[21],
            }) && f.default_frame_index == d[22]
            &&& d[2] == 6 ==> f.kind == FormatKindView::Mjpeg && f.default_frame_index == d[6]
            &&& d[2] == 0x10 ==> f.kind == (FormatKindView::FrameBased {
                guid: d.subrange(5, 21),
                variable_size: d.len() > 27 && d[27] != 0,
            }) && f.default_frame_index == d[22]
        }),
{
    assert(ds.push(d).drop_last() =~= ds);
    let before = streaming_after(interface, ds)->0;
    let after = streaming_after(interface, ds.push(d))->0;
    assert(after.formats.drop_last() =~= before.formats);
}

/// A frame size descriptor adds a frame size to the format that was declared
/// last, behind those it has, with what its bytes say; nothing else changes.
pub proof fn lemma_frame_is_added(interface: u8, ds: Seq<Seq<u8>>, d: Seq<u8>)
    requires
        streaming_after(interface, ds) is Some,
        streaming_after(interface, ds)->0.formats.len() > 0,
        declares_frame(d),
    ensures
        ({
            let before = streaming_after(interface, ds)->0;
            let after = streaming_after(interface, ds.push(d))->0;
            let had = before.formats.last();
            let has = after.formats.last();
            let f = has.frames.last();
            &&& streaming_after(interface, ds.push(d)) is Some
            &&& (after.interface, after.endpoint) == (before.interface, before.endpoint)
            &&& after.formats.len() == before.formats.len()
            &&& after.formats.drop_last() == before.formats.drop_last()
            &&& (has.index, has.kind, has.default_frame_index) == (had.index, had.kind, had.default_frame_index)
            &&& has.frames.len() == had.frames.len() + 1
            &&& had.frames.is_prefix_of(has.frames)
            &&& f.index == d[3]
            &&& f.width == d[5] + 256 * d[6]
            &&& f.height == d[7] + 256 * d[8]
            &&& d[2] != 0x11 ==> f.max_frame_size == le32_at(d, 17) && f.default_interval == le32_at(d, 21)
                && f.intervals == intervals_of(d, d[25])
            &&& d[2] == 0x11 ==> f.max_frame_size == 0 && f.default_interval == le32_at(d, 17) && f.intervals
                == intervals_of(d, d[21])
        }),
{
    assert(ds.push(d).drop_last() =~= ds);
    let before = streaming_after(interface, ds)->0;
    let after = streaming_after(interface, ds.push(d))->0;
    assert(after.formats.drop_last() =~= before.formats.drop_last());
}

/// Any other descriptor behind the header leaves what is known unchanged.
pub proof fn lemma_other_stream_descriptors_are_skipped(interface: u8, ds: Seq<Seq<u8>>, d: Seq<u8>)
    requires
        streaming_after(interface, ds) is Some,
        !declares_format(d),
        !declares_frame(d),
    ensures
        streaming_after(interface, ds.push(d)) == streaming_after(interface, ds),
{
    assert(ds.push(d).drop_last() =~= ds);
}

/// The frame sizes of a format are those declared between its descriptor and
/// the next format's: as many as there are, and the k-th is the k-th
/// descriptor's.
pub proof fn lemma_frames_of_a_format(interface: u8, head: Seq<Seq<u8>>, format: Seq<u8>, frames: Seq<Seq<u8>>)
    requires
        streaming_after(interface, head) is Some,
        declares_format(format),
        forall|k: int| 0 <= k < frames.len() ==> declares_frame(#[trigger] frames[k]),
    ensures
        ({
            let before = streaming_after(interface, head)->0;
            let after = streaming_after(interface, head.push(format) + frames)->0;
            let f = after.formats.last();
            &&& streaming_after(interface, head.push(format) + frames) is Some
            &&& after.formats.len() == before.formats.len() + 1
            &&& after.formats.drop_last() == before.formats
            &&& f.index == format[3]
            &&& f.frames.len() == frames.len()
            &&& forall|k: int|
                0 <= k < frames.len() ==> {
                    &&& (#[trigger] f.frames[k]).index == frames[k][3]
                    &&& f.frames[k].width == frames[k][5] + 256 * frames[k][6]
                    &&& f.frames[k].height == frames[k][7] + 256 * frames[k][8]
                }
        }),
    decreases frames.len(),
{
    let before = streaming_after(interface, head)->0;
    lemma_format_is_added(interface, head, format);
    if frames.len() == 0 {
        assert(head.push(format) + frames =~= head.push(format));
    } else {
        let w = frames.drop_last();
        let ds = head.push(format) + w;
        let d = frames.last();
        assert forall|k: int| 0 <= k < w.len() implies declares_frame(#[trigger] w[k]) by {
            assert(w[k] == frames[k]);
        }
        assert(declares_frame(frames[frames.len() - 1]));
        lemma_frames_of_a_format(interface, head, format, w);
        lemma_frame_is_added(interface, ds, d);
        assert(head.push(format) + frames =~= ds.push(d));
        let mid = streaming_after(interface, ds)->0;
        let after = streaming_after(interface, ds.push(d))->0;
        assert(after.formats.drop_last() =~= before.formats);
        let had = mid.formats.last().frames;
        let has = after.formats.last().frames;
        assert forall|k: int| 0 <= k < frames.len() implies {
            &&& (#[trigger] has[k]).index == frames[k][3]
            &&& has[k].width == frames[k][5] + 256 * frames[k][6]
            &&& has[k].height == frames[k][7] + 256 * frames[k][8]
        } by {
            if k < w.len() {
                assert(has[k] == had[k]);
                assert(w[k] == frames[k]);
            } else {
                assert(has[k] == has.last());
            }
        }
    }
}

/// The intervals of a frame size: a range where the type is 0, otherwise as
/// many numbers from byte 26 on as the type says, or up to the first zero.
pub proof fn lemma_intervals(d: Seq<u8>, kind: u8)
    ensures
        kind == 0 ==> intervals_of(d, kind) == (FrameIntervalsView::Continuous {
            min: le32_at(d, 26),
            max: le32_at(d, 30),
            step: le32_at(d, 34),
        }),
        kind != 0 ==> {
            let v = intervals_of(d, kind)->Discrete_0;
            &&& intervals_of(d, kind) is Discrete
            &&& v.len() <= kind
            &&& forall|i: int| 0 <= i < v.len() ==> #[trigger] v[i] == le32_at(d, 26 + 4 * i) && v[i] != 0
            &&& v.len() < kind ==> le32_at(d, 26 + 4 * v.len() as int) == 0
        },
{
    lemma_interval_list(d, 0, kind as int);
}

proof fn lemma_interval_list(d: Seq<u8>, i: int, count: int)
    requires
        0 <= i <= count,
    ensures
        ({
            let v = interval_list(d, i, count);
            &&& v.len() <= count - i
            &&& forall|k: int| 0 <= k < v.len() ==> #[trigger] v[k] == le32_at(d, 26 + 4 * (i + k)) && v[k] != 0
            &&& v.len() < count - i ==> le32_at(d, 26 + 4 * (i + v.len())) == 0
        }),
    decreases count - i,
{
    if i < count && le32_at(d, 26 + 4 * i) != 0 {
        lemma_interval_list(d, i + 1, count);
        let v = interval_list(d, i, count);
        let w = interval_list(d, i + 1, count);
        assert forall|k: int| 0 <= k < v.len() implies #[trigger] v[k] == le32_at(d, 26 + 4 * (i + k)) && v[k] != 0 by {
            if k > 0 {
                assert(v[k] == w[k - 1]);
            }
        }
    }
}

/// The header of a VideoControl interface says its version, its clock and the
/// streaming interfaces, as many as it counts; what entities there are does
/// not depend on it.
pub proof fn lemma_control_header(interface: u8, ds: Seq<Seq<u8>>, d: Seq<u8>)
    requires
        d.len() >= 12,
        d[1] == 0x24,
        d[2] == 1,
    ensures
        ({
            let before = control_after(interface, ds).0;
            let (after, seen) = control_after(interface, ds.push(d));
            &&& seen
            &&& after.interface == before.interface
            &&& after.entities == before.entities
            &&& after.uvc_version == d[3] + 256 * d[4]
            &&& after.clock_frequency == le32_at(d, 7)
            &&& 12 + d[11] <= d.len() ==> after.streaming_interfaces.len() == d[11]
            &&& 12 + d[11] > d.len() ==> after.streaming_interfaces.len() == d.len() - 12
            &&& forall|k: int|
                0 <= k < after.streaming_interfaces.len() ==> #[trigger] after.streaming_interfaces[k] == d[12 + k]
        }),
        control_after(interface, Seq::empty()).0.interface == interface,
        control_after(interface, Seq::empty()).0.entities.len() == 0,
        !control_after(interface, Seq::empty()).1,
{
    assert(ds.push(d).drop_last() =~= ds);
}

/// A terminal or unit that is declared is added behind those there are, under
/// its ID, as the kind that its subtype says and with the controls that its
/// bitmap lists.
pub proof fn lemma_entity_is_added(interface: u8, ds: Seq<Seq<u8>>, d: Seq<u8>)
    requires
        d.len() >= 9,
        d[1] == 0x24,
        2 <= d[2] <= 7,
        d[2] == 6 ==> d.len() >= 22,
    ensures
        ({
            let (before, was_seen) = control_after(interface, ds);
            let (after, seen) = control_after(interface, ds.push(d));
            let e = after.entities.last();
            &&& seen == was_seen
            &&& after == (ControlInterfaceView { entities: after.entities, ..before })
            &&& after.entities.len() == before.entities.len() + 1
            &&& after.entities.drop_last() == before.entities
            &&& e.id == d[3]
            &&& d[2] == 2 && d[4] + 256 * d[5] == 0x0201 && d.len() >= 15 ==> e.kind == EntityKindView::CameraTerminal
                && e.controls == bitmap_of(d, 15, d[14] as int)
            &&& d[2] == 2 && d[4] + 256 * d[5] != 0x0201 ==> e.kind == EntityKindView::InputTerminal(
                (d[4] + 256 * d[5]) as u16,
            ) && e.controls == 0
            &&& d[2] == 3 ==> e.kind == EntityKindView::OutputTerminal((d[4] + 256 * d[5]) as u16) && e.controls == 0
            &&& d[2] == 4 ==> e.kind == EntityKindView::SelectorUnit && e.controls == 0
            &&& d[2] == 5 ==> e.kind == EntityKindView::ProcessingUnit && e.controls == bitmap_of(d, 8, d[7] as int)
            &&& d[2] == 6 ==> e.kind == (EntityKindView::ExtensionUnit {
                guid: d.subrange(4, 20),
                num_controls: d[20],
            }) && (22 + d[21] < d.len() ==> e.controls == bitmap_of(d, 23 + d[21], d[22 + d[21]] as int))
            &&& d[2] == 7 ==> e.kind == EntityKindView::EncodingUnit && e.controls == 0
        }),
{
    assert(ds.push(d).drop_last() =~= ds);
    assert(control_after(interface, ds.push(d)).0.entities.drop_last() =~= control_after(interface, ds).0.entities);
}

/// A bitmap is a little-endian number: of size 0 it is empty, and each further
/// byte counts 256 times as much as the one before.
pub proof fn lemma_bitmap(b: Seq<u8>, at: int, size: int, i: int)
    requires
        0 <= at,
        0 <= size <= 8,
        at + size <= b.len(),
        0 <= i < 8,
    ensures
        bitmap_of(b, at, 0) == 0,
        size == 1 ==> bitmap_of(b, at, size) == b[at],
        size == 2 ==> bitmap_of(b, at, size) == b[at] + 0x100 * b[at + 1],
        size == 3 ==> bitmap_of(b, at, size) == b[at] + 0x100 * b[at + 1] + 0x1_0000 * b[at + 2],
        size >= 4 ==> bitmap_of(b, at, size) % 0x1_0000_0000 == b[at] + 0x100 * b[at + 1] + 0x1_0000 * b[at + 2]
            + 0x100_0000 * b[at + 3],
        size == 4 ==> bitmap_of(b, at, size) < 0x1_0000_0000,
        size == 8 ==> bitmap_of(b, at, size) / 0x1_0000_0000 == b[at + 4] + 0x100 * b[at + 5] + 0x1_0000 * b[at + 6]
            + 0x100_0000 * b[at + 7],
{
}

/// Where a frame descriptor keeps what it says.
pub proof fn lemma_frame_layout(d: Seq<u8>, frame_based: bool)
    ensures
        frame_of(d, frame_based) is Some <==> d.len() >= 26,
        frame_of(d, frame_based) matches Some(f) ==> {
            &&& f.index == d[3]
            &&& f.width == d[5] + 256 * d[6]
            &&& f.height == d[7] + 256 * d[8]
            &&& frame_based ==> f.max_frame_size == 0 && f.default_interval == le32_at(d, 17) && f.intervals
                == intervals_of(d, d[21])
            &&& !frame_based ==> f.max_frame_size == le32_at(d, 17) && f.default_interval == le32_at(d, 21)
                && f.intervals == intervals_of(d, d[25])
        },
{
}

} // verus!
