//! Cameras.

use rawusb::descriptors::SsEndpointCompanion;
use rawusb::uvc::descriptors::{
    ControlInterface, EntityKind, FormatKind, FrameDescriptor, FrameIntervals, StreamingInterface,
};
use rawusb::uvc::iso_bandwidth;
use rawusb::uvc::stream::{Assembler, Frame, StreamControl};
use rawusb::ConfigDescriptor;

/// A trimmed-down webcam: VC interface 0 with camera terminal, processing
/// unit and output terminal; VS interface 1 with YUY2 640x480 and MJPEG
/// 1280x720, and an isochronous alternate setting.
fn webcam_config() -> Vec<u8> {
    let mut c = vec![9, 2, 0, 0, 2, 1, 0, 0x80, 250];
    c.extend([8, 0x0b, 0, 2, 0x0e, 3, 0, 0]); // IAD
    c.extend([9, 4, 0, 0, 1, 0x0e, 1, 0, 0]);
    c.extend([13, 0x24, 1, 0x10, 0x01, 0, 0, 0x80, 0x8d, 0x5b, 0x00, 1, 1]); // header, 6 MHz, VS 1
    c.extend([18, 0x24, 2, 1, 0x01, 0x02, 0, 0, 0, 0, 0, 0, 0, 0, 3, 0x0a, 0x00, 0x00]); // camera, 3-byte controls
    c.extend([11, 0x24, 5, 2, 1, 0, 0, 2, 0x7f, 0x15, 0]); // processing unit
    c.extend([9, 0x24, 3, 3, 0x01, 0x01, 0, 2, 0]); // output terminal
    c.extend([7, 5, 0x83, 3, 16, 0, 8]); // status endpoint
    c.extend([9, 4, 1, 0, 0, 0x0e, 2, 0, 0]);
    c.extend([14, 0x24, 1, 2, 0, 0, 0x81, 0, 3, 0, 0, 0, 1, 0]); // input header, ep 0x81
    let mut yuy2 = vec![27, 0x24, 4, 1, 1];
    yuy2.extend(b"YUY2");
    yuy2.extend([0x00, 0x00, 0x10, 0x00, 0x80, 0x00, 0x00, 0xaa, 0x00, 0x38, 0x9b, 0x71]);
    yuy2.extend([16, 1, 0, 0, 0, 0]);
    c.extend(yuy2);
    let mut frame = vec![34, 0x24, 5, 1, 0, 0x80, 0x02, 0xe0, 0x01];
    frame.extend(0u32.to_le_bytes());
    frame.extend(0u32.to_le_bytes());
    frame.extend((640u32 * 480 * 2).to_le_bytes());
    frame.extend(333_333u32.to_le_bytes());
    frame.push(2);
    frame.extend(333_333u32.to_le_bytes());
    frame.extend(666_666u32.to_le_bytes());
    c.extend(frame);
    c.extend([11, 0x24, 6, 2, 1, 1, 1, 0, 0, 0, 0]); // MJPEG format
    let mut frame = vec![38, 0x24, 7, 1, 0, 0x00, 0x05, 0xd0, 0x02];
    frame.extend([0u8; 8]);
    frame.extend((1280u32 * 720 * 2).to_le_bytes());
    frame.extend(333_333u32.to_le_bytes());
    frame.push(0); // continuous
    frame.extend(333_333u32.to_le_bytes());
    frame.extend(10_000_000u32.to_le_bytes());
    frame.extend(333_333u32.to_le_bytes());
    c.extend(frame);
    c.extend([9, 4, 1, 1, 1, 0x0e, 2, 0, 0]);
    c.extend([7, 5, 0x81, 5, 0x00, 0x14, 1]); // 1024 x 3 transactions
    let len = c.len() as u16;
    c[2..4].copy_from_slice(&len.to_le_bytes());
    c
}

fn yuy2_guid() -> [u8; 16] {
    let mut g = [0u8; 16];
    g[..4].copy_from_slice(b"YUY2");
    g[4..].copy_from_slice(&[0x00, 0x00, 0x10, 0x00, 0x80, 0x00, 0x00, 0xaa, 0x00, 0x38, 0x9b, 0x71]);
    g
}

fn fps(interval: u32) -> f64 {
    let (frames, seconds) = FrameDescriptor::fps(interval);
    frames as f64 / seconds as f64
}

#[test]
fn parse_webcam() {
    let cfg = ConfigDescriptor::from_bytes(&webcam_config()).unwrap();
    let vc = ControlInterface::parse(cfg.interface(0).unwrap().first()).unwrap();
    assert_eq!(vc.uvc_version, 0x0110);
    assert_eq!(vc.clock_frequency, 6_000_000);
    assert_eq!(vc.streaming_interfaces, vec![1]);
    assert_eq!(vc.camera_terminal(), Some(1));
    assert_eq!(vc.processing_unit(), Some(2));
    assert_eq!(vc.entities[0].controls, 0x0a);
    assert_eq!(vc.entities[1].controls, 0x157f);
    assert_eq!(vc.entities[2].kind, EntityKind::OutputTerminal(0x0101));

    let vs = StreamingInterface::parse(cfg.interface(1).unwrap().first()).unwrap();
    assert_eq!(vs.endpoint, 0x81);
    assert_eq!(vs.formats.len(), 2);
    let yuy2 = vs.format_by_fourcc(*b"YUY2").unwrap();
    assert_eq!(yuy2.kind, FormatKind::Uncompressed { guid: yuy2_guid(), bits_per_pixel: 16 });
    let f = yuy2.frame(1).unwrap();
    assert_eq!((f.width, f.height, f.max_frame_size), (640, 480, 614_400));
    assert_eq!(f.intervals, FrameIntervals::Discrete(vec![333_333, 666_666]));
    let mjpeg = vs.format(2).unwrap();
    assert_eq!(mjpeg.fourcc(), *b"MJPG");
    assert_eq!(mjpeg.frames[0].width, 1280);
    assert_eq!(
        mjpeg.frames[0].intervals,
        FrameIntervals::Continuous { min: 333_333, max: 10_000_000, step: 333_333 }
    );
    assert!((fps(333_333) - 30.0).abs() < 0.001);
}

#[test]
fn truncated_descriptors_are_skipped() {
    let mut iface = ConfigDescriptor::from_bytes(&webcam_config()).unwrap().interface(1).unwrap().first().clone();
    // Cut the tree in the middle of the first frame descriptor.
    iface.extra.truncate(14 + 27 + 20);
    let vs = StreamingInterface::parse(&iface).unwrap();
    assert_eq!(vs.formats.len(), 1);
    assert!(vs.formats[0].frames.is_empty());
}

#[test]
fn iso_bandwidth_uses_companion_then_mult() {
    let cfg = ConfigDescriptor::from_bytes(&webcam_config()).unwrap();
    let alt1 = cfg.interface(1).unwrap().alt_setting(1).unwrap();
    assert_eq!(iso_bandwidth(&alt1.endpoints[0]), 3072);
    let mut ss = alt1.endpoints[0].clone();
    ss.ss_companion = Some(SsEndpointCompanion { max_burst: 3, attributes: 0, bytes_per_interval: 4096 });
    assert_eq!(iso_bandwidth(&ss), 4096);
}

fn payload(flags: u8, data: &[u8]) -> Vec<u8> {
    let mut p = vec![2, flags];
    p.extend_from_slice(data);
    p
}

fn feed(a: &mut Assembler, p: &[u8]) -> Vec<Frame> {
    a.payload(p)
}

#[test]
fn control_block_roundtrip() {
    let c = StreamControl::new(2, 1, 333_333);
    let b = c.to_bytes();
    assert_eq!(&b[..8], &[1, 0, 2, 1, 0x15, 0x16, 0x05, 0x00]);
    assert_eq!(StreamControl::from_bytes(&b), c);
    // A 26-byte (UVC 1.0) reply leaves the 1.1 fields at zero.
    let short = StreamControl::from_bytes(&b[..26]);
    assert_eq!(short.frame_interval, 333_333);
    assert_eq!(short.clock_frequency, 0);
    assert_eq!(StreamControl::wire_size(0x0100), 26);
    assert_eq!(StreamControl::wire_size(0x0110), 34);
    assert_eq!(StreamControl::wire_size(0x0150), 48);
}

#[test]
fn frames_split_on_fid_toggle() {
    let mut a = Assembler::new(16);
    // Joined mid-frame: the partial frame (FID 0) is discarded.
    assert!(feed(&mut a, &payload(0, b"tail")).is_empty());
    assert!(feed(&mut a, &payload(1, b"ab")).is_empty());
    assert!(feed(&mut a, &[2, 1]).is_empty(), "header-only payload");
    assert!(feed(&mut a, &payload(1, b"cd")).is_empty());
    let out = feed(&mut a, &payload(0, b"ef"));
    assert_eq!(out.len(), 1);
    assert_eq!(out[0].data, b"abcd");
    assert_eq!(out[0].sequence, 0);
    let out = feed(&mut a, &payload(1, b"gh"));
    assert_eq!(out[0].data, b"ef");
    assert_eq!(out[0].sequence, 1);
}

#[test]
fn frames_end_on_eof_and_carry_pts_and_errors() {
    let mut a = Assembler::new(16);
    // An EOF establishes sync without emitting the partial frame.
    assert!(feed(&mut a, &payload(0x02, b"xx")).is_empty());
    // A stray empty payload with the same FID after EOF is ignored.
    assert!(feed(&mut a, &[2, 0]).is_empty());
    let mut p = vec![6, 0x05];
    p.extend(1234u32.to_le_bytes());
    p.extend(b"12");
    assert!(feed(&mut a, &p).is_empty());
    let out = feed(&mut a, &payload(0x43, b"34"));
    assert_eq!(out.len(), 1);
    assert_eq!(out[0].data, b"1234");
    assert_eq!(out[0].pts, Some(1234));
    assert!(out[0].error);
    // Next frame (FID 0) ends with EOF too.
    assert!(feed(&mut a, &payload(0, b"5")).is_empty());
    let out = feed(&mut a, &payload(0x02, b"6"));
    assert_eq!(out[0].data, b"56");
    assert!(!out[0].error);
    // A lost packet marks the frame in progress.
    assert!(feed(&mut a, &payload(1, b"7")).is_empty());
    a.lost();
    let out = feed(&mut a, &payload(3, b"8"));
    assert!(out[0].error);
    // Garbage headers are rejected without panicking.
    assert!(feed(&mut a, &[9, 0, 1]).is_empty());
    assert!(feed(&mut a, &[1]).is_empty());
}
