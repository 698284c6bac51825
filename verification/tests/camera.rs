//! Cameras: controls, negotiation, streams.

use rawusb::uvc::descriptors::{ControlInterface, FormatDescriptor, FormatKind, FrameDescriptor, FrameIntervals, StreamingInterface};
use rawusb::uvc::stream::{Assembler, NextFrame, StreamControl, StreamState, FRAME_QUEUE};
use rawusb::uvc::{
    int_outcome, interfaces, Camera, ControlRequest, LaunchAction, Mode, StartAction, StopAction, StreamPlan,
    StreamRequest,
};
use rawusb::{ConfigDescriptor, Error, ErrorKind, IsoPacket, TransferStatus};

fn camera() -> Camera {
    let frame = FrameDescriptor {
        index: 1,
        width: 640,
        height: 480,
        max_frame_size: 614_400,
        default_interval: 333_333,
        intervals: FrameIntervals::Discrete(vec![333_333]),
    };
    Camera {
        control: ControlInterface {
            interface: 0,
            uvc_version: 0x0110,
            clock_frequency: 0,
            streaming_interfaces: vec![1],
            entities: vec![],
        },
        streaming: vec![StreamingInterface {
            interface: 1,
            endpoint: 0x81,
            formats: vec![FormatDescriptor {
                index: 2,
                kind: FormatKind::Mjpeg,
                default_frame_index: 1,
                frames: vec![frame],
            }],
        }],
    }
}

/// A streaming interface with isochronous settings of 128 and 1024 bytes.
fn settings() -> ConfigDescriptor {
    let mut c = vec![9, 2, 0, 0, 1, 1, 0, 0x80, 50];
    c.extend([9, 4, 1, 0, 0, 14, 2, 0, 0]);
    c.extend([9, 4, 1, 1, 1, 14, 2, 0, 0, 7, 5, 0x81, 5, 128, 0, 1]);
    c.extend([9, 4, 1, 2, 1, 14, 2, 0, 0, 7, 5, 0x81, 5, 0, 4, 1]);
    let n = c.len() as u16;
    c[2..4].copy_from_slice(&n.to_le_bytes());
    ConfigDescriptor::from_bytes(&c).unwrap()
}

#[test]
fn formats_are_found_by_code_and_size() {
    let r = camera().find_format(*b"MJPG", 640, 480).unwrap();
    assert_eq!((r.interface, r.format_index, r.frame_index, r.frame_interval), (1, 2, 1, 0));
    assert!(camera().find_format(*b"MJPG", 641, 480).is_none());
    assert!(camera().find_format(*b"YUY2", 640, 480).is_none());
    assert_eq!(camera().interfaces(0), vec![0, 1]);
}

#[test]
fn video_functions_are_listed() {
    let mut c = vec![9, 2, 27, 0, 2, 1, 0, 0x80, 50];
    c.extend([9, 4, 0, 0, 0, 14, 2, 0, 0]);
    c.extend([9, 4, 3, 0, 0, 14, 1, 0, 0]);
    let cfg = ConfigDescriptor::from_bytes(&c).unwrap();
    assert_eq!(interfaces(&cfg).iter().map(|a| a.number).collect::<Vec<_>>(), vec![3]);
    assert_eq!(Camera::open(&cfg).unwrap(), 3);
    assert_eq!(Camera::open(&settings()).unwrap_err().kind(), ErrorKind::NotFound);
}

#[test]
fn integer_controls_round_trip() {
    let c = camera();
    let (setup, data) = c.set_control_int(2, 3, 2, -7).unwrap();
    assert_eq!((setup.request, setup.value, setup.index), (0x01, 0x0300, 0x0200));
    assert_eq!(data, vec![0xf9, 0xff]);
    assert_eq!(int_outcome(Ok(data.clone()), 2, true).unwrap(), -7);
    assert_eq!(int_outcome(Ok(data), 2, false).unwrap(), 0xfff9);
    assert!(int_outcome(Ok(vec![1]), 2, false).is_err());
    assert!(c.set_control_int(2, 3, 5, 0).is_err() && c.get_control_int(2, 3, ControlRequest::Cur, 0).is_err());
    assert_eq!(c.get_control(2, 3, ControlRequest::Max).request, ControlRequest::Max.code());
}

#[test]
fn the_answer_is_what_is_committed() {
    let c = camera();
    let request = StreamRequest { interface: 1, format_index: 2, frame_index: 1, frame_interval: 333_333 };
    let (s, a) = c.start(&request).unwrap();
    let StartAction::Write { setup, data, timeout } = a else { panic!("a proposal comes first") };
    assert_eq!(timeout, 5_000_000_000);
    assert_eq!((setup.request_type, setup.request, setup.value, setup.index), (0x21, 1, 0x0100, 1));
    assert_eq!(data.len(), 34);
    let (s, a) = s.step(Ok(vec![]));
    assert!(matches!(a, StartAction::Read { timeout: 5_000_000_000, .. }));
    let mut answer = StreamControl::new(2, 1, 400_000);
    answer.max_payload_transfer_size = 200;
    answer.max_video_frame_size = 1000;
    let (s, a) = s.step(Ok(answer.to_bytes()[..34].to_vec()));
    match a {
        StartAction::Write { setup, data, .. } => {
            assert_eq!(setup.value, 0x0200);
            assert_eq!(data, answer.to_bytes()[..34].to_vec());
        }
        other => panic!("{other:?}"),
    }
    let (s, a) = s.step(Ok(vec![]));
    assert!(matches!(a, StartAction::Finish(Ok(()))));
    assert_eq!(s.control, answer);
    let plan = c.plan(&settings(), &request, &s.control).unwrap();
    assert_eq!((plan.mode, plan.alternate, plan.packet_size), (Mode::Isochronous, 2, 1024));
    assert!(matches!(plan.stop(), StopAction::SetAlternate { interface: 1, alternate: 0 }));
    answer.max_payload_transfer_size = 100;
    assert_eq!(c.plan(&settings(), &request, &answer).unwrap().alternate, 1);
    answer.max_payload_transfer_size = 5000;
    assert_eq!(c.plan(&settings(), &request, &answer).unwrap().alternate, 2, "the largest there is");
    let wrong = StreamRequest { format_index: 9, ..request };
    assert!(c.start(&wrong).is_err());
}

fn payload(flags: u8, data: &[u8]) -> Vec<u8> {
    let mut p = vec![2, flags];
    p.extend_from_slice(data);
    p
}

#[test]
fn only_four_frames_wait() {
    let mut s = StreamState::new(16);
    assert!(s.bulk_completed(TransferStatus::Completed, &payload(0x02, b"x")));
    for i in 0..6u8 {
        let fid = (i + 1) % 2;
        assert!(s.bulk_completed(TransferStatus::Completed, &payload(0x02 | fid, &[i])));
    }
    assert_eq!((s.queue.len(), s.dropped_frames()), (FRAME_QUEUE, 2));
    match s.next_frame(false) {
        NextFrame::Done(Ok(f)) => assert_eq!((f.data, f.sequence), (vec![0], 0)),
        other => panic!("{other:?}"),
    }
    s.stop();
    for _ in 0..3 {
        assert!(matches!(s.next_frame(false), NextFrame::Done(Ok(_))));
    }
    assert!(matches!(s.next_frame(false), NextFrame::Wait));
}

#[test]
fn waiting_for_a_frame_can_expire() {
    let mut s = StreamState::new(16);
    assert!(matches!(s.next_frame(false), NextFrame::Wait));
    assert!(matches!(s.next_frame(true), NextFrame::Done(Err(e)) if e.kind() == ErrorKind::Timeout));
}

#[test]
fn lost_packets_mark_the_frame() {
    let mut s = StreamState::new(16);
    let packet = |n: u32, status| IsoPacket { length: 8, actual_length: n, status };
    let mut buffer = vec![0u8; 24];
    buffer[..3].copy_from_slice(&payload(0x02, b"x"));
    buffer[8..11].copy_from_slice(&payload(0x01, b"a"));
    assert!(s.iso_completed(
        TransferStatus::Completed,
        &buffer,
        &[packet(3, TransferStatus::Completed), packet(3, TransferStatus::Completed), packet(0, TransferStatus::Error)],
        8,
    ));
    assert!(s.bulk_completed(TransferStatus::Completed, &payload(0x03, b"b")));
    match s.next_frame(false) {
        NextFrame::Done(Ok(f)) => assert!(f.error && f.data == b"ab"),
        other => panic!("{other:?}"),
    }
    assert!(!s.bulk_completed(TransferStatus::NoDevice, &[]));
    assert!(matches!(s.next_frame(true), NextFrame::Done(Err(e)) if e.kind() == ErrorKind::NoDevice));
}

#[test]
fn frames_carry_consecutive_numbers() {
    let mut a = Assembler::new(8);
    a.payload(&payload(0, b"?"));
    let mut numbers = Vec::new();
    for i in 1..10u8 {
        for f in a.payload(&payload(i % 2, b"x")) {
            assert!(!f.data.is_empty());
            numbers.push(f.sequence);
        }
    }
    assert_eq!(numbers, (0..8).collect::<Vec<u64>>());
}

#[test]
fn integer_controls_name_their_length() {
    let c = camera();
    assert_eq!(c.get_control_int(2, 3, ControlRequest::Cur, 2).unwrap().length, 2);
    let (setup, data) = c.set_control_int(2, 3, 4, -1).unwrap();
    assert_eq!((setup.length, data), (4, vec![0xff; 4]));
}

#[test]
fn frames_are_whole_bodies_between_boundaries() {
    let mut a = Assembler::new(3);
    let mut frames = Vec::new();
    for p in [
        &[2u8, 0, 9][..], // in progress when the stream began
        &[2, 2, 9],       // its end
        &[2, 0, 9],       // nothing until the FID toggles
        &[2, 1, 1, 2],
        &[],
        &[2, 1, 3],
        &[2, 0, 4, 5, 6, 7],
        &[2, 0, 8, 8, 8], // would exceed twice the declared size
        &[2, 2, 9],
        &[2, 1],
    ] {
        frames.extend(a.payload(p));
    }
    let got: Vec<(u64, &[u8], bool)> = frames.iter().map(|f| (f.sequence, &f.data[..], f.error)).collect();
    assert_eq!(got, vec![(0, &[1u8, 2, 3][..], false), (1, &[4, 5, 6, 7, 9][..], true)]);
}

#[test]
fn frame_rates_are_fractions() {
    assert_eq!(FrameDescriptor::fps(400_000), (10_000_000, 400_000));
    assert_eq!(FrameDescriptor::fps(0), (0, 1));
}

#[test]
fn a_failed_launch_sets_the_interface_back() {
    let plan = StreamPlan {
        interface: 1,
        endpoint: 0x81,
        mode: Mode::Isochronous,
        alternate: 3,
        packet_size: 1024,
        packets: 32,
        max_frame_size: 1000,
    };
    let (s, a) = plan.launch();
    assert!(matches!(a, LaunchAction::Select { interface: 1, alternate: 3 }));
    let (s, a) = s.step(Ok(()));
    assert!(matches!(a, LaunchAction::Start));
    let (s, a) = s.step(Err(Error::new(ErrorKind::NoMem)));
    assert!(matches!(a, LaunchAction::Select { interface: 1, alternate: 0 }));
    assert!(matches!(s.step(Err(Error::new(ErrorKind::Io))).1, LaunchAction::Finish(Err(e)) if e.kind() == ErrorKind::NoMem));
    assert!(matches!(plan.launch().0.step(Ok(())).0.step(Ok(())).1, LaunchAction::Finish(Ok(()))));
    let bulk = StreamPlan { mode: Mode::Bulk, ..plan };
    let (s, a) = bulk.launch();
    assert!(matches!(a, LaunchAction::Start));
    assert!(matches!(s.step(Err(Error::new(ErrorKind::NoMem))).1, LaunchAction::Finish(Err(_))));
}

#[test]
fn control_blocks_keep_their_bytes() {
    let b: Vec<u8> = (1..=48).collect();
    assert_eq!(StreamControl::from_bytes(&b).to_bytes()[..], b[..]);
    assert_eq!(StreamControl::from_bytes(&b[..30]).to_bytes()[..30], b[..30]);
    assert_eq!(StreamControl::from_bytes(&b[..30]).to_bytes()[30..], [0u8; 18]);
}
