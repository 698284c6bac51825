//! Transfers and their life cycle.

use rawusb::sys::flight::{check_cancel, check_submit, control_request, Flight};
use rawusb::transfer::Wait;
use rawusb::{ControlSetup, ErrorKind, IsoPacket, Transfer, TransferFlags, TransferStatus, TransferType};

#[test]
fn a_submitted_transfer_is_busy_until_it_completes() {
    let mut t = Transfer::bulk(0x81, vec![0; 64]);
    t.set_timeout(5).unwrap();
    assert!(!t.is_pending());
    t.submit().unwrap();
    assert!(t.is_pending());
    assert_eq!(t.submit().unwrap_err().kind(), ErrorKind::Busy);
    assert_eq!(t.set_timeout(7).unwrap_err().kind(), ErrorKind::Busy);
    assert_eq!(t.take_buffer().unwrap_err().kind(), ErrorKind::Busy);
    assert!(t.data().is_err() && t.buffer().is_err());
    t.complete(TransferStatus::Completed, 10, None);
    assert_eq!((t.is_pending(), t.status(), t.actual_length(), t.timeout()), (false, TransferStatus::Completed, 10, 5));
    assert_eq!(t.data().unwrap().len(), 10);
    assert_eq!(t.result().unwrap(), 10);
    t.submit().unwrap();
    t.not_taken();
    assert!(!t.is_pending());
}

#[test]
fn waiting_ends_with_the_status_or_the_limit() {
    let mut t = Transfer::interrupt(0x83, vec![0; 8]);
    t.submit().unwrap();
    assert!(matches!(t.wait(None, 9), Wait::More(None)));
    assert!(matches!(t.wait(Some(10), 4), Wait::More(Some(6))));
    match t.wait(Some(10), 10) {
        Wait::Done(Err(e)) => assert_eq!(e.kind(), ErrorKind::Timeout),
        other => panic!("{other:?}"),
    }
    t.complete(TransferStatus::Stall, 0, None);
    assert!(matches!(t.wait(Some(0), 99), Wait::Done(Ok(TransferStatus::Stall))));
    assert_eq!(t.result().unwrap_err().kind(), ErrorKind::Pipe);
}

#[test]
fn control_setups_read_back() {
    let get = ControlSetup::raw(0x80, 6, 0x0100, 0, 18);
    let t = Transfer::control(get, &[]);
    assert_eq!(t.kind(), TransferType::Control);
    assert_eq!(t.buffer().unwrap().len(), 8 + 18);
    assert_eq!(t.control_setup().unwrap(), get);
    let put = ControlSetup::raw(0x21, 9, 0x0200, 1, 0);
    let mut t = Transfer::control(put, &[1, 2, 3]);
    assert_eq!(t.control_setup().unwrap(), ControlSetup { length: 3, ..put });
    assert_eq!(&t.buffer().unwrap()[8..], &[1, 2, 3]);
    t.set_control_setup(get).unwrap();
    assert_eq!(t.control_setup().unwrap(), get);
    let mut bulk = Transfer::bulk(1, vec![]);
    assert_eq!(bulk.set_control_setup(get).unwrap_err().kind(), ErrorKind::InvalidParam);
    assert!(bulk.control_setup().is_err());
}

#[test]
fn short_control_buffers_are_refused() {
    let mut t = Transfer::new(TransferType::Control, 0, vec![0; 7]);
    let e = t.submit().unwrap_err();
    assert_eq!(e.message(), Some("control buffer shorter than a setup packet"));
}

#[test]
fn iso_layouts_must_fit() {
    let mut t = Transfer::isochronous(0x81, 100, 4);
    assert_eq!(t.buffer().unwrap().len(), 400);
    assert_eq!(t.iso_packets().len(), 4);
    t.submit().unwrap();
    t.complete(TransferStatus::Completed, 0, Some(vec![IsoPacket::new(7)]));
    assert_eq!(t.iso_packets(), &vec![IsoPacket::new(7)]);
    t.set_buffer(vec![0; 6]).unwrap();
    let e = t.submit().unwrap_err();
    assert_eq!(e.message(), Some("isochronous packet layout does not fit the buffer"));
    t.set_iso_packet_lengths(&[2, 4]).unwrap();
    t.submit().unwrap();
    let mut none = Transfer::new(TransferType::Isochronous, 0x81, vec![0; 8]);
    assert!(none.submit().is_err());
}

#[test]
fn flags_default_to_off() {
    let mut t = Transfer::bulk(2, vec![1]);
    assert_eq!(t.flags(), TransferFlags { short_not_ok: false, zero_packet: false });
    t.set_flags(TransferFlags { short_not_ok: false, zero_packet: true }).unwrap();
    assert!(t.flags().zero_packet);
}

#[test]
fn a_flight_times_out_once() {
    let mut f = Flight::new(10, 100, false);
    assert!(!f.is_due(109) && f.is_due(110));
    f.expire(true);
    assert!(f.timed_out && !f.is_due(u64::MAX));
    assert!(!Flight::new(0, 100, false).is_due(u64::MAX), "no timeout");
    let mut g = Flight::new(5, 0, false);
    assert_eq!(Flight::new(5, 0, true).deadline, None, "enforced elsewhere");
    g.cancel(true);
    assert!(g.cancelled && !g.timed_out);
}

#[test]
fn submitting_twice_or_to_a_gone_device_fails() {
    assert_eq!(check_submit(true, false).unwrap_err().kind(), ErrorKind::NoDevice);
    assert_eq!(check_submit(false, true).unwrap_err().kind(), ErrorKind::Busy);
    assert!(check_submit(false, false).is_ok());
    assert!(check_cancel(true).is_ok());
    assert_eq!(check_cancel(false).unwrap_err().kind(), ErrorKind::NotFound);
}

#[test]
fn control_requests_never_exceed_the_buffer() {
    let mut b = ControlSetup::raw(0x80, 6, 0x0100, 0, 18).to_bytes().to_vec();
    b.extend([0; 10]);
    assert_eq!(control_request(&b).length, 10);
    b.extend([0; 40]);
    assert_eq!(control_request(&b).length, 18);
}
