//! Serial ports.

use rawusb::serial::cdc::{data_interface, decode_serial_state, is_acm};
use rawusb::serial::ftdi::{baud_request, decode_status, FtdiChip};
use rawusb::serial::{drain, ModemStatus};
use rawusb::ConfigDescriptor;
use std::collections::VecDeque;

#[test]
fn serial_state() {
    let s = decode_serial_state(&[0xa1, 0x20, 0, 0, 0, 0, 2, 0, 0x43, 0]).unwrap();
    assert!(s.dcd && s.dsr && s.overrun && !s.ring && !s.break_received);
    assert!(decode_serial_state(&[0xa1, 0x2a, 0, 0, 0, 0, 2, 0, 3, 0]).is_none());
    assert!(decode_serial_state(&[0xa1, 0x20, 0]).is_none());
}

/// Comm interface 0 (with union 0 -> 1) and data interface 1.
const ACM: &[u8] = &[
    9, 2, 63, 0, 2, 1, 0, 0x80, 50, // config
    9, 4, 0, 0, 1, 2, 2, 1, 0, // comm interface
    5, 0x24, 0, 0x10, 1, // header
    5, 0x24, 1, 0, 1, // call management -> 1
    5, 0x24, 6, 0, 1, // union 0 -> 1
    7, 5, 0x83, 3, 8, 0, 16, // notification endpoint
    9, 4, 1, 0, 2, 0x0a, 0, 0, 0, // data interface
    7, 5, 0x81, 2, 64, 0, 0, 7, 5, 0x02, 2, 64, 0, 0,
];

#[test]
fn finds_data_interface() {
    let cfg = ConfigDescriptor::from_bytes(ACM).unwrap();
    let comm = cfg.interface(0).unwrap().first();
    assert!(is_acm(comm));
    assert_eq!(data_interface(&cfg, comm), Some(1));
}

#[test]
fn chip_identification() {
    assert_eq!(FtdiChip::from_bcd_device(0x0700), Some(FtdiChip::Ft2232H));
    assert_eq!(FtdiChip::from_bcd_device(0x0100), None);
    assert_eq!(FtdiChip::from_bcd_device(0x4200), Some(FtdiChip::Unknown(0x4200)));
    assert!(FtdiChip::Ft232H.is_high_speed());
    assert!(!FtdiChip::FtX.is_high_speed());
    assert_eq!(FtdiChip::Ft232R.channel(0), 0);
    assert_eq!(FtdiChip::Ft2232H.channel(1), 2);
    assert_eq!(FtdiChip::FtX.channel(0), 1);
}

#[test]
fn divisors_match_an232b_05() {
    // Values from FTDI's AN232B-05 and the Linux driver.
    assert_eq!(baud_request(FtdiChip::Bm, 0, 9600).unwrap(), (0x4138, 0));
    assert_eq!(baud_request(FtdiChip::Bm, 0, 115_200).unwrap(), (0x001a, 0));
    assert_eq!(baud_request(FtdiChip::Bm, 0, 3_000_000).unwrap(), (0, 0));
    assert_eq!(baud_request(FtdiChip::Bm, 0, 2_000_000).unwrap(), (1, 0));
    assert_eq!(baud_request(FtdiChip::Am, 0, 9600).unwrap(), (0x4138, 0));
    assert_eq!(baud_request(FtdiChip::Am, 0, 3_000_000).unwrap(), (0, 0));
    // 300 baud: divisor 10000 exactly.
    assert_eq!(baud_request(FtdiChip::Ft232R, 0, 300).unwrap(), (10000, 0));
    // The fraction's top bit lands in wIndex; on multi-port chips it
    // moves to the high byte and the port goes in the low byte.
    let (v, i) = baud_request(FtdiChip::Ft2232C, 1, 1_000_000).unwrap();
    assert_eq!((v, i), (3, 0x0001));
    let (v, i) = baud_request(FtdiChip::Ft2232C, 2, 921_600).unwrap();
    assert_eq!(v, 0x8003); // 3.25 -> fraction code 2 (0.25)
    assert_eq!(i, 0x0002);
}

#[test]
fn high_speed_divisors() {
    // 120 MHz / 10 / 115200 = 104.1666 -> 104 + 1/8 (code 3, 0xc000).
    assert_eq!(baud_request(FtdiChip::Ft2232H, 1, 115_200).unwrap(), (0xc068, 0x0201));
    assert_eq!(baud_request(FtdiChip::Ft232H, 1, 12_000_000).unwrap(), (0, 0x0201));
    // Below 1200 baud the 48 MHz path takes over (no bit 17).
    assert_eq!(baud_request(FtdiChip::Ft2232H, 1, 300).unwrap(), (10000, 0x0001));
    assert!(baud_request(FtdiChip::Ft2232H, 1, 12_000_001).is_err());
    assert!(baud_request(FtdiChip::Bm, 0, 3_000_001).is_err());
    assert!(baud_request(FtdiChip::Bm, 0, 150).is_err(), "divisor above 0x3fff");
    assert!(baud_request(FtdiChip::Bm, 0, 0).is_err());
}

#[test]
fn status_bytes() {
    let s = decode_status(0x31, 0x60);
    assert!(s.cts && s.dsr && !s.ring && !s.dcd);
    assert!(!s.overrun && !s.framing_error);
    let s = decode_status(0x01, 0x1e);
    assert!(s.overrun && s.parity_error && s.framing_error && s.break_received);
}

#[test]
fn status_events_latch() {
    let mut s = ModemStatus::default();
    s.update(ModemStatus { cts: true, overrun: true, ..Default::default() });
    s.update(ModemStatus { dsr: true, ..Default::default() });
    let got = s.take_events();
    assert!(!got.cts && got.dsr && got.overrun, "lines replace, events accumulate");
    assert!(!s.overrun && s.dsr, "events clear once reported, lines stay");
}

#[test]
fn drain_partial() {
    let mut rx: VecDeque<u8> = (1..=5).collect();
    let mut buf = [0u8; 3];
    assert_eq!(drain(&mut rx, &mut buf), 3);
    assert_eq!(buf, [1, 2, 3]);
    assert_eq!(rx.len(), 2);
}
