//! Open devices: claims, leases, strings, errors.

use rawusb::class::claim::{sorted_numbers, Claim, Repeating};
use rawusb::error::IoKind;
use rawusb::handle::{
    configuration_outcome, string_outcome, ClaimAction, ConfigurationQuery, ResetAction, StringAction, StringRead,
};
use rawusb::sys::linux::{ENODEV, ENOENT, EPIPE};
use rawusb::sys::Platform;
use rawusb::text::{push_decimal, push_decimal3, push_hex2, push_hex8, push_signed, same, strip, white_space};
use rawusb::{ConfigDescriptor, ControlSetup, DeviceHandle, Error, ErrorKind, TransferType};

fn err(kind: ErrorKind) -> Error {
    Error::new(kind)
}

fn claimed(handle: &mut DeviceHandle, interface: u8) {
    let (c, _) = handle.claim_interface(interface);
    let (_, a) = c.step(handle, Ok(true));
    assert!(matches!(a, ClaimAction::Finish(Ok(()))));
}

#[test]
fn claims_come_and_go() {
    let mut h = DeviceHandle::new();
    claimed(&mut h, 3);
    claimed(&mut h, 1);
    claimed(&mut h, 3);
    assert_eq!(h.claimed_interfaces(), &vec![3, 1]);
    h.release_interface(3);
    assert!(!h.is_claimed(3) && h.is_claimed(1));
}

#[test]
fn claiming_can_detach_a_driver_first() {
    let mut h = DeviceHandle::new();
    h.set_auto_detach_kernel_driver(true);
    let (c, a) = h.claim_interface(2);
    assert!(matches!(a, ClaimAction::AskDriver));
    let (c, a) = c.step(&mut h, Ok(true));
    assert!(matches!(a, ClaimAction::Detach));
    let (c, a) = c.step(&mut h, Ok(true));
    assert!(matches!(a, ClaimAction::Claim));
    let (_, a) = c.step(&mut h, Ok(true));
    assert!(matches!(a, ClaimAction::Finish(Ok(()))));
    assert_eq!(h.detached, vec![2]);
    assert!(h.release_interface(2), "the driver is to be attached again");
    // A detach that fails for a real reason ends the claim.
    let (c, _) = h.claim_interface(2);
    let (c, _) = c.step(&mut h, Ok(true));
    let (_, a) = c.step(&mut h, Err(err(ErrorKind::Access)));
    assert!(matches!(a, ClaimAction::Finish(Err(e)) if e.kind() == ErrorKind::Access));
}

#[test]
fn leases_are_exclusive() {
    let mut h = DeviceHandle::new();
    h.lease(&[1, 2]).unwrap();
    let e = h.lease(&[2, 3]).unwrap_err();
    assert_eq!(e.kind(), ErrorKind::Busy);
    assert_eq!(h.leased, vec![1, 2]);
    h.lease(&[3]).unwrap();
    h.unlease(&[1, 2]);
    assert_eq!(h.leased, vec![3]);
}

#[test]
fn helpers_release_only_what_they_own() {
    let mut h = DeviceHandle::new();
    claimed(&mut h, 1);
    let mut c = Claim::new(&mut h, &[2, 0, 1]).unwrap();
    assert_eq!(c.advance(&h), Some(0));
    claimed(&mut h, 0);
    c.claimed(Ok(())).unwrap();
    assert_eq!(c.advance(&h), Some(2));
    claimed(&mut h, 2);
    c.claimed(Ok(())).unwrap();
    assert_eq!(c.advance(&h), None);
    assert_eq!(Claim::new(&mut h, &[1]).unwrap_err().kind(), ErrorKind::Busy);
    assert_eq!(sorted_numbers(&c.release(&mut h)), vec![0, 2]);
    assert!(h.leased.is_empty());
}

#[test]
fn sorting_numbers_keeps_them() {
    assert_eq!(sorted_numbers(&[4, 1, 3, 0]), vec![0, 1, 3, 4]);
}

#[test]
fn repeating_transfers_stop() {
    let mut r = Repeating::start();
    assert!(r.resubmits(true) && !r.resubmits(false));
    r.stop();
    assert!(!r.resubmits(true));
}

fn two_interfaces() -> ConfigDescriptor {
    ConfigDescriptor::from_bytes(&[
        9, 2, 27, 0, 2, 1, 0, 0x80, 50, 9, 4, 0, 0, 0, 255, 0, 0, 0, 9, 4, 1, 0, 0, 255, 0, 0, 0,
    ])
    .unwrap()
}

#[test]
fn claiming_everything_is_all_or_nothing() {
    let mut h = DeviceHandle::new();
    let mut all = h.claim_all_interfaces(&two_interfaces());
    assert_eq!(all.advance(&h), Some(0));
    claimed(&mut h, 0);
    all.claimed(Ok(())).unwrap();
    assert_eq!(all.advance(&h), Some(1));
    let e = all.claimed(Err(err(ErrorKind::Busy))).unwrap_err();
    assert_eq!(e.kind(), ErrorKind::Busy);
    for i in all.newly.iter() {
        h.release_interface(*i);
    }
    assert!(h.claimed_interfaces().is_empty());
}

#[test]
fn one_shot_transfers_are_built() {
    let t = DeviceHandle::new().control_read(0x80, 6, 0x0100, 0, 18, 5).unwrap();
    assert_eq!((t.kind(), t.timeout(), t.buffer().unwrap().len()), (TransferType::Control, 5, 26));
    assert_eq!(DeviceHandle::new().control_read(0x00, 6, 0, 0, 1, 0).unwrap_err().kind(), ErrorKind::InvalidParam);
    let t = DeviceHandle::new().control_read(0x80, 6, 0, 0, 0x1_0000, 0).unwrap();
    assert_eq!(t.control_setup().unwrap().length, 0xffff, "as much as a request can ask for");
    let t = DeviceHandle::new().control_write(0x21, 9, 0, 0, &[7], 0).unwrap();
    assert_eq!(t.buffer().unwrap(), &[0x21, 9, 0, 0, 0, 0, 1, 0, 7]);
    assert!(DeviceHandle::new().control_write(0xa1, 9, 0, 0, &[], 0).is_err());
    assert_eq!(DeviceHandle::new().bulk_read(0x81, 64, 1).unwrap().endpoint(), 0x81);
    assert!(DeviceHandle::new().bulk_read(0x01, 64, 1).is_err());
    assert_eq!(DeviceHandle::new().bulk_write(0x02, &[1, 2], 1).unwrap().buffer().unwrap(), &[1, 2]);
    assert!(DeviceHandle::new().bulk_write(0x82, &[1], 1).is_err());
    assert_eq!(DeviceHandle::new().interrupt_write(0x02, &[1], 1).unwrap().kind(), TransferType::Interrupt);
    let setup = ControlSetup::raw(0x40, 1, 2, 3, 0);
    assert_eq!(DeviceHandle::new().control_transfer(setup, &[], 9).control_setup().unwrap(), setup);
}

#[test]
fn configuration_is_asked_for() {
    let h = DeviceHandle::new();
    assert!(matches!(h.active_configuration(Ok(Some(3))), ConfigurationQuery::Known(Ok(3))));
    match h.active_configuration(Ok(None)) {
        ConfigurationQuery::Ask(setup) => assert_eq!(setup.to_bytes(), [0x80, 8, 0, 0, 0, 0, 1, 0]),
        other => panic!("{other:?}"),
    }
    assert_eq!(configuration_outcome(Ok(1), 2).unwrap(), 2);
    assert_eq!(configuration_outcome(Ok(0), 0).unwrap_err().kind(), ErrorKind::Io);
    assert!(matches!(DeviceHandle::new().reset(Ok(())).1, ResetAction::Finish(Ok(()))));
}

#[test]
fn strings_are_read_whole_or_in_two_steps() {
    let (s, a) = StringRead::new(3, 0x0409);
    match a {
        StringAction::Read { setup } => assert_eq!(setup.to_bytes(), [0x80, 6, 3, 3, 9, 4, 255, 0]),
        other => panic!("{other:?}"),
    }
    let (s, a) = s.step(Err(err(ErrorKind::Pipe)));
    assert!(matches!(a, StringAction::Read { setup } if setup.length == 2));
    let (s, a) = s.step(Ok(vec![6, 3]));
    assert!(matches!(a, StringAction::Read { setup } if setup.length == 6));
    let (_, a) = s.step(Ok(vec![6, 3, b'o', 0, b'k', 0]));
    match a {
        StringAction::Finish(raw) => assert_eq!(string_outcome(raw).unwrap(), "ok"),
        other => panic!("{other:?}"),
    }
    let (s, _) = StringRead::new(3, 0);
    let (_, a) = s.step(Err(err(ErrorKind::NoDevice)));
    assert!(matches!(a, StringAction::Finish(Err(e)) if e.is_no_device()));
    assert!(DeviceHandle::new().read_string_descriptor(0x0409, 0).is_err());
    assert!(DeviceHandle::new().read_string_descriptor(0x0409, 1).is_ok());
}

#[test]
fn malformed_language_tables_mean_english() {
    let mut h = DeviceHandle::new();
    assert_eq!(h.string_language(Err(err(ErrorKind::Timeout))).unwrap_err().kind(), ErrorKind::Timeout);
    assert_eq!(h.string_language(Ok(vec![0, 3, 1, 1])).unwrap(), 0x0409);
    let mut h = DeviceHandle::new();
    assert_eq!(h.string_language(Ok(vec![4, 2, 1, 1])).unwrap(), 0x0409);
    let mut h = DeviceHandle::new();
    assert_eq!(h.string_language(Ok(vec![2, 3])).unwrap(), 0x0409);
    let mut h = DeviceHandle::new();
    assert_eq!(h.string_language(Ok(vec![4, 3, 0x07, 0x04])).unwrap(), 0x0407);
    assert_eq!(h.string_language(Ok(vec![4, 3, 0x09, 0x04])).unwrap(), 0x0407, "read once per handle");
    match h.read_string(5, Ok(vec![])).unwrap().1 {
        StringAction::Read { setup } => assert_eq!((setup.value, setup.index), (0x0305, 0x0407)),
        other => panic!("{other:?}"),
    }
}

#[test]
fn bos_descriptors_are_read_to_their_length() {
    let setup = DeviceHandle::new().read_bos_descriptor(Ok(vec![5, 15, 40, 0, 1])).unwrap();
    assert_eq!(setup.length, 40);
    assert!(DeviceHandle::new().read_bos_descriptor(Ok(vec![5, 14, 40, 0, 1])).is_err());
    assert!(DeviceHandle::new().read_bos_descriptor(Ok(vec![5, 15, 40])).is_err());
}

#[test]
fn errors_describe_themselves() {
    let e = Error::with_message(ErrorKind::NotFound, "no such interface");
    assert_eq!(e.describe(""), format!("no such interface: {}", ErrorKind::NotFound.as_str()));
    let e = Error::from_code(ErrorKind::Pipe, -32).context("endpoint 1");
    assert_eq!(e.describe("Broken pipe"), format!("endpoint 1: {} (os error -32: Broken pipe)", ErrorKind::Pipe.as_str()));
    assert!(e.is_stall() && !e.is_timeout());
    assert_eq!(e.clone().os_code(), Some(-32));
    assert_eq!(Error::from(ErrorKind::Busy).kind(), ErrorKind::Busy);
}

#[test]
fn io_errors_keep_their_code() {
    assert_eq!(Error::from_io(IoKind::Other, Some(ENODEV), Platform::Linux).kind(), ErrorKind::NoDevice);
    assert_eq!(Error::from_io(IoKind::Other, Some(EPIPE), Platform::Linux).kind(), ErrorKind::Pipe);
    let e = Error::from_io(IoKind::Other, Some(ENOENT), Platform::Linux);
    assert_eq!((e.kind(), e.os_code()), (ErrorKind::NotFound, Some(ENOENT)));
    assert_eq!(Error::from_io(IoKind::PermissionDenied, None, Platform::Linux).kind(), ErrorKind::Access);
}

#[test]
fn the_last_os_error_is_the_last_one() {
    // Opening what is not there leaves its error behind.
    for _ in 0..2 {
        assert!(std::path::Path::new("/nonexistent/bus").metadata().is_err());
    }
    let e = Error::last_os_error(Platform::Linux);
    assert_eq!((e.kind(), e.os_code(), e.message()), (ErrorKind::NotFound, Some(ENOENT), None));
}

#[test]
fn numbers_are_written_out() {
    let mut s = String::new();
    push_decimal(&mut s, 0);
    push_decimal(&mut s, 90210);
    push_signed(&mut s, -12);
    push_hex2(&mut s, 0x0a);
    push_hex8(&mut s, 0xe000_02c0);
    push_decimal3(&mut s, 7);
    assert_eq!(s, "090210-120ae00002c0007");
}

#[test]
fn white_space_is_stripped() {
    assert_eq!(strip(" \t12\u{2003}\n"), "12");
    assert_eq!(strip("\u{a0}"), "");
    assert_eq!(strip("a b"), "a b");
    assert!(same("ab", "ab") && !same("ab", "aB"));
}

#[test]
fn a_reset_takes_every_claim_back() {
    let mut h = DeviceHandle::new();
    claimed(&mut h, 4);
    claimed(&mut h, 1);
    let (s, a) = h.reset(Ok(()));
    assert!(matches!(a, ResetAction::Claim(4)));
    let (s, a) = s.step(Ok(()));
    assert!(matches!(a, ResetAction::Claim(1)));
    let (_, a) = s.step(Ok(()));
    assert!(matches!(a, ResetAction::Finish(Ok(()))));
}

#[test]
fn a_failed_reset_ends_at_once() {
    let mut h = DeviceHandle::new();
    claimed(&mut h, 4);
    claimed(&mut h, 1);
    match h.reset(Err(err(ErrorKind::Io))).1 {
        ResetAction::Finish(Err(e)) => assert_eq!(e.kind(), ErrorKind::Io),
        other => panic!("{other:?}"),
    }
    match h.reset(Ok(())).0.step(Err(err(ErrorKind::Busy))).1 {
        ResetAction::Finish(Err(e)) => {
            assert_eq!(e.kind(), ErrorKind::NotFound);
            assert_eq!(e.message(), Some("device changed across reset; reopen it"));
        }
        other => panic!("{other:?}"),
    }
}

#[test]
fn white_space_is_what_std_says() {
    for v in 0..=0x10_ffffu32 {
        if let Some(c) = char::from_u32(v) {
            assert_eq!(white_space(c), c.is_whitespace(), "{v:x}");
        }
    }
}

#[test]
fn a_table_that_cannot_be_read_is_not_malformed() {
    let mut h = DeviceHandle::new();
    assert_eq!(h.string_language(Err(err(ErrorKind::Io))).unwrap_err().kind(), ErrorKind::Io);
    assert!(h.string_language(Err(Error::from_code(ErrorKind::Io, 5))).is_err());
    let other = Error::with_message(ErrorKind::Io, "bus fault");
    assert!(h.string_language(Err(other)).is_err());
    assert_eq!(h.string_language, None);
    let short = Error::with_message(ErrorKind::Io, "string descriptor too short");
    assert_eq!(h.string_language(Err(short)).unwrap(), 0x0409);
}
