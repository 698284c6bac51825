//! Mass storage: selection, transport, commands, block transfers.

use rawusb::msc::scsi::{Capacity, Inquiry, Sense, SenseKey};
use rawusb::msc::{
    check_blocks, find_bulk_only, inquiry_outcome, interfaces, mode_sense, read_capacity_10, read_capacity_16,
    sense_outcome, synchronize_cache_outcome, wait_ready, BlockAccess, BlockDevice, BlockTransfer, Command,
    CommandAction, CommandResult, DataPhase, MassStorage, ProtectAction, ReadyAction, SeekTo, Transport,
    TransportAction,
};
use rawusb::{ConfigDescriptor, Error, ErrorKind};

fn disk() -> ConfigDescriptor {
    ConfigDescriptor::from_bytes(&[
        9, 2, 32, 0, 1, 1, 0, 0x80, 50, 9, 4, 0, 0, 2, 8, 6, 0x50, 0, 7, 5, 0x81, 2, 0, 2, 0, 7, 5, 0x02, 2, 0, 2, 0,
    ])
    .unwrap()
}

fn status(tag: u32, residue: u32, status: u8) -> [u8; 13] {
    let mut b = [0u8; 13];
    b[..4].copy_from_slice(b"USBS");
    b[4..8].copy_from_slice(&tag.to_le_bytes());
    b[8..12].copy_from_slice(&residue.to_le_bytes());
    b[12] = status;
    b
}

const NO_CSW: [u8; 13] = [0; 13];

#[test]
fn the_bulk_only_interface_is_found() {
    let cfg = disk();
    assert_eq!((interfaces(&cfg).len(), MassStorage::open(&cfg).unwrap()), (1, 0));
    assert!(find_bulk_only(&cfg.interfaces[0]).is_some());
    let mut m = MassStorage::open_interface(&cfg, 0).unwrap();
    assert_eq!((m.ep_in, m.ep_out, m.interface_number(), m.max_lun()), (0x81, 0x02, 0, 0));
    assert_eq!(m.max_lun_request().to_bytes(), [0xa1, 0xfe, 0, 0, 0, 0, 1, 0]);
    m.set_max_lun(Ok(1), 3);
    assert_eq!(m.max_lun(), 3);
    m.set_max_lun(Err(Error::new(ErrorKind::Pipe)), 9);
    assert_eq!(m.max_lun(), 0);
    assert!(MassStorage::open_interface(&cfg, 4).is_err());
}

fn started(data: DataPhase) -> (MassStorage, Transport) {
    let mut m = MassStorage::open_interface(&disk(), 0).unwrap();
    let tag = m.tag;
    let cdb = m.inquiry().cdb;
    let (t, a) = m.execute(0, &cdb, data).unwrap();
    match a {
        TransportAction::WriteCommand { endpoint, wrapper } => {
            assert_eq!(endpoint, 0x02);
            assert_eq!(wrapper.len(), 31);
            assert_eq!(&wrapper[..4], b"USBC");
            assert_eq!(wrapper[4..8], tag.to_le_bytes());
        }
        other => panic!("{other:?}"),
    }
    (m, t)
}

#[test]
fn a_command_runs_through_its_phases() {
    let (_, t) = started(DataPhase::In(36));
    let tag = t.route.tag;
    let (t, a) = t.step(Ok(31), &NO_CSW);
    assert!(matches!(a, TransportAction::ReadData { endpoint: 0x81, length: 36 }));
    let (t, a) = t.step(Ok(36), &NO_CSW);
    assert!(matches!(a, TransportAction::ReadStatus { endpoint: 0x81 }));
    let (_, a) = t.step(Ok(13), &status(tag, 0, 0));
    match a {
        TransportAction::Finish(Ok(r)) => {
            assert_eq!(r, CommandResult { passed: true, transferred: 36, residue: 0 });
        }
        other => panic!("{other:?}"),
    }
}

#[test]
fn stalls_are_cleared_and_the_status_read_again() {
    let (_, t) = started(DataPhase::In(36));
    let tag = t.route.tag;
    let (t, _) = t.step(Ok(31), &NO_CSW);
    let (t, a) = t.step(Err(Error::new(ErrorKind::Pipe)), &NO_CSW);
    assert!(matches!(a, TransportAction::ClearHalt { endpoint: 0x81 }));
    let (t, a) = t.step(Ok(0), &NO_CSW);
    assert!(matches!(a, TransportAction::ReadStatus { .. }));
    let (t, a) = t.step(Err(Error::new(ErrorKind::Pipe)), &NO_CSW);
    assert!(matches!(a, TransportAction::ClearHalt { endpoint: 0x81 }));
    let (t, _) = t.step(Ok(0), &NO_CSW);
    let (_, a) = t.step(Ok(13), &status(tag, 36, 1));
    match a {
        TransportAction::Finish(Ok(r)) => assert!(!r.passed && r.residue == 36 && r.transferred == 0),
        other => panic!("{other:?}"),
    }
}

#[test]
fn a_wrong_tag_leads_to_reset_recovery() {
    let (m, t) = started(DataPhase::NoData);
    let tag = t.route.tag;
    let (t, a) = t.step(Ok(31), &NO_CSW);
    assert!(matches!(a, TransportAction::ReadStatus { .. }));
    let (t, a) = t.step(Ok(13), &status(tag.wrapping_add(1), 0, 0));
    match a {
        TransportAction::ResetRequest { setup } => assert_eq!(setup.to_bytes(), [0x21, 0xff, 0, 0, 0, 0, 0, 0]),
        other => panic!("{other:?}"),
    }
    let (t, a) = t.step(Ok(0), &NO_CSW);
    assert!(matches!(a, TransportAction::ClearHalt { endpoint: 0x81 }));
    let (t, a) = t.step(Ok(0), &NO_CSW);
    assert!(matches!(a, TransportAction::ClearHalt { endpoint: 0x02 }));
    let (_, a) = t.step(Ok(0), &NO_CSW);
    assert!(matches!(a, TransportAction::Finish(Err(e)) if e.kind() == ErrorKind::Io));
    assert_eq!(m.reset_recovery().0.request, 0xff);
}

#[test]
fn a_device_that_is_gone_is_not_reset() {
    let (_, t) = started(DataPhase::NoData);
    let (_, a) = t.step(Err(Error::new(ErrorKind::NoDevice)), &NO_CSW);
    assert!(matches!(a, TransportAction::Finish(Err(e)) if e.is_no_device()));
}

#[test]
fn bad_commands_are_refused() {
    let mut m = MassStorage::open_interface(&disk(), 0).unwrap();
    assert!(m.execute(0, &[], DataPhase::NoData).is_err());
    assert!(m.execute(0, &[0; 17], DataPhase::NoData).is_err());
    assert!(m.execute(1, &[0], DataPhase::NoData).is_err());
}

#[test]
fn unit_attention_is_retried_three_times() {
    let failed = CommandResult { passed: false, transferred: 0, residue: 0 };
    let sense = [0x70, 0, 6, 0, 0, 0, 0, 10, 0, 0, 0, 0, 0x28, 0, 0, 0, 0, 0];
    let got = CommandResult { passed: true, transferred: 18, residue: 0 };
    let mut c = Command::new(&[0x00, 0, 0, 0, 0, 0], DataPhase::NoData);
    let mut runs = 1;
    loop {
        let (next, a) = c.step(Ok(failed), &[]);
        assert!(matches!(a, CommandAction::RequestSense));
        let (next, a) = next.step(Ok(got), &sense);
        match a {
            CommandAction::Run => {
                runs += 1;
                c = next;
            }
            CommandAction::Finish(Err(e)) => {
                assert!(e.message().unwrap().starts_with("SCSI command 0x00 failed: "));
                break;
            }
            other => panic!("{other:?}"),
        }
    }
    assert_eq!(runs, 4);
    let c = Command::new(&[0x00], DataPhase::NoData);
    let (_, a) = c.step(Ok(CommandResult { passed: true, transferred: 5, residue: 0 }), &[]);
    assert!(matches!(a, CommandAction::Finish(Ok(5))));
}

#[test]
fn inquiry_text_is_decoded_and_trimmed() {
    let mut b = [b' '; 36];
    b[8..12].copy_from_slice(&[b'A', 0xff, b'B', 0]);
    assert_eq!(Inquiry::from_bytes(&b).unwrap().vendor, "A\u{fffd}B");
    assert!(inquiry_outcome(Ok(4), &b).is_err());
    assert_eq!(inquiry_outcome(Ok(36), &b).unwrap().vendor, "A\u{fffd}B");
}

#[test]
fn sense_data_has_words() {
    let s = Sense { key: SenseKey::IllegalRequest, asc: 0x20, ascq: 0 };
    assert_eq!(s.error_kind(), ErrorKind::NotSupported);
    assert!(s.to_text().contains("20"));
    assert_eq!(SenseKey::from_code(0x0f), SenseKey::Reserved(0x0f));
}

#[test]
fn command_blocks() {
    let m = MassStorage::open_interface(&disk(), 0).unwrap();
    assert_eq!((m.inquiry().cdb, m.inquiry().data), (vec![0x12, 0, 0, 0, 36, 0], DataPhase::In(36)));
    assert_eq!(m.test_unit_ready().cdb, vec![0; 6]);
    assert_eq!(m.start_stop_unit(false, true).cdb, vec![0x1b, 0, 0, 0, 2, 0]);
    assert_eq!(m.prevent_medium_removal(true).cdb, vec![0x1e, 0, 0, 0, 1, 0]);
    assert_eq!(m.synchronize_cache().cdb, vec![0x35, 0, 0, 0, 0, 0, 0, 0, 0, 0]);
    assert_eq!(m.read_capacity(false).data, DataPhase::In(8));
    assert_eq!(m.read_capacity(true).cdb[..2], [0x9e, 0x10]);
    assert_eq!(m.request_sense(), ([3, 0, 0, 0, 18, 0], DataPhase::In(18)));
    let refused = CommandResult { passed: false, transferred: 0, residue: 0 };
    assert_eq!(sense_outcome(Ok(refused), &[0; 18]).unwrap_err().message(), Some("REQUEST SENSE failed"));
    assert_eq!(mode_sense(192)[0], 0x1a);
}

#[test]
fn capacity_comes_from_either_command() {
    let c = read_capacity_10(Ok(8), &[0, 0, 0x0f, 0xff, 0, 0, 2, 0]).unwrap().unwrap();
    assert_eq!((c.block_count, c.block_size, c.bytes()), (4096, 512, 2_097_152));
    assert_eq!(read_capacity_10(Ok(8), &[0xff, 0xff, 0xff, 0xff, 0, 0, 2, 0]).unwrap(), None);
    assert!(read_capacity_10(Ok(7), &[0; 8]).is_err());
    let mut b = [0u8; 32];
    b[2] = 1;
    b[10] = 2;
    let c = read_capacity_16(Ok(32), &b).unwrap();
    assert_eq!((c.block_count, c.block_size), (0x0000_0100_0000_0001 + 0xff_ffff_ffff_u64 - 0xff_ffff_ffff, 512));
    assert!(read_capacity_16(Ok(11), &b).is_err());
}

#[test]
fn optional_commands_may_be_unsupported() {
    let m = MassStorage::open_interface(&disk(), 0).unwrap();
    assert!(synchronize_cache_outcome(Err(Error::new(ErrorKind::NotSupported))).is_ok());
    assert!(synchronize_cache_outcome(Err(Error::new(ErrorKind::Io))).is_err());
    assert!(matches!(m.is_write_protected(192, Ok(4), &[3, 0, 0x80, 0]), ProtectAction::Finish(Ok(true))));
    let refused = || Err(Error::new(ErrorKind::NotSupported));
    assert!(matches!(m.is_write_protected(192, refused(), &[]), ProtectAction::Ask(4)));
    assert!(matches!(m.is_write_protected(4, refused(), &[]), ProtectAction::Finish(Err(_))));
}

#[test]
fn becoming_ready_is_awaited() {
    let busy = || Err(Error::new(ErrorKind::Busy));
    assert!(matches!(wait_ready(0, busy()), ReadyAction::TestAgain { pause: 200_000_000 }));
    assert!(matches!(wait_ready(10, busy()), ReadyAction::Fail { pause: 200_000_000, .. }));
    assert!(matches!(wait_ready(10, Ok(())), ReadyAction::Ready));
    assert!(matches!(wait_ready(0, Err(Error::new(ErrorKind::NotFound))), ReadyAction::Fail { pause: 0, .. }));
}

#[test]
fn transfers_are_cut_into_commands() {
    assert!(check_blocks(512, 1000).is_err() && check_blocks(0, 0).is_err());
    let mut t = BlockTransfer::new(false, 100, 512, 5 * 512, 1024).unwrap();
    let mut seen = Vec::new();
    while let Some(p) = t.next() {
        seen.push((p.start, p.end, p.cdb[5], p.cdb[8], p.cdb_len));
        t.advance(Ok(p.end - p.start)).unwrap();
    }
    assert_eq!(seen, vec![(0, 1024, 100, 2, 10), (1024, 2048, 102, 2, 10), (2048, 2560, 104, 1, 10)]);
    let mut t = BlockTransfer::new(true, 0, 512, 512, 1024).unwrap();
    assert_eq!(t.advance(Ok(100)).unwrap_err().kind(), ErrorKind::Io);
}

#[test]
fn byte_access_stays_within_the_unit() {
    let m = MassStorage::open_interface(&disk(), 0).unwrap();
    let mut d = m.block_device(0, Ok(Capacity { block_count: 4, block_size: 512 })).unwrap();
    assert_eq!(d, BlockDevice::new(0, Capacity { block_count: 4, block_size: 512 }));
    assert_eq!(d.read_blocks(&m, 1, 1024).unwrap(), m.read_blocks(1, 512, 1024).unwrap());
    assert!(d.write_blocks(&m, 3, 1024).is_err() && d.write_blocks(&m, 3, 100).is_err());
    assert_eq!(d.plan_read(2000), BlockAccess::Direct { lba: 0, n: 1536 });
    assert_eq!(d.seek(SeekTo::Start(100)).unwrap(), 100);
    assert_eq!(d.plan_read(2000), BlockAccess::Scratch { lba: 0, offset: 100, n: 412 });
    assert_eq!(d.seek(SeekTo::End(-10)).unwrap(), 2038);
    assert_eq!(d.plan_write(600), BlockAccess::Scratch { lba: 3, offset: 502, n: 10 });
    d.advance(10);
    assert_eq!((d.remaining(), d.plan_read(1), d.plan_write(1)), (0, BlockAccess::Nothing, BlockAccess::AtEnd));
    assert!(d.seek(SeekTo::Current(-5000)).is_err());
    assert!(d.check_range(3, 512).is_ok());
    assert!(d.check_range(3, 1024).is_err() && d.check_range(u64::MAX, 512).is_err());
}
