//! Serial ports: discovery, requests, receiving.

use rawusb::serial::ftdi::{baud_request, FtdiChip, Probe};
use rawusb::serial::{
    byte_outcome, fetch_wait, line_coding_outcome, ports,
    DataBits, FlowControl, LineConfig, LineQuery, ModemStatus, Parity, PortKind, ReadStep, SerialPort, StopBits,
};
use rawusb::{ConfigDescriptor, DeviceHandle, Error, ErrorKind, TransferStatus};

fn acm() -> ConfigDescriptor {
    ConfigDescriptor::from_bytes(&[
        9, 2, 60, 0, 2, 1, 0, 0x80, 50, 9, 4, 0, 0, 1, 2, 2, 1, 0, 5, 0x24, 6, 0, 1, 7, 5, 0x83, 3, 8, 0, 16, 9, 4, 1,
        0, 2, 0x0a, 0, 0, 0, 7, 5, 0x81, 2, 64, 0, 0, 7, 5, 0x02, 2, 64, 0, 0,
    ])
    .unwrap()
}

fn ftdi() -> ConfigDescriptor {
    ConfigDescriptor::from_bytes(&[
        9, 2, 32, 0, 1, 1, 0, 0x80, 50, 9, 4, 0, 0, 2, 255, 255, 255, 0, 7, 5, 0x81, 2, 64, 0, 0, 7, 5, 0x02, 2, 64, 0,
        0,
    ])
    .unwrap()
}

fn acm_port() -> SerialPort {
    SerialPort::cdc_acm(&SerialPort::open_cdc_acm(&acm(), 0).unwrap())
}

fn ftdi_port() -> SerialPort {
    SerialPort::ftdi(&SerialPort::open_ftdi(&ftdi(), 0).unwrap(), FtdiChip::Ft232R).0
}

#[test]
fn both_kinds_of_port_are_found() {
    let p = SerialPort::open(&acm(), 0x1234).unwrap();
    assert_eq!((p.interface, p.kind), (0, PortKind::CdcAcm));
    let p = SerialPort::open(&ftdi(), 0x0403).unwrap();
    assert_eq!((p.interface, p.kind), (0, PortKind::Ftdi));
    assert!(ports(&ftdi(), 0x1234).is_empty());
    assert_eq!(SerialPort::open(&ftdi(), 0x1234).unwrap_err().kind(), ErrorKind::NotSupported);
    assert!(SerialPort::open_interface(&acm(), 0x1234, 5).is_err());
    let plan = SerialPort::open_cdc_acm(&acm(), 0).unwrap();
    assert_eq!((plan.data_interface, plan.ep_in, plan.ep_out, plan.notify), (1, 0x81, 0x02, Some((0x83, 16))));
}

#[test]
fn line_settings_round_trip() {
    let mut p = acm_port();
    let line = LineConfig {
        baud_rate: 115_200,
        data_bits: DataBits::Seven,
        parity: Parity::Even,
        stop_bits: StopBits::Two,
    };
    let r = p.set_line_config(&line).unwrap();
    assert_eq!(r.len(), 1);
    assert_eq!(r[0].setup.to_bytes(), [0x21, 0x20, 0, 0, 0, 0, 7, 0]);
    assert_eq!(r[0].data, vec![0x00, 0xc2, 0x01, 0x00, 2, 2, 7]);
    assert_eq!(line_coding_outcome(Ok(7), &r[0].data).unwrap(), Some(line));
    p.line_config_set(&line);
    assert!(matches!(p.line_config(), LineQuery::Ask(_) | LineQuery::Known(Some(_))));
    assert_eq!(p.set_baud_rate(9600), LineConfig::new(9600));
    let mut f = ftdi_port();
    let r = f.set_line_config(&line).unwrap();
    assert_eq!(r[0].setup.to_bytes(), [0x40, 3, 0x1a, 0, 0, 0, 0, 0]);
    assert_eq!(r[1].setup.value, 7 + 2 * 256 + 2 * 2048);
    let five = LineConfig { data_bits: DataBits::Five, ..line };
    assert_eq!(f.set_line_config(&five).unwrap_err().kind(), ErrorKind::NotSupported);
}

#[test]
fn lines_are_set_one_at_a_time() {
    let mut p = acm_port();
    let on = p.set_dtr(true);
    assert_eq!((on.request, on.value & 1), (0x22, 1));
    p.lines_set(Some(true), None);
    p.lines_set(None, Some(false));
    assert!(p.dtr && !p.rts);
    p.lines_set(None, Some(true));
    assert_eq!(p.set_dtr(false).value, 2);
    let f = ftdi_port();
    assert_eq!(f.set_rts(true).value, 0x0202);
    assert_eq!(f.set_dtr(false).value, 0x0100);
}

#[test]
fn flow_control_is_for_ftdi() {
    assert!(acm_port().set_flow_control(FlowControl::NoFlow).unwrap().is_none());
    assert!(acm_port().set_flow_control(FlowControl::RtsCts).is_err());
    let s = ftdi_port().set_flow_control(FlowControl::XonXoff { xon: 0x11, xoff: 0x13 }).unwrap().unwrap();
    assert_eq!((s.value, s.index), (0x1311, 0x0400));
}

#[test]
fn ftdi_only_requests() {
    assert_eq!(acm_port().set_latency_timer(4).unwrap_err().kind(), ErrorKind::NotSupported);
    assert!(acm_port().read_pins().is_err() && acm_port().set_bitmode(0, 0).is_err());
    assert_eq!(ftdi_port().set_latency_timer(4).unwrap().value, 4);
    assert!(ftdi_port().latency_timer().is_ok());
    assert_eq!(byte_outcome(Ok(1), 9).unwrap(), 9);
    assert!(byte_outcome(Ok(0), 9).is_err());
    assert_eq!(ftdi_port().purge(true, true).len(), 2);
    assert!(acm_port().purge(true, true).is_empty());
    assert_eq!(ftdi_port().set_break(true).request, 4);
}

#[test]
fn ftdi_packets_lose_their_status_bytes() {
    let mut p = ftdi_port();
    let mut buf = [0u8; 100];
    assert_eq!(p.read_with_timeout(&mut buf), ReadStep::Fetch(128));
    let mut data = vec![0x31, 0x02];
    data.extend([7; 62]);
    data.extend([0x01, 0x60, 8, 9]);
    assert_eq!(p.received(&data, &mut buf), Some(64));
    assert_eq!((buf[61], buf[62], buf[63]), (7, 8, 9));
    let s = p.modem_status(None).unwrap();
    assert!(s.overrun && !s.cts, "events accumulate, lines are the last seen");
    assert_eq!(p.received(&[0x01, 0x60], &mut buf), None, "status only");
}

#[test]
fn acm_bytes_are_kept_for_the_next_read() {
    let mut p = acm_port();
    let mut small = [0u8; 2];
    assert_eq!(p.received(&[1, 2, 3], &mut small), Some(2));
    assert_eq!(p.read_with_timeout(&mut small), ReadStep::Done(1));
    assert_eq!(small, [3, 2]);
    assert_eq!(p.read_with_timeout(&mut []), ReadStep::Done(0));
    assert_eq!(p.read_with_timeout(&mut [0; 10_000]), ReadStep::Fetch(64 * 64));
    let t = p.write_with_timeout(&DeviceHandle::new(), &[1, 2], 7).unwrap();
    assert_eq!((t.endpoint(), t.buffer().unwrap(), t.timeout()), (0x02, &[1, 2][..], 7));
}

#[test]
fn notifications_latch_their_events() {
    let mut p = acm_port();
    assert!(p.notified(TransferStatus::Completed, &[0xa1, 0x20, 0, 0, 0, 0, 2, 0, 0x43, 0]));
    assert!(p.notified(TransferStatus::Completed, &[0xa1, 0x20, 0, 0, 0, 0, 2, 0, 0x01, 0]));
    assert!(!p.notified(TransferStatus::NoDevice, &[]));
    let s = p.modem_status(None).unwrap();
    assert!(s.overrun && s.dcd && !s.dsr);
    assert!(!p.modem_status(None).unwrap().overrun);
    assert_eq!(ModemStatus::default().take_events(), ModemStatus::default());
}

#[test]
fn reads_give_up_in_time() {
    assert_eq!(fetch_wait(0, 99).unwrap(), 0);
    assert_eq!(fetch_wait(5_000_000, 1_000_000).unwrap(), 4_000_000);
    assert!(fetch_wait(5_000_000, 4_500_000).unwrap_err().is_timeout());
}

#[test]
fn early_chips_are_told_apart_by_their_latency_timer() {
    assert!(matches!(FtdiChip::probe(0x0600, 0).unwrap(), Probe::Known(FtdiChip::Ft232R)));
    assert!(matches!(FtdiChip::probe(0x0200, 0).unwrap(), Probe::AskLatency));
    assert_eq!(FtdiChip::probed(Ok(1)), FtdiChip::Bm);
    assert_eq!(FtdiChip::probed(Err(Error::new(ErrorKind::Pipe))), FtdiChip::Am);
    assert!(FtdiChip::probe(0x0100, 0).is_err());
}

#[test]
fn every_rate_in_range_has_a_divisor() {
    for baud in (184..3_000_000).step_by(4999) {
        assert!(baud_request(FtdiChip::Ft232R, 0, baud).is_ok());
        assert!(baud_request(FtdiChip::Am, 0, baud).is_ok());
        assert!(baud_request(FtdiChip::Ft232H, 1, baud).is_ok());
    }
    assert!(baud_request(FtdiChip::Ft232R, 0, 183).is_err());
    assert_eq!(FtdiChip::Ft232H.max_baud_rate(), 12_000_000);
}
