//! Network functions: opening, sending and receiving, exchanges.

use pktkit::DeviceStats;
use rawusb::net::cdc::{align_up, build_ntb16, parse_mac, parse_ntb16, Functional, NtbParameters};
use rawusb::net::rndis::{
    build_packet, initialize_reply, parse_packets, query_reply, query_u32, Control, Exchange, ExchangeAction,
    COMPLETION, MSG_INIT, MSG_QUERY,
};
use rawusb::net::{
    interfaces, unpack, CloseAction, Completion, ControlState, FilterAction, Framing,
    LinkState, NetDevice, NetKind, OpenAction, OpenEvent, OpenPhase, OpenPlan, Opening, Recv, Shared, TX_QUEUE,
};
use rawusb::{ConfigDescriptor, Error, ErrorKind, TransferStatus};

fn err(kind: ErrorKind) -> Error {
    Error::new(kind)
}

fn ecm() -> ConfigDescriptor {
    let mut c = vec![9, 2, 0, 0, 2, 1, 0, 0x80, 50];
    c.extend([9, 4, 0, 0, 1, 2, 6, 0, 0]);
    c.extend([5, 0x24, 0, 0x10, 1]);
    c.extend([13, 0x24, 0x0f, 4, 0, 0, 0, 0, 0xea, 0x05, 0, 0, 0]);
    c.extend([5, 0x24, 6, 0, 1]);
    c.extend([7, 5, 0x83, 3, 16, 0, 8]);
    c.extend([9, 4, 1, 0, 0, 10, 0, 0, 0]);
    c.extend([9, 4, 1, 1, 2, 10, 0, 0, 0]);
    c.extend([7, 5, 0x81, 2, 0, 2, 0]);
    c.extend([7, 5, 0x02, 2, 0, 2, 0]);
    let n = c.len() as u16;
    c[2..4].copy_from_slice(&n.to_le_bytes());
    ConfigDescriptor::from_bytes(&c).unwrap()
}

#[test]
fn functions_are_found_and_planned() {
    let cfg = ecm();
    assert_eq!(interfaces(&cfg).len(), 1);
    let i = NetDevice::open(&cfg).unwrap();
    assert_eq!((i.interface, i.kind), (0, NetKind::Ecm));
    let p = NetDevice::open_interface(&cfg, 0).unwrap();
    assert_eq!((p.data_interface, p.data_alternate, p.ep_in, p.ep_out), (1, 1, 0x81, 0x02));
    assert_eq!(p.notify, Some((0x83, 16)));
    assert!(NetDevice::open_interface(&cfg, 1).is_err());
}

/// Opens the function of `ecm`, answering well; the text is its MAC string.
fn opened(text: &str) -> (Opening, Result<(), Error>) {
    let (mut o, mut a) = Opening::new(NetDevice::open_interface(&ecm(), 0).unwrap());
    loop {
        let event = match a {
            OpenAction::Finish(r) => return (o, r),
            OpenAction::ReadString { index } => {
                assert_eq!(index, 4);
                OpenEvent::Text(Ok(text.to_string()))
            }
            OpenAction::SetAlternate { interface, .. } => {
                assert_eq!(interface, 1);
                OpenEvent::Done(Ok(()))
            }
            _ => OpenEvent::Done(Ok(())),
        };
        let (next, action) = o.step(event);
        o = next;
        a = action;
    }
}

#[test]
fn an_ecm_function_opens() {
    let (o, r) = opened("02005E1000FF");
    assert!(r.is_ok());
    assert_eq!(o.mac, [2, 0, 0x5e, 0x10, 0, 0xff]);
    assert_eq!(o.notifications(), Some((0x83, 16)));
    let d = o.device();
    assert_eq!((d.kind(), d.max_frame_size(), d.mac_address()), (NetKind::Ecm, 1514, [2, 0, 0x5e, 0x10, 0, 0xff]));
}

#[test]
fn a_bad_address_is_quoted() {
    let (_, r) = opened("b\"d");
    let e = r.unwrap_err();
    assert!(e.message().unwrap().contains("\"b\\\"d\""), "{:?}", e.message());
}

#[test]
fn streaming_is_selected_last() {
    let (mut o, mut a) = Opening::new(NetDevice::open_interface(&ecm(), 0).unwrap());
    let mut alternates = Vec::new();
    loop {
        if let OpenAction::SetAlternate { alternate, .. } = &a {
            alternates.push((*alternate, o.phase));
        }
        let event = match a {
            OpenAction::Finish(_) => break,
            OpenAction::ReadString { .. } => OpenEvent::Text(Ok("02005E1000FF".to_string())),
            _ => OpenEvent::Done(Ok(())),
        };
        let (next, action) = o.step(event);
        o = next;
        a = action;
    }
    assert_eq!(alternates.last(), Some(&(1, OpenPhase::Stream)));
}

fn device(framing: Framing, kind: NetKind) -> NetDevice {
    NetDevice {
        kind,
        mac: [0; 6],
        max_frame: 1514,
        ep_out: 2,
        out_packet: 512,
        framing,
        shared: Shared::new(LinkState::default()),
        control: ControlState::Cdc { interface: 0, filter_supported: true },
    }
}

#[test]
fn sent_frames_arrive() {
    let s = DeviceStats::new();
    let frame: Vec<u8> = (0..100).collect();
    let mut d = device(Framing::Rndis, NetKind::Rndis);
    let b = d.send(&frame, &s).unwrap();
    assert_eq!(unpack(NetKind::Rndis, &b), (vec![&frame[..]], true));
    let params =
        NtbParameters { in_max_size: 4096, out_max_size: 4096, out_divisor: 4, out_remainder: 0, out_alignment: 4 };
    let mut d = device(Framing::Ncm { params, sequence: 0 }, NetKind::Ncm);
    let b = d.send(&frame, &s).unwrap();
    assert_eq!(unpack(NetKind::Ncm, &b), (vec![&frame[..]], true));
    let mut d = device(Framing::Ecm, NetKind::Ecm);
    assert_eq!(d.send(&frame, &s).unwrap(), frame);
    assert_eq!(d.send(&[1; 512], &s).unwrap().len(), 513, "one byte of padding");
    assert_eq!(d.send(&[1; 5], &s).unwrap_err().kind(), ErrorKind::InvalidParam);
    assert_eq!(d.send(&[1; 1515], &s).unwrap_err().kind(), ErrorKind::InvalidParam);
}

#[test]
fn sending_is_bounded() {
    let s = DeviceStats::new();
    let mut d = device(Framing::Ecm, NetKind::Ecm);
    for _ in 0..TX_QUEUE {
        d.send(&[0; 60], &s).unwrap();
    }
    assert_eq!(d.send(&[0; 60], &s).unwrap_err().kind(), ErrorKind::Busy);
    assert_eq!(d.stats().tx_dropped, 1);
    assert_eq!(s.snapshot().tx_dropped, 1);
    d.shared.sent(60, TransferStatus::Completed, &s);
    assert_eq!((d.stats().tx_frames, d.stats().tx_bytes), (1, 60));
    assert_eq!((s.snapshot().tx_packets, s.snapshot().tx_bytes), (1, 60));
    d.send(&[0; 60], &s).unwrap();
    d.shared.not_submitted(&s);
    assert_eq!((d.stats().tx_dropped, d.stats().errors), (2, 0));
}

#[test]
fn queued_frames_outlive_the_device() {
    let s = DeviceStats::new();
    let mut d = device(Framing::Ecm, NetKind::Ecm);
    assert!(matches!(d.recv(10, 4), Recv::Wait(Some(6))));
    assert!(matches!(d.recv(0, 4), Recv::Wait(None)));
    d.shared.deliver(&[1; 60], &s);
    d.shared.deliver(&[2; 60], &s);
    d.shared.end(ErrorKind::NoDevice);
    assert!(matches!(d.recv(1, 1), Recv::Done(Ok(f)) if f[0] == 1));
    assert!(matches!(d.recv(1, 1), Recv::Done(Ok(f)) if f[0] == 2));
    assert!(matches!(d.recv(1, 1), Recv::Done(Err(e)) if e.is_no_device()));
}

#[test]
fn receive_failures_are_bounded() {
    let s = DeviceStats::new();
    let mut sh = Shared::new(LinkState::default());
    assert_eq!(sh.complete(0, TransferStatus::Completed, &s), Completion::Deliver);
    assert_eq!(sh.complete(3, TransferStatus::Error, &s), Completion::Again(4));
    assert_eq!(sh.complete(63, TransferStatus::Error, &s), Completion::Stop);
    assert_eq!(Shared::new(LinkState::default()).complete(0, TransferStatus::Cancelled, &s), Completion::Stop);
}

#[test]
fn closing_twice_is_closing_once() {
    let mut d = device(Framing::Ecm, NetKind::Ecm);
    assert!(matches!(d.close(true), CloseAction::Nothing));
    assert!(matches!(d.close(false), CloseAction::Nothing));
    assert!(d.send(&[0; 60], &DeviceStats::new()).is_err());
    let mut d = device(Framing::Rndis, NetKind::Rndis);
    d.control = ControlState::Rndis(Control::new(0, None));
    assert!(matches!(d.close(true), CloseAction::ClearFilter { .. }));
    match d.halt() {
        CloseAction::Send { setup, message, timeout } => {
            assert_eq!((setup.request_type, setup.request, setup.length), (0x21, 0, 12));
            assert_eq!(message, [3, 0, 0, 0, 12, 0, 0, 0, 2, 0, 0, 0]);
            assert_eq!(timeout, 5_000_000_000);
        }
        other => panic!("{other:?}"),
    }
    assert!(matches!(d.close(false), CloseAction::Nothing));
}

#[test]
fn promiscuous_mode_is_a_filter() {
    let mut d = device(Framing::Ecm, NetKind::Ecm);
    match d.set_promiscuous(true) {
        FilterAction::Write { setup, timeout } => {
            assert_eq!((setup.request_type, setup.request, setup.index), (0x21, 0x43, 0));
            assert_eq!(timeout, 5_000_000_000);
        }
        other => panic!("{other:?}"),
    }
}

#[test]
fn links_come_up_and_go_down() {
    let mut sh = Shared::new(LinkState::default());
    assert!(sh.notified(TransferStatus::Completed, &[0xa1, 0, 1, 0, 0, 0, 0, 0]));
    assert_eq!(sh.link.connected, Some(true));
    assert!(sh.notified(TransferStatus::Completed, &[0xa1, 0, 0, 0, 0, 0, 0, 0]));
    assert_eq!(sh.link.connected, Some(false));
    assert!(!sh.notified(TransferStatus::NoDevice, &[]));
}

/// A completion of the given kind for a request.
fn reply(kind: u32, id: u32, status: u32) -> Vec<u8> {
    let mut m = Vec::new();
    for v in [kind | COMPLETION, 24, id, status, 4, 20] {
        m.extend(v.to_le_bytes());
    }
    let n = m.len() as u32;
    m[4..8].copy_from_slice(&n.to_le_bytes());
    m
}

fn run(mut e: Exchange, mut a: ExchangeAction, answers: &[Vec<u8>]) -> Result<Vec<u8>, Error> {
    let mut next = answers.iter();
    for _ in 0..200 {
        let (e2, a2) = match a {
            ExchangeAction::Finish(r) => return r,
            ExchangeAction::Fetch { .. } => match next.next() {
                Some(m) => e.step(Ok(()), m),
                None => e.step(Ok(()), &[]),
            },
            _ => e.step(Ok(()), &[]),
        };
        e = e2;
        a = a2;
    }
    panic!("an exchange must end");
}

#[test]
fn only_its_own_completion_ends_an_exchange() {
    let mut c = Control::new(0, None);
    let (e, a) = c.exchange(MSG_QUERY, &[0; 16]);
    let id = e.id;
    let got = run(e, a, &[reply(MSG_INIT, id, 0), reply(MSG_QUERY, id + 1, 0), reply(MSG_QUERY, id, 0)]).unwrap();
    assert_eq!(got, reply(MSG_QUERY, id, 0));
    let (e, a) = c.exchange(MSG_QUERY, &[]);
    let id2 = e.id;
    assert_ne!(id, id2);
    assert!(run(e, a, &[reply(MSG_QUERY, id2, 0xc000_0001)]).is_err());
    let (e, a) = c.exchange(MSG_QUERY, &[]);
    assert!(run(e, a, &[]).is_err(), "no answer at all");
}

#[test]
fn replies_are_taken_apart() {
    let mut m = reply(MSG_INIT, 1, 0);
    assert!(initialize_reply(&m).is_err(), "too short");
    m.resize(52, 0);
    m[36..40].copy_from_slice(&2048u32.to_le_bytes());
    assert_eq!(initialize_reply(&m).unwrap().max_transfer_size, 2048);
    let mut q = Vec::new();
    for v in [MSG_QUERY | COMPLETION, 28, 1, 0, 4, 16, 0x1234] {
        q.extend(u32::to_le_bytes(v));
    }
    assert_eq!(query_reply(&q).unwrap(), vec![0x34, 0x12, 0, 0]);
    assert_eq!(query_u32(Ok(q.clone())).unwrap(), 0x1234);
    q[16] = 2;
    assert_eq!(query_u32(Ok(q.clone())).unwrap_err().message(), Some("short RNDIS OID value"));
    q[16] = 9;
    assert_eq!(query_reply(&q).unwrap_err().message(), Some("malformed RNDIS QUERY reply"));
}

#[test]
fn messages_never_end_on_a_packet() {
    for n in [14, 60, 468, 469, 980] {
        let b = build_packet(&vec![7; n], 512);
        assert_ne!(b.len() % 512, 0);
        assert_eq!(parse_packets(&b).0.len(), 1);
        let p = NtbParameters {
            in_max_size: 4096,
            out_max_size: 4096,
            out_divisor: 1,
            out_remainder: 0,
            out_alignment: 4,
        };
        let b = build_ntb16(&vec![7; n], 1, &p, 512).unwrap();
        assert_ne!(b.len() % 512, 0);
        assert_eq!(parse_ntb16(&b).0.len(), 1);
    }
    assert_eq!((align_up(13, 4), align_up(16, 4)), (16, 16));
}

#[test]
fn addresses_are_hexadecimal_digits_only() {
    assert_eq!(parse_mac("+2005E1000FF"), None);
    assert_eq!(parse_mac("02:05E1000FF"), None);
}

#[test]
fn functional_descriptors_fall_back_to_the_next_interface() {
    let f = Functional { data_interface: None, mac_string: 0, max_segment_size: 0, ncm_capabilities: None };
    assert_eq!(f.data_interface(&ecm(), 0), Some(1));
}

#[test]
fn open_plans_can_be_written_down() {
    let p: OpenPlan = NetDevice::open_interface(&ecm(), 0).unwrap();
    let (o, a) = Opening::new(p);
    assert!(matches!(a, OpenAction::SetAlternate { interface: 1, alternate: 0 }));
    let (_, a) = o.step(OpenEvent::Done(Err(err(ErrorKind::NoDevice))));
    assert!(!matches!(a, OpenAction::Finish(Ok(()))));
}

#[test]
fn exchanges_have_time_limits() {
    let mut c = Control::new(0, Some(0x83));
    let (e, a) = c.exchange(4, &[]);
    assert!(matches!(a, ExchangeAction::Send { timeout: 5_000_000_000, .. }));
    let (e, a) = e.step(Ok(()), &[]);
    assert!(matches!(a, ExchangeAction::Notification { endpoint: 0x83, length: 64, timeout: 500_000_000 }));
    let (_, a) = e.step(Err(Error::new(ErrorKind::Timeout)), &[]);
    assert!(matches!(a, ExchangeAction::Fetch { setup, timeout: 5_000_000_000 } if setup.length == 1025));
    let (e, _) = Control::new(0, None).exchange(4, &[]);
    assert!(matches!(e.step(Ok(()), &[]).1, ExchangeAction::Pause { time: 10_000_000 }));
}
