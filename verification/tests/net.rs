//! USB network functions.

use pktkit::DeviceStats;
use rawusb::bytes::{le16, le32, put32};
use rawusb::net::cdc::{
    build_ntb16, decode_notification, parse_mac, parse_ntb16, Functional, Notification, NtbParameters, SUBCLASS_NCM,
};
use rawusb::net::rndis::{build_packet, indicated_link, parse_packets, MSG_INDICATE};
use rawusb::net::{kind_of, Delivery, LinkState, NetKind, Shared, RX_QUEUE};
use rawusb::InterfaceDescriptor;

fn params() -> NtbParameters {
    NtbParameters { in_max_size: 16384, out_max_size: 16384, out_divisor: 4, out_remainder: 2, out_alignment: 4 }
}

fn frame(len: usize) -> Vec<u8> {
    (0..len).map(|i| i as u8).collect()
}

#[test]
fn ntb_roundtrip_honours_alignment() {
    let f = frame(60);
    let b = build_ntb16(&f, 7, &params(), 512).unwrap();
    assert_eq!(&b[0..4], b"NCMH");
    assert_eq!(le16(&b, 6), 7);
    assert_eq!(le16(&b, 8) as usize, b.len());
    let ndp = le16(&b, 10) as usize;
    assert_eq!(ndp, 12);
    let data = le16(&b, ndp + 8) as usize;
    assert_eq!(data % 4, 2, "datagram offset honours divisor/remainder");
    assert!(data >= ndp + 16);
    let (got, ok) = parse_ntb16(&b);
    assert!(ok);
    assert_eq!(got, vec![&f[..]]);
}

#[test]
fn ntb_pads_exact_packet_multiples() {
    let p = NtbParameters { out_remainder: 0, ..params() };
    // Header 12 + NDP 16 = 28; 28 + 484 = 512: one byte of padding.
    let b = build_ntb16(&frame(484), 0, &p, 512).unwrap();
    assert_eq!(b.len(), 513);
    assert_eq!(le16(&b, 8), 513);
    let (got, ok) = parse_ntb16(&b);
    assert!(ok);
    assert_eq!(got.iter().map(|d| d.len()).collect::<Vec<_>>(), vec![484]);
    let small = NtbParameters { out_max_size: 100, ..p };
    assert!(build_ntb16(&frame(200), 0, &small, 512).is_err());
}

#[test]
fn ntb_parse_multiple_datagrams_and_chained_ndps() {
    // NTH, NDP at 12 with two datagrams and a next NDP at 64 with one.
    let mut b = vec![0u8; 256];
    b[0..4].copy_from_slice(b"NCMH");
    b[4..6].copy_from_slice(&12u16.to_le_bytes());
    b[8..10].copy_from_slice(&256u16.to_le_bytes());
    b[10..12].copy_from_slice(&12u16.to_le_bytes());
    b[12..16].copy_from_slice(b"NCM0");
    b[16..18].copy_from_slice(&20u16.to_le_bytes());
    b[18..20].copy_from_slice(&64u16.to_le_bytes());
    for (i, (idx, len)) in [(96u16, 20u16), (128, 30)].iter().enumerate() {
        b[20 + 4 * i..22 + 4 * i].copy_from_slice(&idx.to_le_bytes());
        b[22 + 4 * i..24 + 4 * i].copy_from_slice(&len.to_le_bytes());
    }
    b[64..68].copy_from_slice(b"NCM0");
    b[68..70].copy_from_slice(&16u16.to_le_bytes());
    b[72..74].copy_from_slice(&200u16.to_le_bytes());
    b[74..76].copy_from_slice(&40u16.to_le_bytes());
    let (got, ok) = parse_ntb16(&b);
    assert!(ok);
    assert_eq!(got.iter().map(|d| d.len()).collect::<Vec<_>>(), vec![20, 30, 40]);

    // A datagram past the block end is rejected; an NDP pointing at
    // itself is not followed forever.
    let mut bad = b.clone();
    bad[74..76].copy_from_slice(&100u16.to_le_bytes());
    assert!(!parse_ntb16(&bad).1);
    let mut looped = b.clone();
    looped[18..20].copy_from_slice(&12u16.to_le_bytes());
    let (got, ok) = parse_ntb16(&looped);
    assert!(!ok);
    assert!(got.len() <= 32);
    assert!(!parse_ntb16(b"NCMX").1);
}

#[test]
fn descriptors_and_notifications() {
    let comm = InterfaceDescriptor {
        number: 0,
        alternate_setting: 0,
        num_endpoints: 1,
        class: 2,
        sub_class: SUBCLASS_NCM,
        protocol: 0,
        string_index: 0,
        endpoints: Vec::new(),
        extra: vec![
            5, 0x24, 0, 0x10, 1, // header
            13, 0x24, 0x0f, 4, 0, 0, 0, 0, 0xea, 0x05, 0, 0, 0, // ethernet: MAC string 4, 1514
            5, 0x24, 6, 0, 1, // union 0 -> 1
            6, 0x24, 0x1a, 0, 1, 0x21, // NCM
        ],
    };
    let f = Functional::parse(&comm);
    assert_eq!(f.data_interface, Some(1));
    assert_eq!(f.mac_string, 4);
    assert_eq!(f.max_segment_size, 1514);
    assert_eq!(f.ncm_capabilities, Some(0x21));
    assert_eq!(parse_mac("02005E1000FF"), Some([2, 0, 0x5e, 0x10, 0, 0xff]));
    assert_eq!(parse_mac("02005E1000F"), None);
    assert_eq!(parse_mac("02005E1000FG"), None);

    assert_eq!(decode_notification(&[0xa1, 0, 1, 0, 0, 0, 0, 0]), Some(Notification::Connection(true)));
    let mut speed = vec![0xa1, 0x2a, 0, 0, 0, 0, 8, 0];
    speed.extend(1_000_000_000u32.to_le_bytes());
    speed.extend(100_000_000u32.to_le_bytes());
    assert_eq!(
        decode_notification(&speed),
        Some(Notification::Speed { down: 1_000_000_000, up: 100_000_000 })
    );
    let mut p = vec![28, 0, 1, 0];
    p.extend(16384u32.to_le_bytes());
    p.extend([4, 0, 0, 0, 4, 0, 0, 0]);
    p.extend(8192u32.to_le_bytes());
    p.extend([4, 0, 2, 0, 4, 0, 1, 0]);
    let n = NtbParameters::parse(&p).unwrap();
    assert_eq!((n.in_max_size, n.out_max_size, n.out_remainder), (16384, 8192, 2));
}

fn iface(class: u8, sub_class: u8, protocol: u8) -> InterfaceDescriptor {
    InterfaceDescriptor {
        number: 0,
        alternate_setting: 0,
        num_endpoints: 1,
        class,
        sub_class,
        protocol,
        string_index: 0,
        endpoints: Vec::new(),
        extra: Vec::new(),
    }
}

#[test]
fn protocol_detection() {
    assert_eq!(kind_of(&iface(0x02, 0x06, 0x00)), Some(NetKind::Ecm));
    assert_eq!(kind_of(&iface(0x02, 0x0d, 0x00)), Some(NetKind::Ncm));
    assert_eq!(kind_of(&iface(0xe0, 0x01, 0x03)), Some(NetKind::Rndis));
    assert_eq!(kind_of(&iface(0xef, 0x04, 0x01)), Some(NetKind::Rndis));
    assert_eq!(kind_of(&iface(0x02, 0x02, 0xff)), Some(NetKind::Rndis));
    assert_eq!(kind_of(&iface(0x02, 0x02, 0x01)), None, "plain CDC-ACM is a serial port");
    assert_eq!(kind_of(&iface(0x0a, 0x00, 0x00)), None);
}

#[test]
fn delivery_goes_to_handler_or_bounded_queue() {
    let device = DeviceStats::new();
    let mut shared = Shared::new(LinkState::default());
    shared.deliver(&[0u8; 10], &device); // runt: counted as an error
    for _ in 0..RX_QUEUE + 3 {
        shared.deliver(&[1u8; 60], &device);
    }
    let s = shared.counters.snapshot();
    assert_eq!((s.errors, s.rx_frames, s.rx_dropped), (1, RX_QUEUE as u64 + 3, 3));
    assert_eq!(shared.queue.len(), RX_QUEUE);
    // The device's own counters run along.
    let seen = device.snapshot();
    assert_eq!((seen.errors, seen.rx_packets, seen.rx_dropped), (1, RX_QUEUE as u64 + 3, 3));

    shared.handled = true;
    let mut seen = 0;
    let frame = [2u8; 64];
    if shared.deliver(&frame, &device) == Delivery::Handler {
        seen += frame.len();
    }
    assert_eq!(seen, 64);
    assert_eq!(shared.queue.len(), RX_QUEUE, "handler frames bypass the queue");
}

#[test]
fn packet_roundtrip() {
    let frame: Vec<u8> = (0..60).collect();
    let b = build_packet(&frame, 512);
    assert_eq!(b.len(), 44 + 60);
    assert_eq!(le32(&b, 0), 1);
    assert_eq!(le32(&b, 4), 104);
    assert_eq!(le32(&b, 8), 36);
    assert_eq!(le32(&b, 12), 60);
    // Two messages in one transfer, then zero padding.
    let mut t = b.clone();
    t.extend(build_packet(&frame[..20], 512));
    t.extend([0u8; 8]);
    let (got, ok) = parse_packets(&t);
    assert!(ok);
    assert_eq!(got.iter().map(|f| f.len()).collect::<Vec<_>>(), vec![60, 20]);
}

#[test]
fn packet_padding_and_malformed_input() {
    // 44 + 468 = 512: one trailing byte outside the message.
    let b = build_packet(&[0u8; 468], 512);
    assert_eq!(b.len(), 513);
    assert_eq!(le32(&b, 4), 512);
    let (got, ok) = parse_packets(&b[..512]);
    assert!(ok);
    assert_eq!(got.len(), 1);

    let mut bad = build_packet(&[1u8; 60], 0);
    bad[12..16].copy_from_slice(&1000u32.to_le_bytes()); // data past the message
    let (got, ok) = parse_packets(&bad);
    assert!(!ok);
    assert!(got.is_empty(), "no frame expected");
    assert!(!parse_packets(&[7, 0, 0, 0, 44, 0, 0, 0]).1);
    let mut short = build_packet(&[1u8; 60], 0);
    short[4..8].copy_from_slice(&500u32.to_le_bytes());
    assert!(!parse_packets(&short).1);
}

#[test]
fn indications() {
    let mut m = Vec::new();
    put32(&mut m, MSG_INDICATE);
    put32(&mut m, 20);
    put32(&mut m, 0x4001_000b);
    assert_eq!(indicated_link(&m), Some(true));
    m[8..12].copy_from_slice(&0x4001_000cu32.to_le_bytes());
    assert_eq!(indicated_link(&m), Some(false));
    assert_eq!(indicated_link(&m[..8]), None);
}
