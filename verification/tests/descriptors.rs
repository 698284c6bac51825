//! Descriptors, setup packets and other basic types.

use rawusb::bytes::le16;
use rawusb::class::descriptors;
use rawusb::descriptors::{
    decode_language_ids, decode_string_descriptor, ConfigDescriptor, DeviceDescriptor, EndpointDescriptor,
};
use rawusb::types::{request, SyncType, UsageType};
use rawusb::{
    request_type, ControlSetup, ControlType, Direction, ErrorKind, Recipient, Speed, TransferStatus, TransferType,
    Version,
};

#[test]
fn descriptor_walk_stops_at_garbage() {
    let extra = [3, 0x24, 1, 2, 0x21, 4, 5, 0x24];
    let v: Vec<_> = descriptors(&extra);
    assert_eq!(v, vec![(0x24, &extra[..3]), (0x21, &extra[3..5])]);
    assert_eq!(le16(&[1], 0), 1);
}

// A CDC-ACM style device: config with IAD, two interfaces, three endpoints,
// one class-specific descriptor on the first interface.
fn sample_config() -> Vec<u8> {
    let mut v = vec![
        9, 2, 0, 0, 2, 1, 0, 0xe0, 50, // config (total length patched below)
        8, 0x0b, 0, 2, 2, 2, 1, 0, // IAD
        9, 4, 0, 0, 1, 2, 2, 1, 0, // interface 0 alt 0
        5, 0x24, 0x00, 0x10, 0x01, // CDC header (class specific)
        7, 5, 0x81, 3, 8, 0, 10, // EP 0x81 interrupt
        9, 4, 1, 0, 2, 10, 0, 0, 0, // interface 1 alt 0
        7, 5, 0x02, 2, 0, 2, 0, // EP 0x02 bulk
        7, 5, 0x82, 2, 0, 2, 0, // EP 0x82 bulk
        6, 0x30, 0, 0, 0, 0, // SS companion on EP 0x82
        9, 4, 1, 1, 0, 10, 0, 0, 0, // interface 1 alt 1 (no endpoints)
    ];
    let total = v.len() as u16;
    v[2..4].copy_from_slice(&total.to_le_bytes());
    v
}

#[test]
fn parse_config_tree() {
    let raw = sample_config();
    let cfg = ConfigDescriptor::from_bytes(&raw).unwrap();
    assert_eq!(cfg.configuration_value, 1);
    assert_eq!(cfg.num_interfaces, 2);
    assert!(cfg.self_powered());
    assert!(cfg.remote_wakeup());
    assert_eq!(cfg.max_power_ma(), 100);
    assert_eq!(cfg.raw(), &raw[..]);
    assert_eq!(cfg.interfaces.len(), 2);

    let iad = cfg.interface_associations();
    assert_eq!(iad.len(), 1);
    assert_eq!(iad[0].first_interface, 0);
    assert_eq!(iad[0].interface_count, 2);

    let i0 = cfg.interface(0).unwrap();
    assert_eq!(i0.alt_settings.len(), 1);
    assert_eq!(i0.first().class, 2);
    assert_eq!(i0.first().extra, vec![5, 0x24, 0x00, 0x10, 0x01]);
    assert_eq!(i0.first().endpoints.len(), 1);
    let ep = &i0.first().endpoints[0];
    assert_eq!(ep.address, 0x81);
    assert_eq!(ep.number(), 1);
    assert_eq!(ep.direction(), Direction::In);
    assert_eq!(ep.transfer_type(), TransferType::Interrupt);
    assert_eq!(ep.max_packet_size(), 8);
    assert_eq!(ep.interval, 10);

    let i1 = cfg.interface(1).unwrap();
    assert_eq!(i1.alt_settings.len(), 2);
    assert_eq!(i1.alt_setting(0).unwrap().endpoints.len(), 2);
    assert_eq!(i1.alt_setting(1).unwrap().endpoints.len(), 0);
    let ep82 = i1.alt_setting(0).unwrap().endpoint(0x82).unwrap();
    assert_eq!(ep82.transfer_type(), TransferType::Bulk);
    assert_eq!(ep82.max_packet_size(), 512);
    assert!(ep82.ss_companion.is_some());
    assert_eq!(cfg.all_endpoints().len(), 3);
}

#[test]
fn truncated_config_is_tolerated() {
    let raw = sample_config();
    let cfg = ConfigDescriptor::from_bytes(&raw[..30]).unwrap();
    assert_eq!(cfg.interfaces.len(), 1);
    assert_eq!(cfg.interfaces[0].first().endpoints.len(), 0);
    assert!(ConfigDescriptor::from_bytes(&raw[..5]).is_err());
    assert!(ConfigDescriptor::from_bytes(&[9, 4, 0, 0, 0, 0, 0, 0, 0]).is_err());
}

#[test]
fn high_speed_packet_multiplier() {
    let ep = EndpointDescriptor {
        address: 0x83,
        attributes: 0x05,
        max_packet_size: 0x1400, // 2 extra transactions, 1024 bytes
        interval: 1,
        refresh: 0,
        synch_address: 0,
        ss_companion: None,
        extra: Vec::new(),
    };
    assert_eq!(ep.packet_size(), 1024);
    assert_eq!(ep.max_packet_size(), 3072);
    assert_eq!(ep.transfer_type(), TransferType::Isochronous);
    assert_eq!(ep.sync_type(), SyncType::Asynchronous);
    assert_eq!(ep.usage_type(), UsageType::Data);
}

#[test]
fn device_descriptor_roundtrip() {
    let raw = [18, 1, 0x10, 0x02, 0, 0, 0, 64, 0x34, 0x12, 0x78, 0x56, 0x00, 0x01, 1, 2, 3, 1];
    let d = DeviceDescriptor::from_bytes(&raw).unwrap();
    assert_eq!(d.usb_version, Version(0x0210));
    assert_eq!(d.vendor_id, 0x1234);
    assert_eq!(d.product_id, 0x5678);
    assert_eq!(d.max_packet_size_0, 64);
    assert_eq!(d.num_configurations, 1);
    assert_eq!(d.to_bytes(), raw);
    assert!(DeviceDescriptor::from_bytes(&raw[..17]).is_err());
}

#[test]
fn string_descriptors() {
    let s = [8, 3, b'H', 0, b'i', 0, 0x3d, 0xd8]; // trailing lone surrogate
    assert_eq!(decode_string_descriptor(&s).unwrap(), "Hi\u{fffd}");
    let langs = [6, 3, 0x09, 0x04, 0x11, 0x04];
    assert_eq!(decode_language_ids(&langs).unwrap(), vec![0x0409, 0x0411]);
    assert!(decode_string_descriptor(&[2, 2]).is_err());
}

#[test]
fn setup_roundtrip() {
    let s = ControlSetup::new(
        Direction::In,
        ControlType::Standard,
        Recipient::Device,
        request::GET_DESCRIPTOR,
        0x0100,
        0,
        18,
    );
    assert_eq!(s.request_type, 0x80);
    let b = s.to_bytes();
    assert_eq!(b, [0x80, 0x06, 0x00, 0x01, 0x00, 0x00, 18, 0]);
    assert_eq!(ControlSetup::from_bytes(b), s);
    assert_eq!(s.direction(), Direction::In);
}

#[test]
fn request_type_bits() {
    assert_eq!(request_type(Direction::Out, ControlType::Class, Recipient::Interface), 0x21);
    assert_eq!(request_type(Direction::In, ControlType::Vendor, Recipient::Endpoint), 0xc2);
}

#[test]
fn version_bcd() {
    let v = Version(0x0210);
    assert_eq!(v.major(), 2);
    assert_eq!(v.minor(), 1);
    assert_eq!(v.sub_minor(), 0);
    assert_eq!(v.to_text(), "2.1");
    assert_eq!(Version(0x0312).to_text(), "3.1.2");
    assert_eq!(Version(0x1234).major(), 12);
}

#[test]
fn speed_from_mbps() {
    let from_mbps = |mbps: f64| Speed::from_tenths_mbps((mbps * 10.0) as u64);
    assert_eq!(from_mbps(1.5), Speed::Low);
    assert_eq!(from_mbps(12.0), Speed::Full);
    assert_eq!(from_mbps(480.0), Speed::High);
    assert_eq!(from_mbps(5000.0), Speed::Super);
    assert_eq!(from_mbps(10000.0), Speed::SuperPlus);
    assert_eq!(from_mbps(20000.0), Speed::SuperPlusX2);
    assert_eq!(from_mbps(7.0), Speed::Unknown);
}

#[test]
fn speeds_have_rates_and_names() {
    assert_eq!(Speed::Low.bits_per_second(), Some(1_500_000));
    assert_eq!(Speed::High.bits_per_second(), Some(480_000_000));
    assert_eq!(Speed::Unknown.bits_per_second(), None);
    assert!(Speed::Super.is_high_or_faster());
    assert!(!Speed::Full.is_high_or_faster());
}

#[test]
fn descriptor_errors_say_what_is_wrong() {
    let e = DeviceDescriptor::from_bytes(&[18, 1]).unwrap_err();
    assert_eq!((e.kind(), e.message()), (ErrorKind::InvalidParam, Some("device descriptor too short")));
    let e = DeviceDescriptor::from_bytes(&[0u8; 18]).unwrap_err();
    assert_eq!(e.message(), Some("not a device descriptor"));
    let e = ConfigDescriptor::from_bytes(&[9, 2, 9]).unwrap_err();
    assert_eq!(e.message(), Some("config descriptor too short"));
    let e = ConfigDescriptor::from_bytes(&[9, 4, 9, 0, 0, 0, 0, 0, 0]).unwrap_err();
    assert_eq!(e.message(), Some("not a config descriptor"));
}

#[test]
fn walked_descriptors_join_to_the_start() {
    let extra = [3, 0x24, 1, 2, 0x21, 4, 5, 0x24];
    let joined: Vec<u8> = descriptors(&extra).iter().flat_map(|d| d.1.to_vec()).collect();
    assert_eq!(joined, extra[..5]);
}

#[test]
fn statuses_turn_into_errors() {
    assert!(TransferStatus::Completed.into_result().is_ok());
    let kinds = [
        (TransferStatus::Error, ErrorKind::Io),
        (TransferStatus::TimedOut, ErrorKind::Timeout),
        (TransferStatus::Cancelled, ErrorKind::Interrupted),
        (TransferStatus::Stall, ErrorKind::Pipe),
        (TransferStatus::NoDevice, ErrorKind::NoDevice),
        (TransferStatus::Overflow, ErrorKind::Overflow),
    ];
    for (status, kind) in kinds {
        assert_eq!(status.into_result().unwrap_err().kind(), kind);
    }
}

#[test]
fn settings_are_grouped_in_wire_order() {
    let mut c = vec![9, 2, 0, 0, 2, 1, 0, 0x80, 50];
    for (number, alternate) in [(3u8, 0u8), (1, 0), (3, 2), (1, 1), (3, 1)] {
        c.extend([9, 4, number, alternate, 0, 0xff, 0, 0, 0]);
    }
    let len = c.len() as u8;
    c[2] = len;
    let cfg = ConfigDescriptor::from_bytes(&c).unwrap();
    let all: Vec<(u8, u8)> = cfg.all_alt_settings().iter().map(|a| (a.number, a.alternate_setting)).collect();
    assert_eq!(all, vec![(3, 0), (3, 2), (3, 1), (1, 0), (1, 1)]);
}

#[test]
fn lone_surrogates_are_replaced() {
    let units: [u16; 9] = [0xd834, 0xdd1e, 0x006d, 0xdd1e, 0xd834, 0xd834, 0xdd1e, 0x0069, 0xd834];
    let mut d = vec![2 + 2 * units.len() as u8, 3];
    d.extend(units.iter().flat_map(|u| u.to_le_bytes()));
    assert_eq!(decode_string_descriptor(&d).unwrap(), "\u{1d11e}m\u{fffd}\u{fffd}\u{1d11e}i\u{fffd}");
}
