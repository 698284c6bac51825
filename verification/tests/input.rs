//! HID devices: opening, reports, requests.

use rawusb::hid::report::{Item, ItemType, ReportDescriptor, Usage, Usages};
use rawusb::hid::{
    idle_outcome, interfaces, protocol_outcome, BootDevice, HidDevice, Protocol, ReportType, Route,
};
use rawusb::{ConfigDescriptor, Error, ErrorKind};

const REPORT: &[u8] = &[
    0x05, 0x01, 0x09, 0x06, 0xa1, 0x01, 0x85, 0x03, 0x15, 0x00, 0x25, 0x01, 0x75, 0x08, 0x95, 0x04, 0x81, 0x02, 0xc0,
];

fn keyboard(with_out: bool) -> ConfigDescriptor {
    let mut c = vec![9, 2, 0, 0, 1, 1, 0, 0x80, 50];
    c.extend([9, 4, 2, 0, 1 + with_out as u8, 3, 1, 1, 0]);
    c.extend([9, 0x21, 0x11, 1, 0, 1, 0x22, REPORT.len() as u8, 0]);
    c.extend([7, 5, 0x81, 3, 8, 0, 10]);
    if with_out {
        c.extend([7, 5, 0x02, 3, 8, 0, 10]);
    }
    let n = c.len() as u16;
    c[2..4].copy_from_slice(&n.to_le_bytes());
    ConfigDescriptor::from_bytes(&c).unwrap()
}

fn open(with_out: bool) -> HidDevice {
    HidDevice::open_interface(&keyboard(with_out), 2).unwrap().open(REPORT.to_vec()).unwrap()
}

#[test]
fn keyboards_are_found_and_opened() {
    let cfg = keyboard(false);
    assert_eq!((interfaces(&cfg).len(), HidDevice::open(&cfg).unwrap()), (1, 2));
    let plan = HidDevice::open_interface(&cfg, 2).unwrap();
    assert_eq!(plan.descriptor_request().to_bytes(), [0x81, 6, 0, 0x22, 2, 0, REPORT.len() as u8, 0]);
    let d = open(false);
    assert_eq!(d.boot_device(), Some(BootDevice::Keyboard));
    assert_eq!((d.read(), d.interface_number(), d.max_input_report_len()), (0x81, 2, 8));
    assert_eq!(d.raw_report_descriptor(), REPORT);
    assert!(HidDevice::open_interface(&cfg, 0).is_err());
    assert_eq!(d.report_descriptor().report_len(ReportType::Input, 3), Some(4));
}

#[test]
fn output_reports_take_the_endpoint_if_there_is_one() {
    let d = open(true);
    let (route, data, _) = d.write(&[3, 1, 2]).unwrap();
    assert!(matches!(route, Route::Interrupt { endpoint: 0x02 }));
    assert_eq!(data, &[3, 1, 2]);
    let d = open(false);
    match d.write(&[3, 1, 2]).unwrap().0 {
        Route::Control { setup } => assert_eq!((setup.request_type, setup.request, setup.value, setup.index), (0x21, 9, 0x0203, 2)),
        other => panic!("{other:?}"),
    }
    assert!(d.write(&[]).is_err());
}

#[test]
fn feature_reports_go_through_control() {
    let d = open(false);
    let (setup, _) = d.get_feature_report(5, 3).unwrap();
    assert_eq!((setup.request, setup.value), (1, 0x0303));
    assert!(d.get_feature_report(0, 3).is_err());
    assert_eq!(d.send_feature_report(&[3, 9]).unwrap().0.value, 0x0303);
    assert_eq!(d.get_input_report(5, 3).unwrap().0.value, 0x0103);
}

#[test]
fn idle_rates_round_trip() {
    let d = open(false);
    let setup = d.set_idle(Some(40_000_000), 3);
    assert_eq!((setup.request, setup.value), (0x0a, 10 * 256 + 3));
    assert_eq!(idle_outcome(Ok(1), (setup.value >> 8) as u8).unwrap(), Some(40_000_000));
    assert_eq!(d.set_idle(None, 0).value, 0);
    assert_eq!(idle_outcome(Ok(1), 0).unwrap(), None);
    assert!(idle_outcome(Ok(0), 0).is_err());
}

#[test]
fn protocols_are_read_and_set() {
    let d = open(false);
    assert_eq!(d.set_protocol(Protocol::Boot).value, 0);
    assert_eq!(d.set_protocol(Protocol::Report).value, 1);
    assert_eq!(protocol_outcome(Ok(1), 0).unwrap(), Protocol::Boot);
    assert_eq!(protocol_outcome(Ok(1), 1).unwrap(), Protocol::Report);
    assert!(protocol_outcome(Err(Error::new(ErrorKind::Pipe)), 0).is_err());
}

#[test]
fn usages_keep_their_parts() {
    let u = Usage::new(0x0c, 0xe9);
    assert_eq!((u.0, u.page(), u.id()), (0x000c_00e9, 0x0c, 0xe9));
}

#[test]
fn items_are_split() {
    let v = rawusb::hid::report::items(&[0x15, 0x81, 0x26, 0xff, 0x7f]);
    assert_eq!((v[0].kind, v[0].tag, v[0].signed()), (ItemType::Global, 1, -127));
    assert_eq!((v[1].unsigned(), v[1].signed()), (0x7fff, 0x7fff));
}

#[test]
fn declared_fields_do_not_overlap() {
    let d = ReportDescriptor::parse(REPORT).unwrap();
    let f = d.report_fields(ReportType::Input, 3);
    assert_eq!(f.len(), 1);
    assert_eq!((f[0].bit_offset, f[0].bit_size, f[0].count), (0, 8, 4));
    assert_eq!(f[0].value(&[1, 2, 3, 4], 3), Some(4));
}

#[test]
fn malformed_descriptors_say_why() {
    assert_eq!(ReportDescriptor::parse(&[0xc0]).unwrap_err().kind(), ErrorKind::InvalidParam);
    assert!(ReportDescriptor::parse(&[0xb4]).unwrap_err().message().is_some());
}

#[test]
fn item_data_is_sign_extended_at_its_width() {
    let signed = |data: &[u8]| Item { kind: ItemType::Reserved, tag: 0, data }.signed();
    assert_eq!(signed(&[]), 0);
    assert_eq!((signed(&[0xff]), signed(&[0x7f])), (-1, 127));
    assert_eq!((signed(&[0xff, 0xff]), signed(&[0xff, 0x7f])), (-1, 0x7fff));
    assert_eq!((signed(&[0xff, 0xff, 0xff]), signed(&[0xff, 0xff, 0x7f])), (-1, 0x7f_ffff));
    assert_eq!(signed(&[0, 0, 0x80]), -0x80_0000);
    assert_eq!((signed(&[0xff; 4]), signed(&[0xff, 0xff, 0xff, 0x7f])), (-1, i32::MAX));
}

#[test]
fn a_usage_range_does_not_wrap() {
    let range = Usages::Range(Usage(0), Usage(9));
    assert_eq!((range.get(9), range.get(10)), (Some(Usage(9)), None));
    assert_eq!(range.get(1 << 32), None);
    assert_eq!(range.get(usize::MAX), None);
    let d = ReportDescriptor::parse(REPORT).unwrap();
    let mut f = d.fields[0].clone();
    f.usages = range;
    f.logical_min = -(1 << 31);
    f.logical_max = (1 << 32) - 1;
    assert_eq!(f.array_usage(-(1 << 31)), Some(Usage(0)));
    assert_eq!(f.array_usage(1 << 31), None);
    f.logical_min = i64::MIN;
    f.logical_max = i64::MAX;
    assert_eq!(f.array_usage(i64::MIN + 3), Some(Usage(3)));
    assert_eq!(f.array_usage(i64::MAX), None);
}

#[test]
fn an_element_far_outside_the_report_is_absent() {
    let d = ReportDescriptor::parse(REPORT).unwrap();
    let mut f = d.fields[0].clone();
    f.count = u32::MAX;
    f.bit_size = 32;
    assert_eq!(f.value(&[0; 64], u32::MAX - 1), None);
    assert_eq!(f.value(&[0; 64], 1 << 27), None);
    assert_eq!(f.value(&[1, 0, 0, 0], 0), Some(1));
}

#[test]
fn reports_are_their_fields() {
    // Input 2: 3 x 4 bits; Output 1: 1 x 1 bit; Input 1: 2 x 8 bits; Input 2: 1 x 5 bits.
    let d = ReportDescriptor::parse(&[
        0x85, 2, 0x75, 4, 0x95, 3, 0x81, 2, 0x85, 1, 0x75, 1, 0x95, 1, 0x91, 2, 0x75, 8, 0x95, 2, 0x81, 2, 0x85, 2, 0x75,
        5, 0x95, 1, 0x81, 2,
    ])
    .unwrap();
    assert_eq!(d.report_ids(ReportType::Input), vec![2, 1]);
    assert_eq!(d.report_ids(ReportType::Output), vec![1]);
    assert!(d.report_ids(ReportType::Feature).is_empty());
    assert_eq!(d.report_len(ReportType::Input, 2), Some(3));
    assert_eq!(d.report_len(ReportType::Input, 1), Some(2));
    assert_eq!(d.report_len(ReportType::Output, 2), None);
    let offsets: Vec<u32> = d.report_fields(ReportType::Input, 2).iter().map(|f| f.bit_offset).collect();
    assert_eq!(offsets, vec![0, 12]);
}

#[test]
fn parsing_fails_at_the_item_that_is_wrong() {
    let why = |d: &[u8]| ReportDescriptor::parse(d).unwrap_err().message().unwrap().to_string();
    assert_eq!(why(&[0x85, 0]), "report ID out of range");
    assert_eq!(why(&[0x86, 0, 1]), "report ID out of range");
    assert_eq!(why(&[0xa4, 0xb4, 0xb4]), "Pop without Push");
    assert_eq!(why(&[0xa1, 1, 0xc0, 0xc0]), "End Collection without Collection");
    assert_eq!(why(&[0x77, 0, 0, 0, 0x80, 0x95, 2, 0x81, 2]), "report too large");
    assert!(!ReportDescriptor::parse(&[0x75, 8, 0x95, 1, 0x81, 2]).unwrap().uses_report_ids());
    assert!(ReportDescriptor::parse(&[0x85, 7]).unwrap().uses_report_ids());
}
