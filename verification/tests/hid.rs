//! HID devices and report descriptors.

use rawusb::hid::report::{items, usage, ReportDescriptor, Usage, Usages};
use rawusb::hid::{HidDescriptor, ReportType};
use rawusb::Version;

#[test]
fn hid_descriptor() {
    let d = HidDescriptor::from_bytes(&[9, 0x21, 0x11, 0x01, 0, 1, 0x22, 0x3f, 0]).unwrap();
    assert_eq!(d.hid_version, Version(0x0111));
    assert_eq!(d.report_descriptor_length(), Some(63));
    // Truncated class descriptor list: keep what is there.
    let d = HidDescriptor::from_bytes(&[7, 0x21, 0x11, 0x01, 0, 2, 0x22]).unwrap();
    assert!(d.descriptors.is_empty());
    assert!(HidDescriptor::from_bytes(&[9, 0x24, 0, 0, 0, 0]).is_err());
}

/// The boot keyboard report descriptor from HID 1.11 Appendix E.6.
const KEYBOARD: &[u8] = &[
    0x05, 0x01, 0x09, 0x06, 0xa1, 0x01, 0x05, 0x07, 0x19, 0xe0, 0x29, 0xe7, 0x15, 0x00, 0x25, 0x01, 0x75, 0x01, 0x95,
    0x08, 0x81, 0x02, 0x95, 0x01, 0x75, 0x08, 0x81, 0x01, 0x95, 0x05, 0x75, 0x01, 0x05, 0x08, 0x19, 0x01, 0x29, 0x05,
    0x91, 0x02, 0x95, 0x01, 0x75, 0x03, 0x91, 0x01, 0x95, 0x06, 0x75, 0x08, 0x15, 0x00, 0x25, 0x65, 0x05, 0x07, 0x19,
    0x00, 0x29, 0x65, 0x81, 0x00, 0xc0,
];

#[test]
fn boot_keyboard() {
    let d = ReportDescriptor::parse(KEYBOARD).unwrap();
    assert!(!d.uses_report_ids());
    assert_eq!(d.application_usages, vec![Usage(usage::KEYBOARD)]);
    assert_eq!(d.report_len(ReportType::Input, 0), Some(8));
    assert_eq!(d.report_len(ReportType::Output, 0), Some(1));
    assert_eq!(d.report_len(ReportType::Feature, 0), None);

    let fields: Vec<_> = d.report_fields(ReportType::Input, 0);
    assert_eq!(fields.len(), 3);
    let mods = fields[0];
    assert!(mods.is_variable());
    assert_eq!(mods.usages.get(1), Some(Usage::new(0x07, 0xe1)));
    let keys = fields[2];
    assert!(!keys.is_variable());
    assert_eq!(keys.bit_offset, 16);

    // Left shift + 'a' (usage 0x04).
    let report = [0x02, 0, 0x04, 0, 0, 0, 0, 0];
    assert_eq!(mods.value(&report, 1), Some(1));
    assert_eq!(mods.value(&report, 0), Some(0));
    assert_eq!(keys.array_usage(keys.value(&report, 0).unwrap()), Some(Usage::new(0x07, 0x04)));
    assert_eq!(keys.value(&report, 6), None);

    let leds: Vec<_> = d.report_fields(ReportType::Output, 0);
    assert_eq!(leds[0].usages, Usages::Range(Usage::new(0x08, 1), Usage::new(0x08, 5)));
}

#[test]
fn report_ids_signed_values_and_push_pop() {
    let desc = [
        0x05, 0x01, 0x09, 0x02, 0xa1, 0x01, // Mouse application
        0x85, 0x01, // Report ID 1
        0x09, 0x30, 0x09, 0x31, // X, Y
        0x15, 0x81, 0x25, 0x7f, // -127..127
        0x75, 0x08, 0x95, 0x02, 0x81, 0x06, // 2 x 8 bits, relative
        0xa4, // Push
        0x85, 0x02, 0x06, 0x00, 0xff, 0x09, 0x01, // Report ID 2, vendor page
        0x15, 0x00, 0x26, 0xff, 0x00, 0x75, 0x08, 0x95, 0x03, 0xb1, 0x02, // 3-byte feature
        0xb4, // Pop: back to report ID 1, signed range
        0x09, 0x38, 0x95, 0x01, 0x81, 0x06, // wheel
        0xc0,
    ];
    let d = ReportDescriptor::parse(&desc).unwrap();
    assert!(d.uses_report_ids());
    assert_eq!(d.application_usages, vec![Usage(usage::MOUSE)]);
    assert_eq!(d.report_len(ReportType::Input, 1), Some(3));
    assert_eq!(d.report_len(ReportType::Feature, 2), Some(3));
    assert_eq!(d.report_ids(ReportType::Input), vec![1]);

    let feature = d.report_fields(ReportType::Feature, 2)[0];
    assert_eq!(feature.logical_max, 255);
    assert_eq!(feature.usages.get(0), Some(Usage::new(0xff00, 0x01)));

    let (id, payload) = d.strip_id(&[1, 0xff, 5, 0x80]);
    assert_eq!(id, 1);
    let xy = d.report_fields(ReportType::Input, 1)[0];
    assert_eq!(xy.value(payload, 0), Some(-1));
    assert_eq!(xy.value(payload, 1), Some(5));
    let wheel = d.report_fields(ReportType::Input, 1)[1];
    assert_eq!(wheel.bit_offset, 16);
    assert_eq!(wheel.value(payload, 0), Some(-128));
    assert!(wheel.is_relative());
}

#[test]
fn malformed() {
    assert!(ReportDescriptor::parse(&[0xc0]).is_err());
    assert!(ReportDescriptor::parse(&[0xb4]).is_err());
    assert!(ReportDescriptor::parse(&[0x85, 0x00]).is_err());
    // Truncated trailing item: ignored.
    let d = ReportDescriptor::parse(&[0x05, 0x01, 0x26, 0xff]).unwrap();
    assert!(d.fields.is_empty());
    // Long items are skipped.
    assert_eq!(items(&[0xfe, 1, 0x42, 0xaa, 0x05, 0x01]).len(), 2);
}
