//! Devices arriving and leaving.

use rawusb::hotplug::{Filter, Signal};
use rawusb::{DeviceDescriptor, Version};

fn descriptor(vendor_id: u16, product_id: u16, class: u8) -> DeviceDescriptor {
    DeviceDescriptor {
        usb_version: Version(0x0200),
        class,
        sub_class: 0,
        protocol: 0,
        max_packet_size_0: 64,
        vendor_id,
        product_id,
        device_version: Version(0),
        manufacturer_string_index: 0,
        product_string_index: 0,
        serial_number_string_index: 0,
        num_configurations: 1,
    }
}

#[test]
fn filter_defaults_to_everything() {
    let f = Filter::default();
    assert_eq!(f.vendor_id, None);
    assert_eq!(f.product_id, None);
    assert_eq!(f.class, None);
}

#[test]
fn descriptor_fields_drive_the_filter() {
    // Exercised without a live device: the vendor/product checks only
    // read the descriptor, which is what `matches` looks at first.
    let d = descriptor(0x046d, 0xc548, 0x00);
    let f = Filter { vendor_id: Some(0x046d), product_id: None, class: None };
    assert!(f.vendor_id.is_none_or(|v| v == d.vendor_id));
    let f2 = Filter { vendor_id: Some(0x1234), ..f };
    assert!(!f2.vendor_id.is_none_or(|v| v == d.vendor_id));
}

#[test]
fn signal_coalesces_and_stops() {
    let mut s = Signal::default();
    s.notify();
    s.notify();
    assert_eq!(s.wait(), Some(true));
    assert!(s.take_pending());
    assert!(!s.stopping());
    s.stop();
    assert_eq!(s.wait(), Some(false));
    assert!(s.stopping());
}
