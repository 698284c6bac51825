//! Devices, contexts and hotplug.

use rawusb::context::LookupAction;
use rawusb::hotplug::{
    dispatch, recv, try_recv, DispatchAction, DispatchEvent, Filter, HotplugBuilder, Received, Registry, StartAction,
    StartEvent, COALESCE_MS,
};
use rawusb::sys::order::sort_devices;
use rawusb::sys::{same_device, split_config_descriptors, DeviceInfo};
use rawusb::{Context, Device, DeviceDescriptor, Error, ErrorKind, HotplugEvent, Speed, Version};

fn info(bus: u8, address: u8, product_id: u16) -> DeviceInfo {
    DeviceInfo {
        bus_number: bus,
        address,
        port_numbers: vec![bus, address],
        speed: Speed::High,
        device_descriptor: DeviceDescriptor {
            usb_version: Version(0x0200),
            class: 0,
            sub_class: 0,
            protocol: 0,
            max_packet_size_0: 64,
            vendor_id: 0x1234,
            product_id,
            device_version: Version(0),
            manufacturer_string_index: 0,
            product_string_index: 0,
            serial_number_string_index: 1,
            num_configurations: 1,
        },
        configs: vec![vec![9, 2, 9, 0, 0, 1, 0, 0x80, 50]],
        active_config: Some(1),
    }
}

fn device(bus: u8, address: u8, product_id: u16) -> Device {
    Device::new(info(bus, address, product_id))
}

#[test]
fn devices_show_their_descriptors() {
    let d = device(1, 2, 3);
    assert_eq!((d.bus_number(), d.address(), d.port_number(), d.speed()), (1, 2, 2, Speed::High));
    assert_eq!(d.config_descriptor(0).unwrap().configuration_value, 1);
    assert_eq!(d.config_descriptor(1).unwrap_err().kind(), ErrorKind::NotFound);
    assert_eq!(d.config_descriptor_by_value(1).unwrap().max_power_ma(), 100);
    assert!(d.config_descriptor_by_value(2).is_err());
    let mut i = info(1, 2, 3);
    i.active_config = Some(9);
    assert_eq!(Device::new(i).active_config_descriptor().unwrap().configuration_value, 1, "falls back");
    assert!(d.has_serial_number());
    assert_eq!(d.serial_number(Some("x")), Some("x"));
}

#[test]
fn snapshots_of_one_device_are_equal() {
    assert!(device(1, 2, 3) == device(1, 2, 3).duplicate());
    assert!(device(1, 2, 3) != device(1, 3, 3));
    assert!(same_device(&info(1, 2, 3), &info(1, 2, 3)));
    assert!(!same_device(&info(1, 2, 3), &info(1, 2, 4)));
}

#[test]
fn devices_are_sorted_by_place() {
    let v = sort_devices(vec![info(2, 1, 0), info(1, 9, 1), info(1, 3, 2)]);
    let order: Vec<_> = v.iter().map(|d| (d.bus_number, d.address)).collect();
    assert_eq!(order, vec![(1, 3), (1, 9), (2, 1)]);
}

#[test]
fn configuration_runs_are_split() {
    let run = [9, 2, 11, 0, 0, 1, 0, 0, 0, 2, 5, 9, 2, 9, 0, 0, 2, 0, 0, 0, 7];
    let v = split_config_descriptors(&run);
    assert_eq!(v.iter().map(|c| c.len()).collect::<Vec<_>>(), vec![11, 9]);
}

#[test]
fn the_first_match_is_found() {
    let c = Context::new(vec![device(1, 1, 7), device(1, 2, 8), device(1, 3, 8)]);
    assert_eq!(c.devices().len(), 3);
    assert_eq!(c.find_device(0x1234, 8).unwrap().address(), 2);
    assert!(c.find_device(0x1234, 9).is_none());
    assert_eq!(c.open_device_with_vid_pid(1, 1).unwrap_err().kind(), ErrorKind::NotFound);
}

#[test]
fn serial_numbers_are_asked_for_in_turn() {
    let c = Context::new(vec![device(1, 1, 7), device(1, 2, 8), device(1, 3, 8)]);
    let ids = [(0x1234, 8)];
    assert_eq!(c.find_device_by_serial(&ids), LookupAction::Ask(1));
    assert_eq!(c.serial_known(&ids, "B", 1, Some("A")), LookupAction::Ask(2));
    assert_eq!(c.serial_known(&ids, "B", 2, None), LookupAction::Open(2));
    let last = c.serial_read(&ids, "B", 2, Some("B"));
    assert_eq!(last, LookupAction::Found { index: 2, opened: true });
    assert_eq!(c.open_device_by_serial(last).unwrap(), (2, true));
    assert_eq!(c.serial_read(&ids, "B", 2, None), LookupAction::NotFound);
    assert!(c.open_device_by_serial(LookupAction::NotFound).is_err());
}

fn events(v: &[rawusb::hotplug::Delivery]) -> Vec<(bool, u8, Vec<u64>)> {
    v.iter().map(|d| (d.event.is_arrival(), d.event.device().address(), d.to.clone())).collect()
}

#[test]
fn scans_report_what_changed() {
    let mut r = Registry::new();
    let (all, first) = r.add(Filter::default(), true);
    assert!(first.is_empty());
    let (some, _) = r.add(Filter { product_id: Some(8), ..Filter::default() }, false);
    let (a, b) = (all.id, some.id);
    let seen = r.rescan(Ok(vec![device(1, 1, 7), device(1, 2, 8)]));
    assert_eq!(events(&seen), vec![(true, 1, vec![a]), (true, 2, vec![a, b])]);
    assert!(r.rescan(Ok(vec![device(1, 1, 7), device(1, 2, 8)])).is_empty(), "no change");
    // Another device on the same place: it left, and another arrived.
    let seen = r.rescan(Ok(vec![device(1, 1, 8), device(1, 2, 8)]));
    assert_eq!(events(&seen), vec![(false, 1, vec![a]), (true, 1, vec![a, b])]);
    assert!(r.rescan(Err(Error::new(ErrorKind::Io))).is_empty());
    all.unregister(&mut r);
    let seen = r.rescan(Ok(vec![]));
    assert_eq!(seen.iter().filter(|d| d.to == vec![b]).count(), 2);
    let (_, batch) = r.add(Filter::default(), true);
    assert!(batch.is_empty());
}

#[test]
fn existing_devices_come_first() {
    let mut r = Registry::new();
    r.rescan(Ok(vec![device(1, 1, 7), device(1, 2, 8)]));
    let (_, batch) = r.add(Filter { product_id: Some(8), ..Filter::default() }, true);
    assert_eq!(batch.len(), 1);
    assert_eq!(batch.into_iter().next().unwrap().into_device().product_id(), 8);
}

#[test]
fn filters_look_at_vendor_product_and_class() {
    let d = device(1, 1, 7);
    let b = HotplugBuilder::new().vendor_id(0x1234).product_id(7).enumerate_existing(true);
    assert!(b.filter.matches(&d) && b.enumerate_existing);
    assert!(!HotplugBuilder::new().vendor_id(1).filter.matches(&d));
    assert!(!HotplugBuilder::new().class(3).filter.matches(&d));
}

#[test]
fn watching_starts_once() {
    let mut r = Registry::new();
    assert!(matches!(r.start(StartEvent::Begin), StartAction::Watch));
    assert!(matches!(r.start(StartEvent::Watched(Ok(()))), StartAction::Enumerate));
    assert!(matches!(r.start(StartEvent::Enumerated(Ok(vec![device(1, 1, 7)]))), StartAction::Spawn));
    assert!(matches!(r.start(StartEvent::Spawned(Ok(()))), StartAction::Ready));
    assert!(matches!(r.start(StartEvent::Begin), StartAction::Ready));
    let mut r = Registry::new();
    let failed = r.start(StartEvent::Watched(Err(Error::new(ErrorKind::NotSupported))));
    assert!(matches!(failed, StartAction::Failed(e) if e.kind() == ErrorKind::NotSupported));
}

#[test]
fn bursts_settle_before_a_scan() {
    assert_eq!(dispatch(DispatchEvent::Started), DispatchAction::Wait);
    assert_eq!(dispatch(DispatchEvent::Woken(true)), DispatchAction::Settle(COALESCE_MS));
    assert_eq!(dispatch(DispatchEvent::Woken(false)), DispatchAction::End);
    assert_eq!(dispatch(DispatchEvent::Settled { go: true, alive: true }), DispatchAction::Rescan);
    assert_eq!(dispatch(DispatchEvent::Settled { go: true, alive: false }), DispatchAction::End);
    assert_eq!(dispatch(DispatchEvent::Scanned { stopping: false }), DispatchAction::Wait);
}

#[test]
fn receiving_tells_silence_from_the_end() {
    assert!(recv(Received::Nothing).is_none());
    assert!(matches!(recv(Received::Disconnected), Some(Err(_))));
    assert!(matches!(recv(Received::Event(HotplugEvent::Left(device(1, 1, 7)))), Some(Ok(e)) if e.is_departure()));
    assert!(try_recv(Received::Nothing).unwrap().is_none());
    assert!(try_recv(Received::Disconnected).is_err());
}
