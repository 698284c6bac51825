//! What the platforms have of their own.

use rawusb::sys::flight::Flight;
use rawusb::sys::linux::events::{
    about_usb, event_loop, next_deadline, on_wake, plan_poll, DeviceStep, Pending, Round, Watched, POLLERR, POLLHUP, POLLIN,
    POLLOUT,
};
use rawusb::sys::linux::sysfs::{
    active_configuration, devnode, kernel_driver_active, parse_number, port_numbers, read_sysfs_device, sysfs_name,
    SysfsEntry,
};
use rawusb::sys::linux::urb::{iso_status, urb_status, PacketResult, Reaped, Submission};
use rawusb::sys::linux::usbfs::{ioctl_number, Encoding, Pointers, Request};
use rawusb::sys::linux::{EINTR, ENODEV, ENOENT, EOVERFLOW, EPIPE};
use rawusb::sys::macos::registry::{self, FindAction, FindEvent, FindInterface, OpenCount};
use rawusb::sys::macos::transfers::{self as iokit, ClaimedInterface, FrameClock, Pipe};
use rawusb::sys::macos::{IOUSB_PIPE_STALLED, IO_RETURN_ABORTED};
use rawusb::sys::unsupported::session_error;
use rawusb::sys::windows::hub::{
    composite_functions, connected, connection_speed, control_handle, ctl_code, hub_descriptor_request, sort_root_hubs,
    Child, ConfigsAction, ConfigsRead, ControlVia, Parent, PortWalk, WalkNext,
};
use rawusb::sys::windows::names::{
    controller_ids, equals_upper, function_interface, is_root_hub, is_super_speed, service, Guid, Service,
};
use rawusb::sys::windows::transfers::{
    self as winusb, finish_isochronous, function_for, usbd_packet_status, wait_timeout, InterfacePlace, Means,
    PacketSlot, Streams,
};
use rawusb::sys::windows::{ERROR_GEN_FAILURE, ERROR_IO_PENDING};
use rawusb::sys::{errno_kind, Platform};
use rawusb::{ConfigDescriptor, Error, ErrorKind, IsoPacket, Speed, TransferFlags, TransferStatus, TransferType};

fn bulk(length: usize, caps: u32, flags: TransferFlags) -> Submission {
    Submission::build(TransferType::Bulk, caps, length, flags, &[], 0, 0).unwrap()
}

const PLAIN: TransferFlags = TransferFlags { short_not_ok: false, zero_packet: false };

#[test]
fn long_bulk_transfers_are_split() {
    let s = bulk(40_000, 2, PLAIN);
    let urbs: Vec<_> = s.urbs.iter().map(|u| (u.offset, u.length)).collect();
    assert_eq!(urbs, vec![(0, 16384), (16384, 16384), (32768, 7232)]);
    assert_eq!(s.urbs[0].flags & 4, 0, "the first is no continuation");
    assert_eq!(bulk(0, 0, PLAIN).urbs.len(), 1);
    let e = Submission::build(TransferType::Bulk, 0, 40_000, PLAIN, &[], 0, 0).unwrap_err();
    assert_eq!(e.message(), Some("kernel too old for large bulk transfers"));
    assert_eq!(bulk(40_000, 0xff, PLAIN).urbs.len(), 1, "scatter-gather");
    let z = bulk(20_000, 2, TransferFlags { short_not_ok: false, zero_packet: true });
    assert_eq!((z.urbs[0].flags & 0x40, z.urbs[1].flags & 0x40), (0, 0x40));
}

fn reaped(status: i32, actual_length: i32) -> Reaped {
    Reaped { status, actual_length, packets: vec![] }
}

#[test]
fn urbs_add_up_in_any_order() {
    let mut s = bulk(20_000, 2, PLAIN);
    assert_eq!(s.finish_urb(1, &reaped(0, 3616)), None);
    assert!(!s.is_done());
    assert_eq!(s.finish_urb(0, &reaped(0, 16384)), None);
    assert!(s.is_done());
    let o = s.outcome();
    assert_eq!((o.status, o.actual_length), (TransferStatus::Completed, 20_000));
}

#[test]
fn a_failed_urb_takes_the_rest_with_it() {
    let mut s = bulk(40_000, 2, PLAIN);
    assert_eq!(s.finish_urb(0, &reaped(-EPIPE, 100)), Some(1));
    s.finish_urb(1, &reaped(-ENOENT, 0));
    s.finish_urb(2, &reaped(-ENOENT, 0));
    let o = s.outcome();
    assert_eq!((o.status, o.actual_length), (TransferStatus::Stall, 100));
}

#[test]
fn timeouts_and_cancellations_show() {
    let mut s = Submission::build(TransferType::Bulk, 0, 10, PLAIN, &[], 5, 100).unwrap();
    assert!(!s.is_due(104) && s.is_due(105));
    s.expire(1);
    assert!(!s.is_due(u64::MAX));
    s.finish_urb(0, &reaped(-ENOENT, 0));
    assert_eq!(s.outcome().status, TransferStatus::TimedOut);
    let mut s = bulk(10, 0, PLAIN);
    s.cancel(1);
    s.finish_urb(0, &reaped(-ENOENT, 4));
    let o = s.outcome();
    assert_eq!((o.status, o.actual_length), (TransferStatus::Cancelled, 4));
    assert_eq!(bulk(10, 0, PLAIN).disconnected().status, TransferStatus::NoDevice);
}

#[test]
fn submissions_that_fail_part_way_are_taken_back() {
    assert!(bulk(40_000, 2, PLAIN).not_submitted(0).is_none());
    let mut s = bulk(40_000, 2, PLAIN).not_submitted(2).unwrap();
    s.finish_urb(0, &reaped(-ENOENT, 0));
    s.finish_urb(1, &reaped(-ENOENT, 0));
    assert!(s.is_done());
}

#[test]
fn iso_packets_are_reported_one_by_one() {
    let packets = vec![IsoPacket::new(10); 130];
    let mut s = Submission::build(TransferType::Isochronous, 0, 1300, PLAIN, &packets, 0, 0).unwrap();
    assert_eq!(s.urbs.iter().map(|u| u.packets).collect::<Vec<_>>(), vec![128, 2]);
    let result = |status| PacketResult { length: 10, actual_length: 3, status };
    s.finish_urb(1, &Reaped { status: 0, actual_length: 0, packets: vec![result(0), result(-EOVERFLOW)] });
    s.finish_urb(0, &Reaped { status: 0, actual_length: 0, packets: vec![result(0); 128] });
    let o = s.outcome();
    assert_eq!((o.status, o.actual_length), (TransferStatus::Completed, 390));
    let p = o.packets.unwrap();
    assert_eq!((p[0].status, p[129].status), (TransferStatus::Completed, TransferStatus::Overflow));
    assert_eq!((urb_status(-ENOENT), urb_status(-ENODEV)), (None, Some(TransferStatus::NoDevice)));
    assert_eq!(iso_status(-EPIPE), TransferStatus::Stall);
}

#[test]
fn polling_wakes_for_the_next_deadline() {
    let on = |deadline| Watched { alive: true, disconnected: false, deadline };
    let gone = Watched { alive: true, disconnected: true, deadline: None };
    let plan = plan_poll(&[on(None), gone, on(Some(5_500_000))], 2_000_000);
    assert_eq!((plan.devices, plan.timeout), (vec![0, 2], 4));
    assert_eq!(plan_poll(&[on(None)], 0).timeout, -1);
    assert_eq!(next_deadline(&[None, Some(7), Some(3)]), Some(3));
}

#[test]
fn a_hang_up_is_reaped_first() {
    let r = event_loop(2, 0, 0, false, &[0, 3], &[POLLOUT, POLLHUP | POLLERR]);
    match r {
        Round::Devices(v) => {
            assert_eq!(v[0], DeviceStep { device: 0, reap: true, disconnect: false });
            assert_eq!(v[1], DeviceStep { device: 3, reap: true, disconnect: true });
        }
        other => panic!("{other:?}"),
    }
    assert!(matches!(event_loop(1, 0, POLLHUP, true, &[], &[]), Round::End));
    let w = on_wake(POLLIN, true);
    assert!(w.drain && !w.end);
    assert!(matches!(event_loop(-1, EINTR, 0, false, &[], &[]), Round::Again));
}

#[test]
fn pending_urbs_are_found_by_their_key() {
    let mut p = Pending::new();
    p.insert(10, 1, 0);
    p.insert(20, 1, 1);
    p.insert(30, 2, 0);
    assert_eq!(p.transfers(), vec![1, 2]);
    assert_eq!(p.remove(20), Some((1, 1)));
    assert_eq!(p.remove(20), None);
    p.remove(10);
    assert_eq!(p.transfers(), vec![2]);
}

#[test]
fn narrow_ioctl_numbers_differ() {
    assert_eq!(ioctl_number(Request::Reset, Encoding::Narrow, Pointers::Bits64), 0x2000_5514);
    assert_ne!(
        ioctl_number(Request::SubmitUrb, Encoding::Common, Pointers::Bits32),
        ioctl_number(Request::SubmitUrb, Encoding::Common, Pointers::Bits64)
    );
}

#[test]
fn sysfs_entries_become_devices() {
    assert_eq!(port_numbers("1-2.3.4"), Some(vec![2, 3, 4]));
    assert_eq!(port_numbers("usb1"), Some(vec![]));
    assert_eq!(port_numbers("1-2:1.0"), None);
    assert_eq!(parse_number("12", 255), Some(12));
    assert_eq!(parse_number("256", 255), None);
    assert_eq!(active_configuration(Some("2\n")), Some(2));
    assert_eq!(devnode(1, 12), "/dev/bus/usb/001/012");
    let mut d = vec![18, 1, 0x10, 0x02, 0, 0, 0, 64, 0x34, 0x12, 0x78, 0x56, 0x00, 0x01, 1, 2, 3, 1];
    d.extend([9, 2, 9, 0, 0, 1, 0, 0x80, 50]);
    let e = SysfsEntry {
        name: "1-2",
        busnum: Some("1\n"),
        devnum: Some("12\n"),
        speed: Speed::High,
        descriptors: Some(&d),
        config_value: Some("1\n"),
    };
    let i = read_sysfs_device(&e).unwrap();
    assert_eq!((i.bus_number, i.address, i.port_numbers, i.configs.len()), (1, 12, vec![2], 1));
    assert!(read_sysfs_device(&SysfsEntry { descriptors: None, ..e }).is_none());
}

#[test]
fn usbfs_is_no_driver() {
    assert!(!kernel_driver_active(Ok(b"usbfs\0\0")).unwrap());
    assert!(kernel_driver_active(Ok(b"cdc_acm\0")).unwrap());
    assert!(!kernel_driver_active(Err(Error::from_code(ErrorKind::Other, 61))).unwrap());
}

#[test]
fn error_codes_have_kinds_everywhere() {
    assert_eq!(errno_kind(Platform::Linux, EPIPE), ErrorKind::Pipe);
    assert_eq!(errno_kind(Platform::Macos, IOUSB_PIPE_STALLED), ErrorKind::Pipe);
    assert_eq!(errno_kind(Platform::Windows, 5), ErrorKind::Access);
    assert_eq!(session_error().kind(), ErrorKind::NotSupported);
}

#[test]
fn location_ids_name_the_ports() {
    assert_eq!(registry::bus_number(0x1421_3000), 0x14);
    assert_eq!(registry::port_numbers(0x1421_3000), vec![2, 1, 3]);
    assert!(registry::is_new(&vec![1, 2], 3) && !registry::is_new(&vec![1, 2], 2));
}

#[test]
fn interfaces_are_searched_service_by_service() {
    let (f, a) = FindInterface::new(1);
    assert_eq!(a, FindAction::Next);
    let (f, a) = f.step(FindEvent::Got);
    assert_eq!(a, FindAction::Plug);
    let (f, a) = f.step(FindEvent::Got);
    assert_eq!(a, FindAction::Query182);
    let (f, a) = f.step(FindEvent::Failed);
    assert_eq!(a, FindAction::QueryBase);
    let (f, a) = f.step(FindEvent::Got);
    assert_eq!(a, FindAction::AskNumber);
    let (_, a) = f.step(FindEvent::Number(1));
    assert_eq!(a, FindAction::Found { has_182: false });
    let (f, _) = FindInterface::new(1);
    let (_, a) = f.step(FindEvent::Failed);
    assert_eq!(a, FindAction::NotFound);
}

#[test]
fn opens_are_counted() {
    let mut c = OpenCount::new();
    assert!(c.must_open());
    c.opened();
    c.opened();
    assert!(!c.must_open() && !c.close() && c.close());
}

#[test]
fn iokit_calls_follow_the_transfer() {
    let claimed =
        [ClaimedInterface { number: 0, has_182: true, pipes: vec![Pipe { address: 0x81, pipe_ref: 1, interval: 1 }] }];
    let call = iokit::submit(TransferType::Bulk, 0x81, &[0; 10], 5_000_000, &[], true, &claimed).unwrap();
    assert!(call.kernel_timeout());
    let call = iokit::submit(TransferType::Interrupt, 0x81, &[0; 10], 5_000_000, &[], true, &claimed).unwrap();
    assert!(!call.kernel_timeout());
    let e = iokit::submit(TransferType::Bulk, 0x82, &[0; 10], 0, &[], true, &claimed).unwrap_err();
    assert_eq!(e.kind(), ErrorKind::NotFound);
    assert_eq!(iokit::pipe_address(1, 3), 0x83);
    assert!(iokit::abort(None, false).is_err());
}

#[test]
fn isochronous_schedules_follow_each_other() {
    let mut c = FrameClock::new();
    assert_eq!(c.schedule(0x81, 100, Speed::Full, 1, 8), 104);
    assert_eq!(c.schedule(0x81, 101, Speed::Full, 1, 8), 112);
    assert_eq!(c.schedule(0x82, 101, Speed::Full, 1, 8), 105);
    assert_eq!(c.schedule(0x81, 500, Speed::High, 1, 8), 504);
    assert_eq!(c.schedule(0x81, 500, Speed::High, 1, 8), 505);
}

#[test]
fn aborted_transfers_were_cancelled_or_timed_out() {
    let mut f = Flight::new(5, 0, true);
    assert_eq!(iokit::finish(f, IO_RETURN_ABORTED).0, TransferStatus::Cancelled);
    f.expire(true);
    assert_eq!(iokit::finish(f, IO_RETURN_ABORTED).0, TransferStatus::TimedOut);
    assert_eq!(winusb::finish(f, 0).0, TransferStatus::TimedOut);
    assert_eq!(winusb::finish(Flight::new(0, 0, true), ERROR_GEN_FAILURE).0, TransferStatus::Stall);
}

#[test]
fn device_names_are_understood() {
    assert!(is_root_hub("USB\\ROOT_HUB30\\4&1") && !is_root_hub("USB\\VID_1234&PID_5678\\1"));
    assert!(is_super_speed("USB\\ROOT_HUB30\\4&1") && !is_super_speed("USB\\ROOT_HUB\\4&1"));
    assert!(equals_upper("WinUSB", "WINUSB"));
    assert_eq!(controller_ids(Some("PCI\\VEN_8086&DEV_A36D&SUBSYS_1")), (0x8086, 0xa36d));
    assert_eq!(function_interface("USB\\VID_1234&PID_5678&MI_02\\7&1"), Some(2));
    assert_eq!(service("WinUSB"), Service::WinUsb);
    assert_eq!(service("usbccgp"), Service::Composite);
    let g = Guid::parse("{dee824ef-729b-4a0e-9c14-b7117d33a817}").unwrap();
    assert_eq!((g.data1, g.data2, g.data3, g.data4[7]), (0xdee8_24ef, 0x729b, 0x4a0e, 0x17));
    assert!(Guid::parse("{dee824ef-729b-4a0e-9c14-b7117d33a81}").is_none());
}

#[test]
fn ports_are_walked_up_to_the_root() {
    let (none, a, b) = (vec![], vec!["a".to_string()], vec!["b".to_string(), "c".to_string()]);
    let mut w = PortWalk::new();
    assert!(matches!(w.step(Some(3), Some(Parent::Hub), Some(&none)), WalkNext::Up));
    assert!(matches!(w.step(Some(4), Some(Parent::Hub), Some(&b)), WalkNext::Up));
    match w.step(Some(1), Some(Parent::Root(2)), Some(&a)) {
        WalkNext::Done(bus, ports, hub) => assert_eq!((bus, ports, hub.as_str()), (2, vec![1, 4, 3], "b")),
        other => panic!("{other:?}"),
    }
    assert!(matches!(PortWalk::new().step(None, Some(Parent::Hub), Some(&a)), WalkNext::Lost));
    assert!(matches!(PortWalk::new().step(Some(1), Some(Parent::Root(1)), Some(&none)), WalkNext::Lost));
    assert!(matches!(PortWalk::new().step(Some(1), Some(Parent::Root(1)), None), WalkNext::Lost));
    let mut w = PortWalk::new();
    let mut steps = 0;
    while matches!(w.step(Some(1), Some(Parent::Hub), Some(&a)), WalkNext::Up) {
        steps += 1;
    }
    assert_eq!(steps, 7);
}

#[test]
fn hubs_are_asked_for_descriptors() {
    assert_eq!(ctl_code(274), 0x0022_0448);
    let r = hub_descriptor_request(3, 0x0200, 0, 9);
    assert_eq!(r[..12], [3, 0, 0, 0, 0x80, 6, 0, 2, 0, 0, 9, 0]);
    assert_eq!(r.len(), 12 + 9);
    assert_eq!(connection_speed(2, None), Speed::High);
    let names = vec!["B".to_string(), "A".to_string()];
    let hubs: Vec<_> = sort_root_hubs(&names).iter().map(|h| h.index).collect();
    assert_eq!(hubs, vec![1, 0]);
}

#[test]
fn winusb_places_and_streams() {
    assert_eq!(function_for(true, &[], None, 3).unwrap(), InterfacePlace { function: None, index: 3 });
    assert_eq!(function_for(false, &[0, 2], None, 2).unwrap(), InterfacePlace { function: Some(1), index: 0 });
    assert_eq!(function_for(false, &[0], None, 2).unwrap_err().kind(), ErrorKind::NotSupported);
    let mut s = Streams::new();
    s.started(0x81);
    assert!(s.is_running(0x81) && !s.is_running(0x82));
    s.ended(0x81, TransferStatus::Completed);
    s.cleared(0x81);
    assert!(!s.is_running(0x81));
    let means = Means { control: false, hub: false, isoch: false };
    let setup = [0x80, 6, 0, 1, 0, 0, 18, 0];
    assert!(winusb::submit(TransferType::Control, 0, &setup, PLAIN, &[], means, None, &[], false).is_err());
    assert!(winusb::accepted(false, ERROR_IO_PENDING).is_ok() && winusb::accepted(false, 5).is_err());
    assert_eq!((wait_timeout(Some(5_000_000), 2_000_000), wait_timeout(None, 0)), (4, u32::MAX));
    assert_eq!(usbd_packet_status(0xc000_0004), TransferStatus::Stall);
}

#[test]
fn winusb_takes_whole_packets_only() {
    let mut c = vec![9, 2, 25, 0, 1, 1, 0, 0x80, 50];
    c.extend([9, 4, 0, 0, 1, 255, 0, 0, 0, 7, 5, 0x02, 1, 10, 0, 1]);
    let cfg = ConfigDescriptor::from_bytes(&c).unwrap();
    let claimed = [winusb::Claimed { interface: 0, alt: 0 }];
    let means = Means { control: true, hub: false, isoch: true };
    let submit = |lengths: &[u32]| {
        let packets: Vec<_> = lengths.iter().map(|l| IsoPacket::new(*l)).collect();
        winusb::submit(
            TransferType::Isochronous,
            0x02,
            &[0; 30],
            PLAIN,
            &packets,
            means,
            Some(&cfg),
            &claimed,
            false,
        )
    };
    assert!(submit(&[10, 10, 10]).is_ok());
    assert!(submit(&[10, 10, 4]).is_ok(), "the last packet of an OUT transfer may be shorter");
    assert!(submit(&[10, 4, 10]).is_err() && submit(&[10, 11]).is_err());
}

#[test]
fn spread_packets_add_up() {
    let requested = [IsoPacket::new(10), IsoPacket::new(10), IsoPacket::new(10)];
    let (p, n) = finish_isochronous(TransferStatus::Completed, 25, &requested, &[]);
    assert_eq!((p.iter().map(|p| p.actual_length).collect::<Vec<_>>(), n), (vec![10, 10, 5], 25));
    let slots = [PacketSlot { length: 3, status: 0 }, PacketSlot { length: 4, status: 0 }, PacketSlot { length: 0, status: 0 }];
    let (p, n) = finish_isochronous(TransferStatus::Completed, 0, &requested, &slots);
    assert_eq!((p[1].actual_length, n), (4, 7));
}

#[test]
fn sysfs_names_devices_by_bus_and_ports() {
    assert_eq!(sysfs_name(2, &[]), "usb2");
    assert_eq!(sysfs_name(1, &[4]), "1-4");
    assert_eq!(sysfs_name(3, &[1, 12, 5]), "3-1.12.5");
    assert_eq!(port_numbers(&sysfs_name(3, &[1, 12, 5])), Some(vec![1, 12, 5]));
}

#[test]
fn uevents_are_told_by_their_subsystem() {
    assert!(about_usb(b"add@/devices/x\0ACTION=add\0SUBSYSTEM=usb\0SEQNUM=1\0"));
    assert!(about_usb(b"SUBSYSTEM=usb"));
    assert!(!about_usb(b"add@/devices/x\0SUBSYSTEM=usbmisc\0"));
    assert!(!about_usb(b"add@/devices/x\0XSUBSYSTEM=usb\0"));
    assert!(!about_usb(b"SUBSYSTEM=us") && !about_usb(b"") && !about_usb(b"\0\0"));
}

#[test]
fn functions_are_ordered_by_their_first_interface() {
    let child = |instance: &str, service: &str, has_path: bool| Child {
        instance: Some(instance.to_string()),
        service: Some(service.to_string()),
        has_path,
    };
    let v = vec![
        child("USB\\VID_1&PID_2&MI_04\\a", "WinUSB", true),
        child("USB\\VID_1&PID_2&mi_01\\b", "winusb", true),
        child("USB\\VID_1&PID_2&MI_00\\c", "usbser", true),
        child("USB\\VID_1&PID_2&MI_00\\d", "WinUSB", false),
        child("USB\\VID_1&PID_2\\e", "WinUSB", true),
        child("USB\\VID_1&PID_2&MI_01\\f", "WINUSB", true),
        Child { instance: None, service: Some("WinUSB".to_string()), has_path: true },
        Child { instance: Some("USB\\VID_1&PID_2&MI_00\\g".to_string()), service: None, has_path: true },
    ];
    assert_eq!(composite_functions(&v), vec![1, 5, 0]);
}

#[test]
fn configurations_are_read_through_the_hub() {
    let (s, a) = ConfigsRead::new(3);
    assert_eq!(a, ConfigsAction::Ask { value: 0x0200, length: 9 });
    let config = [9, 2, 11, 0, 0, 1, 0, 0x80, 50, 2, 0xff];
    let (s, a) = s.step(Some(&config[..9]));
    assert_eq!(a, ConfigsAction::Ask { value: 0x0200, length: 11 });
    let (s, a) = s.step(Some(&config));
    assert_eq!(a, ConfigsAction::Ask { value: 0x0201, length: 9 });
    assert_eq!(s.configs, vec![config.to_vec()]);
    let (s, a) = s.step(Some(&config[..8]));
    assert_eq!((a, s.configs.len()), (ConfigsAction::Finish, 1), "a short header ends it");
    assert_eq!(ConfigsRead::new(1).0.step(None).1, ConfigsAction::Finish);
    assert_eq!(ConfigsRead::new(0).1, ConfigsAction::Finish);
    assert!(connected(true, 1) && !connected(false, 1) && !connected(true, 0));
    assert_eq!(registry::config_length(&[9, 2, 4, 0]), 9);
    assert_eq!(registry::config_length(&[9, 2, 0, 1]), 256);
}

#[test]
fn control_requests_prefer_what_is_open() {
    assert_eq!(control_handle(true, true, true, &[2]), ControlVia::Whole);
    assert_eq!(control_handle(false, true, true, &[2]), ControlVia::Claimed);
    assert_eq!(control_handle(false, false, true, &[2]), ControlVia::Opened);
    assert_eq!(control_handle(false, false, false, &[2, 4]), ControlVia::Function(2));
    assert_eq!(control_handle(false, false, false, &[]), ControlVia::Hub);
}
