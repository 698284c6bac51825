//! What the I/O Registry says of devices: where they sit, how fast they are,
//! and the search for an interface.

use crate::bytes::{le16, le16_at};
use crate::descriptors::{device_of, is_device_descriptor, DeviceDescriptor};
use crate::error::{message, outcome, Error, ErrorKind, ErrorView, Result};
use crate::sys::{byte_lists, DeviceInfo, DeviceInfoView};
use crate::types::{Speed, Version};
use vstd::prelude::*;

verus! {

// ----- places -------------------------------------------------------------------------

/// The bus number in a location identifier: its top byte.
pub open spec fn bus_of(location: u32) -> u8 {
    (location / 0x100_0000) as u8
}

/// The port chain in `digits` four-bit digits below `unit * 16`, from the top
/// down to the first zero.
pub open spec fn ports_below(location: u32, unit: nat, digits: nat) -> Seq<u8>
    decreases digits,
{
    let port = location as nat / unit % 16;
    if digits == 0 || port == 0 {
        Seq::empty()
    } else {
        seq![port as u8] + ports_below(location, unit / 16, (digits - 1) as nat)
    }
}

/// The port chain in a location identifier: its low six four-bit digits, up
/// to the first zero.
pub open spec fn ports_of(location: u32) -> Seq<u8> {
    ports_below(location, 0x10_0000, 6)
}

/// The bus number in a location identifier.
pub fn bus_number(location: u32) -> (r: u8)
    ensures
        r == bus_of(location),
{
    (location / 0x100_0000) as u8
}

/// The port chain in a location identifier.
pub fn port_numbers(location: u32) -> (r: Vec<u8>)
    ensures
        r@ == ports_of(location),
{
    let mut out: Vec<u8> = Vec::new();
    let mut unit: u32 = 0x10_0000;
    let mut digits: u32 = 6;
    assert(out@ + ports_of(location) =~= ports_of(location));
    while digits > 0
        invariant
            digits <= 6,
            digits == 6 ==> unit == 0x10_0000,
            digits == 5 ==> unit == 0x1_0000,
            digits == 4 ==> unit == 0x1000,
            digits == 3 ==> unit == 0x100,
            digits == 2 ==> unit == 0x10,
            digits == 1 ==> unit == 1,
            out@ + ports_below(location, unit as nat, digits as nat) == ports_of(location),
        decreases digits,
    {
        let port: u32 = location / unit % 16;
        if port == 0 {
            assert(out@ + Seq::<u8>::empty() =~= out@);
            return out;
        }
        let ghost before = out@;
        let ghost rest = ports_below(location, unit as nat / 16, (digits - 1) as nat);
        out.push(port as u8);
        assert(before + (seq![port as u8] + rest) =~= out@ + rest);
        unit = unit / 16;
        digits = digits - 1;
    }
    assert(out@ + Seq::<u8>::empty() =~= out@);
    out
}

/// A port chain is at most six ports long, and no port in it is zero or above
/// fifteen.
pub proof fn lemma_ports(location: u32)
    ensures
        ports_of(location).len() <= 6,
        forall|i: int| 0 <= i < ports_of(location).len() ==> 1 <= #[trigger] ports_of(location)[i] <= 15,
{
    lemma_ports_below(location, 0x10_0000, 6);
}

proof fn lemma_ports_below(location: u32, unit: nat, digits: nat)
    requires
        unit > 0 || digits == 0,
        digits <= 6,
        digits == 6 ==> unit == 0x10_0000,
        digits == 5 ==> unit == 0x1_0000,
        digits == 4 ==> unit == 0x1000,
        digits == 3 ==> unit == 0x100,
        digits == 2 ==> unit == 0x10,
        digits == 1 ==> unit == 1,
    ensures
        ports_below(location, unit, digits).len() <= digits,
        forall|i: int|
            0 <= i < ports_below(location, unit, digits).len() ==> 1 <= #[trigger] ports_below(
                location,
                unit,
                digits,
            )[i] <= 15,
    decreases digits,
{
    if digits > 0 && location as nat / unit % 16 != 0 {
        lemma_ports_below(location, unit / 16, (digits - 1) as nat);
        let rest = ports_below(location, unit / 16, (digits - 1) as nat);
        let all = ports_below(location, unit, digits);
        assert forall|i: int| 0 <= i < all.len() implies 1 <= #[trigger] all[i] <= 15 by {
            if i > 0 {
                assert(all[i] == rest[i - 1]);
            }
        }
    }
}

/// The speed that a speed code stands for.
pub open spec fn speed_of(code: u8) -> Speed {
    match code {
        0 => Speed::Low,
        1 => Speed::Full,
        2 => Speed::High,
        3 => Speed::Super,
        4 => Speed::SuperPlus,
        5 => Speed::SuperPlusX2,
        _ => Speed::Unknown,
    }
}

/// The speed that a speed code stands for.
pub fn device_speed(code: u8) -> (r: Speed)
    ensures
        r == speed_of(code),
{
    match code {
        0 => Speed::Low,
        1 => Speed::Full,
        2 => Speed::High,
        3 => Speed::Super,
        4 => Speed::SuperPlus,
        5 => Speed::SuperPlusX2,
        _ => Speed::Unknown,
    }
}

// ----- devices ------------------------------------------------------------------------

/// What the registry knows of a device.
#[derive(Debug)]
pub struct Properties {
    /// The location identifier.
    pub location: u32,
    /// The address.
    pub address: u16,
    /// The speed code.
    pub speed: u8,
    /// The device class.
    pub class: u8,
    /// The device subclass.
    pub sub_class: u8,
    /// The device protocol.
    pub protocol: u8,
    /// The vendor ID.
    pub vendor_id: u16,
    /// The product ID.
    pub product_id: u16,
    /// The release number.
    pub release: u16,
    /// The string indices of manufacturer, product and serial number, if the
    /// device object can tell.
    pub strings: Option<[u8; 3]>,
    /// The number of configurations.
    pub num_configurations: u8,
    /// The active configuration.
    pub configuration: u8,
}

/// The device descriptor that the registry's properties amount to, for a
/// device that does not answer.
pub open spec fn fallback_descriptor(p: Properties) -> DeviceDescriptor {
    DeviceDescriptor {
        usb_version: Version(0x0200),
        class: p.class,
        sub_class: p.sub_class,
        protocol: p.protocol,
        max_packet_size_0: 64,
        vendor_id: p.vendor_id,
        product_id: p.product_id,
        device_version: Version(p.release),
        manufacturer_string_index: match p.strings {
            Some(s) => s@[0],
            None => 0,
        },
        product_string_index: match p.strings {
            Some(s) => s@[1],
            None => 0,
        },
        serial_number_string_index: match p.strings {
            Some(s) => s@[2],
            None => 0,
        },
        num_configurations: p.num_configurations,
    }
}

/// The device descriptor: what the device answered, if it is whole, else what
/// the registry knows. `None` if the answer is whole and no device descriptor.
pub open spec fn descriptor_of(p: Properties, answer: Option<Seq<u8>>) -> Option<DeviceDescriptor> {
    match answer {
        Some(b) => if b.len() != 18 {
            Some(fallback_descriptor(p))
        } else if is_device_descriptor(b) {
            Some(device_of(b))
        } else {
            None
        },
        None => Some(fallback_descriptor(p)),
    }
}

/// The device descriptor of a device that answered `answer` when it was asked
/// for it, or did not.
pub fn device_descriptor(p: &Properties, answer: Option<&[u8]>) -> (r: Option<DeviceDescriptor>)
    ensures
        r == descriptor_of(
            *p,
            match answer {
                Some(b) => Some(b@),
                None => None,
            },
        ),
{
    match answer {
        Some(b) => {
            if b.len() == 18 {
                return match DeviceDescriptor::from_bytes(b) {
                    Ok(d) => Some(d),
                    Err(_) => None,
                };
            }
        },
        None => {},
    }
    let (manufacturer, product, serial): (u8, u8, u8) = match &p.strings {
        Some(s) => (s[0], s[1], s[2]),
        None => (0, 0, 0),
    };
    Some(
        DeviceDescriptor {
            usb_version: Version(0x0200),
            class: p.class,
            sub_class: p.sub_class,
            protocol: p.protocol,
            max_packet_size_0: 64,
            vendor_id: p.vendor_id,
            product_id: p.product_id,
            device_version: Version(p.release),
            manufacturer_string_index: manufacturer,
            product_string_index: product,
            serial_number_string_index: serial,
            num_configurations: p.num_configurations,
        },
    )
}

/// How long a configuration descriptor is, given the first four bytes of the
/// copy that the registry keeps: what it declares, at least its header.
pub fn config_length(head: &[u8]) -> (r: usize)
    requires
        head@.len() >= 4,
    ensures
        r == (if le16_at(head@, 2) < 9 {
            9usize
        } else {
            le16_at(head@, 2) as usize
        }),
{
    let total: usize = le16(head, 2) as usize;
    if total < 9 {
        9
    } else {
        total
    }
}

/// The device that the registry describes, with that device descriptor and
/// those configurations.
pub fn describe(p: &Properties, device_descriptor: DeviceDescriptor, configs: Vec<Vec<u8>>) -> (r: DeviceInfo)
    ensures
        r@ == (DeviceInfoView {
            bus_number: bus_of(p.location),
            address: if p.address > 255 {
                255
            } else {
                p.address as u8
            },
            port_numbers: ports_of(p.location),
            speed: speed_of(p.speed),
            device_descriptor,
            configs: byte_lists(configs@),
            active_config: Some(p.configuration),
        }),
{
    let address: u8 = if p.address > 255 {
        255
    } else {
        p.address as u8
    };
    DeviceInfo {
        bus_number: bus_number(p.location),
        address,
        port_numbers: port_numbers(p.location),
        speed: device_speed(p.speed),
        device_descriptor,
        configs,
        active_config: Some(p.configuration),
    }
}

/// Whether a registry entry was not listed yet.
pub fn is_new(seen: &Vec<u64>, id: u64) -> (r: bool)
    ensures
        r == !seen@.contains(id),
{
    let mut i: usize = 0;
    while i < seen.len()
        invariant
            i <= seen@.len(),
            forall|k: int| 0 <= k < i ==> seen@[k] != id,
        decreases seen@.len() - i,
    {
        if seen[i] == id {
            return false;
        }
        i += 1;
    }
    true
}

// ----- the search for an interface ------------------------------------------------------

/// Where the search for an interface stands with one of its services.
#[derive(Debug, Clone, Copy, PartialEq, Eq, Structural)]
pub enum FindPhase {
    /// The next service is being fetched.
    Fetching,
    /// Its plug-in is being created.
    Plugging,
    /// Its object of the newer revision is being asked for.
    Querying182,
    /// Its object of the first revision is being asked for.
    QueryingBase,
    /// Its interface number is being asked for.
    Numbering {
        /// Whether the object is of the newer revision.
        has_182: bool,
    },
    /// The search is over.
    Over,
}

/// The search for the interface with a number.
#[derive(Debug, Clone, Copy, PartialEq, Eq, Structural)]
pub struct FindInterface {
    /// The number.
    pub number: u8,
    /// Where it stands.
    pub phase: FindPhase,
}

/// What the last step of the search gave.
#[derive(Debug, Clone, Copy, PartialEq, Eq, Structural)]
pub enum FindEvent {
    /// It worked: there is a service, a plug-in or an object.
    Got,
    /// It did not.
    Failed,
    /// The interface number.
    Number(u8),
}

/// The next step of the search.
#[derive(Debug, Clone, Copy, PartialEq, Eq, Structural)]
pub enum FindAction {
    /// Fetch the next service.
    Next,
    /// Create its plug-in.
    Plug,
    /// Ask for its object of the newer revision.
    Query182,
    /// Ask for its object of the first revision.
    QueryBase,
    /// Ask for its interface number. The plug-in is not needed any more.
    AskNumber,
    /// Release the service, then fetch the next one. Whether the plug-in and
    /// the object are to be released too.
    Release {
        /// Release the plug-in.
        plugin: bool,
        /// Release the object.
        object: bool,
    },
    /// This is the interface.
    Found {
        /// Whether its object is of the newer revision.
        has_182: bool,
    },
    /// There is no such interface.
    NotFound,
}

/// The search after one step.
pub open spec fn find_next(s: FindInterface, event: FindEvent) -> (FindInterface, FindAction) {
    let at = |phase: FindPhase| FindInterface { phase, ..s };
    match s.phase {
        FindPhase::Fetching => if event == FindEvent::Got {
            (at(FindPhase::Plugging), FindAction::Plug)
        } else {
            (at(FindPhase::Over), FindAction::NotFound)
        },
        FindPhase::Plugging => if event == FindEvent::Got {
            (at(FindPhase::Querying182), FindAction::Query182)
        } else {
            (at(FindPhase::Fetching), FindAction::Release { plugin: false, object: false })
        },
        FindPhase::Querying182 => if event == FindEvent::Got {
            (at(FindPhase::Numbering { has_182: true }), FindAction::AskNumber)
        } else {
            (at(FindPhase::QueryingBase), FindAction::QueryBase)
        },
        FindPhase::QueryingBase => if event == FindEvent::Got {
            (at(FindPhase::Numbering { has_182: false }), FindAction::AskNumber)
        } else {
            (at(FindPhase::Fetching), FindAction::Release { plugin: true, object: false })
        },
        FindPhase::Numbering { has_182 } => if event == FindEvent::Number(s.number) {
            (at(FindPhase::Over), FindAction::Found { has_182 })
        } else {
            (at(FindPhase::Fetching), FindAction::Release { plugin: false, object: true })
        },
        FindPhase::Over => (s, FindAction::NotFound),
    }
}

impl FindInterface {
    /// Starts the search for the interface with a number.
    pub fn new(number: u8) -> (r: (FindInterface, FindAction))
        ensures
            r == (FindInterface { number, phase: FindPhase::Fetching }, FindAction::Next),
    {
        (FindInterface { number, phase: FindPhase::Fetching }, FindAction::Next)
    }

    /// Takes what the last step gave and says what to do next.
    pub fn step(self, event: FindEvent) -> (r: (FindInterface, FindAction))
        ensures
            r == find_next(self, event),
    {
        let mut s = self;
        let got = match event {
            FindEvent::Got => true,
            _ => false,
        };
        match self.phase {
            FindPhase::Fetching => if got {
                s.phase = FindPhase::Plugging;
                (s, FindAction::Plug)
            } else {
                s.phase = FindPhase::Over;
                (s, FindAction::NotFound)
            },
            FindPhase::Plugging => if got {
                s.phase = FindPhase::Querying182;
                (s, FindAction::Query182)
            } else {
                s.phase = FindPhase::Fetching;
                (s, FindAction::Release { plugin: false, object: false })
            },
            FindPhase::Querying182 => if got {
                s.phase = FindPhase::Numbering { has_182: true };
                (s, FindAction::AskNumber)
            } else {
                s.phase = FindPhase::QueryingBase;
                (s, FindAction::QueryBase)
            },
            FindPhase::QueryingBase => if got {
                s.phase = FindPhase::Numbering { has_182: false };
                (s, FindAction::AskNumber)
            } else {
                s.phase = FindPhase::Fetching;
                (s, FindAction::Release { plugin: true, object: false })
            },
            FindPhase::Numbering { has_182 } => {
                let found = match event {
                    FindEvent::Number(n) => n == self.number,
                    _ => false,
                };
                if found {
                    s.phase = FindPhase::Over;
                    (s, FindAction::Found { has_182 })
                } else {
                    s.phase = FindPhase::Fetching;
                    (s, FindAction::Release { plugin: false, object: true })
                }
            },
            FindPhase::Over => (s, FindAction::NotFound),
        }
    }
}

/// The search ends only with the interface that was asked for or with the
/// services exhausted; every other service is released again.
pub proof fn lemma_find_is_exact(s: FindInterface, event: FindEvent)
    requires
        s.phase !is Over,
    ensures
        find_next(s, event).0.number == s.number,
        find_next(s, event).1 is Found <==> s.phase is Numbering && event == FindEvent::Number(s.number),
        find_next(s, event).1 == FindAction::NotFound <==> s.phase is Fetching && event != FindEvent::Got,
        find_next(s, event).1 is Release <==> find_next(s, event).0.phase is Fetching,
        find_next(s, event).0.phase is Over <==> find_next(s, event).1 is Found || find_next(s, event).1
            == FindAction::NotFound,
{
}

// ----- opening ---------------------------------------------------------------------------

/// How often a device object is open; the device itself is opened once.
#[derive(Debug, Clone, Copy, PartialEq, Eq, Structural)]
pub struct OpenCount {
    /// How often.
    pub count: u32,
}

impl OpenCount {
    /// Not open.
    pub fn new() -> (r: Self)
        ensures
            r.count == 0,
    {
        OpenCount { count: 0 }
    }

    /// Whether the device has to be opened before the next user shares it.
    pub fn must_open(&self) -> (r: bool)
        ensures
            r == (self.count == 0),
    {
        self.count == 0
    }

    /// Notes one more user of the open device.
    pub fn opened(&mut self)
        requires
            old(self).count < u32::MAX,
        ensures
            final(self).count == old(self).count + 1,
    {
        self.count = self.count + 1;
    }

    /// Notes one user less; whether that was the last one, and the device is
    /// to be closed.
    pub fn close(&mut self) -> (r: bool)
        ensures
            final(self).count == (if old(self).count > 0 {
                old(self).count - 1
            } else {
                0
            }),
            r == (old(self).count == 1),
    {
        if self.count > 0 {
            self.count = self.count - 1;
            self.count == 0
        } else {
            false
        }
    }
}

/// Whether an open took hold of the device.
pub open spec fn opened_exclusively(r: std::result::Result<(), ErrorView>) -> std::result::Result<bool, ErrorView> {
    match r {
        Ok(_) => Ok(true),
        Err(e) => if e.kind == ErrorKind::Access {
            Ok(false)
        } else {
            Err(e)
        },
    }
}

/// Whether a device counts as open after opening it came to `r`. One that
/// another driver holds is tolerated: descriptor requests still work;
/// claiming interfaces will not.
pub fn open_outcome(r: Result<()>) -> (x: Result<bool>)
    ensures
        outcome(x) == opened_exclusively(outcome(r)),
{
    match r {
        Ok(()) => Ok(true),
        Err(e) => match e.kind() {
            ErrorKind::Access => Ok(false),
            _ => Err(e),
        },
    }
}

/// Checks that a device is open.
pub fn require_open(is_open: bool) -> (r: Result<()>)
    ensures
        is_open ==> r is Ok,
        !is_open ==> r is Err && r->Err_0@ == message(
            ErrorKind::Access,
            "device is held by another driver or process"@,
        ),
{
    if is_open {
        Ok(())
    } else {
        Err(Error::with_message(ErrorKind::Access, "device is held by another driver or process"))
    }
}

/// The error of an interface that a device does not have.
pub fn no_such_interface() -> (r: Error)
    ensures
        r@ == message(ErrorKind::NotFound, "no such interface"@),
{
    Error::with_message(ErrorKind::NotFound, "no such interface")
}

/// The outcome of detaching a kernel driver, which cannot be done.
pub fn detach_kernel_driver() -> (r: Result<()>)
    ensures
        r is Err && r->Err_0@ == message(ErrorKind::NotSupported, "kernel drivers cannot be detached on macOS"@),
{
    Err(Error::with_message(ErrorKind::NotSupported, "kernel drivers cannot be detached on macOS"))
}

/// The outcome of attaching a kernel driver, which cannot be done.
pub fn attach_kernel_driver() -> (r: Result<()>)
    ensures
        r is Err && r->Err_0@ == message(ErrorKind::NotSupported, "kernel drivers cannot be attached on macOS"@),
{
    Err(Error::with_message(ErrorKind::NotSupported, "kernel drivers cannot be attached on macOS"))
}

/// How long to run, in nanoseconds.
pub open spec fn run_for(deadline: Option<u64>, now: u64) -> int {
    match deadline {
        Some(d) => if d - now < 1_000_000 {
            1_000_000
        } else {
            d - now
        },
        None => 3_600_000_000_000,
    }
}

/// How long the event thread runs its loop for the earliest deadline, in
/// nanoseconds: at least a millisecond, an hour if there is none.
pub fn run_time(deadline: Option<u64>, now: u64) -> (r: u64)
    ensures
        r == run_for(deadline, now),
{
    match deadline {
        Some(d) => if d < now || d - now < 1_000_000 {
            1_000_000
        } else {
            d - now
        },
        None => 3_600_000_000_000,
    }
}

/// A location has the bus in its highest byte and below it the ports from the
/// root down, four bits each, up to the first zero.
pub proof fn lemma_locations(location: u32)
    ensures
        bus_of(location) == location / 0x100_0000,
        ({
            let p = ports_of(location);
            let n = |unit: nat| location as nat / unit % 16;
            &&& p.len() == 0 <==> n(0x10_0000) == 0
            &&& p.len() > 0 ==> p[0] == n(0x10_0000)
            &&& p.len() > 1 ==> p[1] == n(0x1_0000)
            &&& p.len() > 2 ==> p[2] == n(0x1000)
            &&& p.len() > 3 ==> p[3] == n(0x100)
            &&& p.len() > 4 ==> p[4] == n(0x10)
            &&& p.len() > 5 ==> p[5] == n(1)
            &&& p.len() == 1 ==> n(0x1_0000) == 0
            &&& p.len() == 2 ==> n(0x1000) == 0
            &&& p.len() == 3 ==> n(0x100) == 0
            &&& p.len() == 4 ==> n(0x10) == 0
            &&& p.len() == 5 ==> n(1) == 0
        }),
{
    let e = ports_below(location, 1, 1);
    let d = ports_below(location, 0x10, 2);
    let c = ports_below(location, 0x100, 3);
    let b = ports_below(location, 0x1000, 4);
    let a = ports_below(location, 0x1_0000, 5);
    assert(ports_below(location, 0, 0).len() == 0);
    assert(0x10nat / 16 == 1 && 0x100nat / 16 == 0x10 && 0x1000nat / 16 == 0x100);
    assert(0x1_0000nat / 16 == 0x1000 && 0x10_0000nat / 16 == 0x1_0000);
    let next = |unit: nat, rest: Seq<u8>|
        if location as nat / unit % 16 == 0 {
            Seq::<u8>::empty()
        } else {
            seq![(location as nat / unit % 16) as u8] + rest
        };
    assert(e =~= next(1, Seq::empty()));
    assert(d == next(0x10, e));
    assert(c == next(0x100, d));
    assert(b == next(0x1000, c));
    assert(a == next(0x1_0000, b));
    assert(ports_of(location) == next(0x10_0000, a));
}

/// The speed of a device by its code.
pub proof fn lemma_speed_codes(code: u8)
    ensures
        speed_of(code) == Speed::Low <==> code == 0,
        speed_of(code) == Speed::Full <==> code == 1,
        speed_of(code) == Speed::High <==> code == 2,
        speed_of(code) == Speed::Super <==> code == 3,
        speed_of(code) == Speed::SuperPlus <==> code == 4,
        speed_of(code) == Speed::SuperPlusX2 <==> code == 5,
{
}

/// A device descriptor is what the device answered, if that is one; without an
/// answer it is made of what the system knows.
pub proof fn lemma_descriptor_answers(p: Properties, b: Seq<u8>)
    ensures
        b.len() == 18 && b[0] >= 18 && b[1] == 1 ==> descriptor_of(p, Some(b)) == Some(device_of(b)),
        b.len() == 18 && b[1] != 1 ==> descriptor_of(p, Some(b)) is None,
        b.len() != 18 ==> descriptor_of(p, Some(b)) == Some(fallback_descriptor(p)),
        descriptor_of(p, None) == Some(fallback_descriptor(p)),
        ({
            let d = fallback_descriptor(p);
            &&& (d.vendor_id, d.product_id) == (p.vendor_id, p.product_id)
            &&& (d.class, d.sub_class, d.protocol) == (p.class, p.sub_class, p.protocol)
            &&& d.num_configurations == p.num_configurations
            &&& d.device_version.0 == p.release
        }),
{
}

/// The loop runs until the deadline, a millisecond at least, and an hour where
/// there is none.
pub proof fn lemma_run_times(deadline: u64, now: u64)
    ensures
        deadline >= now + 1_000_000 ==> now + run_for(Some(deadline), now) == deadline,
        deadline < now + 1_000_000 ==> run_for(Some(deadline), now) == 1_000_000,
        run_for(None, now) == 3600 * 1_000_000_000,
{
}

/// A device that another driver holds can be read all the same; any other
/// failure comes back.
pub proof fn lemma_opens(e: ErrorView)
    ensures
        opened_exclusively(Ok(())) == Ok::<bool, ErrorView>(true),
        e.kind == ErrorKind::Access ==> opened_exclusively(Err(e)) == Ok::<bool, ErrorView>(false),
        e.kind != ErrorKind::Access ==> opened_exclusively(Err(e)) == Err::<bool, ErrorView>(e),
{
}

/// A device that does not answer is described by the registry: USB 2, packets
/// of 64 bytes, and the three string indices in their order.
pub proof fn lemma_fallback(p: Properties)
    ensures
        ({
            let d = fallback_descriptor(p);
            &&& d.usb_version.0 == 0x0200
            &&& d.max_packet_size_0 == 64
            &&& (d.class, d.sub_class, d.protocol) == (p.class, p.sub_class, p.protocol)
            &&& (d.vendor_id, d.product_id, d.device_version.0) == (p.vendor_id, p.product_id, p.release)
            &&& d.num_configurations == p.num_configurations
            &&& p.strings matches Some(s) ==> d.manufacturer_string_index == s@[0] && d.product_string_index == s@[1]
                && d.serial_number_string_index == s@[2]
            &&& p.strings is None ==> d.manufacturer_string_index == 0 && d.product_string_index == 0
                && d.serial_number_string_index == 0
        }),
{
}

/// A service is plugged in, asked for its newer object and failing that for
/// the first one, and then for its number. What fails is released, and the next
/// service is fetched.
pub proof fn lemma_find_steps(number: u8, n: u8, newer: bool)
    requires
        n != number,
    ensures
        ({
            let at = |phase: FindPhase, e: FindEvent| find_next(FindInterface { number, phase }, e);
            let got = FindEvent::Got;
            let failed = FindEvent::Failed;
            &&& at(FindPhase::Fetching, got) == (FindInterface { number, phase: FindPhase::Plugging }, FindAction::Plug)
            &&& at(FindPhase::Fetching, failed).1 == FindAction::NotFound
            &&& at(FindPhase::Plugging, got) == (
                FindInterface { number, phase: FindPhase::Querying182 },
                FindAction::Query182,
            )
            &&& at(FindPhase::Plugging, failed) == (
                FindInterface { number, phase: FindPhase::Fetching },
                FindAction::Release { plugin: false, object: false },
            )
            &&& at(FindPhase::Querying182, got) == (
                FindInterface { number, phase: FindPhase::Numbering { has_182: true } },
                FindAction::AskNumber,
            )
            &&& at(FindPhase::Querying182, failed) == (
                FindInterface { number, phase: FindPhase::QueryingBase },
                FindAction::QueryBase,
            )
            &&& at(FindPhase::QueryingBase, got) == (
                FindInterface { number, phase: FindPhase::Numbering { has_182: false } },
                FindAction::AskNumber,
            )
            &&& at(FindPhase::QueryingBase, failed) == (
                FindInterface { number, phase: FindPhase::Fetching },
                FindAction::Release { plugin: true, object: false },
            )
            &&& at(FindPhase::Numbering { has_182: newer }, FindEvent::Number(number)).1 == (FindAction::Found {
                has_182: newer,
            })
            &&& at(FindPhase::Numbering { has_182: newer }, FindEvent::Number(n)) == (
                FindInterface { number, phase: FindPhase::Fetching },
                FindAction::Release { plugin: false, object: true },
            )
        }),
{
}

} // verus!
