//! The library context: the devices of a session and how to find one among
//! them.

use crate::descriptors::DeviceDescriptor;
use crate::device::Device;
use crate::error::{message, Error, ErrorKind, Result};
use crate::hotplug::HotplugBuilder;
use crate::sys::DeviceInfoView;
use crate::text;
use vstd::prelude::*;

verus! {

/// The devices as mathematical values.
pub open spec fn device_views(v: Seq<Device>) -> Seq<DeviceInfoView> {
    v.map_values(|d: Device| d@)
}

/// The devices that enumeration found.
#[derive(Debug)]
pub struct Context {
    /// In the order of enumeration.
    pub devices: Vec<Device>,
}

impl View for Context {
    type V = Seq<DeviceInfoView>;

    open spec fn view(&self) -> Seq<DeviceInfoView> {
        device_views(self.devices@)
    }
}

/// Whether a device has that vendor and product ID.
pub open spec fn has_ids(d: DeviceInfoView, vendor_id: u16, product_id: u16) -> bool {
    d.device_descriptor.vendor_id == vendor_id && d.device_descriptor.product_id == product_id
}

/// The first device from `from` on that satisfies `p`.
pub open spec fn first_from(v: Seq<DeviceInfoView>, from: int, p: spec_fn(DeviceInfoView) -> bool) -> Option<int>
    decreases v.len() - from,
{
    if from < 0 || from >= v.len() {
        None
    } else if p(v[from]) {
        Some(from)
    } else {
        first_from(v, from + 1, p)
    }
}

/// The first one is one, and none before it is; and there is none only if
/// none is.
pub proof fn lemma_first_from(v: Seq<DeviceInfoView>, from: int, p: spec_fn(DeviceInfoView) -> bool)
    requires
        0 <= from,
    ensures
        match first_from(v, from, p) {
            Some(i) => from <= i < v.len() && p(v[i]) && forall|k: int| from <= k < i ==> !p(#[trigger] v[k]),
            None => forall|k: int| from <= k < v.len() ==> !p(#[trigger] v[k]),
        },
    decreases v.len() - from,
{
    if from < v.len() && !p(v[from]) {
        lemma_first_from(v, from + 1, p);
    }
}

/// Whether a device may have the serial number that is looked for: it has
/// one, and its IDs are among `ids`, if there are any.
pub open spec fn is_candidate(d: DeviceInfoView, ids: Seq<(u16, u16)>) -> bool {
    &&& d.device_descriptor.serial_number_string_index != 0
    &&& ids.len() == 0 || ids.contains((d.device_descriptor.vendor_id, d.device_descriptor.product_id))
}

/// The first candidate from `from` on.
pub open spec fn next_candidate(v: Seq<DeviceInfoView>, ids: Seq<(u16, u16)>, from: int) -> Option<int> {
    first_from(v, from, |d: DeviceInfoView| is_candidate(d, ids))
}

/// What a search by serial number asks for next. Devices are given by their
/// index in the context.
#[derive(Debug, Clone, Copy, PartialEq, Eq, Structural)]
pub enum LookupAction {
    /// Ask the operating system for the serial number of that device.
    Ask(usize),
    /// Open that device to read its serial number.
    Open(usize),
    /// That device has it.
    Found {
        /// The device.
        index: usize,
        /// Whether it was opened to find out.
        opened: bool,
    },
    /// No device has it.
    NotFound,
}

/// The action that goes on to a candidate.
pub open spec fn go_on(candidate: Option<int>) -> LookupAction {
    match candidate {
        Some(i) => LookupAction::Ask(i as usize),
        None => LookupAction::NotFound,
    }
}

/// The action after the operating system was asked for a serial number.
pub open spec fn after_ask(
    v: Seq<DeviceInfoView>,
    ids: Seq<(u16, u16)>,
    serial: Seq<char>,
    at: int,
    known: Option<Seq<char>>,
) -> LookupAction {
    match known {
        Some(s) => if s == serial {
            LookupAction::Found { index: at as usize, opened: false }
        } else {
            go_on(next_candidate(v, ids, at + 1))
        },
        None => LookupAction::Open(at as usize),
    }
}

/// The action after a device was opened to read its serial number.
pub open spec fn after_open(
    v: Seq<DeviceInfoView>,
    ids: Seq<(u16, u16)>,
    serial: Seq<char>,
    at: int,
    read: Option<Seq<char>>,
) -> LookupAction {
    if read == Some(serial) {
        LookupAction::Found { index: at as usize, opened: true }
    } else {
        go_on(next_candidate(v, ids, at + 1))
    }
}

/// The text of an optional string.
pub open spec fn optional_text(s: Option<&str>) -> Option<Seq<char>> {
    match s {
        Some(t) => Some(t@),
        None => None,
    }
}

fn listed(ids: &[(u16, u16)], vendor_id: u16, product_id: u16) -> (r: bool)
    ensures
        r == ids@.contains((vendor_id, product_id)),
{
    let mut i: usize = 0;
    while i < ids.len()
        invariant
            i <= ids@.len(),
            forall|k: int| 0 <= k < i ==> ids@[k] != (vendor_id, product_id),
        decreases ids@.len() - i,
    {
        if ids[i].0 == vendor_id && ids[i].1 == product_id {
            assert(ids@[i as int] == (vendor_id, product_id));
            return true;
        }
        i += 1;
    }
    false
}

impl Context {
    /// A session with the devices that enumeration found.
    pub fn new(devices: Vec<Device>) -> (r: Self)
        ensures
            r@ == device_views(devices@),
    {
        Context { devices }
    }

    /// Lists the USB devices attached to the system.
    pub fn devices(&self) -> (r: &Vec<Device>)
        ensures
            device_views(r@) == self@,
    {
        &self.devices
    }

    /// Finds the first device with the given vendor and product IDs.
    pub fn find_device(&self, vendor_id: u16, product_id: u16) -> (r: Option<&Device>)
        ensures
            match first_from(self@, 0, |d: DeviceInfoView| has_ids(d, vendor_id, product_id)) {
                Some(i) => r is Some && *r->0 == self.devices@[i],
                None => r is None,
            },
    {
        let ghost p = |d: DeviceInfoView| has_ids(d, vendor_id, product_id);
        let mut i: usize = 0;
        while i < self.devices.len()
            invariant
                i <= self.devices@.len(),
                p == (|d: DeviceInfoView| has_ids(d, vendor_id, product_id)),
                first_from(self@, 0, p) == first_from(self@, i as int, p),
            decreases self.devices@.len() - i,
        {
            let desc: DeviceDescriptor = self.devices[i].device_descriptor();
            assert(self@[i as int] == self.devices@[i as int]@);
            if desc.vendor_id == vendor_id && desc.product_id == product_id {
                return Some(&self.devices[i]);
            }
            i += 1;
        }
        None
    }

    /// The device to open for the given vendor and product IDs: the first one
    /// that has them. Fails with [`ErrorKind::NotFound`] if there is none.
    pub fn open_device_with_vid_pid(&self, vendor_id: u16, product_id: u16) -> (r: Result<&Device>)
        ensures
            match first_from(self@, 0, |d: DeviceInfoView| has_ids(d, vendor_id, product_id)) {
                Some(i) => r is Ok && *r->Ok_0 == self.devices@[i],
                None => r is Err && r->Err_0@ == message(
                    ErrorKind::NotFound,
                    "no device with that vendor/product id"@,
                ),
            },
    {
        match self.find_device(vendor_id, product_id) {
            Some(d) => Ok(d),
            None => Err(Error::with_message(ErrorKind::NotFound, "no device with that vendor/product id")),
        }
    }

    fn candidate_from(&self, ids: &[(u16, u16)], from: usize) -> (r: LookupAction)
        ensures
            r == go_on(next_candidate(self@, ids@, from as int)),
    {
        let ghost p = |d: DeviceInfoView| is_candidate(d, ids@);
        let mut i: usize = from;
        while i < self.devices.len()
            invariant
                from <= i,
                p == (|d: DeviceInfoView| is_candidate(d, ids@)),
                first_from(self@, from as int, p) == first_from(self@, i as int, p),
            decreases self.devices@.len() - i,
        {
            let desc: DeviceDescriptor = self.devices[i].device_descriptor();
            assert(self@[i as int] == self.devices@[i as int]@);
            if desc.serial_number_string_index != 0 && (ids.len() == 0 || listed(
                ids,
                desc.vendor_id,
                desc.product_id,
            )) {
                return LookupAction::Ask(i);
            }
            i += 1;
        }
        LookupAction::NotFound
    }

    /// Starts a search for the device with a given serial number among those
    /// whose vendor/product pair is in `ids`. An empty `ids` matches every
    /// device.
    ///
    /// No device is opened unless the OS does not know the serial of a
    /// candidate that has one; such a candidate is opened to read it, and
    /// skipped if it cannot be. The comparison is exact.
    pub fn find_device_by_serial(&self, ids: &[(u16, u16)]) -> (r: LookupAction)
        ensures
            r == go_on(next_candidate(self@, ids@, 0)),
    {
        self.candidate_from(ids, 0)
    }

    /// Goes on with a search after the operating system said what it knows of
    /// the serial number of device `at`.
    pub fn serial_known(&self, ids: &[(u16, u16)], serial: &str, at: usize, known: Option<&str>) -> (r: LookupAction)
        requires
            at < self@.len(),
        ensures
            r == after_ask(self@, ids@, serial@, at as int, optional_text(known)),
    {
        match known {
            Some(s) => if text::same(s, serial) {
                LookupAction::Found { index: at, opened: false }
            } else {
                assert(at < self.devices.len());
                self.candidate_from(ids, at + 1)
            },
            None => LookupAction::Open(at),
        }
    }

    /// Goes on with a search after device `at` was opened to read its serial
    /// number: `None` if that failed.
    pub fn serial_read(&self, ids: &[(u16, u16)], serial: &str, at: usize, read: Option<&str>) -> (r: LookupAction)
        requires
            at < self@.len(),
        ensures
            r == after_open(self@, ids@, serial@, at as int, optional_text(read)),
    {
        let found = match read {
            Some(s) => text::same(s, serial),
            None => false,
        };
        if found {
            LookupAction::Found { index: at, opened: true }
        } else {
            assert(at < self.devices.len());
            self.candidate_from(ids, at + 1)
        }
    }

    /// How a search for a device to open ends: the device and whether the
    /// search already opened it. Fails with [`ErrorKind::NotFound`] if there
    /// is none.
    pub fn open_device_by_serial(&self, last: LookupAction) -> (r: Result<(usize, bool)>)
        requires
            last is Found || last is NotFound,
        ensures
            match last {
                LookupAction::Found { index, opened } => r == Ok::<(usize, bool), Error>((index, opened)),
                _ => r is Err && r->Err_0@ == message(ErrorKind::NotFound, "no device with that serial number"@),
            },
    {
        match last {
            LookupAction::Found { index, opened } => Ok((index, opened)),
            _ => Err(Error::with_message(ErrorKind::NotFound, "no device with that serial number")),
        }
    }

    /// Starts describing a hotplug watcher for this session.
    pub fn hotplug(&self) -> (r: HotplugBuilder)
        ensures
            r == crate::hotplug::everything(),
    {
        HotplugBuilder::new()
    }
}

// ----- what holds of a search -----------------------------------------------------

/// The serial number that a search gets to see of a device: what the
/// operating system knows or else what opening the device reads.
pub open spec fn seen_serial(
    known: spec_fn(int) -> Option<Seq<char>>,
    read: spec_fn(int) -> Option<Seq<char>>,
    i: int,
) -> Option<Seq<char>> {
    if known(i) is Some {
        known(i)
    } else {
        read(i)
    }
}

/// Where a search ends that has come to `action`, if the answers that it gets
/// are `known` and `read`.
pub open spec fn search(
    v: Seq<DeviceInfoView>,
    ids: Seq<(u16, u16)>,
    serial: Seq<char>,
    known: spec_fn(int) -> Option<Seq<char>>,
    read: spec_fn(int) -> Option<Seq<char>>,
    action: LookupAction,
    fuel: nat,
) -> LookupAction
    decreases fuel,
{
    if fuel == 0 {
        action
    } else {
        match action {
            LookupAction::Ask(i) => search(
                v,
                ids,
                serial,
                known,
                read,
                after_ask(v, ids, serial, i as int, known(i as int)),
                (fuel - 1) as nat,
            ),
            LookupAction::Open(i) => search(
                v,
                ids,
                serial,
                known,
                read,
                after_open(v, ids, serial, i as int, read(i as int)),
                (fuel - 1) as nat,
            ),
            _ => action,
        }
    }
}

/// Whether a device is one that a search looks for.
pub open spec fn is_wanted(
    v: Seq<DeviceInfoView>,
    ids: Seq<(u16, u16)>,
    serial: Seq<char>,
    known: spec_fn(int) -> Option<Seq<char>>,
    read: spec_fn(int) -> Option<Seq<char>>,
    i: int,
) -> bool {
    is_candidate(v[i], ids) && seen_serial(known, read, i) == Some(serial)
}

/// A search ends after at most two questions for each device, at the first
/// candidate with the serial number; it finds none only if no candidate has
/// it. The device was opened only if the operating system did not know.
pub proof fn lemma_search_finds_the_first(
    v: Seq<DeviceInfoView>,
    ids: Seq<(u16, u16)>,
    serial: Seq<char>,
    known: spec_fn(int) -> Option<Seq<char>>,
    read: spec_fn(int) -> Option<Seq<char>>,
)
    requires
        v.len() <= usize::MAX,
    ensures
        match search(v, ids, serial, known, read, go_on(next_candidate(v, ids, 0)), 2 * v.len()) {
            LookupAction::Found { index, opened } => {
                &&& index < v.len()
                &&& is_wanted(v, ids, serial, known, read, index as int)
                &&& forall|k: int| 0 <= k < index ==> !#[trigger] is_wanted(v, ids, serial, known, read, k)
                &&& opened == known(index as int) is None
            },
            LookupAction::NotFound => forall|k: int|
                0 <= k < v.len() ==> !#[trigger] is_wanted(v, ids, serial, known, read, k),
            _ => false,
        },
{
    lemma_search_from(v, ids, serial, known, read, 0, 2 * v.len());
}

proof fn lemma_search_from(
    v: Seq<DeviceInfoView>,
    ids: Seq<(u16, u16)>,
    serial: Seq<char>,
    known: spec_fn(int) -> Option<Seq<char>>,
    read: spec_fn(int) -> Option<Seq<char>>,
    from: int,
    fuel: nat,
)
    requires
        v.len() <= usize::MAX,
        0 <= from <= v.len(),
        fuel >= 2 * (v.len() - from),
    ensures
        match search(v, ids, serial, known, read, go_on(next_candidate(v, ids, from)), fuel) {
            LookupAction::Found { index, opened } => {
                &&& from <= index < v.len()
                &&& is_wanted(v, ids, serial, known, read, index as int)
                &&& forall|k: int| from <= k < index ==> !#[trigger] is_wanted(v, ids, serial, known, read, k)
                &&& opened == known(index as int) is None
            },
            LookupAction::NotFound => forall|k: int|
                from <= k < v.len() ==> !#[trigger] is_wanted(v, ids, serial, known, read, k),
            _ => false,
        },
    decreases v.len() - from,
{
    let p = |d: DeviceInfoView| is_candidate(d, ids);
    lemma_first_from(v, from, p);
    match next_candidate(v, ids, from) {
        Some(i) => {
            reveal_with_fuel(search, 3);
            if known(i) is Some {
                lemma_search_from(v, ids, serial, known, read, i + 1, (fuel - 1) as nat);
            } else {
                lemma_search_from(v, ids, serial, known, read, i + 1, (fuel - 2) as nat);
            }
            assert forall|k: int| from <= k < i implies !#[trigger] is_wanted(v, ids, serial, known, read, k) by {
                assert(!p(v[k]));
            }
        },
        None => {
            assert forall|k: int| from <= k < v.len() implies !#[trigger] is_wanted(v, ids, serial, known, read, k) by {
                assert(!p(v[k]));
            }
        },
    }
}

/// A device is found by its vendor and its product, both of them.
pub proof fn lemma_device_ids(d: DeviceInfoView, vendor_id: u16, product_id: u16, ids: Seq<(u16, u16)>)
    ensures
        has_ids(d, vendor_id, product_id) <==> d.device_descriptor.vendor_id == vendor_id
            && d.device_descriptor.product_id == product_id,
        is_candidate(d, Seq::empty()) <==> d.device_descriptor.serial_number_string_index != 0,
        is_candidate(d, ids.push((vendor_id, product_id))) && !is_candidate(d, ids) && ids.len() > 0
            ==> d.device_descriptor.vendor_id == vendor_id && d.device_descriptor.product_id == product_id,
        d.device_descriptor.serial_number_string_index == 0 ==> !is_candidate(d, ids),
{
    let x = (d.device_descriptor.vendor_id, d.device_descriptor.product_id);
    let w = ids.push((vendor_id, product_id));
    if w.contains(x) && !ids.contains(x) {
        let k = choose|k: int| 0 <= k < w.len() && w[k] == x;
        if k < ids.len() {
            assert(ids[k] == x);
        }
    }
}

/// A search ends at the device whose serial number is the one looked for. It
/// opens a device only if the operating system does not know the number, and
/// goes on to the next device that may have it.
pub proof fn lemma_lookup_steps(
    v: Seq<DeviceInfoView>,
    ids: Seq<(u16, u16)>,
    serial: Seq<char>,
    other: Seq<char>,
    at: usize,
    next: usize,
)
    requires
        at < next <= v.len() <= usize::MAX,
        other != serial,
        forall|k: int| at < k < next ==> !is_candidate(#[trigger] v[k], ids),
        next < v.len() ==> is_candidate(v[next as int], ids),
    ensures
        after_ask(v, ids, serial, at as int, Some(serial)) == (LookupAction::Found { index: at, opened: false }),
        after_ask(v, ids, serial, at as int, None) == LookupAction::Open(at),
        after_open(v, ids, serial, at as int, Some(serial)) == (LookupAction::Found { index: at, opened: true }),
        ({
            let on = if next < v.len() {
                LookupAction::Ask(next)
            } else {
                LookupAction::NotFound
            };
            &&& after_ask(v, ids, serial, at as int, Some(other)) == on
            &&& after_open(v, ids, serial, at as int, Some(other)) == on
            &&& after_open(v, ids, serial, at as int, None) == on
        }),
{
    let p = |d: DeviceInfoView| is_candidate(d, ids);
    lemma_first_from(v, at + 1, p);
    match next_candidate(v, ids, at + 1) {
        Some(i) => {
            if i < next {
                assert(!is_candidate(v[i], ids));
            }
            if next < i {
                assert(!p(v[next as int]));
            }
        },
        None => {
            if next < v.len() {
                assert(!p(v[next as int]));
            }
        },
    }
}

} // verus!
