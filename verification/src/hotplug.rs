//! Hotplug notifications: learning when devices are plugged in or unplugged.
//!
//! The first watcher registered on a context starts one background thread and
//! asks the operating system to report device changes. Every notification
//! makes that thread re-enumerate and compare against the previous list, so
//! events are derived from a real device list rather than trusted from the OS
//! message. Bursts are coalesced.
//!
//! A device is identified by its port chain, address and vendor/product pair.
//! Replacing a device with an identical one on the same port between two
//! scans can go unnoticed.

use crate::class::walk;
use crate::context::device_views;
use crate::descriptors::{
    config_body, config_of, declares_class, grouped, lemma_grouping_keeps_settings, lemma_setting_classes, tree_of,
    ConfigDescriptor, ConfigView,
};
use crate::device::{active_config_of, Device};
use crate::error::{message, Error, ErrorKind, ErrorView, Result};
use crate::sys::{same_device, same_place, DeviceInfoView};
use vstd::prelude::*;

verus! {

/// How long to wait after a notification before scanning, in milliseconds, so
/// that a burst (a hub with several devices behind it) turns into a single
/// rescan.
pub const COALESCE_MS: u64 = 50;

/// A change in the set of attached devices.
#[derive(Debug)]
pub enum HotplugEvent {
    /// The device was plugged in (or was already present, for a watcher built
    /// with [`enumerate_existing`](HotplugBuilder::enumerate_existing)).
    Arrived(Device),
    /// The device was unplugged. Its descriptors are the ones read while it
    /// was still present; it can no longer be opened.
    Left(Device),
}

/// What a [`HotplugEvent`] holds.
#[verifier::ext_equal]
pub enum EventView {
    Arrived(DeviceInfoView),
    Left(DeviceInfoView),
}

impl View for HotplugEvent {
    type V = EventView;

    open spec fn view(&self) -> EventView {
        match *self {
            HotplugEvent::Arrived(d) => EventView::Arrived(d@),
            HotplugEvent::Left(d) => EventView::Left(d@),
        }
    }
}

/// The device that an event is about.
pub open spec fn event_device(e: EventView) -> DeviceInfoView {
    match e {
        EventView::Arrived(d) => d,
        EventView::Left(d) => d,
    }
}

impl HotplugEvent {
    /// The device the event is about.
    pub fn device(&self) -> (r: &Device)
        ensures
            r@ == event_device(self@),
    {
        match self {
            HotplugEvent::Arrived(d) => d,
            HotplugEvent::Left(d) => d,
        }
    }

    /// Consumes the event and returns its device.
    pub fn into_device(self) -> (r: Device)
        ensures
            r@ == event_device(self@),
    {
        match self {
            HotplugEvent::Arrived(d) => d,
            HotplugEvent::Left(d) => d,
        }
    }

    /// `true` for [`HotplugEvent::Arrived`].
    pub fn is_arrival(&self) -> (r: bool)
        ensures
            r == (self@ is Arrived),
    {
        match self {
            HotplugEvent::Arrived(_) => true,
            HotplugEvent::Left(_) => false,
        }
    }

    /// `true` for [`HotplugEvent::Left`].
    pub fn is_departure(&self) -> (r: bool)
        ensures
            r == (self@ is Left),
    {
        match self {
            HotplugEvent::Arrived(_) => false,
            HotplugEvent::Left(_) => true,
        }
    }
}

// ----- filters -------------------------------------------------------------------

/// Which devices a watcher wants to hear about.
#[derive(Debug, Clone, Copy, PartialEq, Eq, Structural)]
pub struct Filter {
    /// Only devices with this `idVendor`.
    pub vendor_id: Option<u16>,
    /// Only devices with this `idProduct`.
    pub product_id: Option<u16>,
    /// Only devices of this class.
    pub class: Option<u8>,
}

/// The filter that every device passes.
pub open spec fn no_filter() -> Filter {
    Filter { vendor_id: None, product_id: None, class: None }
}

impl Default for Filter {
    fn default() -> (r: Self)
        ensures
            r == no_filter(),
    {
        Filter { vendor_id: None, product_id: None, class: None }
    }
}

/// Whether an alternate setting of a configuration has that class.
pub open spec fn has_class(c: ConfigView, class: u8) -> bool {
    exists|i: int, k: int|
        0 <= i < c.interfaces.len() && 0 <= k < c.interfaces[i].alt_settings.len() && (
        #[trigger] c.interfaces[i].alt_settings[k]).class == class
}

/// Whether a device passes a filter. A composite device declares its class
/// per interface, so those of the active configuration count too.
pub open spec fn passes(f: Filter, d: DeviceInfoView) -> bool {
    &&& f.vendor_id matches Some(v) ==> v == d.device_descriptor.vendor_id
    &&& f.product_id matches Some(p) ==> p == d.device_descriptor.product_id
    &&& f.class matches Some(c) ==> d.device_descriptor.class == c || (active_config_of(d) is Ok && has_class(
        active_config_of(d)->Ok_0,
        c,
    ))
}

fn config_has_class(cfg: &ConfigDescriptor, class: u8) -> (r: bool)
    ensures
        r == has_class(cfg@, class),
{
    let mut i: usize = 0;
    while i < cfg.interfaces.len()
        invariant
            i <= cfg.interfaces@.len(),
            forall|a: int, k: int|
                0 <= a < i && 0 <= k < cfg@.interfaces[a].alt_settings.len() ==> (
                #[trigger] cfg@.interfaces[a].alt_settings[k]).class != class,
        decreases cfg.interfaces@.len() - i,
    {
        let alts = &cfg.interfaces[i].alt_settings;
        assert(cfg@.interfaces[i as int] == cfg.interfaces@[i as int]@);
        let mut k: usize = 0;
        while k < alts.len()
            invariant
                k <= alts@.len(),
                i < cfg.interfaces@.len(),
                *alts == cfg.interfaces@[i as int].alt_settings,
                cfg@.interfaces[i as int] == cfg.interfaces@[i as int]@,
                forall|j: int|
                    0 <= j < k ==> (#[trigger] cfg@.interfaces[i as int].alt_settings[j]).class != class,
            decreases alts@.len() - k,
        {
            assert(cfg@.interfaces[i as int].alt_settings[k as int] == alts@[k as int]@);
            if alts[k].class == class {
                return true;
            }
            k += 1;
        }
        i += 1;
    }
    false
}

impl Filter {
    /// Whether a device passes the filter.
    pub fn matches(&self, dev: &Device) -> (r: bool)
        ensures
            r == passes(*self, dev@),
    {
        let desc = dev.device_descriptor();
        match self.vendor_id {
            Some(v) => {
                if v != desc.vendor_id {
                    return false;
                }
            },
            None => {},
        }
        match self.product_id {
            Some(p) => {
                if p != desc.product_id {
                    return false;
                }
            },
            None => {},
        }
        match self.class {
            Some(class) => {
                if desc.class == class {
                    return true;
                }
                match dev.active_config_descriptor() {
                    Ok(cfg) => config_has_class(&cfg, class),
                    Err(_) => false,
                }
            },
            None => true,
        }
    }
}

/// Describes a hotplug watcher before it is started. With no filter set,
/// every device change is reported.
#[derive(Debug, Clone, Copy, PartialEq, Eq, Structural)]
pub struct HotplugBuilder {
    /// Which devices it is about.
    pub filter: Filter,
    /// Whether devices that are already there are reported too.
    pub enumerate_existing: bool,
}

/// The watcher that hears of every change from now on.
pub open spec fn everything() -> HotplugBuilder {
    HotplugBuilder { filter: no_filter(), enumerate_existing: false }
}

impl HotplugBuilder {
    /// A watcher that hears of every change from now on.
    pub fn new() -> (r: Self)
        ensures
            r == everything(),
    {
        HotplugBuilder { filter: Filter::default(), enumerate_existing: false }
    }

    /// Only report devices with this `idVendor`.
    pub fn vendor_id(self, vendor_id: u16) -> (r: Self)
        ensures
            r == (HotplugBuilder { filter: Filter { vendor_id: Some(vendor_id), ..self.filter }, ..self }),
    {
        let mut b = self;
        b.filter.vendor_id = Some(vendor_id);
        b
    }

    /// Only report devices with this `idProduct`.
    pub fn product_id(self, product_id: u16) -> (r: Self)
        ensures
            r == (HotplugBuilder { filter: Filter { product_id: Some(product_id), ..self.filter }, ..self }),
    {
        let mut b = self;
        b.filter.product_id = Some(product_id);
        b
    }

    /// Only report devices whose `bDeviceClass`, or any interface class of
    /// whose active configuration, equals `class`.
    pub fn class(self, class: u8) -> (r: Self)
        ensures
            r == (HotplugBuilder { filter: Filter { class: Some(class), ..self.filter }, ..self }),
    {
        let mut b = self;
        b.filter.class = Some(class);
        b
    }

    /// Also deliver an [`Arrived`](HotplugEvent::Arrived) event for every
    /// matching device that is already attached when the watcher starts.
    ///
    /// This is the race-free way to say "work with every matching device, now
    /// and later": without it, devices plugged in between your own
    /// enumeration and the watcher starting would be missed.
    pub fn enumerate_existing(self, yes: bool) -> (r: Self)
        ensures
            r == (HotplugBuilder { enumerate_existing: yes, ..self }),
    {
        let mut b = self;
        b.enumerate_existing = yes;
        b
    }
}

// ----- the registry ----------------------------------------------------------------

/// A registered watcher.
#[derive(Debug, Clone, Copy, PartialEq, Eq, Structural)]
pub struct Listener {
    /// Its number.
    pub id: u64,
    /// What it wants to hear about.
    pub filter: Filter,
}

/// The watchers of a context and the devices of the last scan.
#[derive(Debug)]
pub struct Registry {
    /// The number of the last watcher.
    pub next_id: u64,
    /// The watchers, oldest first.
    pub listeners: Vec<Listener>,
    /// The devices of the last scan.
    pub known: Vec<Device>,
    /// Whether the operating system is asked for changes.
    pub started: bool,
}

/// What a [`Registry`] holds.
#[verifier::ext_equal]
pub struct RegistryView {
    pub next_id: u64,
    pub listeners: Seq<Listener>,
    pub known: Seq<DeviceInfoView>,
    pub started: bool,
}

impl View for Registry {
    type V = RegistryView;

    open spec fn view(&self) -> RegistryView {
        RegistryView {
            next_id: self.next_id,
            listeners: self.listeners@,
            known: device_views(self.known@),
            started: self.started,
        }
    }
}

/// A live hotplug registration.
#[derive(Debug, PartialEq, Eq)]
pub struct HotplugRegistration {
    /// The watcher's number.
    pub id: u64,
}

impl HotplugRegistration {
    /// Stops the callbacks.
    pub fn unregister(self, registry: &mut Registry)
        ensures
            final(registry)@ == (RegistryView {
                listeners: without_listener(old(registry)@.listeners, self.id),
                ..old(registry)@
            }),
    {
        registry.remove(self.id);
    }
}

/// An event and the watchers that hear of it.
#[derive(Debug)]
pub struct Delivery {
    /// The event.
    pub event: HotplugEvent,
    /// The watchers, in the order in which they are called.
    pub to: Vec<u64>,
}

/// What a [`Delivery`] holds.
#[verifier::ext_equal]
pub struct DeliveryView {
    pub event: EventView,
    pub to: Seq<u64>,
}

impl View for Delivery {
    type V = DeliveryView;

    open spec fn view(&self) -> DeliveryView {
        DeliveryView { event: self.event@, to: self.to@ }
    }
}

/// Deliveries as mathematical values.
pub open spec fn delivery_views(v: Seq<Delivery>) -> Seq<DeliveryView> {
    v.map_values(|d: Delivery| d@)
}

/// Whether a device is among others.
pub open spec fn is_among(d: DeviceInfoView, others: Seq<DeviceInfoView>) -> bool {
    exists|i: int| 0 <= i < others.len() && same_place(#[trigger] others[i], d)
}

/// The devices of `v` that are not among `others`, in order.
pub open spec fn missing_from(v: Seq<DeviceInfoView>, others: Seq<DeviceInfoView>) -> Seq<DeviceInfoView>
    decreases v.len(),
{
    if v.len() == 0 {
        Seq::empty()
    } else if is_among(v.last(), others) {
        missing_from(v.drop_last(), others)
    } else {
        missing_from(v.drop_last(), others).push(v.last())
    }
}

/// The watchers that want to hear of a device, in order.
pub open spec fn hearers(listeners: Seq<Listener>, d: DeviceInfoView) -> Seq<u64>
    decreases listeners.len(),
{
    if listeners.len() == 0 {
        Seq::empty()
    } else if passes(listeners.last().filter, d) {
        hearers(listeners.drop_last(), d).push(listeners.last().id)
    } else {
        hearers(listeners.drop_last(), d)
    }
}

/// The events of devices that left.
pub open spec fn departures(left: Seq<DeviceInfoView>) -> Seq<EventView> {
    left.map_values(|d: DeviceInfoView| EventView::Left(d))
}

/// The events of devices that arrived.
pub open spec fn arrivals(arrived: Seq<DeviceInfoView>) -> Seq<EventView> {
    arrived.map_values(|d: DeviceInfoView| EventView::Arrived(d))
}

/// The events between two scans. Departures come first, so that a device
/// replaced on the same port reads as "left, then arrived".
pub open spec fn changes(before: Seq<DeviceInfoView>, now: Seq<DeviceInfoView>) -> Seq<EventView> {
    departures(missing_from(before, now)) + arrivals(missing_from(now, before))
}

/// Who hears of each event.
pub open spec fn addressed(events: Seq<EventView>, listeners: Seq<Listener>) -> Seq<DeliveryView> {
    events.map_values(|e: EventView| DeliveryView { event: e, to: hearers(listeners, event_device(e)) })
}

/// What is delivered after a scan.
pub open spec fn scan_deliveries(s: RegistryView, now: Seq<DeviceInfoView>) -> Seq<DeliveryView> {
    if s.listeners.len() == 0 {
        Seq::empty()
    } else {
        addressed(changes(s.known, now), s.listeners)
    }
}

/// The devices of `v` that pass a filter, in order.
pub open spec fn passing(v: Seq<DeviceInfoView>, f: Filter) -> Seq<DeviceInfoView>
    decreases v.len(),
{
    if v.len() == 0 {
        Seq::empty()
    } else if passes(f, v.last()) {
        passing(v.drop_last(), f).push(v.last())
    } else {
        passing(v.drop_last(), f)
    }
}

/// The watchers without one.
pub open spec fn without_listener(v: Seq<Listener>, id: u64) -> Seq<Listener>
    decreases v.len(),
{
    if v.len() == 0 {
        Seq::empty()
    } else if v.last().id == id {
        without_listener(v.drop_last(), id)
    } else {
        without_listener(v.drop_last(), id).push(v.last())
    }
}

/// Whether no two watchers have the same number and none has one that is yet
/// to be given.
pub open spec fn well_numbered(s: RegistryView) -> bool {
    &&& forall|i: int| 0 <= i < s.listeners.len() ==> (#[trigger] s.listeners[i]).id <= s.next_id
    &&& forall|i: int, j: int|
        0 <= i < j < s.listeners.len() ==> (#[trigger] s.listeners[i]).id < (#[trigger] s.listeners[j]).id
}

/// A registry with one more watcher.
pub open spec fn with_listener(s: RegistryView, f: Filter) -> RegistryView {
    RegistryView {
        next_id: (s.next_id + 1) as u64,
        listeners: s.listeners.push(Listener { id: (s.next_id + 1) as u64, filter: f }),
        ..s
    }
}

fn among(d: &Device, others: &Vec<Device>) -> (r: bool)
    ensures
        r == is_among(d@, device_views(others@)),
{
    let ghost v = device_views(others@);
    let mut i: usize = 0;
    while i < others.len()
        invariant
            i <= others@.len(),
            v == device_views(others@),
            forall|k: int| 0 <= k < i ==> !same_place(#[trigger] v[k], d@),
        decreases others@.len() - i,
    {
        assert(v[i as int] == others@[i as int]@);
        if same_device(&others[i].info, &d.info) {
            return true;
        }
        i += 1;
    }
    false
}

fn hearing(listeners: &Vec<Listener>, d: &Device) -> (r: Vec<u64>)
    ensures
        r@ == hearers(listeners@, d@),
{
    let mut out: Vec<u64> = Vec::new();
    let mut i: usize = 0;
    assert(listeners@.take(0) =~= Seq::<Listener>::empty());
    while i < listeners.len()
        invariant
            i <= listeners@.len(),
            out@ == hearers(listeners@.take(i as int), d@),
        decreases listeners@.len() - i,
    {
        assert(listeners@.take(i + 1).drop_last() =~= listeners@.take(i as int));
        if listeners[i].filter.matches(d) {
            out.push(listeners[i].id);
        }
        i += 1;
    }
    assert(listeners@.take(i as int) =~= listeners@);
    out
}

/// Adds the deliveries for the devices of `v` that are not among `others`.
fn push_changes(
    out: &mut Vec<Delivery>,
    v: &Vec<Device>,
    others: &Vec<Device>,
    arrival: bool,
    listeners: &Vec<Listener>,
)
    ensures
        delivery_views(final(out)@) == delivery_views(old(out)@) + addressed(
            if arrival {
                arrivals(missing_from(device_views(v@), device_views(others@)))
            } else {
                departures(missing_from(device_views(v@), device_views(others@)))
            },
            listeners@,
        ),
{
    let ghost before = delivery_views(out@);
    let ghost all = device_views(v@);
    let ghost rest = device_views(others@);
    let ghost events = |m: Seq<DeviceInfoView>|
        if arrival {
            arrivals(m)
        } else {
            departures(m)
        };
    let mut i: usize = 0;
    proof {
        assert(all.take(0) =~= Seq::<DeviceInfoView>::empty());
        assert(before =~= before + addressed(events(missing_from(all.take(0), rest)), listeners@));
    }
    while i < v.len()
        invariant
            i <= v@.len(),
            all == device_views(v@),
            rest == device_views(others@),
            events == (|m: Seq<DeviceInfoView>|
                if arrival {
                    arrivals(m)
                } else {
                    departures(m)
                }),
            delivery_views(out@) == before + addressed(events(missing_from(all.take(i as int), rest)), listeners@),
        decreases v@.len() - i,
    {
        let ghost so_far = delivery_views(out@);
        let ghost m = missing_from(all.take(i as int), rest);
        proof {
            assert(all.take(i + 1).drop_last() =~= all.take(i as int));
            assert(all.take(i + 1).last() == v@[i as int]@);
        }
        if !among(&v[i], others) {
            let device = v[i].duplicate();
            let to = hearing(listeners, &device);
            let event = if arrival {
                HotplugEvent::Arrived(device)
            } else {
                HotplugEvent::Left(device)
            };
            let ghost e = event@;
            let one = Delivery { event, to };
            let ghost dv = one@;
            out.push(one);
            proof {
                assert(delivery_views(out@) =~= so_far.push(dv));
                assert(events(m.push(v@[i as int]@)) =~= events(m).push(e));
                assert(addressed(events(m).push(e), listeners@) =~= addressed(events(m), listeners@).push(dv));
                assert(before + addressed(events(m), listeners@).push(dv) =~= (before + addressed(
                    events(m),
                    listeners@,
                )).push(dv));
            }
        }
        i += 1;
    }
    assert(all.take(i as int) =~= all);
}

impl Registry {
    /// A registry without watchers.
    pub fn new() -> (r: Self)
        ensures
            r@ == (RegistryView {
                next_id: 0,
                listeners: Seq::empty(),
                known: Seq::empty(),
                started: false,
            }),
            well_numbered(r@),
    {
        let r = Registry { next_id: 0, listeners: Vec::new(), known: Vec::new(), started: false };
        assert(r@.known =~= Seq::empty());
        r
    }

    /// Adds a watcher to a registry that is started. Returns its registration and
    /// the events that it is to hear before anything else: those of the
    /// devices that are already there, if it asked for them.
    pub fn add(&mut self, filter: Filter, enumerate_existing: bool) -> (r: (HotplugRegistration, Vec<HotplugEvent>))
        requires
            old(self)@.next_id < u64::MAX,
        ensures
            final(self)@ == with_listener(old(self)@, filter),
            well_numbered(old(self)@) ==> well_numbered(final(self)@),
            r.0.id == final(self)@.next_id,
            r.1@.map_values(|e: HotplugEvent| e@) == (if enumerate_existing {
                arrivals(passing(old(self)@.known, filter))
            } else {
                Seq::empty()
            }),
    {
        let ghost before = self@;
        self.next_id = self.next_id + 1;
        let id: u64 = self.next_id;
        self.listeners.push(Listener { id, filter });
        assert(self@ =~= with_listener(before, filter));
        let mut events: Vec<HotplugEvent> = Vec::new();
        assert(events@.map_values(|e: HotplugEvent| e@) =~= Seq::empty());
        if enumerate_existing {
            events = self.existing(filter);
        }
        (HotplugRegistration { id }, events)
    }

    fn existing(&self, filter: Filter) -> (r: Vec<HotplugEvent>)
        ensures
            r@.map_values(|e: HotplugEvent| e@) == arrivals(passing(self@.known, filter)),
    {
        let ghost all = self@.known;
        let mut out: Vec<HotplugEvent> = Vec::new();
        let mut i: usize = 0;
        proof {
            assert(all.take(0) =~= Seq::<DeviceInfoView>::empty());
            assert(out@.map_values(|e: HotplugEvent| e@) =~= arrivals(passing(all.take(0), filter)));
        }
        while i < self.known.len()
            invariant
                i <= self.known@.len(),
                all == self@.known,
                out@.map_values(|e: HotplugEvent| e@) == arrivals(passing(all.take(i as int), filter)),
            decreases self.known@.len() - i,
        {
            let ghost so_far = out@.map_values(|e: HotplugEvent| e@);
            let ghost m = passing(all.take(i as int), filter);
            proof {
                assert(all.take(i + 1).drop_last() =~= all.take(i as int));
                assert(all.take(i + 1).last() == self.known@[i as int]@);
            }
            if filter.matches(&self.known[i]) {
                let event = HotplugEvent::Arrived(self.known[i].duplicate());
                let ghost e = event@;
                out.push(event);
                assert(out@.map_values(|e: HotplugEvent| e@) =~= so_far.push(e));
                assert(arrivals(m.push(self.known@[i as int]@)) =~= arrivals(m).push(e));
            }
            i += 1;
        }
        assert(all.take(i as int) =~= all);
        out
    }

    /// Removes a watcher.
    pub fn remove(&mut self, id: u64)
        ensures
            final(self)@ == (RegistryView {
                listeners: without_listener(old(self)@.listeners, id),
                ..old(self)@
            }),
    {
        let mut kept: Vec<Listener> = Vec::new();
        let mut i: usize = 0;
        let ghost all = self.listeners@;
        assert(all.take(0) =~= Seq::<Listener>::empty());
        while i < self.listeners.len()
            invariant
                i <= all.len(),
                all == self.listeners@,
                kept@ == without_listener(all.take(i as int), id),
            decreases all.len() - i,
        {
            assert(all.take(i + 1).drop_last() =~= all.take(i as int));
            if self.listeners[i].id != id {
                kept.push(self.listeners[i]);
            }
            i += 1;
        }
        assert(all.take(i as int) =~= all);
        self.listeners = kept;
    }

    /// Takes in a new scan and returns what is to be delivered, in order. A
    /// transient enumeration failure must not be reported as every device
    /// having been unplugged: it changes nothing.
    pub fn rescan(&mut self, current: Result<Vec<Device>>) -> (r: Vec<Delivery>)
        ensures
            match current {
                Ok(now) => {
                    &&& delivery_views(r@) == scan_deliveries(old(self)@, device_views(now@))
                    &&& final(self)@ == (RegistryView { known: device_views(now@), ..old(self)@ })
                },
                Err(_) => r@.len() == 0 && final(self)@ == old(self)@,
            },
    {
        let mut out: Vec<Delivery> = Vec::new();
        match current {
            Ok(now) => {
                assert(delivery_views(out@) =~= Seq::empty());
                if self.listeners.len() > 0 {
                    push_changes(&mut out, &self.known, &now, false, &self.listeners);
                    push_changes(&mut out, &now, &self.known, true, &self.listeners);
                    proof {
                        let a = departures(missing_from(self@.known, device_views(now@)));
                        let b = arrivals(missing_from(device_views(now@), self@.known));
                        assert(addressed(a + b, self@.listeners) =~= addressed(a, self@.listeners) + addressed(
                            b,
                            self@.listeners,
                        ));
                        assert(delivery_views(out@) =~= addressed(a + b, self@.listeners));
                    }
                }
                self.known = now;
            },
            Err(_) => {},
        }
        out
    }
}

// ----- starting ----------------------------------------------------------------------

/// What has become of the last step of starting a registry.
#[derive(Debug)]
pub enum StartEvent {
    /// A watcher is to be added.
    Begin,
    /// The operating system was asked for changes.
    Watched(Result<()>),
    /// The devices were enumerated.
    Enumerated(Result<Vec<Device>>),
    /// The thread was spawned.
    Spawned(Result<()>),
}

/// The next step of starting a registry.
#[derive(Debug)]
pub enum StartAction {
    /// Ask the operating system for changes.
    Watch,
    /// Enumerate the devices.
    Enumerate,
    /// Spawn the thread that scans.
    Spawn,
    /// The registry is started: add the watcher.
    Ready,
    /// It cannot be started.
    Failed(Error),
}

impl Registry {
    /// Starts the registry with its first watcher. The operating system is
    /// asked first: if this platform cannot do hotplug, that fails without
    /// leaving a half-started registry behind.
    pub fn start(&mut self, event: StartEvent) -> (r: StartAction)
        ensures
            match event {
                StartEvent::Begin => {
                    &&& final(self)@ == old(self)@
                    &&& old(self)@.started ==> r is Ready
                    &&& !old(self)@.started ==> r is Watch
                },
                StartEvent::Watched(w) => {
                    &&& final(self)@ == old(self)@
                    &&& w is Ok ==> r is Enumerate
                    &&& w matches Err(e) ==> r is Failed && r->Failed_0@ == e@
                },
                StartEvent::Enumerated(devices) => {
                    &&& r is Spawn
                    &&& final(self)@ == (RegistryView {
                        known: match devices {
                            Ok(v) => device_views(v@),
                            Err(_) => Seq::empty(),
                        },
                        ..old(self)@
                    })
                },
                StartEvent::Spawned(s) => {
                    &&& s is Ok ==> r is Ready && final(self)@ == (RegistryView { started: true, ..old(self)@ })
                    &&& s matches Err(e) ==> {
                        &&& r is Failed
                        &&& r->Failed_0@ == (ErrorView { message: Some("spawn hotplug thread"@), ..e@ })
                        &&& final(self)@ == old(self)@
                    }
                },
            },
    {
        match event {
            StartEvent::Begin => if self.started {
                StartAction::Ready
            } else {
                StartAction::Watch
            },
            StartEvent::Watched(Ok(())) => StartAction::Enumerate,
            StartEvent::Watched(Err(e)) => StartAction::Failed(e),
            StartEvent::Enumerated(Ok(v)) => {
                self.known = v;
                StartAction::Spawn
            },
            StartEvent::Enumerated(Err(_)) => {
                self.known = Vec::new();
                assert(self@.known =~= Seq::empty());
                StartAction::Spawn
            },
            StartEvent::Spawned(Ok(())) => {
                self.started = true;
                StartAction::Ready
            },
            StartEvent::Spawned(Err(e)) => StartAction::Failed(e.context("spawn hotplug thread")),
        }
    }
}

// ----- the thread that scans ---------------------------------------------------------

/// Signals the hotplug thread. Coalescing is free because `pending` is just a
/// flag.
#[derive(Debug, Clone, Copy, PartialEq, Eq, Structural)]
pub struct Signal {
    /// Something may have changed.
    pub pending: bool,
    /// The thread is to stop.
    pub stop: bool,
}

impl Default for Signal {
    fn default() -> (r: Self)
        ensures
            r == (Signal { pending: false, stop: false }),
    {
        Signal { pending: false, stop: false }
    }
}

/// Whether a wait on the signal is over, and if so whether to go on.
pub open spec fn waited(s: Signal) -> Option<bool> {
    if s.pending || s.stop {
        Some(!s.stop)
    } else {
        None
    }
}

impl Signal {
    /// Notes that something may have changed.
    pub fn notify(&mut self)
        ensures
            *final(self) == (Signal { pending: true, ..*old(self) }),
    {
        self.pending = true;
    }

    /// Asks the thread to stop.
    pub fn stop(&mut self)
        ensures
            *final(self) == (Signal { stop: true, ..*old(self) }),
    {
        self.stop = true;
    }

    /// Whether there is something to do: `None` to go on waiting,
    /// `Some(false)` to stop.
    pub fn wait(&self) -> (r: Option<bool>)
        ensures
            r == waited(*self),
    {
        if self.pending || self.stop {
            Some(!self.stop)
        } else {
            None
        }
    }

    /// Consumes the pending flag; returns `false` if stopping.
    pub fn take_pending(&mut self) -> (r: bool)
        ensures
            *final(self) == (Signal { pending: false, ..*old(self) }),
            r == !old(self).stop,
    {
        self.pending = false;
        !self.stop
    }

    /// Whether the thread is to stop.
    pub fn stopping(&self) -> (r: bool)
        ensures
            r == self.stop,
    {
        self.stop
    }
}

/// What the hotplug thread did last.
#[derive(Debug, Clone, Copy, PartialEq, Eq, Structural)]
pub enum DispatchEvent {
    /// It started.
    Started,
    /// Its wait is over, with that answer of [`Signal::wait`].
    Woken(bool),
    /// It slept and took the pending flag, with that answer of
    /// [`Signal::take_pending`].
    Settled {
        /// The answer.
        go: bool,
        /// Whether the context is still there.
        alive: bool,
    },
    /// It scanned.
    Scanned {
        /// Whether it is to stop.
        stopping: bool,
    },
}

/// What the hotplug thread does next.
#[derive(Debug, Clone, Copy, PartialEq, Eq, Structural)]
pub enum DispatchAction {
    /// Wait on the signal.
    Wait,
    /// Sleep that many milliseconds, then take the pending flag.
    Settle(u64),
    /// Scan.
    Rescan,
    /// End.
    End,
}

/// What follows an event of the thread that watches.
pub open spec fn dispatched(event: DispatchEvent) -> DispatchAction {
    match event {
        DispatchEvent::Started => DispatchAction::Wait,
        DispatchEvent::Woken(go) => if go {
            DispatchAction::Settle(COALESCE_MS)
        } else {
            DispatchAction::End
        },
        DispatchEvent::Settled { go, alive } => if go && alive {
            DispatchAction::Rescan
        } else {
            DispatchAction::End
        },
        DispatchEvent::Scanned { stopping } => if stopping {
            DispatchAction::End
        } else {
            DispatchAction::Wait
        },
    }
}

/// What the hotplug thread does next. Before it looks it lets a burst settle,
/// which also gives the system a moment to apply permissions to a device node
/// that just appeared.
pub fn dispatch(event: DispatchEvent) -> (r: DispatchAction)
    ensures
        r == dispatched(event),
{
    match event {
        DispatchEvent::Started => DispatchAction::Wait,
        DispatchEvent::Woken(go) => if go {
            DispatchAction::Settle(COALESCE_MS)
        } else {
            DispatchAction::End
        },
        DispatchEvent::Settled { go, alive } => if go && alive {
            DispatchAction::Rescan
        } else {
            DispatchAction::End
        },
        DispatchEvent::Scanned { stopping } => if stopping {
            DispatchAction::End
        } else {
            DispatchAction::Wait
        },
    }
}

// ----- watchers with a queue ----------------------------------------------------------

/// What a watcher's queue gave.
#[derive(Debug)]
pub enum Received {
    /// The next event.
    Event(HotplugEvent),
    /// Nothing yet.
    Nothing,
    /// Nothing, ever again.
    Disconnected,
}

/// The error of a queue that gives nothing ever again.
pub open spec fn disconnected() -> ErrorView {
    message(ErrorKind::Other, "hotplug watcher disconnected"@)
}

/// What a blocking wait for the next event comes to: `None` to go on waiting.
/// Only fails if the session is shutting down.
pub fn recv(got: Received) -> (r: Option<Result<HotplugEvent>>)
    ensures
        match got {
            Received::Event(e) => r == Some(Ok::<HotplugEvent, Error>(e)),
            Received::Nothing => r is None,
            Received::Disconnected => r is Some && r->0 is Err && (r->0)->Err_0@ == disconnected(),
        },
{
    match got {
        Received::Event(e) => Some(Ok(e)),
        Received::Nothing => None,
        Received::Disconnected => Some(
            Err(Error::with_message(ErrorKind::Other, "hotplug watcher disconnected")),
        ),
    }
}

/// The next event, or `None` if there is none yet (or none came in time).
pub fn try_recv(got: Received) -> (r: Result<Option<HotplugEvent>>)
    ensures
        match got {
            Received::Event(e) => r == Ok::<Option<HotplugEvent>, Error>(Some(e)),
            Received::Nothing => r == Ok::<Option<HotplugEvent>, Error>(None),
            Received::Disconnected => r is Err && r->Err_0@ == disconnected(),
        },
{
    match got {
        Received::Event(e) => Ok(Some(e)),
        Received::Nothing => Ok(None),
        Received::Disconnected => Err(Error::with_message(ErrorKind::Other, "hotplug watcher disconnected")),
    }
}

// ----- what holds of hotplug -----------------------------------------------------------

/// What is missing is exactly what is not among the others.
pub proof fn lemma_missing(v: Seq<DeviceInfoView>, others: Seq<DeviceInfoView>, d: DeviceInfoView)
    ensures
        missing_from(v, others).contains(d) <==> v.contains(d) && !is_among(d, others),
    decreases v.len(),
{
    if v.len() > 0 {
        let rest = v.drop_last();
        lemma_missing(rest, others, d);
        let m = missing_from(rest, others);
        assert(v.contains(d) <==> rest.contains(d) || v.last() == d) by {
            if v.contains(d) && v.last() != d {
                let i = choose|i: int| 0 <= i < v.len() && v[i] == d;
                assert(rest[i] == d);
            }
            if rest.contains(d) {
                let i = choose|i: int| 0 <= i < rest.len() && rest[i] == d;
                assert(v[i] == d);
            }
            assert(v[v.len() - 1] == v.last());
        }
        if !is_among(v.last(), others) {
            let p = m.push(v.last());
            assert(p.contains(d) <==> m.contains(d) || v.last() == d) by {
                if p.contains(d) && v.last() != d {
                    let i = choose|i: int| 0 <= i < p.len() && p[i] == d;
                    assert(m[i] == d);
                }
                if m.contains(d) {
                    let i = choose|i: int| 0 <= i < m.len() && m[i] == d;
                    assert(p[i] == d);
                }
                assert(p[p.len() - 1] == v.last());
            }
        }
    }
}

/// A device arrives if and only if it is there now and was not before; it
/// leaves if and only if it was there before and is not now.
pub proof fn lemma_changes_are_exact(before: Seq<DeviceInfoView>, now: Seq<DeviceInfoView>, d: DeviceInfoView)
    ensures
        changes(before, now).contains(EventView::Arrived(d)) <==> now.contains(d) && !is_among(d, before),
        changes(before, now).contains(EventView::Left(d)) <==> before.contains(d) && !is_among(d, now),
{
    lemma_missing(before, now, d);
    lemma_missing(now, before, d);
    let left = missing_from(before, now);
    let arrived = missing_from(now, before);
    let all = changes(before, now);
    if all.contains(EventView::Arrived(d)) {
        let i = choose|i: int| 0 <= i < all.len() && all[i] == EventView::Arrived(d);
        assert(i >= left.len());
        assert(arrived[i - left.len()] == d);
    }
    if arrived.contains(d) {
        let i = choose|i: int| 0 <= i < arrived.len() && arrived[i] == d;
        assert(all[left.len() + i] == EventView::Arrived(d));
    }
    if all.contains(EventView::Left(d)) {
        let i = choose|i: int| 0 <= i < all.len() && all[i] == EventView::Left(d);
        assert(i < left.len());
        assert(left[i] == d);
    }
    if left.contains(d) {
        let i = choose|i: int| 0 <= i < left.len() && left[i] == d;
        assert(all[i] == EventView::Left(d));
    }
}

/// No departure comes after an arrival of the same scan.
pub proof fn lemma_departures_come_first(before: Seq<DeviceInfoView>, now: Seq<DeviceInfoView>, i: int, j: int)
    requires
        0 <= i < j < changes(before, now).len(),
        changes(before, now)[i] is Arrived,
    ensures
        changes(before, now)[j] is Arrived,
{
}

/// A device that was unplugged and another that took its place on the port
/// read as a departure and an arrival.
pub proof fn lemma_replaced_device_is_noticed(before: Seq<DeviceInfoView>, now: Seq<DeviceInfoView>, a: int, b: int)
    requires
        0 <= a < before.len(),
        0 <= b < now.len(),
        !is_among(before[a], now),
        !is_among(now[b], before),
    ensures
        changes(before, now).contains(EventView::Left(before[a])),
        changes(before, now).contains(EventView::Arrived(now[b])),
{
    lemma_changes_are_exact(before, now, before[a]);
    lemma_changes_are_exact(before, now, now[b]);
}

/// Scanning twice without a change in between reports nothing.
pub proof fn lemma_unchanged_is_quiet(v: Seq<DeviceInfoView>)
    ensures
        changes(v, v).len() == 0,
{
    lemma_all_among(v, v);
}

proof fn lemma_all_among(v: Seq<DeviceInfoView>, others: Seq<DeviceInfoView>)
    requires
        forall|i: int| 0 <= i < v.len() ==> is_among(#[trigger] v[i], others) || others.contains(v[i]),
    ensures
        missing_from(v, others).len() == 0,
    decreases v.len(),
{
    if v.len() > 0 {
        assert forall|i: int| 0 <= i < v.drop_last().len() implies is_among(
            #[trigger] v.drop_last()[i],
            others,
        ) || others.contains(v.drop_last()[i]) by {
            assert(v.drop_last()[i] == v[i]);
        }
        lemma_all_among(v.drop_last(), others);
        let d = v[v.len() - 1];
        if others.contains(d) {
            let k = choose|k: int| 0 <= k < others.len() && others[k] == d;
            assert(same_place(others[k], d));
        }
        assert(is_among(v.last(), others));
    }
}

/// A watcher hears of an event if and only if its filter passes the device.
pub proof fn lemma_hearers(listeners: Seq<Listener>, d: DeviceInfoView, id: u64)
    ensures
        hearers(listeners, d).contains(id) <==> exists|i: int|
            0 <= i < listeners.len() && (#[trigger] listeners[i]).id == id && passes(listeners[i].filter, d),
    decreases listeners.len(),
{
    if listeners.len() > 0 {
        let rest = listeners.drop_last();
        let last = listeners.last();
        lemma_hearers(rest, d, id);
        let h = hearers(rest, d);
        assert(listeners[listeners.len() - 1] == last);
        if h.contains(id) {
            let i = choose|i: int|
                0 <= i < rest.len() && (#[trigger] rest[i]).id == id && passes(rest[i].filter, d);
            assert(listeners[i] == rest[i]);
            let k = choose|k: int| 0 <= k < h.len() && h[k] == id;
            assert(h.push(last.id)[k] == id);
        }
        assert(h.push(last.id)[h.len() as int] == last.id);
        if exists|i: int|
            0 <= i < listeners.len() && (#[trigger] listeners[i]).id == id && passes(listeners[i].filter, d) {
            let i = choose|i: int|
                0 <= i < listeners.len() && (#[trigger] listeners[i]).id == id && passes(listeners[i].filter, d);
            if i < rest.len() {
                assert(rest[i] == listeners[i]);
            }
        }
        if h.push(last.id).contains(id) && last.id != id {
            let k = choose|k: int| 0 <= k < h.push(last.id).len() && h.push(last.id)[k] == id;
            assert(h[k] == id);
        }
    }
}

/// A watcher that was removed hears nothing any more.
pub proof fn lemma_removed_hears_nothing(listeners: Seq<Listener>, id: u64, d: DeviceInfoView)
    ensures
        !hearers(without_listener(listeners, id), d).contains(id),
{
    lemma_without(listeners, id);
    lemma_hearers(without_listener(listeners, id), d, id);
}

proof fn lemma_without(listeners: Seq<Listener>, id: u64)
    ensures
        forall|i: int|
            0 <= i < without_listener(listeners, id).len() ==> (#[trigger] without_listener(listeners, id)[i]).id != id,
    decreases listeners.len(),
{
    if listeners.len() > 0 {
        lemma_without(listeners.drop_last(), id);
    }
}

/// Removing a watcher takes nothing from another.
pub proof fn lemma_others_still_hear(listeners: Seq<Listener>, id: u64, other: u64, d: DeviceInfoView)
    requires
        other != id,
    ensures
        hearers(without_listener(listeners, id), d).contains(other) <==> hearers(listeners, d).contains(other),
    decreases listeners.len(),
{
    if listeners.len() > 0 {
        let rest = listeners.drop_last();
        let last = listeners.last();
        lemma_others_still_hear(rest, id, other, d);
        let h = hearers(rest, d);
        let w = without_listener(rest, id);
        lemma_push_contains(h, last.id, other);
        lemma_push_contains(hearers(w, d), last.id, other);
        assert(w.push(last).drop_last() =~= w);
    }
}

proof fn lemma_push_contains(v: Seq<u64>, x: u64, y: u64)
    ensures
        v.push(x).contains(y) <==> v.contains(y) || x == y,
{
    assert(v.push(x)[v.len() as int] == x);
    if v.contains(y) {
        let k = choose|k: int| 0 <= k < v.len() && v[k] == y;
        assert(v.push(x)[k] == y);
    }
    if v.push(x).contains(y) && x != y {
        let k = choose|k: int| 0 <= k < v.push(x).len() && v.push(x)[k] == y;
        assert(v[k] == y);
    }
}

/// A new watcher that asked for existing devices hears of every device that
/// passes its filter, either in its first batch or when a later scan finds
/// it: none falls between.
pub proof fn lemma_no_device_is_missed(s: RegistryView, f: Filter, now: Seq<DeviceInfoView>, d: DeviceInfoView)
    requires
        now.contains(d),
        passes(f, d),
        s.next_id < u64::MAX,
    ensures
        is_among(d, s.known) || changes(with_listener(s, f).known, now).contains(EventView::Arrived(d)),
        hearers(with_listener(s, f).listeners, d).contains((s.next_id + 1) as u64),
        s.known.contains(d) ==> passing(s.known, f).contains(d),
{
    lemma_changes_are_exact(s.known, now, d);
    let l = with_listener(s, f).listeners;
    lemma_hearers(l, d, (s.next_id + 1) as u64);
    assert(l[l.len() - 1].id == (s.next_id + 1) as u64);
    lemma_passing(s.known, f, d);
}

proof fn lemma_passing(v: Seq<DeviceInfoView>, f: Filter, d: DeviceInfoView)
    requires
        passes(f, d),
    ensures
        v.contains(d) ==> passing(v, f).contains(d),
    decreases v.len(),
{
    if v.contains(d) {
        let i = choose|i: int| 0 <= i < v.len() && v[i] == d;
        let p = passing(v.drop_last(), f);
        if i < v.len() - 1 {
            assert(v.drop_last()[i] == d);
            lemma_passing(v.drop_last(), f, d);
            let k = choose|k: int| 0 <= k < p.len() && p[k] == d;
            assert(p.push(v.last())[k] == d);
        } else {
            assert(p.push(v.last())[p.len() as int] == d);
        }
    }
}

/// However many notifications come before the thread looks, it scans once for
/// them: after the flag is taken it waits again.
pub proof fn lemma_bursts_coalesce(s: Signal)
    requires
        !s.stop,
    ensures
        waited(Signal { pending: true, ..s }) == Some(true),
        waited(Signal { pending: false, ..s }) is None,
{
}

/// A class filter looks at the device and at every interface: it lets a device
/// pass that has the class itself, or whose active configuration declares it
/// for some setting of some interface, and no other. The vendor and the
/// product are held against the device's own.
pub proof fn lemma_filter_by_class(f: Filter, d: DeviceInfoView, k: int, class: u8)
    requires
        f.class == Some(class),
        0 <= k < d.configs.len(),
        active_config_of(d) == Ok::<ConfigView, ErrorView>(config_of(d.configs[k])),
    ensures
        passes(f, d) <==> {
            &&& f.vendor_id is None || f.vendor_id->0 == d.device_descriptor.vendor_id
            &&& f.product_id is None || f.product_id->0 == d.device_descriptor.product_id
            &&& d.device_descriptor.class == class || exists|x: int|
                0 <= x < walk(config_body(d.configs[k])).len() && declares_class(
                    #[trigger] walk(config_body(d.configs[k]))[x],
                    class,
                )
        },
{
    let ds = walk(config_body(d.configs[k]));
    let alts = tree_of(ds).alts;
    let c = config_of(d.configs[k]);
    lemma_setting_classes(ds, class);
    if has_class(c, class) {
        let (i, j) = choose|i: int, j: int|
            0 <= i < c.interfaces.len() && 0 <= j < c.interfaces[i].alt_settings.len() && (
            #[trigger] c.interfaces[i].alt_settings[j]).class == class;
        let a = c.interfaces[i].alt_settings[j];
        lemma_grouping_keeps_settings(alts, a);
        assert(grouped(alts)[i].alt_settings[j] == a);
        let n = choose|n: int| 0 <= n < alts.len() && alts[n] == a;
        assert(alts[n].class == class);
    }
    if exists|n: int| 0 <= n < alts.len() && (#[trigger] alts[n]).class == class {
        let n = choose|n: int| 0 <= n < alts.len() && (#[trigger] alts[n]).class == class;
        lemma_grouping_keeps_settings(alts, alts[n]);
        let (i, j) = choose|i: int, j: int|
            0 <= i < grouped(alts).len() && 0 <= j < grouped(alts)[i].alt_settings.len() && (
            #[trigger] grouped(alts)[i].alt_settings[j]) == alts[n];
        assert(c.interfaces[i].alt_settings[j].class == class);
    }
}

/// A device of which no configuration can be read passes a class filter by its
/// own class only; without a class in the filter, vendor and product decide.
pub proof fn lemma_filter_without_interfaces(f: Filter, d: DeviceInfoView)
    requires
        f.class is None || active_config_of(d) is Err,
    ensures
        passes(f, d) <==> {
            &&& f.vendor_id is None || f.vendor_id->0 == d.device_descriptor.vendor_id
            &&& f.product_id is None || f.product_id->0 == d.device_descriptor.product_id
            &&& f.class is None || f.class->0 == d.device_descriptor.class
        },
        passes(no_filter(), d),
        everything().filter == no_filter(),
        !everything().enumerate_existing,
{
}

/// Which devices are reported as already there: those that pass, in order.
pub proof fn lemma_passing_in_order(v: Seq<DeviceInfoView>, f: Filter, d: DeviceInfoView)
    ensures
        passing(Seq::empty(), f).len() == 0,
        passes(f, d) ==> passing(v.push(d), f) == passing(v, f).push(d),
        !passes(f, d) ==> passing(v.push(d), f) == passing(v, f),
{
    assert(v.push(d).drop_last() =~= v);
}

/// An event about a device goes to the listeners whose filter it passes, in
/// the order in which they were added, and says what happened to which device.
pub proof fn lemma_scan_deliveries(s: RegistryView, now: Seq<DeviceInfoView>, i: int)
    ensures
        s.listeners.len() == 0 ==> scan_deliveries(s, now).len() == 0,
        s.listeners.len() > 0 ==> scan_deliveries(s, now).len() == changes(s.known, now).len(),
        0 <= i < scan_deliveries(s, now).len() ==> {
            let x = scan_deliveries(s, now)[i];
            &&& x.event == changes(s.known, now)[i]
            &&& x.event matches EventView::Arrived(d) ==> x.to == hearers(s.listeners, d) && now.contains(d)
            &&& x.event matches EventView::Left(d) ==> x.to == hearers(s.listeners, d) && s.known.contains(d)
        },
{
    if 0 <= i < scan_deliveries(s, now).len() {
        let e = changes(s.known, now)[i];
        let d = event_device(e);
        lemma_changes_are_exact(s.known, now, d);
        assert(changes(s.known, now).contains(e));
    }
}

/// One more listener hears last, one that is filtered out not at all.
pub proof fn lemma_hearers_in_order(listeners: Seq<Listener>, l: Listener, d: DeviceInfoView)
    ensures
        hearers(Seq::empty(), d).len() == 0,
        passes(l.filter, d) ==> hearers(listeners.push(l), d) == hearers(listeners, d).push(l.id),
        !passes(l.filter, d) ==> hearers(listeners.push(l), d) == hearers(listeners, d),
{
    assert(listeners.push(l).drop_last() =~= listeners);
}

/// A listener gets an ID that none had before, and keeps its filter; those
/// before it stay.
pub proof fn lemma_listener_is_added(s: RegistryView, f: Filter)
    requires
        well_numbered(s),
        s.next_id < u64::MAX,
    ensures
        ({
            let t = with_listener(s, f);
            &&& well_numbered(t)
            &&& t.known == s.known
            &&& t.started == s.started
            &&& t.listeners.len() == s.listeners.len() + 1
            &&& s.listeners.is_prefix_of(t.listeners)
            &&& t.listeners.last().filter == f
            &&& forall|i: int| 0 <= i < s.listeners.len() ==> (#[trigger] s.listeners[i]).id != t.listeners.last().id
        }),
{
}

/// Listeners other than the one that is taken out stay, in order.
pub proof fn lemma_listener_is_removed(v: Seq<Listener>, l: Listener, id: u64)
    ensures
        without_listener(Seq::empty(), id).len() == 0,
        l.id == id ==> without_listener(v.push(l), id) == without_listener(v, id),
        l.id != id ==> without_listener(v.push(l), id) == without_listener(v, id).push(l),
{
    assert(v.push(l).drop_last() =~= v);
}

/// A stop ends the wait, whether something is pending or not; otherwise only
/// something pending does.
pub proof fn lemma_waits(s: Signal)
    ensures
        s.stop ==> waited(s) == Some(false),
        !s.stop && s.pending ==> waited(s) == Some(true),
        !s.stop && !s.pending ==> waited(s) is None,
{
}

/// What is missing is listed in order.
pub proof fn lemma_missing_in_order(v: Seq<DeviceInfoView>, d: DeviceInfoView, others: Seq<DeviceInfoView>)
    ensures
        missing_from(Seq::empty(), others).len() == 0,
        is_among(d, others) ==> missing_from(v.push(d), others) == missing_from(v, others),
        !is_among(d, others) ==> missing_from(v.push(d), others) == missing_from(v, others).push(d),
        is_among(d, others) <==> exists|i: int|
            0 <= i < others.len() && (#[trigger] others[i]).bus_number == d.bus_number && others[i].address == d.address
                && others[i].port_numbers == d.port_numbers && others[i].device_descriptor.vendor_id
                == d.device_descriptor.vendor_id && others[i].device_descriptor.product_id
                == d.device_descriptor.product_id,
{
    assert(v.push(d).drop_last() =~= v);
    if exists|i: int|
        0 <= i < others.len() && (#[trigger] others[i]).bus_number == d.bus_number && others[i].address == d.address
            && others[i].port_numbers == d.port_numbers && others[i].device_descriptor.vendor_id
            == d.device_descriptor.vendor_id && others[i].device_descriptor.product_id == d.device_descriptor.product_id {
        let i = choose|i: int|
            0 <= i < others.len() && (#[trigger] others[i]).bus_number == d.bus_number && others[i].address == d.address
                && others[i].port_numbers == d.port_numbers && others[i].device_descriptor.vendor_id
                == d.device_descriptor.vendor_id && others[i].device_descriptor.product_id
                == d.device_descriptor.product_id;
        assert(same_place(others[i], d));
    }
    if is_among(d, others) {
        let i = choose|i: int| 0 <= i < others.len() && same_place(#[trigger] others[i], d);
        assert(others[i].bus_number == d.bus_number);
    }
}

/// Arrivals are those that were not there, departures those that are no longer,
/// each in order; departures come first.
pub proof fn lemma_changes_in_order(before: Seq<DeviceInfoView>, now: Seq<DeviceInfoView>, i: int)
    ensures
        ({
            let left = missing_from(before, now);
            let new = missing_from(now, before);
            let c = changes(before, now);
            &&& c.len() == left.len() + new.len()
            &&& 0 <= i < left.len() ==> c[i] == EventView::Left(left[i])
            &&& left.len() <= i < c.len() ==> c[i] == EventView::Arrived(new[i - left.len()])
        }),
{
}

/// An event is about the device that came or went, and those hear of it whose
/// filters the device passes.
pub proof fn lemma_events(d: DeviceInfoView, events: Seq<EventView>, listeners: Seq<Listener>, i: int)
    requires
        0 <= i < events.len(),
    ensures
        event_device(EventView::Arrived(d)) == d,
        event_device(EventView::Left(d)) == d,
        addressed(events, listeners).len() == events.len(),
        addressed(events, listeners)[i].event == events[i],
        addressed(events, listeners)[i].to == hearers(listeners, event_device(events[i])),
        arrivals(seq![d])[0] == EventView::Arrived(d),
        departures(seq![d])[0] == EventView::Left(d),
{
}

/// A wake-up is followed by a pause, the pause by a look at the devices, and
/// the look by waiting, until the watch stops.
pub proof fn lemma_dispatch(go: bool, alive: bool)
    ensures
        dispatched(DispatchEvent::Started) == DispatchAction::Wait,
        dispatched(DispatchEvent::Woken(true)) == DispatchAction::Settle(50),
        dispatched(DispatchEvent::Woken(false)) == DispatchAction::End,
        dispatched(DispatchEvent::Settled { go: true, alive: true }) == DispatchAction::Rescan,
        dispatched(DispatchEvent::Settled { go: false, alive }) == DispatchAction::End,
        dispatched(DispatchEvent::Settled { go, alive: false }) == DispatchAction::End,
        dispatched(DispatchEvent::Scanned { stopping: true }) == DispatchAction::End,
        dispatched(DispatchEvent::Scanned { stopping: false }) == DispatchAction::Wait,
{
}

} // verus!
