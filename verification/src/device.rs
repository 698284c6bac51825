//! An enumerated but not necessarily opened device.

use crate::descriptors::{config_of, is_config_descriptor, ConfigDescriptor, ConfigView, DeviceDescriptor};
use crate::error::{message, Error, ErrorKind, ErrorView, Result};
use crate::sys::{same_bytes, DeviceInfo, DeviceInfoView};
use crate::types::Speed;
use vstd::prelude::*;

verus! {

/// A USB device known to the system.
///
/// A device carries a snapshot of the descriptors read at enumeration time;
/// nothing here touches the device itself.
#[derive(Debug)]
pub struct Device {
    /// What enumeration learnt of it.
    pub info: DeviceInfo,
}

impl View for Device {
    type V = DeviceInfoView;

    open spec fn view(&self) -> DeviceInfoView {
        self.info@
    }
}

/// The configuration that a raw descriptor tree describes.
pub open spec fn parsed_config(raw: Seq<u8>) -> std::result::Result<ConfigView, ErrorView> {
    if raw.len() < 9 {
        Err(message(ErrorKind::InvalidParam, "config descriptor too short"@))
    } else if !is_config_descriptor(raw) {
        Err(message(ErrorKind::InvalidParam, "not a config descriptor"@))
    } else {
        Ok(config_of(raw))
    }
}

/// What a call came to.
pub open spec fn config_outcome(r: Result<ConfigDescriptor>) -> std::result::Result<ConfigView, ErrorView> {
    match r {
        Ok(c) => Ok(c@),
        Err(e) => Err(e@),
    }
}

/// The configuration at an index.
pub open spec fn config_at(d: DeviceInfoView, index: int) -> std::result::Result<ConfigView, ErrorView> {
    if index < d.configs.len() {
        parsed_config(d.configs[index])
    } else {
        Err(message(ErrorKind::NotFound, "no such configuration"@))
    }
}

/// Whether a raw descriptor tree has that `bConfigurationValue`.
pub open spec fn has_value(raw: Seq<u8>, value: u8) -> bool {
    raw.len() > 5 && raw[5] == value
}

/// The first descriptor tree with that `bConfigurationValue`.
pub open spec fn valued_config(configs: Seq<Seq<u8>>, value: u8) -> Option<Seq<u8>>
    decreases configs.len(),
{
    if configs.len() == 0 {
        None
    } else if has_value(configs[0], value) {
        Some(configs[0])
    } else {
        valued_config(configs.skip(1), value)
    }
}

/// The configuration with that `bConfigurationValue`.
pub open spec fn config_with(d: DeviceInfoView, value: u8) -> std::result::Result<ConfigView, ErrorView> {
    match valued_config(d.configs, value) {
        Some(raw) => parsed_config(raw),
        None => Err(message(ErrorKind::NotFound, "no configuration with that value"@)),
    }
}

/// The active configuration, or the first one if it is not known.
pub open spec fn active_config_of(d: DeviceInfoView) -> std::result::Result<ConfigView, ErrorView> {
    if d.active_config is Some && config_with(d, d.active_config->0) is Ok {
        config_with(d, d.active_config->0)
    } else {
        config_at(d, 0)
    }
}

impl Device {
    /// A device that enumeration found.
    pub fn new(info: DeviceInfo) -> (r: Self)
        ensures
            r@ == info@,
    {
        Device { info }
    }

    /// Bus number the device is attached to.
    pub fn bus_number(&self) -> (r: u8)
        ensures
            r == self@.bus_number,
    {
        self.info.bus_number
    }

    /// Address of the device on its bus.
    pub fn address(&self) -> (r: u8)
        ensures
            r == self@.address,
    {
        self.info.address
    }

    /// Port number on the parent hub, or 0 for a root hub.
    pub fn port_number(&self) -> (r: u8)
        ensures
            r == own_port(self@.port_numbers),
    {
        let n: usize = self.info.port_numbers.len();
        if n == 0 {
            0
        } else {
            self.info.port_numbers[n - 1]
        }
    }

    /// The chain of port numbers from the root hub down to this device.
    /// Empty for a root hub.
    pub fn port_numbers(&self) -> (r: &[u8])
        ensures
            r@ == self@.port_numbers,
    {
        self.info.port_numbers.as_slice()
    }

    /// Negotiated bus speed.
    pub fn speed(&self) -> (r: Speed)
        ensures
            r == self@.speed,
    {
        self.info.speed
    }

    /// The device descriptor.
    pub fn device_descriptor(&self) -> (r: DeviceDescriptor)
        ensures
            r == self@.device_descriptor,
    {
        self.info.device_descriptor
    }

    /// `idVendor`, for convenience.
    pub fn vendor_id(&self) -> (r: u16)
        ensures
            r == self@.device_descriptor.vendor_id,
    {
        self.info.device_descriptor.vendor_id
    }

    /// `idProduct`, for convenience.
    pub fn product_id(&self) -> (r: u16)
        ensures
            r == self@.device_descriptor.product_id,
    {
        self.info.device_descriptor.product_id
    }

    /// Whether the device has a serial number string at all: its
    /// `iSerialNumber` is not 0. Only then is the operating system worth
    /// asking for it.
    pub fn has_serial_number(&self) -> (r: bool)
        ensures
            r == (self@.device_descriptor.serial_number_string_index != 0),
    {
        self.info.device_descriptor.serial_number_string_index != 0
    }

    /// The serial number string, given what the operating system `knows` of
    /// it. `None` means the device has no serial number (`iSerialNumber` is
    /// 0) or the OS could not tell.
    pub fn serial_number<'a>(&self, known: Option<&'a str>) -> (r: Option<&'a str>)
        ensures
            r == (if self@.device_descriptor.serial_number_string_index == 0 {
                None
            } else {
                known
            }),
    {
        if self.has_serial_number() {
            known
        } else {
            None
        }
    }

    /// Number of configuration descriptors that were readable at enumeration.
    pub fn num_configurations(&self) -> (r: u8)
        ensures
            r == self@.configs.len() as int % 256,
    {
        (self.info.configs.len() % 256) as u8
    }

    /// The configuration descriptor at the given index (0-based, *not* the
    /// `bConfigurationValue`).
    pub fn config_descriptor(&self, index: u8) -> (r: Result<ConfigDescriptor>)
        ensures
            config_outcome(r) == config_at(self@, index as int),
            r is Ok ==> r->Ok_0.wf(),
    {
        if (index as usize) < self.info.configs.len() {
            ConfigDescriptor::from_bytes(&self.info.configs[index as usize])
        } else {
            Err(Error::with_message(ErrorKind::NotFound, "no such configuration"))
        }
    }

    /// The configuration descriptor whose `bConfigurationValue` matches.
    pub fn config_descriptor_by_value(&self, value: u8) -> (r: Result<ConfigDescriptor>)
        ensures
            config_outcome(r) == config_with(self@, value),
            r is Ok ==> r->Ok_0.wf(),
    {
        let ghost all = self@.configs;
        let mut i: usize = 0;
        assert(all.skip(0) =~= all);
        while i < self.info.configs.len()
            invariant
                i <= all.len(),
                all == self@.configs,
                valued_config(all.skip(i as int), value) == valued_config(all, value),
            decreases all.len() - i,
        {
            let raw = &self.info.configs[i];
            assert(all.skip(i as int)[0] == raw@);
            if raw.len() > 5 && raw[5] == value {
                return ConfigDescriptor::from_bytes(raw);
            }
            assert(all.skip(i as int).skip(1) =~= all.skip(i + 1));
            i += 1;
        }
        Err(Error::with_message(ErrorKind::NotFound, "no configuration with that value"))
    }

    /// The configuration that was active when the device was enumerated, or
    /// the first one if the OS does not expose that information.
    pub fn active_config_descriptor(&self) -> (r: Result<ConfigDescriptor>)
        ensures
            config_outcome(r) == active_config_of(self@),
            r is Ok ==> r->Ok_0.wf(),
    {
        match self.info.active_config {
            Some(v) => match self.config_descriptor_by_value(v) {
                Ok(c) => Ok(c),
                Err(_) => self.config_descriptor(0),
            },
            None => self.config_descriptor(0),
        }
    }

    /// Another copy of the device.
    pub fn duplicate(&self) -> (r: Self)
        ensures
            r@ == self@,
    {
        Device { info: self.info.duplicate() }
    }
}

/// Whether two devices sit at the same place: the same bus, address and port
/// chain.
pub open spec fn same_position(a: DeviceInfoView, b: DeviceInfoView) -> bool {
    &&& a.bus_number == b.bus_number
    &&& a.address == b.address
    &&& a.port_numbers == b.port_numbers
}

impl PartialEq for Device {
    fn eq(&self, other: &Self) -> (r: bool) {
        self.info.bus_number == other.info.bus_number && self.info.address == other.info.address && same_bytes(
            &self.info.port_numbers,
            &other.info.port_numbers,
        )
    }
}

impl vstd::std_specs::cmp::PartialEqSpecImpl for Device {
    open spec fn obeys_eq_spec() -> bool {
        true
    }

    open spec fn eq_spec(&self, other: &Self) -> bool {
        same_position(self@, other@)
    }
}

impl Eq for Device {

}

/// Snapshots of the same attached device are equal devices.
pub proof fn lemma_same_device_is_equal(a: DeviceInfoView, b: DeviceInfoView)
    requires
        crate::sys::same_place(a, b),
    ensures
        same_position(a, b),
{
}

/// The active configuration is there whenever the first one is: a value that
/// names no readable configuration falls back to it.
pub proof fn lemma_active_config_falls_back(d: DeviceInfoView)
    requires
        config_at(d, 0) is Ok,
    ensures
        active_config_of(d) is Ok,
{
}

/// The configuration with a value is the first one that has it, if any has.
pub proof fn lemma_valued_config(v: Seq<Seq<u8>>, value: u8, k: int)
    requires
        0 <= k <= v.len(),
        forall|j: int| 0 <= j < k ==> !((#[trigger] v[j]).len() > 5 && v[j][5] == value),
    ensures
        k == v.len() ==> valued_config(v, value) is None,
        k < v.len() && v[k].len() > 5 && v[k][5] == value ==> valued_config(v, value) == Some(v[k]),
    decreases k,
{
    if k > 0 {
        let w = v.skip(1);
        assert(!(v[0].len() > 5 && v[0][5] == value));
        assert forall|j: int| 0 <= j < k - 1 implies !((#[trigger] w[j]).len() > 5 && w[j][5] == value) by {
            assert(w[j] == v[j + 1]);
        }
        if k < v.len() {
            assert(w[k - 1] == v[k]);
        }
        lemma_valued_config(w, value, k - 1);
    }
}

/// What is read as a configuration: at least nine bytes, of which the first
/// is at least nine and the second is 2.
pub proof fn lemma_parsed_config(raw: Seq<u8>)
    ensures
        parsed_config(raw) is Ok <==> raw.len() >= 9 && raw[0] >= 9 && raw[1] == 2,
        parsed_config(raw) is Ok ==> parsed_config(raw)->Ok_0 == config_of(raw),
        parsed_config(raw) is Err ==> parsed_config(raw)->Err_0.kind == ErrorKind::InvalidParam,
{
}

/// A configuration is found by its position; behind the last there is none.
pub proof fn lemma_config_at(d: DeviceInfoView, index: int)
    requires
        0 <= index,
    ensures
        index < d.configs.len() ==> config_at(d, index) == parsed_config(d.configs[index]),
        index >= d.configs.len() ==> config_at(d, index) is Err && config_at(d, index)->Err_0.kind == ErrorKind::NotFound,
{
}

/// The active configuration is the first one with the value that the device
/// has selected, and where none is selected the first of all.
pub proof fn lemma_active_config(d: DeviceInfoView, k: int)
    requires
        0 <= k < d.configs.len(),
        parsed_config(d.configs[k]) is Ok,
        d.active_config is None ==> k == 0,
        d.active_config matches Some(v) ==> d.configs[k][5] == v && forall|j: int|
            0 <= j < k ==> (#[trigger] d.configs[j]).len() <= 5 || d.configs[j][5] != v,
    ensures
        active_config_of(d) == Ok::<ConfigView, ErrorView>(config_of(d.configs[k])),
{
    if d.active_config is Some {
        lemma_valued_config(d.configs, d.active_config->0, k);
    }
}

/// Two handles name one device where bus, address and port chain agree, and
/// nothing else matters.
pub proof fn lemma_same_position(a: DeviceInfoView, b: DeviceInfoView)
    ensures
        same_position(a, b) <==> a.bus_number == b.bus_number && a.address == b.address && a.port_numbers
            == b.port_numbers,
{
}

/// The port that a device is plugged into: the last of its chain.
pub open spec fn own_port(ports: Seq<u8>) -> u8 {
    if ports.len() == 0 {
        0
    } else {
        ports.last()
    }
}

/// The port of a device is where its chain ends; a root hub has none.
pub proof fn lemma_own_port(ports: Seq<u8>, port: u8)
    ensures
        own_port(ports.push(port)) == port,
        own_port(Seq::empty()) == 0,
{
}

/// A configuration is found by its value, or there is none.
pub proof fn lemma_config_with(d: DeviceInfoView, value: u8)
    ensures
        valued_config(d.configs, value) matches Some(raw) ==> config_with(d, value) == parsed_config(raw),
        valued_config(d.configs, value) is None ==> config_with(d, value) is Err && config_with(d, value)->Err_0.kind
            == ErrorKind::NotFound,
{
}

} // verus!
