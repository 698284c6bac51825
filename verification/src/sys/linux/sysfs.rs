//! Enumeration from sysfs: what the names and files under
//! `/sys/bus/usb/devices` say.

use super::ENODATA;
use crate::descriptors::{device_of, is_device_descriptor, DeviceDescriptor};
use crate::error::{Error, ErrorKind, ErrorView, Result};
use crate::sys::{split_config_descriptors, split_configs, DeviceInfo, DeviceInfoView};
use crate::text::{self, decimal, padded_decimal, stripped};
use crate::types::Speed;
use vstd::prelude::*;
use vstd::slice::slice_subrange;

verus! {

// ----- numbers ------------------------------------------------------------------

/// Whether a character is a decimal digit.
pub open spec fn is_digit(c: char) -> bool {
    '0' <= c <= '9'
}

/// The number that decimal digits stand for; `None` if something else is among
/// them.
pub open spec fn digits_value(s: Seq<char>) -> Option<nat>
    decreases s.len(),
{
    if s.len() == 0 {
        Some(0)
    } else if !is_digit(s.last()) {
        None
    } else {
        match digits_value(s.drop_last()) {
            Some(v) => Some(v * 10 + (s.last() as nat - '0' as nat) as nat),
            None => None,
        }
    }
}

/// The number of at most `max` that a text stands for: decimal digits, at
/// least one, with or without a plus sign before them.
pub open spec fn number_of(s: Seq<char>, max: nat) -> Option<nat> {
    let digits = if s.len() > 0 && s[0] == '+' {
        s.skip(1)
    } else {
        s
    };
    match digits_value(digits) {
        Some(v) => if digits.len() > 0 && v <= max {
            Some(v)
        } else {
            None
        },
        None => None,
    }
}

proof fn lemma_digits_prefix(s: Seq<char>, k: int)
    requires
        0 <= k <= s.len(),
    ensures
        digits_value(s) matches Some(v) ==> digits_value(s.take(k)) is Some && digits_value(s.take(k))->0 <= v,
    decreases s.len(),
{
    if k == s.len() {
        assert(s.take(k) =~= s);
    } else {
        lemma_digits_prefix(s.drop_last(), k);
        assert(s.drop_last().take(k) =~= s.take(k));
    }
}

/// The number that a text stands for.
pub fn parse_number(s: &str, max: u32) -> (r: Option<u32>)
    ensures
        match number_of(s@, max as nat) {
            Some(v) => r is Some && r->0 == v,
            None => r is None,
        },
{
    let n: usize = s.unicode_len();
    let from: usize = if n > 0 && s.get_char(0) == '+' {
        1
    } else {
        0
    };
    let ghost digits = s@.skip(from as int);
    proof {
        assert(s@.skip(0) =~= s@);
    }
    if from == n {
        return None;
    }
    let mut value: u64 = 0;
    let mut i: usize = from;
    assert(digits.take(0) =~= Seq::<char>::empty());
    while i < n
        invariant
            from <= i <= n,
            n == s@.len(),
            digits == s@.skip(from as int),
            digits.len() > 0,
            number_of(s@, max as nat) == (match digits_value(digits) {
                Some(v) => if v <= max {
                    Some(v)
                } else {
                    None
                },
                None => None,
            }),
            digits_value(digits.take(i - from)) == Some(value as nat),
            value <= max,
        decreases n - i,
    {
        let c = s.get_char(i);
        proof {
            assert(digits.take(i + 1 - from).drop_last() =~= digits.take(i - from));
            assert(digits.take(i + 1 - from).last() == c);
            lemma_digits_prefix(digits, i + 1 - from);
        }
        if c < '0' || c > '9' {
            return None;
        }
        value = value * 10 + (c as u64 - '0' as u64);
        if value > max as u64 {
            return None;
        }
        i += 1;
    }
    assert(digits.take(n - from) =~= digits);
    Some(value as u32)
}

// ----- names ---------------------------------------------------------------------

/// Where `c` first occurs in `s` at or after `from`; the length of `s` if it
/// does not.
pub open spec fn first_at(s: Seq<char>, c: char, from: int) -> int
    decreases s.len() - from,
{
    if from >= s.len() {
        s.len() as int
    } else if s[from] == c {
        from
    } else {
        first_at(s, c, from + 1)
    }
}

fn find_char(s: &str, c: char, from: usize) -> (r: usize)
    requires
        from <= s@.len(),
    ensures
        r == first_at(s@, c, from as int),
        from <= r <= s@.len(),
{
    let n: usize = s.unicode_len();
    let mut i: usize = from;
    while i < n && s.get_char(i) != c
        invariant
            from <= i <= n,
            n == s@.len(),
            first_at(s@, c, from as int) == first_at(s@, c, i as int),
        decreases n - i,
    {
        i += 1;
    }
    i
}

/// The port numbers in `s` from `from` on, separated by dots.
pub open spec fn port_list(s: Seq<char>, from: int) -> Option<Seq<u8>>
    decreases s.len() - from,
{
    let dot = first_at(s, '.', from);
    match number_of(s.subrange(from, dot), 255) {
        None => None,
        Some(v) => if dot >= s.len() || dot < from {
            Some(seq![v as u8])
        } else {
            match port_list(s, dot + 1) {
                None => None,
                Some(rest) => Some(seq![v as u8] + rest),
            }
        },
    }
}

/// Whether a name starts with "usb", as that of a root hub does.
pub open spec fn is_root_hub(name: Seq<char>) -> bool {
    name.len() >= 3 && name[0] == 'u' && name[1] == 's' && name[2] == 'b'
}

/// The port chain of a device by its sysfs name. Interfaces look like
/// "1-2:1.0"; devices like "usb1" or "1-2.3".
pub open spec fn ports_of(name: Seq<char>) -> Option<Seq<u8>> {
    let dash = first_at(name, '-', 0);
    if first_at(name, ':', 0) < name.len() {
        None
    } else if is_root_hub(name) {
        Some(Seq::empty())
    } else if dash >= name.len() {
        None
    } else {
        port_list(name, dash + 1)
    }
}

/// Numbers before others.
pub open spec fn prepended(head: Seq<u8>, tail: Option<Seq<u8>>) -> Option<Seq<u8>> {
    match tail {
        Some(t) => Some(head + t),
        None => None,
    }
}

/// The port chain of a device by its sysfs name, `None` if it is no device's.
pub fn port_numbers(name: &str) -> (r: Option<Vec<u8>>)
    ensures
        match ports_of(name@) {
            Some(p) => r is Some && (r->0)@ == p,
            None => r is None,
        },
{
    let n: usize = name.unicode_len();
    if find_char(name, ':', 0) < n {
        return None;
    }
    if n >= 3 && name.get_char(0) == 'u' && name.get_char(1) == 's' && name.get_char(2) == 'b' {
        return Some(Vec::new());
    }
    let dash: usize = find_char(name, '-', 0);
    if dash == n {
        return None;
    }
    let mut out: Vec<u8> = Vec::new();
    let mut from: usize = dash + 1;
    let ghost whole = port_list(name@, dash + 1);
    assert(prepended(out@, whole) == whole) by {
        if whole is Some {
            assert(out@ + whole->0 =~= whole->0);
        }
    }
    loop
        invariant
            n == name@.len(),
            from <= n,
            whole == ports_of(name@),
            prepended(out@, port_list(name@, from as int)) == whole,
        decreases n - from,
    {
        let dot: usize = find_char(name, '.', from);
        match parse_number(name.substring_char(from, dot), 255) {
            None => {
                return None;
            },
            Some(v) => {
                let ghost before = out@;
                out.push(v as u8);
                if dot == n {
                    assert(out@ =~= before + seq![v as u8]);
                    return Some(out);
                }
                proof {
                    let rest = port_list(name@, dot + 1);
                    if rest is Some {
                        assert(before + (seq![v as u8] + rest->0) =~= out@ + rest->0);
                    }
                }
                from = dot + 1;
            },
        }
    }
}

// ----- devices ---------------------------------------------------------------------

/// The value of the active configuration by the file that holds it: 0 if the
/// device is not configured.
pub open spec fn config_value_of(s: Seq<char>) -> u8 {
    match number_of(stripped(s), 255) {
        Some(v) => v as u8,
        None => 0,
    }
}

/// The value of the active configuration, `None` if the file cannot be read.
pub fn active_configuration(contents: Option<&str>) -> (r: Option<u8>)
    ensures
        r == (match contents {
            Some(s) => Some(config_value_of(s@)),
            None => None,
        }),
{
    match contents {
        Some(s) => {
            let t = text::strip(s);
            match parse_number(t.as_str(), 255) {
                Some(v) => Some(v as u8),
                None => Some(0),
            }
        },
        None => None,
    }
}

/// A number as a file holds it, of which the low byte counts.
pub open spec fn file_number(s: Option<Seq<char>>) -> Option<u8> {
    match s {
        Some(t) => match number_of(stripped(t), u32::MAX as nat) {
            Some(v) => Some((v % 256) as u8),
            None => None,
        },
        None => None,
    }
}

fn read_number(contents: Option<&str>) -> (r: Option<u8>)
    ensures
        r == file_number(crate::context::optional_text(contents)),
{
    match contents {
        Some(s) => {
            let t = text::strip(s);
            match parse_number(t.as_str(), u32::MAX) {
                Some(v) => Some((v % 256) as u8),
                None => None,
            }
        },
        None => None,
    }
}

/// What the files of a sysfs entry hold; `None` for one that cannot be read.
#[derive(Debug)]
pub struct SysfsEntry<'a> {
    /// The entry's name.
    pub name: &'a str,
    /// The file `busnum`.
    pub busnum: Option<&'a str>,
    /// The file `devnum`.
    pub devnum: Option<&'a str>,
    /// The speed in the file `speed`, unknown if it holds none.
    pub speed: Speed,
    /// The file `descriptors`.
    pub descriptors: Option<&'a [u8]>,
    /// The file `bConfigurationValue`.
    pub config_value: Option<&'a str>,
}

/// The device that a sysfs entry describes, if it is one.
pub open spec fn device_at(e: SysfsEntry) -> Option<DeviceInfoView> {
    let ports = ports_of(e.name@);
    let bus = file_number(crate::context::optional_text(e.busnum));
    let address = file_number(crate::context::optional_text(e.devnum));
    if ports is None || bus is None || address is None || e.descriptors is None {
        None
    } else {
        let d = (e.descriptors->0)@;
        if d.len() < 18 || !is_device_descriptor(d) {
            None
        } else {
            Some(
                DeviceInfoView {
                    bus_number: bus->0,
                    address: address->0,
                    port_numbers: ports->0,
                    speed: e.speed,
                    device_descriptor: device_of(d),
                    configs: split_configs(d.skip(18)),
                    active_config: match e.config_value {
                        Some(s) => Some(config_value_of(s@)),
                        None => None,
                    },
                },
            )
        }
    }
}

/// Reads a device from its sysfs entry. Entries of interfaces, and devices
/// with a file that cannot be read, are none.
pub fn read_sysfs_device(e: &SysfsEntry) -> (r: Option<DeviceInfo>)
    ensures
        match device_at(*e) {
            Some(d) => r is Some && (r->0)@ == d,
            None => r is None,
        },
{
    let port_numbers = match port_numbers(e.name) {
        Some(p) => p,
        None => {
            return None;
        },
    };
    let bus_number: u8 = match read_number(e.busnum) {
        Some(v) => v,
        None => {
            return None;
        },
    };
    let address: u8 = match read_number(e.devnum) {
        Some(v) => v,
        None => {
            return None;
        },
    };
    let descriptors = match e.descriptors {
        Some(d) => d,
        None => {
            return None;
        },
    };
    let device_descriptor = match DeviceDescriptor::from_bytes(descriptors) {
        Ok(d) => d,
        Err(_) => {
            return None;
        },
    };
    let rest = slice_subrange(descriptors, 18, descriptors.len());
    assert(rest@ =~= descriptors@.skip(18));
    let info = DeviceInfo {
        bus_number,
        address,
        port_numbers,
        speed: e.speed,
        device_descriptor,
        configs: split_config_descriptors(rest),
        active_config: active_configuration(e.config_value),
    };
    Some(info)
}

/// The ports of a device, joined by dots.
pub open spec fn port_chain(ports: Seq<u8>) -> Seq<char>
    decreases ports.len(),
{
    if ports.len() == 0 {
        Seq::empty()
    } else if ports.len() == 1 {
        decimal(ports[0] as nat)
    } else {
        port_chain(ports.drop_last()) + "."@ + decimal(ports.last() as nat)
    }
}

/// The name sysfs gives a device: root hubs by their bus, others by their
/// ports too.
pub open spec fn entry_name(bus: u8, ports: Seq<u8>) -> Seq<char> {
    if ports.len() == 0 {
        "usb"@ + decimal(bus as nat)
    } else {
        decimal(bus as nat) + "-"@ + port_chain(ports)
    }
}

/// The name sysfs gives a device.
pub fn sysfs_name(bus: u8, ports: &[u8]) -> (r: String)
    ensures
        r@ == entry_name(bus, ports@),
{
    if ports.len() == 0 {
        let mut name = String::from_str("usb");
        text::push_decimal(&mut name, bus as u64);
        return name;
    }
    let mut name = String::new();
    text::push_decimal(&mut name, bus as u64);
    name.append("-");
    text::push_decimal(&mut name, ports[0] as u64);
    let ghost head = decimal(bus as nat) + "-"@;
    assert(ports@.take(1)[0] == ports@[0]);
    assert(name@ =~= head + port_chain(ports@.take(1)));
    let mut i: usize = 1;
    while i < ports.len()
        invariant
            1 <= i <= ports@.len(),
            name@ == head + port_chain(ports@.take(i as int)),
        decreases ports@.len() - i,
    {
        assert(ports@.take(i + 1).drop_last() =~= ports@.take(i as int));
        name.append(".");
        text::push_decimal(&mut name, ports[i] as u64);
        i += 1;
        assert(name@ =~= head + port_chain(ports@.take(i as int)));
    }
    assert(ports@.take(i as int) =~= ports@);
    name
}

/// The path of a device's usbfs node.
pub open spec fn node_path(bus_number: u8, address: u8) -> Seq<char> {
    "/dev/bus/usb/"@ + padded_decimal(bus_number as nat, 3) + "/"@ + padded_decimal(address as nat, 3)
}

/// The path of a device's usbfs node.
pub fn devnode(bus_number: u8, address: u8) -> (r: String)
    ensures
        r@ == node_path(bus_number, address),
{
    let mut path = String::from_str("/dev/bus/usb/");
    text::push_decimal3(&mut path, bus_number);
    path.append("/");
    text::push_decimal3(&mut path, address);
    path
}

// ----- opening and drivers ---------------------------------------------------------------

/// The error of a node that cannot be opened.
pub open spec fn node_error(e: ErrorView) -> ErrorView {
    ErrorView {
        kind: if e.kind == ErrorKind::NotFound {
            ErrorKind::NoDevice
        } else {
            e.kind
        },
        code: Some(match e.code {
            Some(c) => c,
            None => 0,
        }),
        message: Some("open device node"@),
    }
}

/// The error of opening a device node: one that is not there is a device that
/// is gone.
pub fn open_error(e: Error) -> (r: Error)
    ensures
        r@ == node_error(e@),
{
    let kind = if e.kind() == ErrorKind::NotFound {
        ErrorKind::NoDevice
    } else {
        e.kind()
    };
    let code: i32 = match e.os_code() {
        Some(c) => c,
        None => 0,
    };
    Error::from_code(kind, code).context("open device node")
}

/// The name in a zero-terminated buffer.
pub open spec fn terminated(b: Seq<u8>) -> Seq<u8>
    decreases b.len(),
{
    if b.len() == 0 || b[0] == 0 {
        Seq::empty()
    } else {
        seq![b[0]] + terminated(b.skip(1))
    }
}

/// The name of the driver that usbfs itself is.
pub open spec fn usbfs_name() -> Seq<u8> {
    seq![117u8, 115, 98, 102, 115]
}

fn is_usbfs(driver: &[u8]) -> (r: bool)
    ensures
        r == (terminated(driver@) == usbfs_name()),
{
    let n: usize = driver.len();
    let mut end: usize = 0;
    proof {
        assert(driver@.skip(0) =~= driver@);
        assert(driver@.take(0) + terminated(driver@) =~= terminated(driver@));
    }
    while end < n && driver[end] != 0
        invariant
            end <= n,
            n == driver@.len(),
            terminated(driver@) == driver@.take(end as int) + terminated(driver@.skip(end as int)),
        decreases n - end,
    {
        proof {
            let rest = driver@.skip(end as int);
            assert(rest[0] == driver@[end as int]);
            assert(rest.skip(1) =~= driver@.skip(end + 1));
            assert(driver@.take(end as int) + (seq![rest[0]] + terminated(rest.skip(1))) =~= driver@.take(end + 1)
                + terminated(rest.skip(1)));
        }
        end += 1;
    }
    proof {
        if end < n {
            assert(driver@.skip(end as int)[0] == driver@[end as int]);
        }
        assert(terminated(driver@) =~= driver@.take(end as int));
    }
    let ghost t = terminated(driver@);
    if end != 5 {
        return false;
    }
    let r = driver[0] == 117 && driver[1] == 115 && driver[2] == 98 && driver[3] == 102 && driver[4] == 115;
    proof {
        assert(t[0] == driver@[0] && t[1] == driver@[1] && t[2] == driver@[2] && t[3] == driver@[3] && t[4]
            == driver@[4]);
        if r {
            assert(t =~= usbfs_name());
        }
    }
    r
}

/// Whether a kernel driver other than usbfs is bound to an interface, given
/// the driver's name as the kernel reports it. Without any driver the kernel
/// fails with `ENODATA`.
pub fn kernel_driver_active(driver: Result<&[u8]>) -> (r: Result<bool>)
    ensures
        match driver {
            Ok(name) => r == Ok::<bool, Error>(terminated(name@) != usbfs_name()),
            Err(e) => if e@.code == Some(ENODATA) {
                r == Ok::<bool, Error>(false)
            } else {
                r is Err && r->Err_0@ == e@
            },
        },
{
    match driver {
        Ok(name) => Ok(!is_usbfs(name)),
        Err(e) => match e.os_code() {
            Some(c) => if c == ENODATA {
                Ok(false)
            } else {
                Err(e)
            },
            None => Err(e),
        },
    }
}

/// The error of a request to the driver of an interface.
pub open spec fn driver_error(e: ErrorView, op: Seq<char>) -> ErrorView {
    if e.code == Some(ENODATA) {
        ErrorView { kind: ErrorKind::NotFound, code: Some(ENODATA), message: Some(op) }
    } else {
        e
    }
}

/// The outcome of attaching or detaching a kernel driver: `ENODATA` means
/// that there is none.
pub fn driver_outcome(r: Result<()>, op: &str) -> (s: Result<()>)
    ensures
        match r {
            Ok(()) => s is Ok,
            Err(e) => s is Err && s->Err_0@ == driver_error(e@, op@),
        },
{
    match r {
        Ok(()) => Ok(()),
        Err(e) => match e.os_code() {
            Some(c) => if c == ENODATA {
                Err(Error::from_code(ErrorKind::NotFound, ENODATA).context(op))
            } else {
                Err(e)
            },
            None => Err(e),
        },
    }
}

/// Every decimal digit counts ten times as much as the one behind it.
pub proof fn lemma_numbers(s: Seq<char>, d: int, n: nat)
    requires
        0 <= d < 10,
    ensures
        digits_value(Seq::empty()) == Some(0nat),
        digits_value(s) matches Some(v) ==> digits_value(s.push(('0' as u32 + d) as char)) == Some((10 * v + d) as nat),
        digits_value(s.push('.')) is None,
        digits_value(decimal(n)) == Some(n),
        number_of(decimal(n), n) == Some(n),
        n > 0 ==> number_of(decimal(n), (n - 1) as nat) is None,
        number_of(Seq::empty(), n) is None,
{
    let a = s.push(('0' as u32 + d) as char);
    assert(a.drop_last() =~= s);
    assert(s.push('.').drop_last() =~= s);
    lemma_decimal_value(n);
    assert(is_digit(decimal(n)[0]));
}

proof fn lemma_decimal_value(n: nat)
    ensures
        digits_value(decimal(n)) == Some(n),
        decimal(n).len() > 0,
        forall|i: int| 0 <= i < decimal(n).len() ==> is_digit(#[trigger] decimal(n)[i]),
    decreases n,
{
    reveal_with_fuel(digits_value, 2);
    if n < 10 {
        assert(decimal(n).drop_last() =~= Seq::<char>::empty());
        assert(decimal(n).last() as nat == '0' as nat + n);
    } else {
        lemma_decimal_value(n / 10);
        assert(decimal(n).drop_last() =~= decimal(n / 10));
        assert(decimal(n).last() as nat == '0' as nat + n % 10);
        assert(n / 10 * 10 + n % 10 == n);
    }
}

/// A character is found where it first stands from a place on.
pub proof fn lemma_first_at(s: Seq<char>, c: char, from: int, k: int)
    requires
        0 <= from <= k <= s.len(),
        forall|j: int| from <= j < k ==> #[trigger] s[j] != c,
    ensures
        k == s.len() || s[k] == c ==> first_at(s, c, from) == k,
    decreases k - from,
{
    if from < k {
        assert(s[from] != c);
        lemma_first_at(s, c, from + 1, k);
    }
}

proof fn lemma_chain_front(ports: Seq<u8>)
    requires
        ports.len() >= 2,
    ensures
        port_chain(ports) == decimal(ports[0] as nat) + "."@ + port_chain(ports.skip(1)),
    decreases ports.len(),
{
    let w = ports.drop_last();
    let rest = ports.skip(1);
    if ports.len() == 2 {
        assert(w.len() == 1);
        assert(rest.len() == 1);
        assert(port_chain(w) == decimal(ports[0] as nat));
        assert(port_chain(rest) == decimal(ports[1] as nat));
    } else {
        lemma_chain_front(w);
        assert(w.skip(1) =~= rest.drop_last());
        assert(rest.last() == ports.last());
        assert(port_chain(ports) =~= decimal(ports[0] as nat) + "."@ + port_chain(rest));
    }
}

proof fn lemma_port_list(head: Seq<char>, ports: Seq<u8>)
    requires
        ports.len() > 0,
    ensures
        port_list(head + port_chain(ports), head.len() as int) == Some(ports),
    decreases ports.len(),
{
    reveal_strlit(".");
    let d = decimal(ports[0] as nat);
    let s = head + port_chain(ports);
    let from = head.len() as int;
    let end = from + d.len();
    lemma_decimal_value(ports[0] as nat);
    assert(is_digit(d[0]));
    assert(number_of(d, 255) == Some(ports[0] as nat));
    if ports.len() == 1 {
        assert(s.subrange(from, end) =~= d);
        assert forall|j: int| from <= j < end implies #[trigger] s[j] != '.' by {
            assert(is_digit(d[j - from]));
        }
        lemma_first_at(s, '.', from, end);
        assert(port_list(s, from) == Some(seq![ports[0]]));
        assert(seq![ports[0]] =~= ports);
    } else {
        let rest = ports.skip(1);
        lemma_chain_front(ports);
        let next = head + d + "."@;
        assert(s =~= next + port_chain(rest));
        assert(s.subrange(from, end) =~= d);
        assert(s[end] == '.');
        assert forall|j: int| from <= j < end implies #[trigger] s[j] != '.' by {
            assert(is_digit(d[j - from]));
        }
        lemma_first_at(s, '.', from, end);
        lemma_port_list(next, rest);
        assert(next.len() == end + 1);
        assert(seq![ports[0]] + rest =~= ports);
    }
}

proof fn lemma_chain_chars(ports: Seq<u8>)
    ensures
        forall|i: int|
            0 <= i < port_chain(ports).len() ==> is_digit(#[trigger] port_chain(ports)[i]) || port_chain(ports)[i] == '.',
    decreases ports.len(),
{
    reveal_strlit(".");
    if ports.len() == 1 {
        lemma_decimal_value(ports[0] as nat);
    } else if ports.len() > 1 {
        let w = ports.drop_last();
        lemma_chain_chars(w);
        lemma_decimal_value(ports.last() as nat);
        let c = port_chain(ports);
        let a = port_chain(w);
        let b = decimal(ports.last() as nat);
        assert forall|i: int| 0 <= i < c.len() implies is_digit(#[trigger] c[i]) || c[i] == '.' by {
            if i < a.len() {
                assert(c[i] == a[i]);
            } else if i > a.len() {
                assert(c[i] == b[i - a.len() - 1]);
                assert(is_digit(b[i - a.len() - 1]));
            }
        }
    }
}

/// The name of a device tells the ports that it was made of: the chain behind
/// the dash, or none for a root hub.
pub proof fn lemma_names_tell_ports(bus: u8, ports: Seq<u8>)
    ensures
        ports_of(entry_name(bus, ports)) == Some(ports),
{
    let name = entry_name(bus, ports);
    let d = decimal(bus as nat);
    lemma_decimal_value(bus as nat);
    if ports.len() == 0 {
        reveal_strlit("usb");
        assert forall|j: int| 0 <= j < name.len() implies #[trigger] name[j] != ':' by {
            if j >= 3 {
                assert(name[j] == d[j - 3]);
                assert(is_digit(d[j - 3]));
            }
        }
        lemma_first_at(name, ':', 0, name.len() as int);
        assert(name[0] == 'u' && name[1] == 's' && name[2] == 'b');
        assert(ports =~= Seq::<u8>::empty());
    } else {
        reveal_strlit("-");
        let head = d + "-"@;
        let c = port_chain(ports);
        lemma_chain_chars(ports);
        assert(name =~= head + c);
        assert forall|j: int| 0 <= j < name.len() implies #[trigger] name[j] != ':' by {
            if j < d.len() {
                assert(is_digit(d[j]));
            } else if j > d.len() {
                assert(name[j] == c[j - head.len()]);
            }
        }
        lemma_first_at(name, ':', 0, name.len() as int);
        assert(is_digit(d[0]));
        assert(name[0] == d[0]);
        assert forall|j: int| 0 <= j < d.len() implies #[trigger] name[j] != '-' by {
            assert(is_digit(d[j]));
        }
        assert(name[d.len() as int] == '-');
        lemma_first_at(name, '-', 0, d.len() as int);
        lemma_port_list(head, ports);
    }
}

/// Names of interfaces, which have a colon, are none of devices.
pub proof fn lemma_interface_names(name: Seq<char>, k: int)
    requires
        0 <= k < name.len(),
        name[k] == ':',
        forall|j: int| 0 <= j < k ==> #[trigger] name[j] != ':',
    ensures
        ports_of(name) is None,
{
    lemma_first_at(name, ':', 0, k);
}

/// A device is what its entry says, if it has a name with ports, a bus, an
/// address and a device descriptor; its configurations follow the descriptor.
pub proof fn lemma_entries(e: SysfsEntry)
    ensures
        device_at(e) matches Some(d) ==> {
            let b = (e.descriptors->0)@;
            &&& b.len() >= 18 && b[0] >= 18 && b[1] == 1
            &&& ports_of(e.name@) == Some(d.port_numbers)
            &&& file_number(crate::context::optional_text(e.busnum)) == Some(d.bus_number)
            &&& file_number(crate::context::optional_text(e.devnum)) == Some(d.address)
            &&& d.speed == e.speed
            &&& d.device_descriptor == device_of(b)
            &&& d.configs == split_configs(b.skip(18))
            &&& d.active_config is Some <==> e.config_value is Some
        },
        e.descriptors is None || ports_of(e.name@) is None ==> device_at(e) is None,
{
}

/// A file holds a number, and white space; a configuration that cannot be read
/// is 0.
pub proof fn lemma_files(n: u8, s: Seq<char>)
    requires
        stripped(s) == decimal(n as nat),
    ensures
        file_number(Some(s)) == Some(n),
        config_value_of(s) == n,
        file_number(None) is None,
{
    lemma_decimal_value(n as nat);
    assert(is_digit(decimal(n as nat)[0]));
}

/// Where the node of a device is: bus and address in three digits each.
pub proof fn lemma_node_paths(bus: u8, address: u8)
    ensures
        node_path(bus, address) == "/dev/bus/usb/"@ + padded_decimal(bus as nat, 3) + "/"@ + padded_decimal(
            address as nat,
            3,
        ),
        usbfs_name() == seq!['u' as u8, 's' as u8, 'b' as u8, 'f' as u8, 's' as u8],
{
}

/// A name ends at its first zero, or at the end.
pub proof fn lemma_terminated(name: Seq<u8>, rest: Seq<u8>)
    requires
        forall|i: int| 0 <= i < name.len() ==> #[trigger] name[i] != 0,
    ensures
        terminated(name + seq![0u8] + rest) == name,
        terminated(name) == name,
    decreases name.len(),
{
    let s = name + seq![0u8] + rest;
    if name.len() > 0 {
        let w = name.skip(1);
        assert forall|i: int| 0 <= i < w.len() implies #[trigger] w[i] != 0 by {
            assert(w[i] == name[i + 1]);
        }
        lemma_terminated(w, rest);
        assert(s[0] == name[0]);
        assert(s.skip(1) =~= w + seq![0u8] + rest);
        assert(seq![name[0]] + w =~= name);
    } else {
        assert(s[0] == 0);
        assert(name =~= Seq::<u8>::empty());
    }
}

/// A node that is not there means that the device is gone; an interface without
/// a driver, error 61, that there is none. Other errors stay what they are.
pub proof fn lemma_node_and_driver_errors(e: ErrorView, op: Seq<char>)
    ensures
        e.kind == ErrorKind::NotFound ==> node_error(e).kind == ErrorKind::NoDevice,
        e.kind != ErrorKind::NotFound ==> node_error(e).kind == e.kind,
        e.code is Some ==> node_error(e).code == e.code,
        e.code is None ==> node_error(e).code == Some(0i32),
        node_error(e).message == Some("open device node"@),
        e.code == Some(61i32) ==> driver_error(e, op).kind == ErrorKind::NotFound && driver_error(e, op).message == Some(
            op,
        ) && driver_error(e, op).code == Some(61i32),
        e.code != Some(61i32) ==> driver_error(e, op) == e,
{
}

} // verus!
