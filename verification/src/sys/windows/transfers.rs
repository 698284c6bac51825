//! Transfers through WinUSB: which interface owns an endpoint, which call
//! starts a transfer, and what a completion means.

use super::hub;
use super::hub::not_winusb;
use super::{
    code_kind, errno_kind, ERROR_BAD_COMMAND, ERROR_BUFFER_OVERFLOW, ERROR_DEVICE_NOT_CONNECTED, ERROR_FILE_NOT_FOUND,
    ERROR_GEN_FAILURE, ERROR_IO_PENDING, ERROR_MORE_DATA, ERROR_NO_SUCH_DEVICE, ERROR_OPERATION_ABORTED,
    ERROR_SEM_TIMEOUT, ERROR_SUCCESS, ERROR_TIMEOUT, WAIT_TIMEOUT,
};
use crate::class::{
    endpoint_at, find_endpoint, interface_numbered, lemma_interface_numbered, lemma_no_interface_numbered, walk,
};
use crate::descriptors::{
    alt_position, associations, bytes_per_frame, ConfigDescriptor, EndpointDescriptor, Interface, InterfaceAssociation,
};
use crate::error::{message, outcome, Error, ErrorKind, ErrorView, Result};
use crate::sys::flight::{control_request, request_in, setup_packet_of, stopped_as, Flight};
use crate::transfer::{lemma_total_is_monotonic, total_length, TransferFlags};
use crate::types::{
    direction_of, request, setup_of, ControlSetup, Direction, IsoPacket, TransferStatus, TransferType,
};
use vstd::prelude::*;

verus! {

// ----- functions and interfaces ---------------------------------------------------------

/// Whether an association covers an interface.
pub open spec fn covers(a: InterfaceAssociation, interface: u8) -> bool {
    a.first_interface <= interface && interface < (if a.first_interface + a.interface_count > 255 {
        255
    } else {
        a.first_interface + a.interface_count
    })
}

/// The first interface of the function that an interface is part of: by the
/// first association that covers it, or itself.
pub open spec fn function_first(v: Seq<InterfaceAssociation>, interface: u8) -> u8
    decreases v.len(),
{
    if v.len() == 0 {
        interface
    } else if covers(v[0], interface) {
        v[0].first_interface
    } else {
        function_first(v.skip(1), interface)
    }
}

/// The associations of a configuration, none if it is not known.
pub open spec fn associations_of(cfg: Option<ConfigDescriptor>) -> Seq<InterfaceAssociation> {
    match cfg {
        Some(c) => associations(walk(c.extra@)),
        None => Seq::empty(),
    }
}

/// An optional configuration as a value.
pub open spec fn known(cfg: Option<&ConfigDescriptor>) -> Option<ConfigDescriptor> {
    match cfg {
        Some(c) => Some(*c),
        None => None,
    }
}

fn first_of_function(cfg: Option<&ConfigDescriptor>, interface: u8) -> (r: u8)
    ensures
        r == function_first(associations_of(known(cfg)), interface),
        r <= interface,
{
    match cfg {
        Some(c) => {
            let v = c.interface_associations();
            let ghost all = v@;
            let mut i: usize = 0;
            assert(all.skip(0) =~= all);
            while i < v.len()
                invariant
                    i <= all.len(),
                    all == v@,
                    all == associations_of(known(cfg)),
                    function_first(all, interface) == function_first(all.skip(i as int), interface),
                decreases all.len() - i,
            {
                assert(all.skip(i as int)[0] == all[i as int]);
                assert(all.skip(i as int).skip(1) =~= all.skip(i + 1));
                let a: InterfaceAssociation = v[i];
                let sum: u16 = a.first_interface as u16 + a.interface_count as u16;
                let end: u16 = if sum > 255 {
                    255
                } else {
                    sum
                };
                if a.first_interface <= interface && (interface as u16) < end {
                    return a.first_interface;
                }
                i += 1;
            }
            interface
        },
        None => interface,
    }
}

/// Where an interface is to be had: as the one with that index of the function
/// that starts at `first`, which is function `function` of those that WinUSB
/// drives, or of the whole device.
#[derive(Debug, Clone, Copy, PartialEq, Eq, Structural)]
pub struct InterfacePlace {
    /// The function, `None` for the whole device.
    pub function: Option<usize>,
    /// The interface's index there: 0 is the primary one, and number `i + 1`
    /// its associated interface `i`.
    pub index: u8,
}

/// The position of the first function that starts at an interface.
pub open spec fn function_at(functions: Seq<u8>, first: u8) -> Option<int>
    decreases functions.len(),
{
    if functions.len() == 0 {
        None
    } else if functions[0] == first {
        Some(0)
    } else {
        match function_at(functions.skip(1), first) {
            Some(i) => Some(i + 1),
            None => None,
        }
    }
}

/// Where an interface is to be had.
pub open spec fn place_of(
    whole: bool,
    functions: Seq<u8>,
    cfg: Option<ConfigDescriptor>,
    interface: u8,
) -> std::result::Result<InterfacePlace, ErrorView> {
    if whole {
        Ok(InterfacePlace { function: None, index: interface })
    } else {
        let first = function_first(associations_of(cfg), interface);
        match function_at(functions, first) {
            Some(i) => Ok(InterfacePlace { function: Some(i as usize), index: (interface - first) as u8 }),
            None => Err(not_winusb()),
        }
    }
}

/// Where an interface is to be had: in the whole device, if WinUSB drives it,
/// or else in the function that covers it. `functions` are the first
/// interfaces of the functions that WinUSB drives. Interface association
/// descriptors group interfaces into functions.
pub fn function_for(whole: bool, functions: &[u8], cfg: Option<&ConfigDescriptor>, interface: u8) -> (r: Result<
    InterfacePlace,
>)
    ensures
        outcome(r) == place_of(whole, functions@, known(cfg), interface),
{
    if whole {
        return Ok(InterfacePlace { function: None, index: interface });
    }
    let first: u8 = first_of_function(cfg, interface);
    let ghost all = functions@;
    let mut i: usize = 0;
    assert(all.skip(0) =~= all);
    while i < functions.len()
        invariant
            i <= all.len(),
            all == functions@,
            !whole,
            first <= interface,
            first == function_first(associations_of(known(cfg)), interface),
            function_at(all, first) == (match function_at(all.skip(i as int), first) {
                Some(k) => Some(k + i),
                None => None,
            }),
        decreases all.len() - i,
    {
        assert(all.skip(i as int)[0] == all[i as int]);
        assert(all.skip(i as int).skip(1) =~= all.skip(i + 1));
        if functions[i] == first {
            return Ok(InterfacePlace { function: Some(i), index: interface - first });
        }
        i += 1;
    }
    Err(Error::with_message(ErrorKind::NotSupported, "device is not bound to the WinUSB driver"))
}

/// Whether another driver holds an interface: it is not to be had through
/// WinUSB.
pub fn kernel_driver_active(whole: bool, place: Result<InterfacePlace>) -> (r: bool)
    ensures
        r == (!whole && place is Err),
{
    if whole {
        false
    } else {
        match place {
            Ok(_) => false,
            Err(_) => true,
        }
    }
}

/// A claimed interface and the alternate setting that is selected on it.
#[derive(Debug, Clone, Copy, PartialEq, Eq, Structural)]
pub struct Claimed {
    /// The interface.
    pub interface: u8,
    /// The alternate setting.
    pub alt: u8,
}

/// The endpoint of a claimed interface with an address, in the alternate
/// setting that is selected.
pub open spec fn claimed_endpoint(v: Seq<Interface>, c: Claimed, address: u8) -> Option<EndpointDescriptor> {
    match interface_numbered(v, c.interface) {
        Some(i) => {
            let k = alt_position(i.alt_settings@, c.alt);
            if k < i.alt_settings@.len() {
                endpoint_at(i.alt_settings@[k].endpoints@, address)
            } else {
                None
            }
        },
        None => None,
    }
}

/// The first claimed interface that owns an endpoint, and the most that the
/// endpoint moves in a (micro)frame.
pub open spec fn owner_among(v: Seq<Interface>, claimed: Seq<Claimed>, address: u8) -> Option<(int, int)>
    decreases claimed.len(),
{
    if claimed.len() == 0 {
        None
    } else {
        match claimed_endpoint(v, claimed[0], address) {
            Some(e) => Some((0, bytes_per_frame(e.max_packet_size))),
            None => match owner_among(v, claimed.skip(1), address) {
                Some((i, max)) => Some((i + 1, max)),
                None => None,
            },
        }
    }
}

/// The error of an endpoint that no claimed interface has.
pub open spec fn no_owner() -> ErrorView {
    message(ErrorKind::NotFound, "endpoint does not belong to a claimed interface"@)
}

/// The owner of an endpoint.
pub open spec fn owner_of(
    cfg: Option<ConfigDescriptor>,
    claimed: Seq<Claimed>,
    address: u8,
) -> std::result::Result<(int, int), ErrorView> {
    match cfg {
        None => Err(message(ErrorKind::NotFound, "no configuration descriptor"@)),
        Some(c) => match owner_among(c.interfaces@, claimed, address) {
            Some(x) => Ok(x),
            None => Err(no_owner()),
        },
    }
}

fn endpoint_max(cfg: &ConfigDescriptor, c: Claimed, address: u8) -> (r: Option<u32>)
    ensures
        match claimed_endpoint(cfg.interfaces@, c, address) {
            Some(e) => r is Some && r->0 == bytes_per_frame(e.max_packet_size),
            None => r is None,
        },
{
    match cfg.interface(c.interface) {
        Some(i) => {
            proof {
                lemma_interface_numbered(cfg.interfaces@, c.interface, *i);
            }
            match i.alt_setting(c.alt) {
                Some(alt) => match find_endpoint(alt, address) {
                    Some(e) => Some(e.max_packet_size()),
                    None => None,
                },
                None => None,
            }
        },
        None => {
            proof {
                lemma_no_interface_numbered(cfg.interfaces@, c.interface);
            }
            None
        },
    }
}

/// The claimed interface that owns an endpoint, by its index, per its current
/// alternate setting; and the most that the endpoint moves in a (micro)frame.
pub fn pipe_owner(cfg: Option<&ConfigDescriptor>, claimed: &[Claimed], address: u8) -> (r: Result<(usize, u32)>)
    ensures
        match owner_of(known(cfg), claimed@, address) {
            Ok((i, max)) => r is Ok && r->Ok_0.0 == i && r->Ok_0.1 == max && 0 <= i < claimed@.len(),
            Err(e) => r is Err && r->Err_0@ == e,
        },
{
    match cfg {
        None => Err(Error::with_message(ErrorKind::NotFound, "no configuration descriptor")),
        Some(c) => {
            let ghost all = claimed@;
            let ghost v = c.interfaces@;
            let mut i: usize = 0;
            assert(all.skip(0) =~= all);
            while i < claimed.len()
                invariant
                    i <= all.len(),
                    all == claimed@,
                    v == c.interfaces@,
                    known(cfg) == Some(*c),
                    owner_among(v, all, address) == (match owner_among(v, all.skip(i as int), address) {
                        Some((k, max)) => Some((k + i, max)),
                        None => None,
                    }),
                decreases all.len() - i,
            {
                assert(all.skip(i as int)[0] == all[i as int]);
                assert(all.skip(i as int).skip(1) =~= all.skip(i + 1));
                match endpoint_max(c, claimed[i], address) {
                    Some(max) => {
                        return Ok((i, max));
                    },
                    None => {},
                }
                i += 1;
            }
            Err(Error::with_message(ErrorKind::NotFound, "endpoint does not belong to a claimed interface"))
        },
    }
}

/// The outcome of selecting a configuration, which WinUSB cannot change.
pub fn set_configuration(value: u8, active: Option<u8>) -> (r: Result<()>)
    ensures
        active == Some(value) ==> r is Ok,
        active != Some(value) ==> r is Err && r->Err_0@ == message(
            ErrorKind::NotSupported,
            "WinUSB cannot change the configuration"@,
        ),
{
    let same = match active {
        Some(v) => v == value,
        None => false,
    };
    if same {
        Ok(())
    } else {
        Err(Error::with_message(ErrorKind::NotSupported, "WinUSB cannot change the configuration"))
    }
}

/// The outcome of a reset, which WinUSB cannot do.
pub fn reset() -> (r: Result<()>)
    ensures
        r is Err && r->Err_0@ == message(ErrorKind::NotSupported, "WinUSB cannot reset a device"@),
{
    Err(Error::with_message(ErrorKind::NotSupported, "WinUSB cannot reset a device"))
}

/// The outcome of detaching a driver, which cannot be done.
pub fn detach_kernel_driver() -> (r: Result<()>)
    ensures
        r is Err && r->Err_0@ == message(ErrorKind::NotSupported, "drivers cannot be detached on Windows"@),
{
    Err(Error::with_message(ErrorKind::NotSupported, "drivers cannot be detached on Windows"))
}

/// The outcome of attaching a driver, which cannot be done.
pub fn attach_kernel_driver() -> (r: Result<()>)
    ensures
        r is Err && r->Err_0@ == message(ErrorKind::NotSupported, "drivers cannot be attached on Windows"@),
{
    Err(Error::with_message(ErrorKind::NotSupported, "drivers cannot be attached on Windows"))
}

/// The error of an interface that is not claimed.
pub fn not_claimed() -> (r: Error)
    ensures
        r@ == message(ErrorKind::NotFound, "interface not claimed"@),
{
    Error::with_message(ErrorKind::NotFound, "interface not claimed")
}

// ----- isochronous streams ---------------------------------------------------------------

/// Isochronous transfers in flight per endpoint. A submission joins the
/// running stream when there are any, and starts a new one otherwise.
#[derive(Debug)]
pub struct Streams {
    /// How many, by endpoint address.
    pub counts: Vec<u32>,
}

impl Streams {
    /// Whether there is a count for every address.
    pub open spec fn wf(self) -> bool {
        self.counts@.len() == 256
    }

    /// Nothing is in flight.
    pub fn new() -> (r: Self)
        ensures
            r.wf(),
            forall|e: int| 0 <= e < 256 ==> r.counts@[e] == 0,
    {
        let mut counts: Vec<u32> = Vec::new();
        while counts.len() < 256
            invariant
                counts@.len() <= 256,
                forall|e: int| 0 <= e < counts@.len() ==> counts@[e] == 0,
            decreases 256 - counts@.len(),
        {
            counts.push(0);
        }
        Streams { counts }
    }

    /// Whether a stream runs on an endpoint.
    pub fn is_running(&self, endpoint: u8) -> (r: bool)
        requires
            self.wf(),
        ensures
            r == (self.counts@[endpoint as int] > 0),
    {
        self.counts[endpoint as usize] > 0
    }

    /// Notes one more transfer in flight.
    pub fn started(&mut self, endpoint: u8)
        requires
            old(self).wf(),
            old(self).counts@[endpoint as int] < u32::MAX,
        ensures
            final(self).wf(),
            final(self).counts@ == old(self).counts@.update(
                endpoint as int,
                (old(self).counts@[endpoint as int] + 1) as u32,
            ),
    {
        let n: u32 = self.counts[endpoint as usize];
        self.counts.set(endpoint as usize, n + 1);
    }

    /// Notes that a transfer ended. If it did not complete the stream is
    /// broken, and the next submission starts a new one.
    pub fn ended(&mut self, endpoint: u8, status: TransferStatus)
        requires
            old(self).wf(),
        ensures
            final(self).wf(),
            final(self).counts@ == old(self).counts@.update(
                endpoint as int,
                if status != TransferStatus::Completed || old(self).counts@[endpoint as int] == 0 {
                    0
                } else {
                    (old(self).counts@[endpoint as int] - 1) as u32
                },
            ),
    {
        let n: u32 = self.counts[endpoint as usize];
        let rest: u32 = if status.is_ok() && n > 0 {
            n - 1
        } else {
            0
        };
        self.counts.set(endpoint as usize, rest);
    }

    /// Notes that whatever stream was running on an endpoint is over.
    pub fn cleared(&mut self, endpoint: u8)
        requires
            old(self).wf(),
        ensures
            final(self).wf(),
            final(self).counts@ == old(self).counts@.update(endpoint as int, 0),
    {
        self.counts.set(endpoint as usize, 0);
    }
}

// ----- submitting -----------------------------------------------------------------------

/// The call that starts a transfer.
#[derive(Debug, Clone, Copy, PartialEq, Eq, Structural)]
pub enum Call {
    /// `WinUsb_ControlTransfer`; the request's length is that of the data
    /// stage.
    Control(ControlSetup),
    /// That many bytes of a descriptor through the parent hub.
    Hub(ControlSetup, usize),
    /// `WinUsb_ReadPipe` on the claimed interface with that index.
    Read {
        /// The index.
        owner: usize,
        /// How many bytes.
        length: u32,
    },
    /// `WinUsb_WritePipe` on the claimed interface with that index, after
    /// `SHORT_PACKET_TERMINATE` was set.
    Write {
        /// The index.
        owner: usize,
        /// How many bytes.
        length: u32,
        /// The policy.
        zero_packet: bool,
    },
    /// `WinUsb_ReadIsochPipeAsap` or `WinUsb_WriteIsochPipeAsap`.
    Isoch {
        /// The index.
        owner: usize,
        /// Whether it reads.
        read: bool,
        /// How many bytes.
        total: u32,
        /// How many packets.
        packets: usize,
        /// Whether it joins the running stream.
        join: bool,
    },
}

/// Whether WinUSB can run a packet: it slices the buffer itself, at the
/// endpoint's packet size, rather than following a packet table. Only the last
/// packet of an OUT transfer may be shorter.
pub open spec fn runnable(packets: Seq<IsoPacket>, i: int, max: int, read: bool) -> bool {
    packets[i].length == max || (!read && i + 1 == packets.len() && packets[i].length <= max)
}

/// The isochronous call, or why there is none.
pub open spec fn isoch_call(
    packets: Seq<IsoPacket>,
    length: int,
    owner: int,
    max: int,
    read: bool,
    join: bool,
) -> std::result::Result<Call, ErrorView> {
    if exists|i: int| 0 <= i < packets.len() && !#[trigger] runnable(packets, i, max, read) {
        Err(
            message(
                ErrorKind::InvalidParam,
                "WinUSB splits isochronous transfers at the endpoint's packet size: every packet must be exactly that long, except the last packet of an OUT transfer, which may be shorter"@,
            ),
        )
    } else if total_length(packets) > length {
        Err(message(ErrorKind::InvalidParam, "isochronous packets do not fit the buffer"@))
    } else {
        Ok(
            Call::Isoch {
                owner: owner as usize,
                read,
                total: total_length(packets) as u32,
                packets: packets.len() as usize,
                join,
            },
        )
    }
}

/// What the caller can do for a transfer.
#[derive(Debug, Clone, Copy, PartialEq, Eq, Structural)]
pub struct Means {
    /// There is a WinUSB handle for control requests.
    pub control: bool,
    /// There is a parent hub.
    pub hub: bool,
    /// There is the WinUSB isoch API.
    pub isoch: bool,
}

/// The call that starts a transfer.
pub open spec fn call_for(
    kind: TransferType,
    endpoint: u8,
    buffer: Seq<u8>,
    flags: TransferFlags,
    packets: Seq<IsoPacket>,
    means: Means,
    cfg: Option<ConfigDescriptor>,
    claimed: Seq<Claimed>,
    running: bool,
) -> std::result::Result<Call, ErrorView> {
    let read = direction_of(endpoint) == Direction::In;
    if buffer.len() > u32::MAX {
        Err(message(ErrorKind::InvalidParam, "buffer too large"@))
    } else {
        match kind {
            TransferType::Control => if means.control {
                Ok(Call::Control(request_in(buffer)))
            } else {
                let setup = setup_of(buffer.take(8));
                if means.hub && setup.request_type == 0x80 && setup.request == request::GET_DESCRIPTOR {
                    Ok(
                        Call::Hub(
                            setup,
                            if buffer.len() - 8 < setup.length {
                                (buffer.len() - 8) as usize
                            } else {
                                setup.length as usize
                            },
                        ),
                    )
                } else {
                    Err(not_winusb())
                }
            },
            TransferType::Isochronous => if !means.isoch {
                Err(
                    message(
                        ErrorKind::NotSupported,
                        "isochronous transfers need the WinUSB isoch API, which arrives with Windows 8.1"@,
                    ),
                )
            } else {
                match owner_of(cfg, claimed, endpoint) {
                    Ok((owner, max)) => isoch_call(packets, buffer.len() as int, owner, max, read, running),
                    Err(e) => Err(e),
                }
            },
            _ => match owner_of(cfg, claimed, endpoint) {
                Ok((owner, _)) => if read {
                    Ok(Call::Read { owner: owner as usize, length: buffer.len() as u32 })
                } else {
                    Ok(
                        Call::Write {
                            owner: owner as usize,
                            length: buffer.len() as u32,
                            zero_packet: flags.zero_packet,
                        },
                    )
                },
                Err(e) => Err(e),
            },
        }
    }
}

/// A layout whose packets are all as long as the endpoint's takes is accepted,
/// if it fits the buffer: such a transfer is portable.
pub proof fn lemma_whole_packets_are_portable(
    packets: Seq<IsoPacket>,
    length: int,
    owner: int,
    max: int,
    read: bool,
    join: bool,
)
    requires
        forall|i: int| 0 <= i < packets.len() ==> (#[trigger] packets[i]).length == max,
        total_length(packets) <= length,
    ensures
        isoch_call(packets, length, owner, max, read, join) is Ok,
{
    assert forall|i: int| 0 <= i < packets.len() implies #[trigger] runnable(packets, i, max, read) by {
        assert(packets[i].length == max);
    }
}

/// Any other layout is refused, but for a shorter last packet of an OUT
/// transfer.
pub proof fn lemma_other_layouts_are_refused(
    packets: Seq<IsoPacket>,
    i: int,
    length: int,
    owner: int,
    max: int,
    read: bool,
    join: bool,
)
    requires
        0 <= i < packets.len(),
        packets[i].length != max,
        read || i + 1 < packets.len() || packets[i].length > max,
    ensures
        isoch_call(packets, length, owner, max, read, join) is Err,
{
    assert(!runnable(packets, i, max, read));
}

fn prepare_isochronous(
    packets: &[IsoPacket],
    length: usize,
    owner: usize,
    max: u32,
    read: bool,
    join: bool,
) -> (r: Result<Call>)
    requires
        length <= u32::MAX,
    ensures
        outcome(r) == isoch_call(packets@, length as int, owner as int, max as int, read, join),
{
    let n: usize = packets.len();
    let mut i: usize = 0;
    while i < n
        invariant
            i <= n,
            n == packets@.len(),
            forall|k: int| 0 <= k < i ==> #[trigger] runnable(packets@, k, max as int, read),
        decreases n - i,
    {
        let l: u32 = packets[i].length;
        let last = i + 1 == n;
        if !(l == max || (!read && last && l <= max)) {
            assert(!runnable(packets@, i as int, max as int, read));
            return Err(
                Error::with_message(
                    ErrorKind::InvalidParam,
                    "WinUSB splits isochronous transfers at the endpoint's packet size: every packet must be exactly that long, except the last packet of an OUT transfer, which may be shorter",
                ),
            );
        }
        i += 1;
    }
    let mut total: usize = 0;
    let mut k: usize = 0;
    assert(packets@.take(0) =~= Seq::<IsoPacket>::empty());
    while k < n
        invariant
            k <= n,
            n == packets@.len(),
            length <= u32::MAX,
            forall|j: int| 0 <= j < n ==> #[trigger] runnable(packets@, j, max as int, read),
            total == total_length(packets@.take(k as int)),
            total <= length,
        decreases n - k,
    {
        assert(packets@.take(k + 1).drop_last() =~= packets@.take(k as int));
        let l: u32 = packets[k].length;
        if l as u64 > (length - total) as u64 {
            proof {
                lemma_total_is_monotonic(packets@, k + 1);
            }
            return Err(Error::with_message(ErrorKind::InvalidParam, "isochronous packets do not fit the buffer"));
        }
        total = total + l as usize;
        k += 1;
    }
    assert(packets@.take(k as int) =~= packets@);
    Ok(Call::Isoch { owner, read, total: total as u32, packets: n, join })
}

/// Picks the call that starts a transfer; `running` is whether an isochronous
/// stream runs on its endpoint. On a device without WinUSB only standard
/// GET_DESCRIPTOR requests can be served, through the parent hub.
pub fn submit(
    kind: TransferType,
    endpoint: u8,
    buffer: &[u8],
    flags: TransferFlags,
    packets: &[IsoPacket],
    means: Means,
    cfg: Option<&ConfigDescriptor>,
    claimed: &[Claimed],
    running: bool,
) -> (r: Result<Call>)
    requires
        kind == TransferType::Control ==> buffer@.len() >= 8,
    ensures
        outcome(r) == call_for(
            kind,
            endpoint,
            buffer@,
            flags,
            packets@,
            means,
            known(cfg),
            claimed@,
            running,
        ),
{
    let len: usize = buffer.len();
    if len as u64 > u32::MAX as u64 {
        return Err(Error::with_message(ErrorKind::InvalidParam, "buffer too large"));
    }
    let read = match Direction::from_address(endpoint) {
        Direction::In => true,
        Direction::Out => false,
    };
    match kind {
        TransferType::Control => {
            if means.control {
                Ok(Call::Control(control_request(buffer)))
            } else {
                let setup = setup_packet_of(buffer);
                match hub::hub_control(setup, len - 8, means.hub) {
                    Ok(n) => Ok(Call::Hub(setup, n)),
                    Err(e) => Err(e),
                }
            }
        },
        TransferType::Isochronous => {
            if !means.isoch {
                return Err(
                    Error::with_message(
                        ErrorKind::NotSupported,
                        "isochronous transfers need the WinUSB isoch API, which arrives with Windows 8.1",
                    ),
                );
            }
            match pipe_owner(cfg, claimed, endpoint) {
                Ok((owner, max)) => prepare_isochronous(packets, len, owner, max, read, running),
                Err(e) => Err(e),
            }
        },
        _ => match pipe_owner(cfg, claimed, endpoint) {
            Ok((owner, _)) => if read {
                Ok(Call::Read { owner, length: len as u32 })
            } else {
                Ok(Call::Write { owner, length: len as u32, zero_packet: flags.zero_packet })
            },
            Err(e) => Err(e),
        },
    }
}

/// Whether the operating system took a request: whether it completed inline or
/// is pending, its completion is on its way.
pub fn accepted(ok: bool, err: i32) -> (r: Result<()>)
    ensures
        ok || err == ERROR_IO_PENDING ==> r is Ok,
        !ok && err != ERROR_IO_PENDING ==> r is Err && r->Err_0@ == (ErrorView {
            kind: code_kind(err),
            code: Some(err),
            message: Some("submit transfer"@),
        }),
{
    if ok || err == ERROR_IO_PENDING {
        Ok(())
    } else {
        Err(Error::from_code(errno_kind(err), err).context("submit transfer"))
    }
}

// ----- the event thread ------------------------------------------------------------------

/// `INFINITE`
pub const INFINITE: u32 = 0xffff_ffff;

/// How long to wait for completions, in milliseconds, for a deadline in
/// nanoseconds.
pub open spec fn wait_ms(deadline: Option<u64>, now: u64) -> int {
    match deadline {
        Some(d) => {
            let left = if d > now {
                d - now
            } else {
                0
            };
            let ms = left / 1_000_000 + 1;
            if ms > INFINITE - 1 {
                INFINITE - 1
            } else {
                ms
            }
        },
        None => INFINITE as int,
    }
}

/// How long to wait for completions.
pub fn wait_timeout(deadline: Option<u64>, now: u64) -> (r: u32)
    ensures
        r == wait_ms(deadline, now),
{
    match deadline {
        Some(d) => {
            let left: u64 = if d > now {
                d - now
            } else {
                0
            };
            let ms: u64 = left / 1_000_000 + 1;
            if ms > 0xffff_fffe {
                0xffff_fffe
            } else {
                ms as u32
            }
        },
        None => INFINITE,
    }
}

/// What follows a wait for completions.
#[derive(Debug, Clone, Copy, PartialEq, Eq, Structural)]
pub enum WaitNext {
    /// Finish the request that completed, then look for transfers that are
    /// due.
    Finish,
    /// Look for transfers that are due.
    Expire,
    /// The port is gone: end.
    End,
}

/// What follows a wait.
pub open spec fn wait_next(ok: bool, got: bool, err: i32) -> WaitNext {
    if got {
        WaitNext::Finish
    } else if !ok && err != WAIT_TIMEOUT {
        WaitNext::End
    } else {
        WaitNext::Expire
    }
}

/// What follows a wait that gave a completed request or not, and failed with
/// `err` if it failed.
pub fn after_wait(ok: bool, got: bool, err: i32) -> (r: WaitNext)
    ensures
        r == wait_next(ok, got, err),
{
    if got {
        WaitNext::Finish
    } else if !ok && err != WAIT_TIMEOUT {
        WaitNext::End
    } else {
        WaitNext::Expire
    }
}

// ----- completions -----------------------------------------------------------------------

/// The status that an error code stands for.
pub open spec fn error_status(err: i32) -> TransferStatus {
    if err == ERROR_SUCCESS {
        TransferStatus::Completed
    } else if err == ERROR_OPERATION_ABORTED {
        TransferStatus::Cancelled
    } else if err == ERROR_SEM_TIMEOUT || err == ERROR_TIMEOUT {
        TransferStatus::TimedOut
    } else if err == ERROR_GEN_FAILURE {
        TransferStatus::Stall
    } else if err == ERROR_DEVICE_NOT_CONNECTED || err == ERROR_NO_SUCH_DEVICE || err == ERROR_FILE_NOT_FOUND || err
        == ERROR_BAD_COMMAND {
        TransferStatus::NoDevice
    } else if err == ERROR_MORE_DATA || err == ERROR_BUFFER_OVERFLOW {
        TransferStatus::Overflow
    } else {
        TransferStatus::Error
    }
}

/// The status of a transfer.
pub open spec fn final_status(f: Flight, err: i32) -> TransferStatus {
    match stopped_as(f) {
        Some(s) => s,
        None => error_status(err),
    }
}

/// How a request ended: the transfer's status and whether its device is gone.
pub fn finish(flight: Flight, err: i32) -> (r: (TransferStatus, bool))
    ensures
        r.0 == final_status(flight, err),
        r.1 == (stopped_as(flight) is None && error_status(err) == TransferStatus::NoDevice),
{
    if flight.timed_out {
        return (TransferStatus::TimedOut, false);
    }
    if flight.cancelled {
        return (TransferStatus::Cancelled, false);
    }
    match err {
        ERROR_SUCCESS => (TransferStatus::Completed, false),
        ERROR_OPERATION_ABORTED => (TransferStatus::Cancelled, false),
        ERROR_SEM_TIMEOUT | ERROR_TIMEOUT => (TransferStatus::TimedOut, false),
        ERROR_GEN_FAILURE => (TransferStatus::Stall, false),
        ERROR_DEVICE_NOT_CONNECTED | ERROR_NO_SUCH_DEVICE | ERROR_FILE_NOT_FOUND | ERROR_BAD_COMMAND => (
            TransferStatus::NoDevice,
            true,
        ),
        ERROR_MORE_DATA | ERROR_BUFFER_OVERFLOW => (TransferStatus::Overflow, false),
        _ => (TransferStatus::Error, false),
    }
}

/// `USBD_STATUS_STALL_PID`
pub const USBD_STATUS_STALL_PID: u32 = 0xc000_0004;

/// `USBD_STATUS_DEV_NOT_RESPONDING`
pub const USBD_STATUS_DEV_NOT_RESPONDING: u32 = 0xc000_0001;

/// `USBD_STATUS_DATA_OVERRUN`
pub const USBD_STATUS_DATA_OVERRUN: u32 = 0xc000_0008;

/// `USBD_STATUS_BUFFER_OVERRUN`
pub const USBD_STATUS_BUFFER_OVERRUN: u32 = 0xc000_3003;

/// `USBD_STATUS_CANCELED`
pub const USBD_STATUS_CANCELED: u32 = 0xc001_0000;

/// `USBD_STATUS_DEVICE_GONE`
pub const USBD_STATUS_DEVICE_GONE: u32 = 0xc000_1000;

/// `USBD_SUCCESS`: the top four bits, the severity, are zero.
pub open spec fn is_success(status: u32) -> bool {
    status < 0x1000_0000
}

/// Whether a `USBD_STATUS` is a success.
pub fn usbd_success(status: u32) -> (r: bool)
    ensures
        r == is_success(status),
{
    status < 0x1000_0000
}

/// The packet status that a `USBD_STATUS` stands for.
pub open spec fn packet_status(status: u32) -> TransferStatus {
    if is_success(status) {
        TransferStatus::Completed
    } else if status == USBD_STATUS_STALL_PID {
        TransferStatus::Stall
    } else if status == USBD_STATUS_DATA_OVERRUN || status == USBD_STATUS_BUFFER_OVERRUN {
        TransferStatus::Overflow
    } else if status == USBD_STATUS_CANCELED {
        TransferStatus::Cancelled
    } else if status == USBD_STATUS_DEV_NOT_RESPONDING || status == USBD_STATUS_DEVICE_GONE {
        TransferStatus::NoDevice
    } else {
        TransferStatus::Error
    }
}

/// Maps a `USBD_STATUS` to the per-packet status the caller sees.
pub fn usbd_packet_status(status: u32) -> (r: TransferStatus)
    ensures
        r == packet_status(status),
{
    if usbd_success(status) {
        return TransferStatus::Completed;
    }
    match status {
        USBD_STATUS_STALL_PID => TransferStatus::Stall,
        USBD_STATUS_DATA_OVERRUN | USBD_STATUS_BUFFER_OVERRUN => TransferStatus::Overflow,
        USBD_STATUS_CANCELED => TransferStatus::Cancelled,
        USBD_STATUS_DEV_NOT_RESPONDING | USBD_STATUS_DEVICE_GONE => TransferStatus::NoDevice,
        _ => TransferStatus::Error,
    }
}

/// What is reported of one packet of an isochronous read.
#[derive(Debug, Clone, Copy, PartialEq, Eq, Structural)]
pub struct PacketSlot {
    /// The bytes it moved.
    pub length: u32,
    /// Its `USBD_STATUS`.
    pub status: u32,
}

/// The slot of a packet; one that is not there is empty.
pub open spec fn slot_at(slots: Seq<PacketSlot>, i: int) -> PacketSlot {
    if i < slots.len() {
        slots[i]
    } else {
        PacketSlot { length: 0, status: 0 }
    }
}

/// The packets of an isochronous read.
pub open spec fn read_packets(requested: Seq<IsoPacket>, slots: Seq<PacketSlot>) -> Seq<IsoPacket> {
    Seq::new(
        requested.len(),
        |i: int|
            IsoPacket {
                length: requested[i].length,
                actual_length: slot_at(slots, i).length,
                status: packet_status(slot_at(slots, i).status),
            },
    )
}

/// The bytes that the first `n` packets of an isochronous read moved.
pub open spec fn slots_moved(slots: Seq<PacketSlot>, n: int) -> int
    decreases n,
{
    if n <= 0 {
        0
    } else {
        slots_moved(slots, n - 1) + slot_at(slots, n - 1).length
    }
}

/// How much of `moved` bytes, spread over packets in order, falls to packet
/// `i`.
pub open spec fn share(requested: Seq<IsoPacket>, moved: int, i: int) -> u32 {
    let before = total_length(requested.take(i));
    if moved <= before {
        0
    } else if moved - before < requested[i].length {
        (moved - before) as u32
    } else {
        requested[i].length
    }
}

/// The packets of an isochronous write: only the total is reported, so it is
/// spread across the packets in order.
pub open spec fn written_packets(requested: Seq<IsoPacket>, moved: int, status: TransferStatus) -> Seq<IsoPacket> {
    Seq::new(
        requested.len(),
        |i: int|
            IsoPacket { length: requested[i].length, actual_length: share(requested, moved, i), status },
    )
}

fn spread(requested: &[IsoPacket], moved: usize, status: TransferStatus) -> (r: Vec<IsoPacket>)
    ensures
        r@ == written_packets(requested@, moved as int, status),
{
    let mut out: Vec<IsoPacket> = Vec::new();
    let mut left: usize = moved;
    let mut i: usize = 0;
    assert(requested@.take(0) =~= Seq::<IsoPacket>::empty());
    while i < requested.len()
        invariant
            i <= requested@.len(),
            out@ == written_packets(requested@, moved as int, status).take(i as int),
            left == (if moved <= total_length(requested@.take(i as int)) {
                0
            } else {
                moved - total_length(requested@.take(i as int))
            }),
        decreases requested@.len() - i,
    {
        assert(requested@.take(i + 1).drop_last() =~= requested@.take(i as int));
        let length: u32 = requested[i].length;
        let took: u32 = if (left as u64) < length as u64 {
            left as u32
        } else {
            length
        };
        left = left - took as usize;
        out.push(IsoPacket { length, actual_length: took, status });
        assert(out@ =~= written_packets(requested@, moved as int, status).take(i + 1));
        i += 1;
    }
    assert(written_packets(requested@, moved as int, status).take(i as int) =~= written_packets(
        requested@,
        moved as int,
        status,
    ));
    out
}

/// Turns one completed isochronous submission into per-packet results and the
/// bytes that it moved. `slots` is empty for a write.
pub fn finish_isochronous(
    status: TransferStatus,
    moved: usize,
    requested: &[IsoPacket],
    slots: &[PacketSlot],
) -> (r: (Vec<IsoPacket>, usize))
    requires
        slots_moved(slots@, requested@.len() as int) <= usize::MAX,
    ensures
        slots@.len() == 0 ==> r.0@ == written_packets(requested@, moved as int, status) && r.1 == moved,
        slots@.len() > 0 ==> r.0@ == read_packets(requested@, slots@) && r.1 == slots_moved(
            slots@,
            requested@.len() as int,
        ),
{
    if slots.len() == 0 {
        return (spread(requested, moved, status), moved);
    }
    let mut out: Vec<IsoPacket> = Vec::new();
    let mut total: usize = 0;
    let mut i: usize = 0;
    while i < requested.len()
        invariant
            i <= requested@.len(),
            out@ == read_packets(requested@, slots@).take(i as int),
            total == slots_moved(slots@, i as int),
            slots_moved(slots@, requested@.len() as int) <= usize::MAX,
        decreases requested@.len() - i,
    {
        let slot: PacketSlot = if i < slots.len() {
            slots[i]
        } else {
            PacketSlot { length: 0, status: 0 }
        };
        proof {
            lemma_slots_grow(slots@, i + 1, requested@.len() as int);
        }
        total = total + slot.length as usize;
        out.push(
            IsoPacket {
                length: requested[i].length,
                actual_length: slot.length,
                status: usbd_packet_status(slot.status),
            },
        );
        assert(out@ =~= read_packets(requested@, slots@).take(i + 1));
        i += 1;
    }
    assert(read_packets(requested@, slots@).take(i as int) =~= read_packets(requested@, slots@));
    (out, total)
}

proof fn lemma_slots_grow(slots: Seq<PacketSlot>, k: int, n: int)
    requires
        0 <= k <= n,
    ensures
        slots_moved(slots, k) <= slots_moved(slots, n),
    decreases n - k,
{
    if k < n {
        lemma_slots_grow(slots, k, n - 1);
    }
}

/// The bytes that the packets of a transfer report.
pub open spec fn reported(packets: Seq<IsoPacket>) -> int
    decreases packets.len(),
{
    if packets.len() == 0 {
        0
    } else {
        reported(packets.drop_last()) + packets.last().actual_length
    }
}

/// Spreading loses nothing: if the bytes fit the packets, what the packets
/// report adds up to them, and no packet reports more than it asked for.
pub proof fn lemma_spread_adds_up(requested: Seq<IsoPacket>, moved: int, status: TransferStatus)
    requires
        0 <= moved <= total_length(requested),
    ensures
        reported(written_packets(requested, moved, status)) == moved,
        forall|i: int|
            0 <= i < requested.len() ==> (#[trigger] written_packets(requested, moved, status)[i]).actual_length
                <= requested[i].length,
{
    lemma_reported(requested, moved, status, requested.len() as int);
    assert(requested.take(requested.len() as int) =~= requested);
    let w = written_packets(requested, moved, status);
    assert(w.take(requested.len() as int) =~= w);
}

proof fn lemma_reported(requested: Seq<IsoPacket>, moved: int, status: TransferStatus, k: int)
    requires
        0 <= moved,
        0 <= k <= requested.len(),
    ensures
        reported(written_packets(requested, moved, status).take(k)) == (if moved < total_length(requested.take(k)) {
            moved
        } else {
            total_length(requested.take(k))
        }),
    decreases k,
{
    let w = written_packets(requested, moved, status);
    if k == 0 {
        assert(w.take(0) =~= Seq::<IsoPacket>::empty());
        assert(requested.take(0) =~= Seq::<IsoPacket>::empty());
    } else {
        lemma_reported(requested, moved, status, k - 1);
        assert(w.take(k).drop_last() =~= w.take(k - 1));
        assert(requested.take(k).drop_last() =~= requested.take(k - 1));
        lemma_total_is_monotonic(requested.take(k), k - 1);
        assert(requested.take(k).take(k - 1) =~= requested.take(k - 1));
    }
}

/// An interface belongs to the function whose association covers it, which is
/// known by its first interface; without one it is a function of its own.
pub proof fn lemma_functions(v: Seq<InterfaceAssociation>, interface: u8, k: int)
    requires
        0 <= k <= v.len(),
        forall|j: int| 0 <= j < k ==> !covers(#[trigger] v[j], interface),
    ensures
        k == v.len() ==> function_first(v, interface) == interface,
        k < v.len() && covers(v[k], interface) ==> function_first(v, interface) == v[k].first_interface,
        k < v.len() && v[k].first_interface + v[k].interface_count <= 255 ==> (covers(v[k], interface)
            <==> v[k].first_interface <= interface < v[k].first_interface + v[k].interface_count),
    decreases k,
{
    if k > 0 {
        let w = v.skip(1);
        assert(!covers(v[0], interface));
        assert forall|j: int| 0 <= j < k - 1 implies !covers(#[trigger] w[j], interface) by {
            assert(w[j] == v[j + 1]);
        }
        if k < v.len() {
            assert(w[k - 1] == v[k]);
        }
        lemma_functions(w, interface, k - 1);
    }
}

/// Where an interface is reached: a device that is driven as a whole has it
/// under its number, a function under its distance from the function's first.
pub proof fn lemma_places(functions: Seq<u8>, cfg: Option<ConfigDescriptor>, interface: u8)
    ensures
        place_of(true, functions, cfg, interface) == Ok::<InterfacePlace, ErrorView>(
            InterfacePlace { function: None, index: interface },
        ),
        ({
            let first = function_first(associations_of(cfg), interface);
            let r = place_of(false, functions, cfg, interface);
            &&& function_at(functions, first) matches Some(i) ==> r == Ok::<InterfacePlace, ErrorView>(
                InterfacePlace { function: Some(i as usize), index: (interface - first) as u8 },
            )
            &&& function_at(functions, first) is None ==> r is Err && r->Err_0.kind == ErrorKind::NotSupported
        }),
        functions.len() > 0 ==> function_at(functions, functions[0]) == Some(0int),
        function_at(Seq::empty(), interface) is None,
{
}

/// Which call a transfer becomes: a control request, an isochronous one, or a
/// read or write by the direction of its endpoint, on the claimed interface
/// that owns it.
pub proof fn lemma_calls(
    kind: TransferType,
    endpoint: u8,
    buffer: Seq<u8>,
    flags: TransferFlags,
    packets: Seq<IsoPacket>,
    means: Means,
    cfg: Option<ConfigDescriptor>,
    claimed: Seq<Claimed>,
    running: bool,
)
    requires
        8 <= buffer.len() <= u32::MAX,
    ensures
        ({
            let r = call_for(kind, endpoint, buffer, flags, packets, means, cfg, claimed, running);
            let o = owner_of(cfg, claimed, endpoint);
            let plain = kind == TransferType::Bulk || kind == TransferType::Interrupt;
            &&& kind == TransferType::Control && means.control ==> r == Ok::<Call, ErrorView>(
                Call::Control(request_in(buffer)),
            )
            &&& kind == TransferType::Control && !means.control && (buffer[0] != 0x80 || buffer[1] != 6) ==> r is Err
            &&& plain && o is Err ==> r == Err::<Call, ErrorView>(o->Err_0)
            &&& plain && o is Ok && endpoint >= 0x80 ==> r == Ok::<Call, ErrorView>(
                Call::Read { owner: o->Ok_0.0 as usize, length: buffer.len() as u32 },
            )
            &&& plain && o is Ok && endpoint < 0x80 ==> r == Ok::<Call, ErrorView>(
                Call::Write { owner: o->Ok_0.0 as usize, length: buffer.len() as u32, zero_packet: flags.zero_packet },
            )
            &&& kind == TransferType::Isochronous && !means.isoch ==> r is Err && r->Err_0.kind == ErrorKind::NotSupported
        }),
{
}

/// A wait lasts until the deadline, in milliseconds rounded up, and without
/// one for ever.
pub proof fn lemma_wait_times(deadline: u64, now: u64)
    ensures
        wait_ms(None, now) == 0xffff_ffffint,
        deadline <= now ==> wait_ms(Some(deadline), now) == 1,
        deadline > now && (deadline - now) / 1_000_000 < 0xffff_fffe ==> wait_ms(Some(deadline), now) == (deadline - now)
            / 1_000_000 + 1,
        wait_ms(Some(deadline), now) < 0xffff_ffff,
{
}

/// What an error code means for a transfer.
pub proof fn lemma_error_status(err: i32)
    ensures
        error_status(err) == TransferStatus::Completed <==> err == 0,
        error_status(err) == TransferStatus::Cancelled <==> err == 995,
        error_status(err) == TransferStatus::TimedOut <==> err == 121 || err == 1460,
        error_status(err) == TransferStatus::Stall <==> err == 31,
        error_status(err) == TransferStatus::NoDevice <==> err == 1167 || err == 433 || err == 2 || err == 22,
        error_status(err) == TransferStatus::Overflow <==> err == 234 || err == 111,
{
}

/// What the status of a packet means.
pub proof fn lemma_packet_status(status: u32)
    ensures
        packet_status(status) == TransferStatus::Completed <==> status < 0x1000_0000,
        packet_status(status) == TransferStatus::Stall <==> status == 0xc000_0004,
        packet_status(status) == TransferStatus::Overflow <==> status == 0xc000_0008 || status == 0xc000_3003,
        packet_status(status) == TransferStatus::Cancelled <==> status == 0xc001_0000,
        packet_status(status) == TransferStatus::NoDevice <==> status == 0xc000_0001 || status == 0xc000_1000,
{
}

/// A transfer that was stopped says why, whatever the system says.
pub proof fn lemma_stopped_transfers(f: Flight, err: i32)
    ensures
        f.timed_out ==> final_status(f, err) == TransferStatus::TimedOut,
        !f.timed_out && f.cancelled ==> final_status(f, err) == TransferStatus::Cancelled,
        !f.timed_out && !f.cancelled ==> final_status(f, err) == error_status(err),
{
}

/// The packets of a read say what each asked for, got and ended with; what they
/// got adds up.
pub proof fn lemma_read_packets(requested: Seq<IsoPacket>, slots: Seq<PacketSlot>, i: int, n: int)
    requires
        0 <= i < requested.len(),
        i < slots.len(),
        0 <= n < slots.len(),
    ensures
        ({
            let r = read_packets(requested, slots);
            &&& r.len() == requested.len()
            &&& r[i].length == requested[i].length
            &&& r[i].actual_length == slots[i].length
            &&& r[i].status == packet_status(slots[i].status)
        }),
        slots_moved(slots, 0) == 0,
        slots_moved(slots, n + 1) == slots_moved(slots, n) + slots[n].length,
{
}

/// The endpoint of a claimed interface is looked for in the setting that is
/// selected.
pub proof fn lemma_claimed_endpoints(v: Seq<Interface>, c: Claimed, i: Interface, address: u8)
    requires
        interface_numbered(v, c.interface) == Some(i),
    ensures
        ({
            let k = alt_position(i.alt_settings@, c.alt);
            &&& k < i.alt_settings@.len() ==> claimed_endpoint(v, c, address) == endpoint_at(
                i.alt_settings@[k].endpoints@,
                address,
            )
            &&& k >= i.alt_settings@.len() ==> claimed_endpoint(v, c, address) is None
        }),
{
}

/// The interface that owns an endpoint is the first claimed one that has it in
/// its setting.
pub proof fn lemma_owners(v: Seq<Interface>, claimed: Seq<Claimed>, address: u8, k: int)
    requires
        0 <= k <= claimed.len(),
        forall|j: int| 0 <= j < k ==> claimed_endpoint(v, #[trigger] claimed[j], address) is None,
    ensures
        k == claimed.len() ==> owner_among(v, claimed, address) is None,
        k < claimed.len() && claimed_endpoint(v, claimed[k], address) is Some ==> owner_among(v, claimed, address) == Some(
            (k, bytes_per_frame(claimed_endpoint(v, claimed[k], address)->0.max_packet_size)),
        ),
    decreases k,
{
    if k > 0 {
        let w = claimed.skip(1);
        assert(claimed_endpoint(v, claimed[0], address) is None);
        assert forall|j: int| 0 <= j < k - 1 implies claimed_endpoint(v, #[trigger] w[j], address) is None by {
            assert(w[j] == claimed[j + 1]);
        }
        if k < claimed.len() {
            assert(w[k - 1] == claimed[k]);
        }
        lemma_owners(v, w, address, k - 1);
    }
}

/// A packet succeeded if the four highest bits of its status are zero.
pub proof fn lemma_success(status: u32)
    ensures
        is_success(status) <==> status / 0x1000_0000 == 0,
{
}

/// A wait that brought a transfer finishes it; one that ran out, error 258,
/// expires what is due; any other failure ends the waiting.
pub proof fn lemma_waiting(ok: bool, err: i32)
    ensures
        wait_next(ok, true, err) == WaitNext::Finish,
        wait_next(true, false, err) == WaitNext::Expire,
        wait_next(false, false, 258) == WaitNext::Expire,
        err != 258 ==> wait_next(false, false, err) == WaitNext::End,
{
}

} // verus!
