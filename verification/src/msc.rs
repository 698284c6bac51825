//! USB Mass Storage: the Bulk-Only Transport and the SCSI commands that USB
//! flash drives, card readers and external disks understand.
//!
//! [`MassStorage`] describes an open bulk-only interface. A [`Transport`]
//! takes one command through the transport and a [`Command`] retries it and
//! fetches sense data; both say what to do on the bus next and are told what
//! came of it. [`BlockDevice`] turns a logical unit into a byte-addressed
//! stream.

use crate::bytes::{self, be32, be32_at, be64, be64_at, le32, le32_at, u32_bytes};
use crate::descriptors::{ConfigDescriptor, Interface, InterfaceDescriptor};
use crate::error::{message, outcome, plain, Error, ErrorKind, ErrorView, Result};
use crate::text;
use crate::types::{class, setup_packet, ControlSetup, ControlType, Direction, Recipient, TransferType, NO_TIMEOUT};
use scsi::{opcode, rw_bytes, sense_error, sense_of, sense_text, Capacity, Sense, SenseKey};
use vstd::prelude::*;
use vstd::slice::slice_subrange;
use vstd::string::*;

pub mod scsi;

verus! {

/// Default timeout for each phase of a command: 20 s.
pub const DEFAULT_TIMEOUT: u64 = 20_000_000_000;

/// Default largest data phase of block I/O: 120 KiB, the limit Linux uses for
/// USB storage because some bridges fail beyond it.
pub const DEFAULT_MAX_TRANSFER: usize = 122_880;

/// How many times a command is retried after UNIT ATTENTION.
pub const UNIT_ATTENTION_RETRIES: u8 = 3;

/// How long Bulk-Only Mass Storage Reset may take: 5 s.
pub const RESET_TIMEOUT: u64 = 5_000_000_000;

/// How long GET MAX LUN may take: 1 s.
pub const MAX_LUN_TIMEOUT: u64 = 1_000_000_000;

/// How long to wait for a busy unit before it is asked again: 200 ms.
pub const READY_PAUSE: u64 = 200_000_000;

/// How often a unit is asked whether it is ready before giving up.
pub const READY_TRIES: u8 = 10;

/// "USBC"
pub const CBW_SIGNATURE: u32 = 0x4342_5355;

/// "USBS"
pub const CSW_SIGNATURE: u32 = 0x5342_5355;

/// Bulk-Only Mass Storage Reset.
pub const REQ_RESET: u8 = 0xff;

/// Get Max LUN.
pub const REQ_GET_MAX_LUN: u8 = 0xfe;

/// The data stage of a command.
#[derive(Debug, Clone, Copy, PartialEq, Eq, Hash, Structural)]
pub enum DataPhase {
    /// No data.
    NoData,
    /// Device to host, of the given expected length.
    In(usize),
    /// Host to device, of the given length.
    Out(usize),
}

/// The length of a data stage.
pub open spec fn phase_len(d: DataPhase) -> int {
    match d {
        DataPhase::NoData => 0,
        DataPhase::In(n) => n as int,
        DataPhase::Out(n) => n as int,
    }
}

impl DataPhase {
    /// The length of the data stage.
    pub fn len(&self) -> (r: usize)
        ensures
            r == phase_len(*self),
    {
        match *self {
            DataPhase::NoData => 0,
            DataPhase::In(n) => n,
            DataPhase::Out(n) => n,
        }
    }
}

/// Outcome of a command that made it through the transport.
#[derive(Debug, Clone, Copy, PartialEq, Eq, Hash, Structural)]
pub struct CommandResult {
    /// `true` if the device reported success; `false` means CHECK CONDITION
    /// (request sense data to learn why).
    pub passed: bool,
    /// Bytes of the data phase actually moved.
    pub transferred: usize,
    /// `dCSWDataResidue`: how much of the expected data phase the device
    /// did not process.
    pub residue: u32,
}

// ----- finding the interface ----------------------------------------------

/// Whether an alternate setting offers the bulk-only transport.
pub open spec fn bulk_only(a: InterfaceDescriptor) -> bool {
    a.class == class::MASS_STORAGE && a.protocol == 0x50
}

/// Whether an alternate setting offers the bulk-only transport.
pub fn is_bulk_only(a: &InterfaceDescriptor) -> (r: bool)
    ensures
        r == bulk_only(*a),
{
    a.class == class::MASS_STORAGE && a.protocol == 0x50
}

/// The position of the first bulk-only alternate setting, or the number of
/// settings if there is none.
pub open spec fn bulk_only_position(v: Seq<InterfaceDescriptor>) -> int
    decreases v.len(),
{
    if v.len() == 0 || bulk_only(v[0]) {
        0
    } else {
        1 + bulk_only_position(v.skip(1))
    }
}

proof fn lemma_bulk_only_position(v: Seq<InterfaceDescriptor>, k: int)
    requires
        0 <= k <= v.len(),
        forall|j: int| 0 <= j < k ==> !bulk_only(#[trigger] v[j]),
        k < v.len() ==> bulk_only(v[k]),
    ensures
        bulk_only_position(v) == k,
    decreases v.len(),
{
    if k > 0 {
        assert(!bulk_only(v[0]));
        let w = v.skip(1);
        assert forall|j: int| 0 <= j < k - 1 implies !bulk_only(#[trigger] w[j]) by {
            assert(w[j] == v[j + 1]);
        }
        lemma_bulk_only_position(w, k - 1);
    }
}

/// The bulk-only alternate setting of an interface, if it has one.
pub open spec fn bulk_only_setting(i: Interface) -> Option<InterfaceDescriptor> {
    let k = bulk_only_position(i.alt_settings@);
    if k < i.alt_settings@.len() {
        Some(i.alt_settings@[k])
    } else {
        None
    }
}

/// Finds the bulk-only alternate setting of an interface.
pub fn find_bulk_only(i: &Interface) -> (r: Option<&InterfaceDescriptor>)
    ensures
        match bulk_only_setting(*i) {
            Some(a) => r == Some(&a),
            None => r is None,
        },
{
    let mut k: usize = 0;
    while k < i.alt_settings.len()
        invariant
            k <= i.alt_settings@.len(),
            forall|j: int| 0 <= j < k ==> !bulk_only(#[trigger] i.alt_settings@[j]),
        decreases i.alt_settings@.len() - k,
    {
        if is_bulk_only(&i.alt_settings[k]) {
            proof {
                lemma_bulk_only_position(i.alt_settings@, k as int);
            }
            return Some(&i.alt_settings[k]);
        }
        k += 1;
    }
    proof {
        lemma_bulk_only_position(i.alt_settings@, k as int);
    }
    None
}

/// The bulk-only settings of a list of interfaces.
pub open spec fn bulk_only_settings(v: Seq<Interface>) -> Seq<InterfaceDescriptor>
    decreases v.len(),
{
    if v.len() == 0 {
        Seq::empty()
    } else {
        match bulk_only_setting(v.last()) {
            Some(a) => bulk_only_settings(v.drop_last()).push(a),
            None => bulk_only_settings(v.drop_last()),
        }
    }
}

/// The mass-storage interfaces of a configuration that offer the bulk-only
/// transport (on some alternate setting; UAS devices list it second), as the
/// descriptor of that alternate setting.
pub fn interfaces(cfg: &ConfigDescriptor) -> (r: Vec<&InterfaceDescriptor>)
    ensures
        r@.len() == bulk_only_settings(cfg.interfaces@).len(),
        forall|i: int| 0 <= i < r@.len() ==> *(#[trigger] r@[i]) == bulk_only_settings(cfg.interfaces@)[i],
{
    let mut out: Vec<&InterfaceDescriptor> = Vec::new();
    let mut i: usize = 0;
    let ghost all = cfg.interfaces@;
    assert(all.take(0) =~= Seq::empty());
    while i < cfg.interfaces.len()
        invariant
            i <= cfg.interfaces@.len(),
            all == cfg.interfaces@,
            out@.len() == bulk_only_settings(all.take(i as int)).len(),
            forall|j: int| 0 <= j < out@.len() ==> *(#[trigger] out@[j]) == bulk_only_settings(all.take(i as int))[j],
        decreases cfg.interfaces@.len() - i,
    {
        assert(all.take(i + 1).drop_last() =~= all.take(i as int));
        match find_bulk_only(&cfg.interfaces[i]) {
            Some(a) => {
                out.push(a);
            },
            None => {},
        }
        i += 1;
    }
    assert(all.take(i as int) =~= all);
    out
}

// ----- an open interface ------------------------------------------------------

/// A bulk-only mass-storage interface: where its endpoints are and how
/// commands are sent.
#[derive(Debug, Clone, Copy, PartialEq, Eq, Structural)]
pub struct MassStorage {
    /// The interface number.
    pub interface: u8,
    /// The alternate setting to select, 0 when none has to be.
    pub alternate_setting: u8,
    /// The bulk IN endpoint.
    pub ep_in: u8,
    /// The bulk OUT endpoint.
    pub ep_out: u8,
    /// The highest logical unit number.
    pub max_lun: u8,
    /// The tag of the next command.
    pub tag: u32,
    /// The timeout of each phase of a command, in nanoseconds.
    pub timeout: u64,
    /// The largest data phase of block I/O.
    pub max_transfer: usize,
}

/// The storage on a bulk-only alternate setting.
pub open spec fn storage_on(alt: InterfaceDescriptor, interface: u8) -> std::result::Result<MassStorage, ErrorView> {
    let i = crate::class::first_endpoint(alt.endpoints@, Direction::In, TransferType::Bulk);
    let o = crate::class::first_endpoint(alt.endpoints@, Direction::Out, TransferType::Bulk);
    if i is Some && o is Some {
        Ok(
            MassStorage {
                interface,
                alternate_setting: alt.alternate_setting,
                ep_in: i->0.address,
                ep_out: o->0.address,
                max_lun: 0,
                tag: 1,
                timeout: DEFAULT_TIMEOUT,
                max_transfer: DEFAULT_MAX_TRANSFER,
            },
        )
    } else {
        Err(message(ErrorKind::Io, "mass-storage interface lacks a bulk endpoint"@))
    }
}

/// The request that asks for the highest logical unit number.
pub open spec fn max_lun_setup(interface: u8) -> ControlSetup {
    setup_packet(Direction::In, ControlType::Class, Recipient::Interface, REQ_GET_MAX_LUN, 0, interface as u16, 1)
}

/// The request that resets the transport.
pub open spec fn reset_setup(interface: u8) -> ControlSetup {
    setup_packet(Direction::Out, ControlType::Class, Recipient::Interface, REQ_RESET, 0, interface as u16, 0)
}

impl MassStorage {
    /// The interface that opening a device opens: the first that offers the
    /// bulk-only transport.
    pub fn open(cfg: &ConfigDescriptor) -> (r: Result<u8>)
        ensures
            ({
                let all = bulk_only_settings(cfg.interfaces@);
                if all.len() > 0 {
                    r == Ok::<u8, Error>(all[0].number)
                } else {
                    r is Err && r->Err_0@ == message(
                        ErrorKind::NotFound,
                        "device has no bulk-only mass-storage interface"@,
                    )
                }
            }),
    {
        let all = interfaces(cfg);
        if all.len() > 0 {
            Ok(all[0].number)
        } else {
            Err(Error::with_message(ErrorKind::NotFound, "device has no bulk-only mass-storage interface"))
        }
    }

    /// Prepares the bulk-only setting of interface `interface`, before its
    /// logical units are counted.
    pub fn open_interface(cfg: &ConfigDescriptor, interface: u8) -> (r: Result<MassStorage>)
        ensures
            match crate::class::interface_numbered(cfg.interfaces@, interface) {
                Some(i) => match bulk_only_setting(i) {
                    Some(a) => outcome(r) == storage_on(a, interface),
                    None => outcome(r) == Err::<MassStorage, ErrorView>(
                        message(ErrorKind::InvalidParam, "not a bulk-only mass-storage interface"@),
                    ),
                },
                None => outcome(r) == Err::<MassStorage, ErrorView>(
                    message(ErrorKind::InvalidParam, "not a bulk-only mass-storage interface"@),
                ),
            },
    {
        let found = match cfg.interface(interface) {
            Some(i) => {
                proof {
                    crate::class::lemma_interface_numbered(cfg.interfaces@, interface, *i);
                }
                find_bulk_only(i)
            },
            None => {
                proof {
                    crate::class::lemma_no_interface_numbered(cfg.interfaces@, interface);
                }
                None
            },
        };
        match found {
            Some(alt) => {
                let ep_in = crate::class::endpoint(alt, Direction::In, TransferType::Bulk);
                let ep_out = crate::class::endpoint(alt, Direction::Out, TransferType::Bulk);
                match (ep_in, ep_out) {
                    (Some(i), Some(o)) => Ok(
                        MassStorage {
                            interface,
                            alternate_setting: alt.alternate_setting,
                            ep_in: i.address,
                            ep_out: o.address,
                            max_lun: 0,
                            tag: 1,
                            timeout: DEFAULT_TIMEOUT,
                            max_transfer: DEFAULT_MAX_TRANSFER,
                        },
                    ),
                    _ => Err(Error::with_message(ErrorKind::Io, "mass-storage interface lacks a bulk endpoint")),
                }
            },
            None => Err(Error::with_message(ErrorKind::InvalidParam, "not a bulk-only mass-storage interface")),
        }
    }

    /// GET MAX LUN, a one-byte read.
    pub fn max_lun_request(&self) -> (r: ControlSetup)
        ensures
            r == max_lun_setup(self.interface),
    {
        ControlSetup::new(
            Direction::In,
            ControlType::Class,
            Recipient::Interface,
            REQ_GET_MAX_LUN,
            0,
            self.interface as u16,
            1,
        )
    }

    /// Takes the answer to GET MAX LUN: the number of bytes read and the
    /// byte. Single-LUN devices may stall it, which means 0.
    pub fn set_max_lun(&mut self, answer: Result<usize>, byte: u8)
        ensures
            *final(self) == (MassStorage {
                max_lun: highest_lun(outcome(answer), byte),
                ..*old(self)
            }),
    {
        self.max_lun = match answer {
            Ok(n) => if n == 1 {
                if byte < 15 {
                    byte
                } else {
                    15
                }
            } else {
                0
            },
            Err(e) => 0,
        };
    }

    /// The claimed interface number.
    pub fn interface_number(&self) -> (r: u8)
        ensures
            r == self.interface,
    {
        self.interface
    }

    /// The highest logical unit number (0 for single-LUN devices; card
    /// readers typically have one LUN per slot).
    pub fn max_lun(&self) -> (r: u8)
        ensures
            r == self.max_lun,
    {
        self.max_lun
    }

    /// Sets the timeout applied to each phase of a command (20 s by default).
    pub fn set_timeout(&mut self, timeout: u64)
        ensures
            *final(self) == (MassStorage { timeout, ..*old(self) }),
    {
        self.timeout = timeout;
    }

    /// Sets the largest data phase of block I/O (120 KiB by default). Raise
    /// it for speed on devices that cope.
    pub fn set_max_transfer(&mut self, bytes: usize)
        ensures
            *final(self) == (MassStorage { max_transfer: if bytes == 0 { 1 } else { bytes }, ..*old(self) }),
    {
        self.max_transfer = if bytes == 0 { 1 } else { bytes };
    }

    /// How many blocks go into one command.
    pub fn chunk_blocks(&self, block_size: usize) -> (r: usize)
        requires
            block_size > 0,
        ensures
            r == blocks_per_command(self.max_transfer as int, block_size as int),
            1 <= r <= 0xffff,
    {
        let n: usize = self.max_transfer / block_size;
        if n < 1 {
            1
        } else if n > 0xffff {
            0xffff
        } else {
            n
        }
    }
}

/// How many blocks go into one command: as many as the transfer limit holds,
/// at least one and no more than READ (10) can count.
pub open spec fn blocks_per_command(max_transfer: int, block_size: int) -> int {
    let n = max_transfer / block_size;
    if n < 1 {
        1
    } else if n > 0xffff {
        0xffff
    } else {
        n
    }
}

// ----- the bulk-only transport --------------------------------------------------

/// The command block wrapper.
pub open spec fn command_wrapper(tag: u32, expected: u32, data: DataPhase, lun: u8, cdb: Seq<u8>) -> Seq<u8> {
    u32_bytes(CBW_SIGNATURE) + u32_bytes(tag) + u32_bytes(expected) + seq![
        if data is In { 0x80u8 } else { 0u8 },
        lun,
        cdb.len() as u8,
    ] + cdb + bytes::zeros(16 - cdb.len())
}

/// Why a command cannot be sent at all, if it cannot.
pub open spec fn command_fault(s: MassStorage, lun: u8, cdb: Seq<u8>, data: DataPhase) -> Option<ErrorView> {
    if cdb.len() == 0 || cdb.len() > 16 {
        Some(message(ErrorKind::InvalidParam, "CDB must be 1 to 16 bytes"@))
    } else if lun > s.max_lun {
        Some(message(ErrorKind::InvalidParam, "no such logical unit"@))
    } else if phase_len(data) > u32::MAX {
        Some(message(ErrorKind::InvalidParam, "data phase too large"@))
    } else {
        None
    }
}

/// What the transport is waiting for.
#[derive(Debug)]
pub enum Phase {
    /// The command block wrapper is being written.
    Command,
    /// The data phase is running.
    Data,
    /// A stalled data phase is being cleared.
    ClearData,
    /// The status wrapper is being read, after so many data bytes.
    Status(usize),
    /// A stalled status phase is being cleared.
    ClearStatus(usize),
    /// The status wrapper is being read again.
    StatusAgain(usize),
    /// Recovery: the transport is being reset because of the error.
    Reset(Error),
    /// Recovery: the IN endpoint is being cleared.
    ClearIn(Error),
    /// Recovery: the OUT endpoint is being cleared.
    ClearOut(Error),
    /// The command is over.
    Over,
}

/// What a [`Phase`] holds.
#[verifier::ext_equal]
pub enum PhaseView {
    Command,
    Data,
    ClearData,
    Status(usize),
    ClearStatus(usize),
    StatusAgain(usize),
    Reset(ErrorView),
    ClearIn(ErrorView),
    ClearOut(ErrorView),
    Over,
}

impl View for Phase {
    type V = PhaseView;

    open spec fn view(&self) -> PhaseView {
        match *self {
            Phase::Command => PhaseView::Command,
            Phase::Data => PhaseView::Data,
            Phase::ClearData => PhaseView::ClearData,
            Phase::Status(n) => PhaseView::Status(n),
            Phase::ClearStatus(n) => PhaseView::ClearStatus(n),
            Phase::StatusAgain(n) => PhaseView::StatusAgain(n),
            Phase::Reset(e) => PhaseView::Reset(e@),
            Phase::ClearIn(e) => PhaseView::ClearIn(e@),
            Phase::ClearOut(e) => PhaseView::ClearOut(e@),
            Phase::Over => PhaseView::Over,
        }
    }
}

/// What to do on the bus next. Every step reports back with its outcome.
#[derive(Debug)]
pub enum TransportAction {
    /// Write the 31-byte command block wrapper.
    WriteCommand { endpoint: u8, wrapper: Vec<u8> },
    /// Read the data phase into the caller's buffer.
    ReadData { endpoint: u8, length: usize },
    /// Write the data phase from the caller's buffer.
    WriteData { endpoint: u8, length: usize },
    /// Read the 13-byte status wrapper.
    ReadStatus { endpoint: u8 },
    /// Clear a halted endpoint.
    ClearHalt { endpoint: u8 },
    /// Send the reset request, which has no data.
    ResetRequest { setup: ControlSetup },
    /// The command is over.
    Finish(Result<CommandResult>),
}

/// What a [`TransportAction`] holds.
#[verifier::ext_equal]
pub enum TransportActionView {
    WriteCommand { endpoint: u8, wrapper: Seq<u8> },
    ReadData { endpoint: u8, length: usize },
    WriteData { endpoint: u8, length: usize },
    ReadStatus { endpoint: u8 },
    ClearHalt { endpoint: u8 },
    ResetRequest { setup: ControlSetup },
    Finish(std::result::Result<CommandResult, ErrorView>),
}

impl View for TransportAction {
    type V = TransportActionView;

    open spec fn view(&self) -> TransportActionView {
        match *self {
            TransportAction::WriteCommand { endpoint, wrapper } => TransportActionView::WriteCommand {
                endpoint,
                wrapper: wrapper@,
            },
            TransportAction::ReadData { endpoint, length } => TransportActionView::ReadData { endpoint, length },
            TransportAction::WriteData { endpoint, length } => TransportActionView::WriteData { endpoint, length },
            TransportAction::ReadStatus { endpoint } => TransportActionView::ReadStatus { endpoint },
            TransportAction::ClearHalt { endpoint } => TransportActionView::ClearHalt { endpoint },
            TransportAction::ResetRequest { setup } => TransportActionView::ResetRequest { setup },
            TransportAction::Finish(r) => TransportActionView::Finish(outcome(r)),
        }
    }
}

/// How long an action of the transport may take, where `timeout` is the limit
/// of each phase of a command.
pub open spec fn transport_limit(a: TransportActionView, timeout: u64) -> u64 {
    match a {
        TransportActionView::WriteCommand { .. } | TransportActionView::ReadData { .. } | TransportActionView::WriteData {
            ..
        } | TransportActionView::ReadStatus { .. } => timeout,
        TransportActionView::ResetRequest { .. } => RESET_TIMEOUT,
        _ => NO_TIMEOUT,
    }
}

impl TransportAction {
    /// How long the action may take, where `timeout` is the limit of each
    /// phase of a command.
    pub fn limit(&self, timeout: u64) -> (r: u64)
        ensures
            r == transport_limit(self@, timeout),
    {
        match self {
            TransportAction::WriteCommand { .. } => timeout,
            TransportAction::ReadData { .. } => timeout,
            TransportAction::WriteData { .. } => timeout,
            TransportAction::ReadStatus { .. } => timeout,
            TransportAction::ResetRequest { .. } => RESET_TIMEOUT,
            _ => NO_TIMEOUT,
        }
    }
}

/// What a command needs to know while it runs.
#[derive(Debug, Clone, Copy, PartialEq, Eq, Structural)]
pub struct Route {
    pub interface: u8,
    pub ep_in: u8,
    pub ep_out: u8,
    pub tag: u32,
    pub data: DataPhase,
}

/// One command on its way through the Bulk-Only Transport: the command block
/// wrapper, the data phase, and the status wrapper.
///
/// Transport failures (stalls on the status phase, phase errors, bad status
/// wrappers, timeouts) trigger reset recovery and come back as errors. A
/// command the device *rejects* is not an error here: it comes back with
/// [`CommandResult::passed`] false.
#[derive(Debug)]
pub struct Transport {
    pub route: Route,
    pub phase: Phase,
}

/// A state of the transport and the action that goes with it.
pub type TransportStep = (PhaseView, TransportActionView);

/// Reset recovery, unless the device is gone; then the error.
pub open spec fn recovering(r: Route, e: ErrorView) -> TransportStep {
    if e.kind == ErrorKind::NoDevice {
        (PhaseView::Over, TransportActionView::Finish(Err(e)))
    } else {
        (PhaseView::Reset(e), TransportActionView::ResetRequest { setup: reset_setup(r.interface) })
    }
}

/// Reading the status after `n` data bytes.
pub open spec fn reading_status(r: Route, n: usize) -> TransportStep {
    (PhaseView::Status(n), TransportActionView::ReadStatus { endpoint: r.ep_in })
}

/// What a status wrapper of the right size says.
pub open spec fn status_says(r: Route, n: usize, csw: Seq<u8>) -> TransportStep {
    if le32_at(csw, 0) != CSW_SIGNATURE || le32_at(csw, 4) != r.tag {
        recovering(r, message(ErrorKind::Io, "invalid command status wrapper"@))
    } else if csw[12] > 1 {
        recovering(r, message(ErrorKind::Io, "mass-storage phase error"@))
    } else {
        (
            PhaseView::Over,
            TransportActionView::Finish(
                Ok(CommandResult { passed: csw[12] == 0, transferred: n, residue: le32_at(csw, 8) }),
            ),
        )
    }
}

/// The transport after the outcome of a bus operation; `csw` is what a
/// status read filled in.
pub open spec fn transport_next(
    r: Route,
    phase: PhaseView,
    moved: std::result::Result<usize, ErrorView>,
    csw: Seq<u8>,
) -> TransportStep {
    match phase {
        PhaseView::Command => match moved {
            Ok(_) => match r.data {
                DataPhase::NoData => reading_status(r, 0),
                DataPhase::In(n) => (
                    PhaseView::Data,
                    TransportActionView::ReadData { endpoint: r.ep_in, length: n },
                ),
                DataPhase::Out(n) => (
                    PhaseView::Data,
                    TransportActionView::WriteData { endpoint: r.ep_out, length: n },
                ),
            },
            Err(e) => recovering(r, e),
        },
        PhaseView::Data => match moved {
            Ok(n) => reading_status(r, n),
            // A stalled data phase is legal: clear it and read the status.
            Err(e) => if e.kind == ErrorKind::Pipe {
                (
                    PhaseView::ClearData,
                    TransportActionView::ClearHalt { endpoint: if r.data is In { r.ep_in } else { r.ep_out } },
                )
            } else {
                recovering(r, e)
            },
        },
        PhaseView::ClearData => match moved {
            Ok(_) => reading_status(r, 0),
            Err(e) => recovering(r, e),
        },
        PhaseView::Status(n) => match moved {
            Ok(got) => if got == 13 {
                status_says(r, n, csw)
            } else {
                recovering(r, message(ErrorKind::Io, "short command status wrapper"@))
            },
            Err(e) => if e.kind == ErrorKind::Pipe {
                (PhaseView::ClearStatus(n), TransportActionView::ClearHalt { endpoint: r.ep_in })
            } else {
                recovering(r, e)
            },
        },
        PhaseView::ClearStatus(n) => match moved {
            Ok(_) => (PhaseView::StatusAgain(n), TransportActionView::ReadStatus { endpoint: r.ep_in }),
            Err(e) => recovering(r, e),
        },
        PhaseView::StatusAgain(n) => match moved {
            Ok(got) => if got == 13 {
                status_says(r, n, csw)
            } else {
                recovering(r, message(ErrorKind::Io, "short command status wrapper"@))
            },
            Err(e) => recovering(r, e),
        },
        PhaseView::Reset(e) => match moved {
            Ok(_) => (PhaseView::ClearIn(e), TransportActionView::ClearHalt { endpoint: r.ep_in }),
            Err(_) => (PhaseView::Over, TransportActionView::Finish(Err(e))),
        },
        PhaseView::ClearIn(e) => match moved {
            Ok(_) => (PhaseView::ClearOut(e), TransportActionView::ClearHalt { endpoint: r.ep_out }),
            Err(_) => (PhaseView::Over, TransportActionView::Finish(Err(e))),
        },
        PhaseView::ClearOut(e) => (PhaseView::Over, TransportActionView::Finish(Err(e))),
        PhaseView::Over => (PhaseView::Over, TransportActionView::Finish(Err(plain(ErrorKind::Other)))),
    }
}

impl MassStorage {
    /// Starts a command: the transport, and the wrapper to write first.
    pub fn execute(&mut self, lun: u8, cdb: &[u8], data: DataPhase) -> (r: Result<(Transport, TransportAction)>)
        ensures
            match command_fault(*old(self), lun, cdb@, data) {
                Some(e) => *final(self) == *old(self) && r is Err && r->Err_0@ == e,
                None => *final(self) == (MassStorage { tag: next_tag(old(self).tag), ..*old(self) }) && r is Ok && ({
                    let (t, a) = r->Ok_0;
                    &&& t.route == (Route {
                        interface: old(self).interface,
                        ep_in: old(self).ep_in,
                        ep_out: old(self).ep_out,
                        tag: old(self).tag,
                        data,
                    })
                    &&& t.phase@ == PhaseView::Command
                    &&& a@ == (TransportActionView::WriteCommand {
                        endpoint: old(self).ep_out,
                        wrapper: command_wrapper(old(self).tag, phase_len(data) as u32, data, lun, cdb@),
                    })
                }),
            },
    {
        if cdb.len() == 0 || cdb.len() > 16 {
            return Err(Error::with_message(ErrorKind::InvalidParam, "CDB must be 1 to 16 bytes"));
        }
        if lun > self.max_lun {
            return Err(Error::with_message(ErrorKind::InvalidParam, "no such logical unit"));
        }
        let len: usize = data.len();
        if len as u64 > u32::MAX as u64 {
            return Err(Error::with_message(ErrorKind::InvalidParam, "data phase too large"));
        }
        let tag: u32 = self.tag;
        self.tag = if tag == u32::MAX { 0 } else { tag + 1 };
        let mut wrapper: Vec<u8> = Vec::new();
        bytes::put32(&mut wrapper, CBW_SIGNATURE);
        bytes::put32(&mut wrapper, tag);
        bytes::put32(&mut wrapper, len as u32);
        let flag: u8 = match data {
            DataPhase::In(_) => 0x80,
            _ => 0,
        };
        wrapper.push(flag);
        wrapper.push(lun);
        wrapper.push(cdb.len() as u8);
        bytes::put(&mut wrapper, cdb);
        bytes::pad_to(&mut wrapper, 31);
        assert(wrapper@ =~= command_wrapper(tag, len as u32, data, lun, cdb@));
        let route = Route { interface: self.interface, ep_in: self.ep_in, ep_out: self.ep_out, tag, data };
        Ok(
            (
                Transport { route, phase: Phase::Command },
                TransportAction::WriteCommand { endpoint: self.ep_out, wrapper },
            ),
        )
    }

    /// Reset recovery, which returns the device to a known state after a
    /// transport error: the request of the Bulk-Only Mass Storage Reset, and
    /// the two endpoints whose halts are to be cleared after it, in order.
    pub fn reset_recovery(&self) -> (r: (ControlSetup, u8, u8))
        ensures
            r == (reset_setup(self.interface), self.ep_in, self.ep_out),
    {
        (reset_request_for(self.interface), self.ep_in, self.ep_out)
    }
}

/// The tag that follows a tag.
pub open spec fn next_tag(tag: u32) -> u32 {
    if tag == u32::MAX {
        0
    } else {
        (tag + 1) as u32
    }
}

fn reset_request_for(interface: u8) -> (r: ControlSetup)
    ensures
        r == reset_setup(interface),
{
    ControlSetup::new(
        Direction::Out,
        ControlType::Class,
        Recipient::Interface,
        REQ_RESET,
        0,
        interface as u16,
        0,
    )
}

impl Transport {
    fn recover(route: Route, e: Error) -> (r: (Transport, TransportAction))
        ensures
            r.0.route == route,
            (r.0.phase@, r.1@) == recovering(route, e@),
    {
        if e.is_no_device() {
            (Transport { route, phase: Phase::Over }, TransportAction::Finish(Err(e)))
        } else {
            (
                Transport { route, phase: Phase::Reset(e) },
                TransportAction::ResetRequest { setup: reset_request_for(route.interface) },
            )
        }
    }

    fn read_status(route: Route, n: usize) -> (r: (Transport, TransportAction))
        ensures
            r.0.route == route,
            (r.0.phase@, r.1@) == reading_status(route, n),
    {
        (
            Transport { route, phase: Phase::Status(n) },
            TransportAction::ReadStatus { endpoint: route.ep_in },
        )
    }

    fn judge(route: Route, n: usize, csw: &[u8]) -> (r: (Transport, TransportAction))
        requires
            csw@.len() == 13,
        ensures
            r.0.route == route,
            (r.0.phase@, r.1@) == status_says(route, n, csw@),
    {
        if le32(csw, 0) != CSW_SIGNATURE || le32(csw, 4) != route.tag {
            return Transport::recover(route, Error::with_message(ErrorKind::Io, "invalid command status wrapper"));
        }
        if csw[12] > 1 {
            return Transport::recover(route, Error::with_message(ErrorKind::Io, "mass-storage phase error"));
        }
        let result = CommandResult { passed: csw[12] == 0, transferred: n, residue: le32(csw, 8) };
        (Transport { route, phase: Phase::Over }, TransportAction::Finish(Ok(result)))
    }

    /// Takes the outcome of the last action (how many bytes moved, or the
    /// error) and says what to do next. `csw` is the 13-byte buffer that
    /// status reads fill in.
    pub fn step(self, moved: Result<usize>, csw: &[u8]) -> (r: (Transport, TransportAction))
        requires
            csw@.len() == 13,
        ensures
            r.0.route == self.route,
            (r.0.phase@, r.1@) == transport_next(self.route, self.phase@, outcome(moved), csw@),
    {
        let route = self.route;
        match self.phase {
            Phase::Command => match moved {
                Ok(_) => match route.data {
                    DataPhase::NoData => Transport::read_status(route, 0),
                    DataPhase::In(n) => (
                        Transport { route, phase: Phase::Data },
                        TransportAction::ReadData { endpoint: route.ep_in, length: n },
                    ),
                    DataPhase::Out(n) => (
                        Transport { route, phase: Phase::Data },
                        TransportAction::WriteData { endpoint: route.ep_out, length: n },
                    ),
                },
                Err(e) => Transport::recover(route, e),
            },
            Phase::Data => match moved {
                Ok(n) => Transport::read_status(route, n),
                Err(e) => if e.is_stall() {
                    let endpoint: u8 = match route.data {
                        DataPhase::In(_) => route.ep_in,
                        _ => route.ep_out,
                    };
                    (Transport { route, phase: Phase::ClearData }, TransportAction::ClearHalt { endpoint })
                } else {
                    Transport::recover(route, e)
                },
            },
            Phase::ClearData => match moved {
                Ok(_) => Transport::read_status(route, 0),
                Err(e) => Transport::recover(route, e),
            },
            Phase::Status(n) => match moved {
                Ok(got) => if got == 13 {
                    Transport::judge(route, n, csw)
                } else {
                    Transport::recover(route, Error::with_message(ErrorKind::Io, "short command status wrapper"))
                },
                Err(e) => if e.is_stall() {
                    (
                        Transport { route, phase: Phase::ClearStatus(n) },
                        TransportAction::ClearHalt { endpoint: route.ep_in },
                    )
                } else {
                    Transport::recover(route, e)
                },
            },
            Phase::ClearStatus(n) => match moved {
                Ok(_) => (
                    Transport { route, phase: Phase::StatusAgain(n) },
                    TransportAction::ReadStatus { endpoint: route.ep_in },
                ),
                Err(e) => Transport::recover(route, e),
            },
            Phase::StatusAgain(n) => match moved {
                Ok(got) => if got == 13 {
                    Transport::judge(route, n, csw)
                } else {
                    Transport::recover(route, Error::with_message(ErrorKind::Io, "short command status wrapper"))
                },
                Err(e) => Transport::recover(route, e),
            },
            Phase::Reset(e) => match moved {
                Ok(_) => (
                    Transport { route, phase: Phase::ClearIn(e) },
                    TransportAction::ClearHalt { endpoint: route.ep_in },
                ),
                Err(_) => (Transport { route, phase: Phase::Over }, TransportAction::Finish(Err(e))),
            },
            Phase::ClearIn(e) => match moved {
                Ok(_) => (
                    Transport { route, phase: Phase::ClearOut(e) },
                    TransportAction::ClearHalt { endpoint: route.ep_out },
                ),
                Err(_) => (Transport { route, phase: Phase::Over }, TransportAction::Finish(Err(e))),
            },
            Phase::ClearOut(e) => (Transport { route, phase: Phase::Over }, TransportAction::Finish(Err(e))),
            Phase::Over => (
                Transport { route, phase: Phase::Over },
                TransportAction::Finish(Err(Error::new(ErrorKind::Other))),
            ),
        }
    }
}

/// How many bus operations a phase can still lead to.
pub open spec fn phase_rank(p: PhaseView) -> nat {
    match p {
        PhaseView::Command => 9,
        PhaseView::Data => 8,
        PhaseView::ClearData => 7,
        PhaseView::Status(_) => 6,
        PhaseView::ClearStatus(_) => 5,
        PhaseView::StatusAgain(_) => 4,
        PhaseView::Reset(_) => 3,
        PhaseView::ClearIn(_) => 2,
        PhaseView::ClearOut(_) => 1,
        PhaseView::Over => 0,
    }
}

/// Every step brings a command closer to its end, and it is over exactly
/// when a result is handed out: whatever the device does, a command takes at
/// most nine bus operations.
pub proof fn lemma_transport_ends(r: Route, p: PhaseView, moved: std::result::Result<usize, ErrorView>, csw: Seq<u8>)
    requires
        p !is Over,
    ensures
        phase_rank(transport_next(r, p, moved, csw).0) < phase_rank(p),
        transport_next(r, p, moved, csw).0 is Over <==> transport_next(r, p, moved, csw).1 is Finish,
{
}

/// A failed command is never reported before reset recovery was tried,
/// unless the device is gone; and the error that comes out of recovery is the
/// one that led into it.
pub proof fn lemma_transport_recovers(
    r: Route,
    p: PhaseView,
    moved: std::result::Result<usize, ErrorView>,
    csw: Seq<u8>,
)
    requires
        p !is Over,
    ensures
        ({
            let (q, a) = transport_next(r, p, moved, csw);
            &&& a matches TransportActionView::Finish(Err(e)) ==> e.kind == ErrorKind::NoDevice || p == PhaseView::Reset(e)
                || p == PhaseView::ClearIn(e) || p == PhaseView::ClearOut(e)
            &&& p matches PhaseView::Reset(e) ==> q == PhaseView::ClearIn(e) || a == TransportActionView::Finish(Err(e))
            &&& p matches PhaseView::ClearIn(e) ==> q == PhaseView::ClearOut(e) || a == TransportActionView::Finish(Err(e))
        }),
{
}

/// A command only succeeds on a status wrapper with the right signature and
/// its own tag.
pub proof fn lemma_transport_checks_status(
    r: Route,
    p: PhaseView,
    moved: std::result::Result<usize, ErrorView>,
    csw: Seq<u8>,
)
    requires
        transport_next(r, p, moved, csw).1 matches TransportActionView::Finish(Ok(_)),
    ensures
        p is Status || p is StatusAgain,
        moved == Ok::<usize, ErrorView>(13),
        le32_at(csw, 0) == CSW_SIGNATURE,
        le32_at(csw, 4) == r.tag,
        csw[12] <= 1,
{
}

// ----- commands, with sense data and retries -------------------------------------

/// The command block of REQUEST SENSE.
pub open spec fn sense_cdb() -> Seq<u8> {
    seq![opcode::REQUEST_SENSE, 0, 0, 0, 18, 0]
}

/// The error of a command that failed for the reason the sense data gives.
pub open spec fn command_error(op: u8, s: Sense) -> ErrorView {
    message(sense_error(s), "SCSI command 0x"@ + text::hex2(op) + " failed: "@ + sense_text(s))
}

/// A SCSI command: CHECK CONDITION becomes an error carrying the sense data,
/// and the command is retried after UNIT ATTENTION (which devices report once
/// after a reset or medium change).
#[derive(Debug)]
pub struct Command {
    /// The command block.
    pub cdb: Vec<u8>,
    /// Its data phase.
    pub data: DataPhase,
    /// Retries so far.
    pub attempts: u8,
    /// Whether sense data is being requested.
    pub sensing: bool,
}

/// What a [`Command`] holds.
#[verifier::ext_equal]
pub struct CommandView {
    pub cdb: Seq<u8>,
    pub data: DataPhase,
    pub attempts: u8,
    pub sensing: bool,
}

impl View for Command {
    type V = CommandView;

    open spec fn view(&self) -> CommandView {
        CommandView { cdb: self.cdb@, data: self.data, attempts: self.attempts, sensing: self.sensing }
    }
}

/// What a [`Command`] asks for next.
#[derive(Debug)]
pub enum CommandAction {
    /// Take the command itself through the transport.
    Run,
    /// Take REQUEST SENSE through the transport, with an 18-byte data phase.
    RequestSense,
    /// The command is over; how many bytes its data phase moved.
    Finish(Result<usize>),
}

/// What a [`CommandAction`] holds.
#[verifier::ext_equal]
pub enum CommandActionView {
    Run,
    RequestSense,
    Finish(std::result::Result<usize, ErrorView>),
}

impl View for CommandAction {
    type V = CommandActionView;

    open spec fn view(&self) -> CommandActionView {
        match *self {
            CommandAction::Run => CommandActionView::Run,
            CommandAction::RequestSense => CommandActionView::RequestSense,
            CommandAction::Finish(r) => CommandActionView::Finish(outcome(r)),
        }
    }
}

/// The sense data that a REQUEST SENSE brought, or why there is none.
pub open spec fn sense_result(
    r: std::result::Result<CommandResult, ErrorView>,
    data: Seq<u8>,
) -> std::result::Result<Sense, ErrorView> {
    match r {
        Err(e) => Err(e),
        Ok(c) => if !c.passed {
            Err(message(ErrorKind::Io, "REQUEST SENSE failed"@))
        } else {
            match sense_of(data.take(c.transferred as int)) {
                Some(s) => Ok(s),
                None => Err(message(ErrorKind::Io, "unrecognised sense data format"@)),
            }
        },
    }
}

/// The command after one pass through the transport; `data` is the buffer
/// that REQUEST SENSE filled in.
pub open spec fn command_next(
    c: CommandView,
    r: std::result::Result<CommandResult, ErrorView>,
    data: Seq<u8>,
) -> (CommandView, CommandActionView) {
    if !c.sensing {
        match r {
            Err(e) => (c, CommandActionView::Finish(Err(e))),
            Ok(x) => if x.passed {
                (c, CommandActionView::Finish(Ok(x.transferred)))
            } else {
                (CommandView { sensing: true, ..c }, CommandActionView::RequestSense)
            },
        }
    } else {
        match sense_result(r, data) {
            Err(e) => (c, CommandActionView::Finish(Err(e))),
            Ok(s) => if s.key == SenseKey::UnitAttention && c.attempts < UNIT_ATTENTION_RETRIES {
                (
                    CommandView { attempts: (c.attempts + 1) as u8, sensing: false, ..c },
                    CommandActionView::Run,
                )
            } else {
                (c, CommandActionView::Finish(Err(command_error(c.cdb[0], s))))
            },
        }
    }
}

/// Interprets the answer to REQUEST SENSE; `data` is the buffer it filled in.
pub fn sense_outcome(r: Result<CommandResult>, data: &[u8]) -> (s: Result<Sense>)
    requires
        r is Ok ==> r->Ok_0.transferred <= data@.len(),
    ensures
        outcome(s) == sense_result(outcome(r), data@),
{
    match r {
        Err(e) => Err(e),
        Ok(c) => {
            if !c.passed {
                return Err(Error::with_message(ErrorKind::Io, "REQUEST SENSE failed"));
            }
            let part = slice_subrange(data, 0, c.transferred);
            assert(part@ =~= data@.take(c.transferred as int));
            match Sense::from_bytes(part) {
                Some(s) => Ok(s),
                None => Err(Error::with_message(ErrorKind::Io, "unrecognised sense data format")),
            }
        },
    }
}

/// A command that has not run yet.
pub open spec fn fresh_command(cdb: Seq<u8>, data: DataPhase) -> CommandView {
    CommandView { cdb, data, attempts: 0, sensing: false }
}

impl Command {
    /// A command that has not run yet; the first thing to do is to run it.
    pub fn new(cdb: &[u8], data: DataPhase) -> (r: Command)
        requires
            cdb@.len() > 0,
        ensures
            r@ == fresh_command(cdb@, data),
    {
        Command { cdb: vstd::slice::slice_to_vec(cdb), data, attempts: 0, sensing: false }
    }

    /// Takes the outcome of the last pass through the transport and says what
    /// to do next. `data` is the buffer that REQUEST SENSE fills in.
    pub fn step(self, r: Result<CommandResult>, data: &[u8]) -> (x: (Command, CommandAction))
        requires
            self.cdb@.len() > 0,
            r is Ok ==> r->Ok_0.transferred <= data@.len() || !self.sensing,
        ensures
            (x.0@, x.1@) == command_next(self@, outcome(r), data@),
    {
        if !self.sensing {
            match r {
                Err(e) => (self, CommandAction::Finish(Err(e))),
                Ok(c) => if c.passed {
                    (self, CommandAction::Finish(Ok(c.transferred)))
                } else {
                    (
                        Command { cdb: self.cdb, data: self.data, attempts: self.attempts, sensing: true },
                        CommandAction::RequestSense,
                    )
                },
            }
        } else {
            match sense_outcome(r, data) {
                Err(e) => (self, CommandAction::Finish(Err(e))),
                Ok(s) => {
                    let attention = match s.key {
                        SenseKey::UnitAttention => true,
                        _ => false,
                    };
                    if attention && self.attempts < UNIT_ATTENTION_RETRIES {
                        (
                            Command {
                                cdb: self.cdb,
                                data: self.data,
                                attempts: self.attempts + 1,
                                sensing: false,
                            },
                            CommandAction::Run,
                        )
                    } else {
                        let mut out = String::new();
                        out.append("SCSI command 0x");
                        text::push_hex2(&mut out, self.cdb[0]);
                        out.append(" failed: ");
                        s.push_text(&mut out);
                        assert(out@ =~= "SCSI command 0x"@ + text::hex2(self.cdb@[0]) + " failed: "@ + sense_text(s));
                        let e = Error::with_message(s.error_kind(), out.as_str());
                        (self, CommandAction::Finish(Err(e)))
                    }
                },
            }
        }
    }
}

/// How many passes through the transport a command can still take.
pub open spec fn command_rank(c: CommandView) -> int {
    2 * (UNIT_ATTENTION_RETRIES - c.attempts) + (if c.sensing { 0int } else { 1int })
}

/// A command ends: whatever the device answers, each pass through the
/// transport either finishes it or brings it closer to its end, and it runs
/// at most four times.
pub proof fn lemma_command_ends(c: CommandView, r: std::result::Result<CommandResult, ErrorView>, data: Seq<u8>)
    requires
        c.attempts <= UNIT_ATTENTION_RETRIES,
    ensures
        ({
            let (d, a) = command_next(c, r, data);
            &&& d.attempts <= UNIT_ATTENTION_RETRIES
            &&& a is Finish || 0 <= command_rank(d) < command_rank(c)
            &&& d.cdb == c.cdb && d.data == c.data
        }),
{
}

/// A command that the device rejects is reported with the reason the device
/// gave, never as a success.
pub proof fn lemma_command_success_is_passed(
    c: CommandView,
    r: std::result::Result<CommandResult, ErrorView>,
    data: Seq<u8>,
)
    requires
        command_next(c, r, data).1 matches CommandActionView::Finish(Ok(_)),
    ensures
        !c.sensing,
        r is Ok && r->Ok_0.passed,
        command_next(c, r, data).1 == CommandActionView::Finish(Ok(r->Ok_0.transferred)),
{
}

// ----- the commands themselves ---------------------------------------------------

impl MassStorage {
    /// INQUIRY: device type, vendor, product and revision, in 36 bytes. See
    /// [`inquiry_outcome`].
    pub fn inquiry(&self) -> (r: Command)
        ensures
            r@ == inquiry_command(),
    {
        let cdb: [u8; 6] = [opcode::INQUIRY, 0, 0, 0, 36, 0];
        assert(cdb@ =~= seq![opcode::INQUIRY, 0, 0, 0, 36, 0]);
        Command::new(cdb.as_slice(), DataPhase::In(36))
    }

    /// REQUEST SENSE, which tells why the previous command on a unit failed:
    /// what to [`execute`](Self::execute), and see [`sense_outcome`].
    pub fn request_sense(&self) -> (r: ([u8; 6], DataPhase))
        ensures
            r.0@ == sense_cdb(),
            r.1 == DataPhase::In(18),
    {
        let cdb: [u8; 6] = [opcode::REQUEST_SENSE, 0, 0, 0, 18, 0];
        assert(cdb@ =~= sense_cdb());
        (cdb, DataPhase::In(18))
    }

    /// TEST UNIT READY: succeeds once the medium is present and usable.
    pub fn test_unit_ready(&self) -> (r: Command)
        ensures
            r@ == ready_command(),
    {
        let cdb: [u8; 6] = [opcode::TEST_UNIT_READY, 0, 0, 0, 0, 0];
        assert(cdb@ =~= seq![opcode::TEST_UNIT_READY, 0, 0, 0, 0, 0]);
        Command::new(cdb.as_slice(), DataPhase::NoData)
    }

    /// SYNCHRONIZE CACHE: flushes the device's write cache. See
    /// [`synchronize_cache_outcome`].
    pub fn synchronize_cache(&self) -> (r: Command)
        ensures
            r@ == flush_command(),
    {
        let cdb: [u8; 10] = [opcode::SYNCHRONIZE_CACHE_10, 0, 0, 0, 0, 0, 0, 0, 0, 0];
        assert(cdb@ =~= seq![opcode::SYNCHRONIZE_CACHE_10, 0, 0, 0, 0, 0, 0, 0, 0, 0]);
        Command::new(cdb.as_slice(), DataPhase::NoData)
    }
}

/// What comes of a flush. A device without a cache has nothing to flush.
pub open spec fn flushed(r: std::result::Result<usize, ErrorView>) -> std::result::Result<(), ErrorView> {
    match r {
        Ok(_) => Ok(()),
        Err(e) => if e.kind == ErrorKind::NotSupported {
            Ok(())
        } else {
            Err(e)
        },
    }
}

/// The outcome of SYNCHRONIZE CACHE. Devices without a cache commonly reject
/// the command, which is reported as success.
pub fn synchronize_cache_outcome(r: Result<usize>) -> (x: Result<()>)
    ensures
        outcome(x) == flushed(outcome(r)),
{
    match r {
        Ok(_) => Ok(()),
        Err(e) => match e.kind() {
            ErrorKind::NotSupported => Ok(()),
            _ => Err(e),
        },
    }
}

/// The flags of START STOP UNIT.
pub open spec fn start_stop_flags(start: bool, load_eject: bool) -> u8 {
    ((if start {
        1int
    } else {
        0int
    }) + (if load_eject {
        2int
    } else {
        0int
    })) as u8
}

impl MassStorage {
    /// START STOP UNIT. `start: false, load_eject: true` ejects the medium.
    pub fn start_stop_unit(&self, start: bool, load_eject: bool) -> (r: Command)
        ensures
            r@ == start_stop_command(start, load_eject),
    {
        let s: u8 = if start {
            1
        } else {
            0
        };
        let l: u8 = if load_eject {
            2
        } else {
            0
        };
        let cdb: [u8; 6] = [opcode::START_STOP_UNIT, 0, 0, 0, s + l, 0];
        assert(cdb@ =~= seq![opcode::START_STOP_UNIT, 0, 0, 0, start_stop_flags(start, load_eject), 0]);
        Command::new(cdb.as_slice(), DataPhase::NoData)
    }

    /// PREVENT ALLOW MEDIUM REMOVAL: locks or unlocks the eject button.
    pub fn prevent_medium_removal(&self, prevent: bool) -> (r: Command)
        ensures
            r@ == prevent_command(prevent),
    {
        let p: u8 = if prevent {
            1
        } else {
            0
        };
        let cdb: [u8; 6] = [opcode::PREVENT_ALLOW_MEDIUM_REMOVAL, 0, 0, 0, p, 0];
        assert(cdb@ =~= seq![opcode::PREVENT_ALLOW_MEDIUM_REMOVAL, 0, 0, 0, if prevent { 1u8 } else { 0u8 }, 0]);
        Command::new(cdb.as_slice(), DataPhase::NoData)
    }
}

/// What INQUIRY brought: `n` bytes of `data`.
pub fn inquiry_outcome(r: Result<usize>, data: &[u8]) -> (x: Result<scsi::Inquiry>)
    requires
        r is Ok ==> r->Ok_0 <= data@.len(),
    ensures
        match r {
            Err(e) => x is Err && x->Err_0@ == e@,
            Ok(n) => if n < 5 {
                x is Err && x->Err_0@ == message(ErrorKind::Io, "short INQUIRY data"@)
            } else {
                x is Ok && x->Ok_0@ == scsi::inquiry_of(data@.take(n as int))
            },
        },
{
    match r {
        Err(e) => Err(e),
        Ok(n) => {
            let part = slice_subrange(data, 0, n);
            assert(part@ =~= data@.take(n as int));
            match scsi::Inquiry::from_bytes(part) {
                Some(i) => Ok(i),
                None => Err(Error::with_message(ErrorKind::Io, "short INQUIRY data")),
            }
        },
    }
}

// ----- READ CAPACITY ---------------------------------------------------------------

/// The command block of READ CAPACITY (10), with an 8-byte data phase.
pub open spec fn capacity_10_cdb() -> Seq<u8> {
    seq![opcode::READ_CAPACITY_10, 0, 0, 0, 0, 0, 0, 0, 0, 0]
}

/// The command block of READ CAPACITY (16), with a 32-byte data phase.
pub open spec fn capacity_16_cdb() -> Seq<u8> {
    seq![opcode::SERVICE_ACTION_IN_16, 0x10, 0, 0, 0, 0, 0, 0, 0, 0, 0, 0, 0, 32, 0, 0]
}

impl MassStorage {
    /// READ CAPACITY: the number and size of blocks. The short form first (see
    /// [`read_capacity_10`]), and the long one for units that need it (see
    /// [`read_capacity_16`]).
    pub fn read_capacity(&self, long: bool) -> (r: Command)
        ensures
            r@ == capacity_command(long),
    {
        if long {
            let cdb: [u8; 16] = [opcode::SERVICE_ACTION_IN_16, 0x10, 0, 0, 0, 0, 0, 0, 0, 0, 0, 0, 0, 32, 0, 0];
            assert(cdb@ =~= capacity_16_cdb());
            Command::new(cdb.as_slice(), DataPhase::In(32))
        } else {
            let cdb: [u8; 10] = [opcode::READ_CAPACITY_10, 0, 0, 0, 0, 0, 0, 0, 0, 0];
            assert(cdb@ =~= capacity_10_cdb());
            Command::new(cdb.as_slice(), DataPhase::In(8))
        }
    }
}

/// A capacity, unless its blocks have no size.
pub open spec fn checked_capacity(c: Capacity) -> std::result::Result<Capacity, ErrorView> {
    if c.block_size == 0 {
        Err(message(ErrorKind::Io, "device reports a zero block size"@))
    } else {
        Ok(c)
    }
}

/// What READ CAPACITY (10) says: the capacity, or `None` when the unit is too
/// large for it and READ CAPACITY (16) has to be asked.
pub open spec fn capacity_10(
    r: std::result::Result<usize, ErrorView>,
    b: Seq<u8>,
) -> std::result::Result<Option<Capacity>, ErrorView> {
    match r {
        Err(e) => Err(e),
        Ok(n) => if n < 8 {
            Err(message(ErrorKind::Io, "short READ CAPACITY data"@))
        } else if be32_at(b, 0) == u32::MAX {
            Ok(None)
        } else {
            match checked_capacity(
                Capacity { block_count: (be32_at(b, 0) + 1) as u64, block_size: be32_at(b, 4) },
            ) {
                Ok(c) => Ok(Some(c)),
                Err(e) => Err(e),
            }
        },
    }
}

/// What READ CAPACITY (16) says.
pub open spec fn capacity_16(
    r: std::result::Result<usize, ErrorView>,
    b: Seq<u8>,
) -> std::result::Result<Capacity, ErrorView> {
    match r {
        Err(e) => Err(e),
        Ok(n) => if n < 12 {
            Err(message(ErrorKind::Io, "short READ CAPACITY (16) data"@))
        } else {
            checked_capacity(Capacity { block_count: (be64_at(b, 0) + 1) as u64, block_size: be32_at(b, 8) })
        },
    }
}

fn check_capacity(c: Capacity) -> (r: Result<Capacity>)
    ensures
        outcome(r) == checked_capacity(c),
{
    if c.block_size == 0 {
        return Err(Error::with_message(ErrorKind::Io, "device reports a zero block size"));
    }
    Ok(c)
}

/// Interprets the answer to READ CAPACITY (10). `None` means that the unit is
/// larger than 2 TiB and the 16-byte form has to be used.
pub fn read_capacity_10(r: Result<usize>, b: &[u8]) -> (x: Result<Option<Capacity>>)
    requires
        b@.len() == 8,
    ensures
        outcome(x) == capacity_10(outcome(r), b@),
{
    match r {
        Err(e) => Err(e),
        Ok(n) => {
            if n < 8 {
                return Err(Error::with_message(ErrorKind::Io, "short READ CAPACITY data"));
            }
            let last: u32 = be32(b, 0);
            if last == u32::MAX {
                return Ok(None);
            }
            match check_capacity(Capacity { block_count: last as u64 + 1, block_size: be32(b, 4) }) {
                Ok(c) => Ok(Some(c)),
                Err(e) => Err(e),
            }
        },
    }
}

/// Interprets the answer to READ CAPACITY (16). The last block of a unit has
/// an address below the largest 64-bit number.
pub fn read_capacity_16(r: Result<usize>, b: &[u8]) -> (x: Result<Capacity>)
    requires
        b@.len() == 32,
        r is Ok && r->Ok_0 >= 12 ==> be64_at(b@, 0) < u64::MAX,
    ensures
        outcome(x) == capacity_16(outcome(r), b@),
{
    match r {
        Err(e) => Err(e),
        Ok(n) => {
            if n < 12 {
                return Err(Error::with_message(ErrorKind::Io, "short READ CAPACITY (16) data"));
            }
            let last: u64 = be64(b, 0);
            check_capacity(Capacity { block_count: last + 1, block_size: be32(b, 8) })
        },
    }
}

// ----- write protection ---------------------------------------------------------------

/// The command block of MODE SENSE (6) for all pages.
pub open spec fn mode_sense_cdb(alloc: u8) -> Seq<u8> {
    seq![opcode::MODE_SENSE_6, 0, 0x3f, 0, alloc, 0]
}

/// MODE SENSE (6) for all pages, with a data phase of `alloc` bytes.
pub fn mode_sense(alloc: u8) -> (r: [u8; 6])
    ensures
        r@ == mode_sense_cdb(alloc),
{
    let cdb: [u8; 6] = [opcode::MODE_SENSE_6, 0, 0x3f, 0, alloc, 0];
    assert(cdb@ =~= mode_sense_cdb(alloc));
    cdb
}

/// What to do about write protection next.
#[derive(Debug)]
pub enum ProtectAction {
    /// Send MODE SENSE with a data phase of so many bytes.
    Ask(u8),
    /// The question is settled.
    Finish(Result<bool>),
}

/// What a [`ProtectAction`] holds.
#[verifier::ext_equal]
pub enum ProtectActionView {
    Ask(u8),
    Finish(std::result::Result<bool, ErrorView>),
}

impl View for ProtectAction {
    type V = ProtectActionView;

    open spec fn view(&self) -> ProtectActionView {
        match *self {
            ProtectAction::Ask(n) => ProtectActionView::Ask(n),
            ProtectAction::Finish(r) => ProtectActionView::Finish(outcome(r)),
        }
    }
}

/// What follows from the answer to MODE SENSE with `alloc` bytes: some
/// devices only accept a header-sized request, so 192 bytes are asked for
/// first and 4 next.
pub open spec fn protect_next(
    alloc: u8,
    r: std::result::Result<usize, ErrorView>,
    b: Seq<u8>,
) -> ProtectActionView {
    let refused = match r {
        Ok(n) => n < 3,
        Err(e) => e.kind == ErrorKind::NotSupported,
    };
    if refused {
        if alloc == 192 {
            ProtectActionView::Ask(4)
        } else {
            ProtectActionView::Finish(Err(message(ErrorKind::NotSupported, "MODE SENSE not supported"@)))
        }
    } else {
        match r {
            Ok(n) => ProtectActionView::Finish(Ok(b[2] >= 0x80)),
            Err(e) => ProtectActionView::Finish(Err(e)),
        }
    }
}

impl MassStorage {
    /// Whether the medium is write-protected, from the answer to MODE SENSE with
    /// `alloc` bytes, or what to ask next. Start by asking for 192 bytes.
    pub fn is_write_protected(&self, alloc: u8, r: Result<usize>, b: &[u8]) -> (x: ProtectAction)
        requires
            r is Ok && r->Ok_0 >= 3 ==> b@.len() >= 3,
        ensures
            x@ == protect_next(alloc, outcome(r), b@),
    {
        match r {
            Ok(n) => {
                if n >= 3 {
                    return ProtectAction::Finish(Ok(b[2] >= 0x80));
                }
            },
            Err(e) => match e.kind() {
                ErrorKind::NotSupported => {},
                _ => {
                    return ProtectAction::Finish(Err(e));
                },
            },
        }
        if alloc == 192 {
            ProtectAction::Ask(4)
        } else {
            ProtectAction::Finish(Err(Error::with_message(ErrorKind::NotSupported, "MODE SENSE not supported")))
        }
    }
}

// ----- waiting for a unit ------------------------------------------------------------------

/// What to do about a unit that may not be ready yet.
#[derive(Debug)]
pub enum ReadyAction {
    /// Wait for `pause`, then test the unit again.
    TestAgain { pause: u64 },
    /// The unit is ready.
    Ready,
    /// Wait for `pause`; the unit is not ready.
    Fail { error: Error, pause: u64 },
}

/// What a [`ReadyAction`] holds.
#[verifier::ext_equal]
pub enum ReadyActionView {
    TestAgain { pause: u64 },
    Ready,
    Fail { error: ErrorView, pause: u64 },
}

impl View for ReadyAction {
    type V = ReadyActionView;

    open spec fn view(&self) -> ReadyActionView {
        match *self {
            ReadyAction::TestAgain { pause } => ReadyActionView::TestAgain { pause },
            ReadyAction::Ready => ReadyActionView::Ready,
            ReadyAction::Fail { error, pause } => ReadyActionView::Fail { error: error@, pause },
        }
    }
}

/// What follows from the outcome of TEST UNIT READY number `tries`.
pub open spec fn ready_next(tries: u8, r: std::result::Result<(), ErrorView>) -> ReadyActionView {
    match r {
        Ok(_) => ReadyActionView::Ready,
        Err(e) => if e.kind != ErrorKind::Busy {
            ReadyActionView::Fail { error: e, pause: 0 }
        } else if tries < READY_TRIES {
            ReadyActionView::TestAgain { pause: READY_PAUSE }
        } else {
            ReadyActionView::Fail { error: e, pause: READY_PAUSE }
        },
    }
}

/// Decides what follows from the outcome of TEST UNIT READY number `tries`,
/// counted from 1: a unit that is becoming ready is asked ten times, with a
/// pause after each.
pub fn wait_ready(tries: u8, r: Result<()>) -> (x: ReadyAction)
    ensures
        x@ == ready_next(tries, outcome(r)),
{
    match r {
        Ok(()) => ReadyAction::Ready,
        Err(e) => match e.kind() {
            ErrorKind::Busy => if tries < READY_TRIES {
                ReadyAction::TestAgain { pause: READY_PAUSE }
            } else {
                ReadyAction::Fail { error: e, pause: READY_PAUSE }
            },
            _ => ReadyAction::Fail { error: e, pause: 0 },
        },
    }
}

// ----- block I/O -----------------------------------------------------------------------------

/// The block size, if the buffer is a whole number of blocks.
pub fn check_blocks(block_size: u32, len: usize) -> (r: Result<usize>)
    ensures
        whole_blocks(block_size, len) ==> r == Ok::<usize, Error>(block_size as usize),
        !whole_blocks(block_size, len) ==> r is Err && r->Err_0@ == message(
            ErrorKind::InvalidParam,
            "buffer is not a whole number of blocks"@,
        ),
{
    let bs: usize = block_size as usize;
    if bs == 0 || len % bs != 0 {
        return Err(Error::with_message(ErrorKind::InvalidParam, "buffer is not a whole number of blocks"));
    }
    Ok(bs)
}

/// Whether a buffer is a whole number of blocks.
pub open spec fn whole_blocks(block_size: u32, len: usize) -> bool {
    block_size > 0 && len as int % block_size as int == 0
}

/// A read or write of whole blocks, split into commands no larger than the
/// maximum transfer size.
#[derive(Debug, Clone, Copy, PartialEq, Eq, Structural)]
pub struct BlockTransfer {
    /// Whether blocks are written.
    pub write: bool,
    /// The first block.
    pub lba: u64,
    /// Bytes per block.
    pub block_size: usize,
    /// Blocks per command.
    pub chunk: usize,
    /// Bytes in all.
    pub len: usize,
    /// Bytes moved so far.
    pub pos: usize,
}

/// The part of the buffer that the next command moves, and its command block.
#[derive(Debug, Clone, Copy, PartialEq, Eq)]
pub struct BlockPart {
    /// Where the part starts in the buffer.
    pub start: usize,
    /// Where it ends.
    pub end: usize,
    /// The command block; only the first `cdb_len` bytes count.
    pub cdb: [u8; 16],
    /// The length of the command block.
    pub cdb_len: usize,
}

impl BlockTransfer {
    /// What every transfer satisfies.
    pub open spec fn wf(&self) -> bool {
        &&& self.block_size > 0
        &&& 1 <= self.chunk <= 0xffff
        &&& self.pos <= self.len
        &&& self.len as int % self.block_size as int == 0
        &&& self.pos as int % self.block_size as int == 0
        &&& self.lba + self.len as int / self.block_size as int <= u64::MAX
    }

    /// The block that the next command starts at.
    pub open spec fn next_lba(&self) -> int {
        self.lba + self.pos as int / self.block_size as int
    }

    /// Where the next command's part of the buffer ends.
    pub open spec fn next_end(&self) -> int {
        if self.len - self.pos > self.chunk * self.block_size {
            self.pos + self.chunk * self.block_size
        } else {
            self.len as int
        }
    }

    /// Starts a transfer of `len` bytes at block `lba`.
    pub fn new(write: bool, lba: u64, block_size: u32, len: usize, max_transfer: usize) -> (r: Result<BlockTransfer>)
        requires
            whole_blocks(block_size, len) ==> lba + len as int / block_size as int <= u64::MAX,
        ensures
            !whole_blocks(block_size, len) ==> r is Err && r->Err_0@ == message(
                ErrorKind::InvalidParam,
                "buffer is not a whole number of blocks"@,
            ),
            whole_blocks(block_size, len) ==> r is Ok && r->Ok_0.wf() && r->Ok_0 == (BlockTransfer {
                write,
                lba,
                block_size: block_size as usize,
                chunk: blocks_per_command(max_transfer as int, block_size as int) as usize,
                len,
                pos: 0,
            }),
    {
        match check_blocks(block_size, len) {
            Err(e) => Err(e),
            Ok(bs) => {
                let n: usize = max_transfer / bs;
                let chunk: usize = if n < 1 {
                    1
                } else if n > 0xffff {
                    0xffff
                } else {
                    n
                };
                assert(0int % bs as int == 0) by (nonlinear_arith)
                    requires
                        bs > 0,
                ;
                Ok(BlockTransfer { write, lba, block_size: bs, chunk, len, pos: 0 })
            },
        }
    }

    /// The next command, or `None` once every block has moved.
    pub fn next(&self) -> (r: Option<BlockPart>)
        requires
            self.wf(),
        ensures
            self.pos == self.len ==> r is None,
            self.pos < self.len ==> r is Some && ({
                let p = r->0;
                &&& p.start == self.pos
                &&& p.end == self.next_end()
                &&& p.cdb_len == 10 || p.cdb_len == 16
                &&& p.cdb@.take(p.cdb_len as int) == rw_bytes(
                    self.write,
                    self.next_lba() as u64,
                    ((p.end - p.start) / self.block_size as int) as u32,
                )
            }),
    {
        if self.pos == self.len {
            return None;
        }
        let bs: usize = self.block_size;
        let left: usize = self.len - self.pos;
        proof {
            lemma_part(*self);
        }
        let blocks_left: usize = left / bs;
        let blocks: usize = if blocks_left > self.chunk {
            self.chunk
        } else {
            blocks_left
        };
        let size: usize = blocks * bs;
        let (cdb, cdb_len) = scsi::rw_cdb(self.write, self.lba + (self.pos / bs) as u64, blocks as u32);
        Some(BlockPart { start: self.pos, end: self.pos + size, cdb, cdb_len })
    }

    /// Takes the outcome of the last command. A command that moved less than
    /// its part fails the transfer.
    pub fn advance(&mut self, moved: Result<usize>) -> (r: Result<()>)
        requires
            old(self).wf(),
            old(self).pos < old(self).len,
        ensures
            final(self).wf(),
            match moved {
                Err(e) => r is Err && r->Err_0@ == e@ && *final(self) == *old(self),
                Ok(n) => if n == old(self).next_end() - old(self).pos {
                    r is Ok && *final(self) == (BlockTransfer { pos: old(self).next_end() as usize, ..*old(self) })
                } else {
                    r is Err && r->Err_0@ == message(
                        ErrorKind::Io,
                        if old(self).write {
                            "device accepted fewer blocks than sent"@
                        } else {
                            "device returned fewer blocks than requested"@
                        },
                    ) && *final(self) == *old(self)
                },
            },
    {
        proof {
            lemma_part(*self);
        }
        let bs: usize = self.block_size;
        let left: usize = self.len - self.pos;
        let blocks_left: usize = left / bs;
        let blocks: usize = if blocks_left > self.chunk {
            self.chunk
        } else {
            blocks_left
        };
        let size: usize = blocks * bs;
        match moved {
            Err(e) => Err(e),
            Ok(n) => {
                if n != size {
                    return Err(
                        if self.write {
                            Error::with_message(ErrorKind::Io, "device accepted fewer blocks than sent")
                        } else {
                            Error::with_message(ErrorKind::Io, "device returned fewer blocks than requested")
                        },
                    );
                }
                self.pos = self.pos + size;
                Ok(())
            },
        }
    }
}

impl MassStorage {
    /// Starts reading `len` bytes of whole blocks at `lba`, split into commands
    /// no larger than the maximum transfer size.
    pub fn read_blocks(&self, lba: u64, block_size: u32, len: usize) -> (r: Result<BlockTransfer>)
        requires
            whole_blocks(block_size, len) ==> lba + len as int / block_size as int <= u64::MAX,
        ensures
            !whole_blocks(block_size, len) ==> r is Err && r->Err_0@ == message(
                ErrorKind::InvalidParam,
                "buffer is not a whole number of blocks"@,
            ),
            whole_blocks(block_size, len) ==> r is Ok && r->Ok_0.wf() && r->Ok_0 == reading(
                lba,
                block_size,
                len,
                self.max_transfer,
            ),
    {
        BlockTransfer::new(false, lba, block_size, len, self.max_transfer)
    }

    /// Starts writing `len` bytes of whole blocks at `lba`.
    pub fn write_blocks(&self, lba: u64, block_size: u32, len: usize) -> (r: Result<BlockTransfer>)
        requires
            whole_blocks(block_size, len) ==> lba + len as int / block_size as int <= u64::MAX,
        ensures
            !whole_blocks(block_size, len) ==> r is Err && r->Err_0@ == message(
                ErrorKind::InvalidParam,
                "buffer is not a whole number of blocks"@,
            ),
            whole_blocks(block_size, len) ==> r is Ok && r->Ok_0.wf() && r->Ok_0 == writing(
                lba,
                block_size,
                len,
                self.max_transfer,
            ),
    {
        BlockTransfer::new(true, lba, block_size, len, self.max_transfer)
    }
}

proof fn lemma_mod_of_difference(a: int, b: int, m: int)
    requires
        m > 0,
        a % m == 0,
        b % m == 0,
    ensures
        (a - b) % m == 0,
        (a + b) % m == 0,
        (a - b) / m == a / m - b / m,
        (a + b) / m == a / m + b / m,
        a == m * (a / m),
{
    vstd::arithmetic::div_mod::lemma_fundamental_div_mod(a, m);
    vstd::arithmetic::div_mod::lemma_fundamental_div_mod(b, m);
    let x = a / m;
    let y = b / m;
    assert(a - b == m * (x - y)) by (nonlinear_arith)
        requires
            a == m * x,
            b == m * y,
    ;
    assert(a + b == m * (x + y)) by (nonlinear_arith)
        requires
            a == m * x,
            b == m * y,
    ;
    vstd::arithmetic::div_mod::lemma_fundamental_div_mod_converse(a - b, m, x - y, 0);
    vstd::arithmetic::div_mod::lemma_fundamental_div_mod_converse(a + b, m, x + y, 0);
}

/// The part of a transfer that the next command moves is a whole, non-zero
/// number of blocks, no more than the chunk and no more than what is left,
/// and the transfer stays well formed after it.
pub proof fn lemma_part(t: BlockTransfer)
    requires
        t.wf(),
        t.pos < t.len,
    ensures
        ({
            let bs = t.block_size as int;
            let left = t.len - t.pos;
            let blocks = if left / bs > t.chunk { t.chunk as int } else { left / bs };
            &&& 0 < blocks <= t.chunk
            &&& t.next_end() == t.pos + blocks * bs
            &&& t.pos < t.next_end() <= t.len
            &&& (t.next_end() - t.pos) / bs == blocks
            &&& t.next_end() % bs == 0
            &&& t.next_lba() + blocks <= t.lba + t.len as int / bs
            &&& t.next_lba() + blocks <= u64::MAX
        }),
{
    let bs = t.block_size as int;
    let left = t.len - t.pos;
    lemma_mod_of_difference(t.len as int, t.pos as int, bs);
    let k = left / bs;
    lemma_mod_of_difference(left, 0, bs);
    assert(left == bs * k);
    assert(k > 0) by (nonlinear_arith)
        requires
            left > 0,
            left == bs * k,
            bs > 0,
    ;
    let c = t.chunk as int;
    assert((left > c * bs) == (k > c)) by (nonlinear_arith)
        requires
            left == bs * k,
            bs > 0,
    ;
    let blocks = if k > c { c } else { k };
    assert(blocks * bs == bs * blocks) by (nonlinear_arith);
    assert(blocks * bs <= left) by (nonlinear_arith)
        requires
            blocks <= k,
            left == bs * k,
            bs > 0,
    ;
    assert(blocks * bs > 0) by (nonlinear_arith)
        requires
            blocks > 0,
            bs > 0,
    ;
    vstd::arithmetic::div_mod::lemma_fundamental_div_mod_converse(blocks * bs, bs, blocks, 0);
    lemma_mod_of_difference(t.pos as int, blocks * bs, bs);
}

/// The commands of a transfer cover the buffer end to end: each one starts
/// where the last one stopped, in the buffer and on the medium.
pub proof fn lemma_transfer_is_contiguous(t: BlockTransfer)
    requires
        t.wf(),
        t.pos < t.len,
    ensures
        ({
            let next = BlockTransfer { pos: t.next_end() as usize, ..t };
            &&& next.wf()
            &&& t.pos < next.pos <= t.len
            &&& next.next_lba() == t.next_lba() + (t.next_end() - t.pos) / t.block_size as int
        }),
{
    lemma_part(t);
    lemma_mod_of_difference(t.next_end(), t.pos as int, t.block_size as int);
}

/// Where a seek goes.
#[derive(Debug, Clone, Copy, PartialEq, Eq, Structural)]
pub enum SeekTo {
    /// So many bytes from the start.
    Start(u64),
    /// So many bytes from the end.
    End(i64),
    /// So many bytes from the current position.
    Current(i64),
}

/// How the next bytes of a unit are reached.
#[derive(Debug, Clone, Copy, PartialEq, Eq, Structural)]
pub enum BlockAccess {
    /// There is nothing to move.
    Nothing,
    /// The unit ends here, and something was to be written.
    AtEnd,
    /// `n` bytes at `offset` of the one block `lba`, through a scratch block
    /// that is read first and, for a write, rewritten.
    Scratch { lba: u64, offset: usize, n: usize },
    /// `n` bytes of whole blocks from `lba`, directly.
    Direct { lba: u64, n: usize },
}

/// One logical unit as a byte-addressed stream.
///
/// Aligned whole-block I/O goes straight to the device; anything else reads
/// (and for writes, rewrites) the blocks it touches. Reads and writes stop at
/// the end of the unit.
#[derive(Debug, Clone, Copy, PartialEq, Eq, Structural)]
pub struct BlockDevice {
    /// The logical unit number.
    pub lun: u8,
    /// The unit's size.
    pub capacity: Capacity,
    /// The position of the stream.
    pub pos: u64,
}

/// The bytes between the position and the end of the unit.
pub open spec fn bytes_left(d: BlockDevice) -> int {
    if d.pos < capacity_of(d) {
        capacity_of(d) - d.pos
    } else {
        0
    }
}

/// The size of a unit in bytes.
pub open spec fn capacity_of(d: BlockDevice) -> int {
    scsi::capacity_bytes(d.capacity)
}

/// Whether the blocks from `lba` that hold `len` bytes exist.
pub open spec fn in_range(c: Capacity, lba: u64, len: usize) -> bool {
    lba + len as int / c.block_size as int <= c.block_count
}

/// Whole blocks that can be moved directly at the position.
pub open spec fn direct_blocks_at(d: BlockDevice, len: int) -> int {
    let bs = d.capacity.block_size as int;
    if d.pos as int % bs != 0 {
        0
    } else {
        (if len < bytes_left(d) { len } else { bytes_left(d) }) / bs
    }
}

/// How `len` bytes at the position are reached, as far as one step goes.
pub open spec fn access_at(d: BlockDevice, len: int) -> BlockAccess {
    let bs = d.capacity.block_size as int;
    let offset = d.pos as int % bs;
    let direct = direct_blocks_at(d, len);
    if direct == 0 {
        let a = if len < bs - offset { len } else { bs - offset };
        let n = if a < bytes_left(d) { a } else { bytes_left(d) };
        BlockAccess::Scratch { lba: (d.pos as int / bs) as u64, offset: offset as usize, n: n as usize }
    } else {
        BlockAccess::Direct { lba: (d.pos as int / bs) as u64, n: (direct * bs) as usize }
    }
}

/// The position that a seek leads to, if it is not before the start.
pub open spec fn seek_target(d: BlockDevice, to: SeekTo) -> Option<int> {
    let p = match to {
        SeekTo::Start(p) => p as int,
        SeekTo::End(x) => capacity_of(d) + x,
        SeekTo::Current(x) => d.pos + x,
    };
    if 0 <= p <= u64::MAX {
        Some(p)
    } else {
        None
    }
}

impl BlockDevice {
    /// A unit whose size in bytes is known and fits.
    pub open spec fn wf(&self) -> bool {
        self.capacity.block_size > 0 && capacity_of(*self) <= u64::MAX
    }

    /// A stream at the start of a unit.
    pub fn new(lun: u8, capacity: Capacity) -> (r: BlockDevice)
        ensures
            r == (BlockDevice { lun, capacity, pos: 0 }),
    {
        BlockDevice { lun, capacity, pos: 0 }
    }

    /// The unit's size, as read when this value was created.
    pub fn capacity(&self) -> (r: Capacity)
        ensures
            r == self.capacity,
    {
        self.capacity
    }

    /// The logical unit number.
    pub fn lun(&self) -> (r: u8)
        ensures
            r == self.lun,
    {
        self.lun
    }

    /// Checks that whole blocks at `lba` lie within the unit.
    pub fn check_range(&self, lba: u64, len: usize) -> (r: Result<()>)
        requires
            self.capacity.block_size > 0,
        ensures
            in_range(self.capacity, lba, len) ==> r is Ok,
            !in_range(self.capacity, lba, len) ==> r is Err && r->Err_0@ == message(
                ErrorKind::InvalidParam,
                "blocks past the end of the unit"@,
            ),
    {
        let blocks: u64 = len as u64 / self.capacity.block_size as u64;
        match lba.checked_add(blocks) {
            Some(end) => {
                if end <= self.capacity.block_count {
                    return Ok(());
                }
            },
            None => {},
        }
        Err(Error::with_message(ErrorKind::InvalidParam, "blocks past the end of the unit"))
    }

    /// Starts reading whole blocks at `lba`; the position is not used or moved.
    pub fn read_blocks(&self, msc: &MassStorage, lba: u64, len: usize) -> (r: Result<BlockTransfer>)
        requires
            self.capacity.block_size > 0,
        ensures
            !in_range(self.capacity, lba, len) ==> r is Err && r->Err_0@ == message(
                ErrorKind::InvalidParam,
                "blocks past the end of the unit"@,
            ),
            in_range(self.capacity, lba, len) && !whole_blocks(self.capacity.block_size, len) ==> r is Err
                && r->Err_0@ == message(ErrorKind::InvalidParam, "buffer is not a whole number of blocks"@),
            in_range(self.capacity, lba, len) && whole_blocks(self.capacity.block_size, len) ==> r is Ok
                && r->Ok_0.wf() && r->Ok_0 == reading(lba, self.capacity.block_size, len, msc.max_transfer),
    {
        match self.check_range(lba, len) {
            Err(e) => Err(e),
            Ok(()) => msc.read_blocks(lba, self.capacity.block_size, len),
        }
    }

    /// Starts writing whole blocks at `lba`; the position is not used or moved.
    pub fn write_blocks(&self, msc: &MassStorage, lba: u64, len: usize) -> (r: Result<BlockTransfer>)
        requires
            self.capacity.block_size > 0,
        ensures
            !in_range(self.capacity, lba, len) ==> r is Err && r->Err_0@ == message(
                ErrorKind::InvalidParam,
                "blocks past the end of the unit"@,
            ),
            in_range(self.capacity, lba, len) && !whole_blocks(self.capacity.block_size, len) ==> r is Err
                && r->Err_0@ == message(ErrorKind::InvalidParam, "buffer is not a whole number of blocks"@),
            in_range(self.capacity, lba, len) && whole_blocks(self.capacity.block_size, len) ==> r is Ok
                && r->Ok_0.wf() && r->Ok_0 == writing(lba, self.capacity.block_size, len, msc.max_transfer),
    {
        match self.check_range(lba, len) {
            Err(e) => Err(e),
            Ok(()) => msc.write_blocks(lba, self.capacity.block_size, len),
        }
    }

    /// The bytes between the position and the end of the unit.
    pub fn remaining(&self) -> (r: u64)
        requires
            self.wf(),
        ensures
            r == bytes_left(*self),
    {
        let size: u64 = self.capacity.bytes();
        if self.pos < size {
            size - self.pos
        } else {
            0
        }
    }

    /// Whole blocks that can be moved directly at the current position, or 0
    /// when the next access has to go through the scratch block.
    pub fn direct_blocks(&self, len: usize) -> (r: usize)
        requires
            self.wf(),
        ensures
            r == direct_blocks_at(*self, len as int),
    {
        let bs: u64 = self.capacity.block_size as u64;
        if self.pos % bs != 0 {
            return 0;
        }
        let left: u64 = self.remaining();
        let n: u64 = if (len as u64) < left {
            len as u64
        } else {
            left
        };
        let blocks: u64 = n / bs;
        assert(blocks <= n) by (nonlinear_arith)
            requires
                blocks == n / bs,
                bs > 0,
        ;
        blocks as usize
    }

    fn access(&self, len: usize) -> (r: BlockAccess)
        requires
            self.wf(),
            len > 0,
            bytes_left(*self) > 0,
        ensures
            r == access_at(*self, len as int),
    {
        let bs: u64 = self.capacity.block_size as u64;
        let lba: u64 = self.pos / bs;
        let direct: usize = self.direct_blocks(len);
        let left: u64 = self.remaining();
        if direct == 0 {
            let offset: u64 = self.pos % bs;
            let room: u64 = bs - offset;
            let a: u64 = if (len as u64) < room {
                len as u64
            } else {
                room
            };
            let n: u64 = if a < left {
                a
            } else {
                left
            };
            BlockAccess::Scratch { lba, offset: offset as usize, n: n as usize }
        } else {
            proof {
                let m = if (len as int) < bytes_left(*self) { len as int } else { bytes_left(*self) };
                vstd::arithmetic::div_mod::lemma_fundamental_div_mod(m, bs as int);
                assert(direct * bs <= m) by (nonlinear_arith)
                    requires
                        direct == m / bs as int,
                        m == bs * (m / bs as int) + m % bs as int,
                        m % bs as int >= 0,
                ;
                assert(direct * bs >= 0) by (nonlinear_arith);
            }
            BlockAccess::Direct { lba, n: direct * bs as usize }
        }
    }

    /// How the next read of up to `len` bytes is carried out.
    pub fn plan_read(&self, len: usize) -> (r: BlockAccess)
        requires
            self.wf(),
        ensures
            r == read_access(*self, len),
    {
        if len == 0 || self.remaining() == 0 {
            return BlockAccess::Nothing;
        }
        self.access(len)
    }

    /// How the next write of up to `len` bytes is carried out.
    pub fn plan_write(&self, len: usize) -> (r: BlockAccess)
        requires
            self.wf(),
        ensures
            r == write_access(*self, len),
    {
        if len == 0 {
            return BlockAccess::Nothing;
        }
        if self.remaining() == 0 {
            return BlockAccess::AtEnd;
        }
        self.access(len)
    }

    /// Moves the position past `n` bytes that were read or written.
    pub fn advance(&mut self, n: usize)
        requires
            old(self).pos + n <= u64::MAX,
        ensures
            *final(self) == (BlockDevice { pos: (old(self).pos + n) as u64, ..*old(self) }),
    {
        self.pos = self.pos + n as u64;
    }

    /// Moves the position; fails when it would lie before the start.
    pub fn seek(&mut self, to: SeekTo) -> (r: Result<u64>)
        requires
            old(self).wf(),
        ensures
            match seek_target(*old(self), to) {
                Some(p) => r == Ok::<u64, Error>(p as u64) && *final(self) == (BlockDevice {
                    pos: p as u64,
                    ..*old(self)
                }),
                None => r is Err && r->Err_0@ == message(
                    ErrorKind::InvalidParam,
                    "seek before the start of the unit"@,
                ) && *final(self) == *old(self),
            },
    {
        let target: Option<u64> = match to {
            SeekTo::Start(p) => Some(p),
            SeekTo::End(x) => self.capacity.bytes().checked_add_signed(x),
            SeekTo::Current(x) => self.pos.checked_add_signed(x),
        };
        match target {
            Some(p) => {
                self.pos = p;
                Ok(p)
            },
            None => Err(Error::with_message(ErrorKind::InvalidParam, "seek before the start of the unit")),
        }
    }
}

impl MassStorage {
    /// Wraps a unit that is ready (see [`wait_ready`]) as a stream of bytes,
    /// from what reading its capacity came to.
    pub fn block_device(&self, lun: u8, capacity: Result<Capacity>) -> (r: Result<BlockDevice>)
        ensures
            outcome(r) == (match outcome(capacity) {
                Ok(c) => Ok::<BlockDevice, ErrorView>(BlockDevice { lun, capacity: c, pos: 0 }),
                Err(e) => Err(e),
            }),
    {
        match capacity {
            Ok(c) => Ok(BlockDevice::new(lun, c)),
            Err(e) => Err(e),
        }
    }
}

/// An access makes progress, stays within the unit and within what was asked
/// for; a direct one moves whole blocks from a block boundary, and any other
/// stays within one block.
pub proof fn lemma_access_in_bounds(d: BlockDevice, len: usize)
    requires
        d.wf(),
        len > 0,
        bytes_left(d) > 0,
    ensures
        match access_at(d, len as int) {
            BlockAccess::Scratch { lba, offset, n } => {
                &&& 0 < n <= len
                &&& d.pos + n <= capacity_of(d)
                &&& offset + n <= d.capacity.block_size
                &&& d.pos == lba * d.capacity.block_size + offset
            },
            BlockAccess::Direct { lba, n } => {
                &&& 0 < n <= len
                &&& d.pos + n <= capacity_of(d)
                &&& n as int % d.capacity.block_size as int == 0
                &&& d.pos == lba * d.capacity.block_size
            },
            _ => false,
        },
{
    let bs = d.capacity.block_size as int;
    let p = d.pos as int;
    vstd::arithmetic::div_mod::lemma_fundamental_div_mod(p, bs);
    let lba = p / bs;
    let offset = p % bs;
    assert(bs * lba == lba * bs) by (nonlinear_arith);
    assert(0 <= lba <= p) by (nonlinear_arith)
        requires
            lba == p / bs,
            p >= 0,
            bs > 0,
    ;
    let direct = direct_blocks_at(d, len as int);
    if direct != 0 {
        let m = if (len as int) < bytes_left(d) { len as int } else { bytes_left(d) };
        vstd::arithmetic::div_mod::lemma_fundamental_div_mod(m, bs);
        assert(0 < direct * bs <= m) by (nonlinear_arith)
            requires
                direct == m / bs,
                direct != 0,
                m > 0,
                bs > 0,
                m == bs * (m / bs) + m % bs,
                m % bs >= 0,
        ;
        vstd::arithmetic::div_mod::lemma_fundamental_div_mod_converse(direct * bs, bs, direct, 0);
    }
}

/// A command wrapper has 31 bytes: `USBC`, the tag, how much data is expected
/// and in which direction, the unit, the length of the command block and the
/// block itself, filled up with zeros.
pub proof fn lemma_command_wrapper_layout(tag: u32, expected: u32, data: DataPhase, lun: u8, cdb: Seq<u8>)
    requires
        1 <= cdb.len() <= 16,
    ensures
        ({
            let w = command_wrapper(tag, expected, data, lun, cdb);
            &&& w.len() == 31
            &&& (w[0], w[1], w[2], w[3]) == ('U' as u8, 'S' as u8, 'B' as u8, 'C' as u8)
            &&& le32_at(w, 4) == tag
            &&& le32_at(w, 8) == expected
            &&& w[12] == 0x80 <==> data is In
            &&& w[12] == 0 <==> !(data is In)
            &&& w[13] == lun
            &&& w[14] == cdb.len()
            &&& w.subrange(15, 15 + cdb.len() as int) == cdb
            &&& forall|i: int| 15 + cdb.len() <= i < 31 ==> #[trigger] w[i] == 0
        }),
{
    let w = command_wrapper(tag, expected, data, lun, cdb);
    let t = u32_bytes(tag);
    let e = u32_bytes(expected);
    let s = u32_bytes(CBW_SIGNATURE);
    assert(w.len() == 31);
    assert(w[0] == s[0] && w[1] == s[1] && w[2] == s[2] && w[3] == s[3]);
    assert(w[4] == t[0] && w[5] == t[1] && w[6] == t[2] && w[7] == t[3]);
    assert(w[8] == e[0] && w[9] == e[1] && w[10] == e[2] && w[11] == e[3]);
    bytes::lemma_written_byte_order(0, tag, 0);
    bytes::lemma_written_byte_order(0, expected, 0);
    assert(w.subrange(15, 15 + cdb.len() as int) =~= cdb);
}

/// A status wrapper counts only if it has 13 bytes, starts with `USBS`, bears
/// the tag of its command and does not report a phase error; then its last
/// byte says whether the command passed, and the residue stands before it.
pub proof fn lemma_status_wrapper(r: Route, n: usize, csw: Seq<u8>)
    requires
        csw.len() == 13,
    ensures
        ({
            let a = transport_next(r, PhaseView::Status(n), Ok(13), csw).1;
            let x = a->Finish_0->Ok_0;
            let good = csw[0] == 'U' as u8 && csw[1] == 'S' as u8 && csw[2] == 'B' as u8 && csw[3] == 'S' as u8
                && le32_at(csw, 4) == r.tag && csw[12] <= 1;
            &&& good <==> a is Finish
            &&& good ==> a->Finish_0 is Ok
            &&& good ==> (x.passed <==> csw[12] == 0) && x.transferred == n && x.residue == le32_at(csw, 8)
            &&& a == transport_next(r, PhaseView::StatusAgain(n), Ok(13), csw).1
        }),
{
}

/// The way of a command: data is read from the IN endpoint or written to the
/// OUT endpoint, all that was announced, and then the status is read; a
/// command without data goes straight to the status.
pub proof fn lemma_transport_route(r: Route, n: usize, csw: Seq<u8>)
    ensures
        ({
            let a = transport_next(r, PhaseView::Command, Ok(31), csw);
            &&& r.data matches DataPhase::In(len) ==> a.1 == (TransportActionView::ReadData {
                endpoint: r.ep_in,
                length: len,
            }) && a.0 is Data
            &&& r.data matches DataPhase::Out(len) ==> a.1 == (TransportActionView::WriteData {
                endpoint: r.ep_out,
                length: len,
            }) && a.0 is Data
            &&& r.data is NoData ==> a.1 == (TransportActionView::ReadStatus { endpoint: r.ep_in }) && a.0
                == PhaseView::Status(0)
        }),
        transport_next(r, PhaseView::Data, Ok(n), csw) == (
            PhaseView::Status(n),
            TransportActionView::ReadStatus { endpoint: r.ep_in },
        ),
{
}

/// A stall in the data phase is cleared where it happened, and one in the
/// status phase on the IN endpoint; either way the status is read next.
pub proof fn lemma_stalls_are_cleared(r: Route, n: usize, e: ErrorView, csw: Seq<u8>)
    requires
        e.kind == ErrorKind::Pipe,
    ensures
        ({
            let a = transport_next(r, PhaseView::Data, Err(e), csw);
            &&& a.1 == (TransportActionView::ClearHalt { endpoint: if r.data is In { r.ep_in } else { r.ep_out } })
            &&& transport_next(r, a.0, Ok(0), csw).1 == (TransportActionView::ReadStatus { endpoint: r.ep_in })
        }),
        ({
            let a = transport_next(r, PhaseView::Status(n), Err(e), csw);
            &&& a.1 == (TransportActionView::ClearHalt { endpoint: r.ep_in })
            &&& transport_next(r, a.0, Ok(0), csw) == (
                PhaseView::StatusAgain(n),
                TransportActionView::ReadStatus { endpoint: r.ep_in },
            )
        }),
{
}

/// Recovery: a reset request (0xff, to the interface), then both halts are
/// cleared, IN before OUT; what comes back is the error that led to it. A
/// device that is gone is not recovered.
pub proof fn lemma_recovery_steps(r: Route, e: ErrorView, csw: Seq<u8>)
    requires
        e.kind != ErrorKind::Pipe,
    ensures
        ({
            let a = transport_next(r, PhaseView::Data, Err(e), csw);
            let b = transport_next(r, a.0, Ok(0), csw);
            let c = transport_next(r, b.0, Ok(0), csw);
            let s = a.1->ResetRequest_setup;
            &&& e.kind == ErrorKind::NoDevice <==> a.1 == TransportActionView::Finish(Err(e))
            &&& e.kind != ErrorKind::NoDevice ==> {
                &&& a.1 is ResetRequest
                &&& s.request_type == 0x21
                &&& s.request == 0xff
                &&& s.value == 0
                &&& s.index == r.interface
                &&& s.length == 0
                &&& b.1 == (TransportActionView::ClearHalt { endpoint: r.ep_in })
                &&& c.1 == (TransportActionView::ClearHalt { endpoint: r.ep_out })
                &&& transport_next(r, c.0, Ok(0), csw).1 == TransportActionView::Finish(Err(e))
            }
        }),
{
}

/// The highest unit is asked for by request 0xfe to the interface, one byte.
pub proof fn lemma_max_lun_request(interface: u8)
    ensures
        max_lun_setup(interface).request_type == 0xa1,
        max_lun_setup(interface).request == 0xfe,
        max_lun_setup(interface).value == 0,
        max_lun_setup(interface).index == interface,
        max_lun_setup(interface).length == 1,
{
}

/// Tags count up and start again at zero.
pub proof fn lemma_tags(tag: u32)
    ensures
        next_tag(tag) == (tag + 1) % 0x1_0000_0000,
        next_tag(tag) != tag,
{
}

/// A command is refused if its block is empty or longer than 16 bytes, if
/// there is no such unit, or if the data do not fit a 32-bit length.
pub proof fn lemma_command_faults(s: MassStorage, lun: u8, cdb: Seq<u8>, data: DataPhase)
    ensures
        command_fault(s, lun, cdb, data) is None <==> 1 <= cdb.len() <= 16 && lun <= s.max_lun && match data {
            DataPhase::NoData => true,
            DataPhase::In(n) => n <= 0xffff_ffff,
            DataPhase::Out(n) => n <= 0xffff_ffff,
        },
        command_fault(s, lun, cdb, data) matches Some(e) ==> e.kind == ErrorKind::InvalidParam,
{
}

/// A bulk-only interface has class 8 and protocol 0x50; the setting that is
/// taken is its first one of these.
pub proof fn lemma_bulk_only_setting(i: Interface, k: int)
    requires
        0 <= k <= i.alt_settings@.len(),
        forall|j: int|
            0 <= j < k ==> !((#[trigger] i.alt_settings@[j]).class == 8 && i.alt_settings@[j].protocol == 0x50),
    ensures
        k == i.alt_settings@.len() ==> bulk_only_setting(i) is None,
        k < i.alt_settings@.len() && i.alt_settings@[k].class == 8 && i.alt_settings@[k].protocol == 0x50
            ==> bulk_only_setting(i) == Some(i.alt_settings@[k]),
{
    lemma_bulk_only_first(i.alt_settings@, k);
}

proof fn lemma_bulk_only_first(v: Seq<InterfaceDescriptor>, k: int)
    requires
        0 <= k <= v.len(),
        forall|j: int| 0 <= j < k ==> !((#[trigger] v[j]).class == 8 && v[j].protocol == 0x50),
    ensures
        k == v.len() ==> bulk_only_position(v) == k,
        k < v.len() && v[k].class == 8 && v[k].protocol == 0x50 ==> bulk_only_position(v) == k,
    decreases k,
{
    if k > 0 {
        let w = v.skip(1);
        assert(!bulk_only(v[0]));
        assert forall|j: int| 0 <= j < k - 1 implies !((#[trigger] w[j]).class == 8 && w[j].protocol == 0x50) by {
            assert(w[j] == v[j + 1]);
        }
        if k < v.len() {
            assert(w[k - 1] == v[k]);
        }
        lemma_bulk_only_first(w, k - 1);
    }
}

/// The bulk-only settings of a configuration are those of its interfaces, in
/// order.
pub proof fn lemma_bulk_only_settings(v: Seq<Interface>, i: Interface)
    ensures
        bulk_only_settings(Seq::empty()).len() == 0,
        bulk_only_setting(i) is None ==> bulk_only_settings(v.push(i)) == bulk_only_settings(v),
        bulk_only_setting(i) matches Some(a) ==> bulk_only_settings(v.push(i)) == bulk_only_settings(v).push(a),
{
    assert(v.push(i).drop_last() =~= v);
}

/// An opened interface reads from its first bulk IN endpoint and writes to its
/// first bulk OUT endpoint; it starts with one unit, 20 s and 120 KiB.
pub proof fn lemma_storage_on(alt: InterfaceDescriptor, interface: u8)
    ensures
        ({
            let i = crate::class::first_endpoint(alt.endpoints@, Direction::In, TransferType::Bulk);
            let o = crate::class::first_endpoint(alt.endpoints@, Direction::Out, TransferType::Bulk);
            let s = storage_on(alt, interface)->Ok_0;
            &&& storage_on(alt, interface) is Ok <==> i is Some && o is Some
            &&& storage_on(alt, interface) matches Err(e) ==> e.kind == ErrorKind::Io
            &&& i is Some && o is Some ==> {
                &&& s.ep_in == i->0.address
                &&& s.ep_out == o->0.address
                &&& s.interface == interface
                &&& s.alternate_setting == alt.alternate_setting
                &&& s.max_lun == 0
                &&& s.timeout == 20_000_000_000
                &&& s.max_transfer == 120 * 1024
            }
        }),
{
}

/// A command moves as many blocks as fit the largest transfer, at least one
/// and at most 65535.
pub proof fn lemma_blocks_per_command(max_transfer: int, block_size: int)
    requires
        0 <= max_transfer,
        0 < block_size,
    ensures
        ({
            let n = blocks_per_command(max_transfer, block_size);
            &&& 1 <= n <= 65535
            &&& n * block_size <= max_transfer || n == 1
            &&& (n + 1) * block_size > max_transfer || n == 65535
        }),
{
    let n = max_transfer / block_size;
    assert(n * block_size <= max_transfer && max_transfer < (n + 1) * block_size && n >= 0) by (nonlinear_arith)
        requires
            n == max_transfer / block_size,
            0 <= max_transfer,
            0 < block_size,
    ;
    if n > 0xffff {
        assert(0xffff * block_size <= n * block_size) by (nonlinear_arith)
            requires
                n > 0xffff,
                0 < block_size,
        ;
    }
    if n < 1 {
        assert(n == 0);
        assert((n + 1) * block_size == block_size) by (nonlinear_arith)
            requires
                n == 0,
        ;
        assert(2 * block_size > max_transfer);
    }
}

/// The command blocks that ask for sense data, for the capacity and for the
/// mode pages, and how much each asks for.
pub proof fn lemma_query_commands(alloc: u8)
    ensures
        sense_cdb() == seq![0x03u8, 0, 0, 0, 18, 0],
        capacity_10_cdb() == seq![0x25u8, 0, 0, 0, 0, 0, 0, 0, 0, 0],
        capacity_16_cdb() == seq![0x9eu8, 0x10, 0, 0, 0, 0, 0, 0, 0, 0, 0, 0, 0, 32, 0, 0],
        mode_sense_cdb(alloc) == seq![0x1au8, 0, 0x3f, 0, alloc, 0],
{
}

/// Starting and stopping: bit 0 is set to start, bit 1 to load or eject.
pub proof fn lemma_start_stop_flags(start: bool, load_eject: bool)
    ensures
        start_stop_flags(start, load_eject) % 2 == 1 <==> start,
        start_stop_flags(start, load_eject) / 2 == 1 <==> load_eject,
        start_stop_flags(start, load_eject) < 4,
{
}

/// The numbers of the operations.
pub proof fn lemma_operation_codes()
    ensures
        (opcode::TEST_UNIT_READY, opcode::REQUEST_SENSE, opcode::INQUIRY) == (0x00u8, 0x03u8, 0x12u8),
        (opcode::MODE_SENSE_6, opcode::START_STOP_UNIT) == (0x1au8, 0x1bu8),
        opcode::PREVENT_ALLOW_MEDIUM_REMOVAL == 0x1e,
        opcode::SYNCHRONIZE_CACHE_10 == 0x35,
{
}

/// A command that passed is over; one that failed is followed by a request for
/// sense data. A unit attention is tried again, three times at most; any other
/// sense is the error.
pub proof fn lemma_command_retries(c: CommandView, x: CommandResult, s: Sense, data: Seq<u8>)
    requires
        c.attempts <= 3,
    ensures
        !c.sensing && x.passed ==> command_next(c, Ok(x), data).1 == CommandActionView::Finish(Ok(x.transferred)),
        !c.sensing && !x.passed ==> command_next(c, Ok(x), data).1 is RequestSense && command_next(
            c,
            Ok(x),
            data,
        ).0.sensing,
        c.sensing && x.passed && sense_of(data.take(x.transferred as int)) == Some(s) ==> {
            let (d, a) = command_next(c, Ok(x), data);
            &&& s.key == SenseKey::UnitAttention && c.attempts < 3 ==> a is Run && !d.sensing && d.attempts == c.attempts
                + 1
            &&& s.key != SenseKey::UnitAttention || c.attempts == 3 ==> a is Finish && a->Finish_0 is Err
                && a->Finish_0->Err_0.kind == sense_error(s)
        },
{
}

/// The capacity is one more than the address of the last block; the short
/// form gives way to the long one where that address does not fit. A block
/// size of zero, or too little data, is an error.
pub proof fn lemma_capacity(n: usize, b: Seq<u8>)
    requires
        b.len() >= 32,
    ensures
        capacity_10(Ok(n), b) is Err <==> n < 8 || (be32_at(b, 0) != 0xffff_ffff && be32_at(b, 4) == 0),
        n >= 8 && be32_at(b, 0) == 0xffff_ffff ==> capacity_10(Ok(n), b) == Ok::<Option<Capacity>, ErrorView>(None),
        capacity_10(Ok(n), b) matches Ok(Some(c)) ==> c.block_count == be32_at(b, 0) + 1 && c.block_size == be32_at(b, 4),
        n >= 8 && be32_at(b, 0) != 0xffff_ffff && be32_at(b, 4) > 0 ==> capacity_10(Ok(n), b)->Ok_0 is Some,
        be64_at(b, 0) < u64::MAX ==> {
            &&& capacity_16(Ok(n), b) is Err <==> n < 12 || be32_at(b, 8) == 0
            &&& capacity_16(Ok(n), b) matches Ok(c) ==> c.block_count == be64_at(b, 0) + 1 && c.block_size == be32_at(b, 8)
        },
{
}

/// The medium is write-protected where bit 7 of the third byte is set. A
/// device that refuses the long form is asked the short one, and one that
/// refuses that does not say.
pub proof fn lemma_write_protection(n: usize, e: ErrorView, b: Seq<u8>)
    requires
        b.len() >= 4,
    ensures
        n >= 3 ==> protect_next(192, Ok(n), b) == ProtectActionView::Finish(Ok(b[2] >= 0x80)),
        n >= 3 ==> protect_next(4, Ok(n), b) == ProtectActionView::Finish(Ok(b[2] >= 0x80)),
        n < 3 ==> protect_next(192, Ok(n), b) == ProtectActionView::Ask(4),
        e.kind == ErrorKind::NotSupported ==> protect_next(192, Err(e), b) == ProtectActionView::Ask(4),
        e.kind == ErrorKind::NotSupported ==> protect_next(4, Err(e), b) is Finish && protect_next(
            4,
            Err(e),
            b,
        )->Finish_0 is Err,
        e.kind != ErrorKind::NotSupported ==> protect_next(192, Err(e), b) == ProtectActionView::Finish(Err(e)),
{
}

/// A unit that is busy is asked again every 200 ms, ten times; any other error
/// comes back at once.
pub proof fn lemma_ready(tries: u8, e: ErrorView)
    ensures
        ready_next(tries, Ok(())) is Ready,
        e.kind == ErrorKind::Busy && tries < 10 ==> ready_next(tries, Err(e)) == (ReadyActionView::TestAgain {
            pause: 200_000_000,
        }),
        e.kind == ErrorKind::Busy && tries >= 10 ==> ready_next(tries, Err(e)) is Fail && ready_next(
            tries,
            Err(e),
        )->error == e,
        e.kind != ErrorKind::Busy ==> ready_next(tries, Err(e)) == (ReadyActionView::Fail { error: e, pause: 0 }),
{
}

/// A transfer starts at its first block.
pub proof fn lemma_transfer_starts(t: BlockTransfer)
    requires
        t.pos == 0,
        t.block_size > 0,
    ensures
        t.next_lba() == t.lba,
{
}

/// A position is sought from the start, from the end or from here; one before
/// the start, or out of range, is refused.
pub proof fn lemma_seek(d: BlockDevice, start: u64, offset: i64)
    ensures
        seek_target(d, SeekTo::Start(start)) == Some(start as int),
        ({
            let end = d.capacity.block_count * d.capacity.block_size + offset;
            seek_target(d, SeekTo::End(offset)) == if 0 <= end <= u64::MAX { Some(end) } else { None }
        }),
        ({
            let here = d.pos + offset;
            seek_target(d, SeekTo::Current(offset)) == if 0 <= here <= u64::MAX { Some(here) } else { None }
        }),
{
}

/// What is left is up to the end, and nothing behind it.
pub proof fn lemma_bytes_left(d: BlockDevice)
    ensures
        d.pos <= capacity_of(d) ==> d.pos + bytes_left(d) == d.capacity.block_count * d.capacity.block_size,
        d.pos > capacity_of(d) ==> bytes_left(d) == 0,
{
}

/// Whole blocks from an aligned position are moved directly, as many as asked
/// for and left; anything else is a part of one block, up to its end.
pub proof fn lemma_access_kind(d: BlockDevice, len: usize)
    requires
        d.wf(),
        len > 0,
        bytes_left(d) > 0,
    ensures
        ({
            let bs = d.capacity.block_size as int;
            let room = if len < bytes_left(d) { len as int } else { bytes_left(d) };
            match access_at(d, len as int) {
                BlockAccess::Direct { lba, n } => d.pos as int % bs == 0 && n <= room < n + bs,
                BlockAccess::Scratch { lba, offset, n } => (d.pos as int % bs != 0 || room < bs) && (n == room || offset + n
                    == bs),
                _ => false,
            }
        }),
{
    let bs = d.capacity.block_size as int;
    let room = if len < bytes_left(d) { len as int } else { bytes_left(d) };
    lemma_access_in_bounds(d, len);
    assert((room / bs) * bs <= room < (room / bs) * bs + bs) by (nonlinear_arith)
        requires
            bs > 0,
            room >= 0,
    ;
    assert(room / bs == 0 ==> room < bs) by (nonlinear_arith)
        requires
            bs > 0,
            room >= 0,
    ;
    assert(0 <= d.pos as int % bs < bs) by (nonlinear_arith)
        requires
            bs > 0,
    ;
}

/// A range is inside the device if its last block is.
pub proof fn lemma_in_range(c: Capacity, lba: u64, len: usize)
    requires
        c.block_size > 0,
    ensures
        in_range(c, lba, len) <==> lba + len as int / c.block_size as int <= c.block_count,
        whole_blocks(c.block_size, len) <==> len as int % c.block_size as int == 0,
{
}

/// The highest unit that the answer to the request for it names; a device that
/// does not answer has one unit, and there are never more than 16.
pub open spec fn highest_lun(answer: std::result::Result<usize, ErrorView>, byte: u8) -> u8 {
    if answer == Ok::<usize, ErrorView>(1) {
        if byte < 15 {
            byte
        } else {
            15
        }
    } else {
        0
    }
}

/// A unit is only there if the answer, one byte, names it.
pub proof fn lemma_highest_lun(n: usize, e: ErrorView, byte: u8)
    ensures
        byte <= 15 ==> highest_lun(Ok(1), byte) == byte,
        byte > 15 ==> highest_lun(Ok(1), byte) == 15,
        n != 1 ==> highest_lun(Ok(n), byte) == 0,
        highest_lun(Err(e), byte) == 0,
{
}

/// INQUIRY, for 36 bytes.
pub open spec fn inquiry_command() -> CommandView {
    fresh_command(seq![opcode::INQUIRY, 0, 0, 0, 36, 0], DataPhase::In(36))
}

/// TEST UNIT READY.
pub open spec fn ready_command() -> CommandView {
    fresh_command(seq![opcode::TEST_UNIT_READY, 0, 0, 0, 0, 0], DataPhase::NoData)
}

/// SYNCHRONIZE CACHE (10), of everything.
pub open spec fn flush_command() -> CommandView {
    fresh_command(seq![opcode::SYNCHRONIZE_CACHE_10, 0, 0, 0, 0, 0, 0, 0, 0, 0], DataPhase::NoData)
}

/// START STOP UNIT.
pub open spec fn start_stop_command(start: bool, load_eject: bool) -> CommandView {
    fresh_command(
        seq![opcode::START_STOP_UNIT, 0, 0, 0, start_stop_flags(start, load_eject), 0],
        DataPhase::NoData,
    )
}

/// PREVENT ALLOW MEDIUM REMOVAL.
pub open spec fn prevent_command(prevent: bool) -> CommandView {
    fresh_command(
        seq![opcode::PREVENT_ALLOW_MEDIUM_REMOVAL, 0, 0, 0, if prevent { 1u8 } else { 0u8 }, 0],
        DataPhase::NoData,
    )
}

/// READ CAPACITY, in its short or its long form.
pub open spec fn capacity_command(long: bool) -> CommandView {
    if long {
        fresh_command(capacity_16_cdb(), DataPhase::In(32))
    } else {
        fresh_command(capacity_10_cdb(), DataPhase::In(8))
    }
}

/// What the commands say on the wire, and how much each reads.
pub proof fn lemma_commands(start: bool, load_eject: bool, prevent: bool)
    ensures
        inquiry_command().cdb == seq![0x12u8, 0, 0, 0, 36, 0],
        inquiry_command().data == DataPhase::In(36),
        ready_command().cdb == seq![0u8, 0, 0, 0, 0, 0],
        ready_command().data == DataPhase::NoData,
        flush_command().cdb == seq![0x35u8, 0, 0, 0, 0, 0, 0, 0, 0, 0],
        flush_command().data == DataPhase::NoData,
        ({
            let c = start_stop_command(start, load_eject);
            &&& c.cdb.len() == 6
            &&& c.cdb[0] == 0x1b
            &&& c.cdb[4] % 2 == 1 <==> start
            &&& c.cdb[4] / 2 == 1 <==> load_eject
            &&& c.cdb[1] == 0 && c.cdb[2] == 0 && c.cdb[3] == 0 && c.cdb[5] == 0
            &&& c.data == DataPhase::NoData
        }),
        ({
            let c = prevent_command(prevent);
            &&& c.cdb.len() == 6
            &&& c.cdb[0] == 0x1e
            &&& c.cdb[4] == 1 <==> prevent
            &&& c.cdb[4] == 0 <==> !prevent
            &&& c.data == DataPhase::NoData
        }),
        capacity_command(false).cdb[0] == 0x25,
        capacity_command(false).data == DataPhase::In(8),
        (capacity_command(true).cdb[0], capacity_command(true).cdb[1]) == (0x9eu8, 0x10u8),
        capacity_command(true).data == DataPhase::In(32),
        !inquiry_command().sensing && inquiry_command().attempts == 0,
{
}

/// A transfer that reads blocks.
pub open spec fn reading(lba: u64, block_size: u32, len: usize, max_transfer: usize) -> BlockTransfer {
    BlockTransfer {
        write: false,
        lba,
        block_size: block_size as usize,
        chunk: blocks_per_command(max_transfer as int, block_size as int) as usize,
        len,
        pos: 0,
    }
}

/// A transfer that writes blocks.
pub open spec fn writing(lba: u64, block_size: u32, len: usize, max_transfer: usize) -> BlockTransfer {
    BlockTransfer {
        write: true,
        lba,
        block_size: block_size as usize,
        chunk: blocks_per_command(max_transfer as int, block_size as int) as usize,
        len,
        pos: 0,
    }
}

/// Reading blocks issues read commands and writing blocks write commands, from
/// the same first block on and in the same pieces.
pub proof fn lemma_block_commands(lba: u64, block_size: u32, len: usize, max_transfer: usize)
    requires
        block_size > 0,
    ensures
        ({
            let r = reading(lba, block_size, len, max_transfer);
            let w = writing(lba, block_size, len, max_transfer);
            let c = rw_bytes(r.write, lba, 1)[0];
            let d = rw_bytes(w.write, lba, 1)[0];
            &&& c == 0x28 || c == 0x88
            &&& d == 0x2a || d == 0x8a
            &&& w == (BlockTransfer { write: true, ..r })
            &&& r.next_lba() == lba
            &&& (r.len, r.pos, r.lba) == (len, 0usize, lba)
            &&& r.block_size == block_size
            &&& r.chunk == blocks_per_command(max_transfer as int, block_size as int) as usize
        }),
{
    scsi::lemma_rw_direction(false, lba, 1);
    scsi::lemma_rw_direction(true, lba, 1);
}

/// How a read goes about its bytes: at the end there is nothing to read.
pub open spec fn read_access(d: BlockDevice, len: usize) -> BlockAccess {
    if len == 0 || bytes_left(d) == 0 {
        BlockAccess::Nothing
    } else {
        access_at(d, len as int)
    }
}

/// How a write goes about its bytes: at the end there is no room.
pub open spec fn write_access(d: BlockDevice, len: usize) -> BlockAccess {
    if len == 0 {
        BlockAccess::Nothing
    } else if bytes_left(d) == 0 {
        BlockAccess::AtEnd
    } else {
        access_at(d, len as int)
    }
}

/// Reads and writes cover the same bytes of the device; behind its end a read
/// gets nothing and a write is refused.
pub proof fn lemma_access_at_end(d: BlockDevice, len: usize)
    ensures
        len == 0 ==> read_access(d, len) is Nothing && write_access(d, len) is Nothing,
        len > 0 && d.pos >= capacity_of(d) ==> read_access(d, len) is Nothing && write_access(d, len) is AtEnd,
        len > 0 && d.pos < capacity_of(d) ==> read_access(d, len) == access_at(d, len as int) && write_access(d, len)
            == access_at(d, len as int),
{
}

/// Whole blocks can be moved directly from an aligned position only, as many as
/// are asked for and left.
pub proof fn lemma_direct_blocks(d: BlockDevice, len: int)
    requires
        d.wf(),
        0 <= len,
    ensures
        ({
            let bs = d.capacity.block_size as int;
            let n = direct_blocks_at(d, len);
            &&& d.pos as int % bs != 0 ==> n == 0
            &&& n * bs <= len
            &&& n * bs <= bytes_left(d)
            &&& d.pos as int % bs == 0 ==> (n + 1) * bs > len || (n + 1) * bs > bytes_left(d)
        }),
{
    let bs = d.capacity.block_size as int;
    let room = if len < bytes_left(d) { len } else { bytes_left(d) };
    let q = room / bs;
    assert(q * bs <= room < (q + 1) * bs && q >= 0) by (nonlinear_arith)
        requires
            q == room / bs,
            bs > 0,
            room >= 0,
    ;
}

/// What is announced is as long as the data, and each phase has its time: the
/// transfers of a command that of the device, a reset 5 s.
pub proof fn lemma_phases(n: usize, a: TransportActionView, timeout: u64)
    ensures
        phase_len(DataPhase::NoData) == 0,
        phase_len(DataPhase::In(n)) == n,
        phase_len(DataPhase::Out(n)) == n,
        a is WriteCommand || a is ReadData || a is WriteData || a is ReadStatus ==> transport_limit(a, timeout) == timeout,
        a is ResetRequest ==> transport_limit(a, timeout) == 5_000_000_000,
        a is ClearHalt ==> transport_limit(a, timeout) == 0,
{
}

/// Sense data count only if the request for them passed, and as far as they
/// were moved.
pub proof fn lemma_sense_results(x: CommandResult, e: ErrorView, data: Seq<u8>)
    ensures
        sense_result(Err(e), data) == Err::<Sense, ErrorView>(e),
        !x.passed ==> sense_result(Ok(x), data) is Err && sense_result(Ok(x), data)->Err_0.kind == ErrorKind::Io,
        x.passed ==> (sense_of(data.take(x.transferred as int)) matches Some(s) ==> sense_result(Ok(x), data) == Ok::<
            Sense,
            ErrorView,
        >(s)),
        x.passed && sense_of(data.take(x.transferred as int)) is None ==> sense_result(Ok(x), data) is Err,
{
}

/// The bulk-only transport is protocol 80 of class 8.
pub proof fn lemma_bulk_only(a: InterfaceDescriptor)
    ensures
        bulk_only(a) <==> a.class == 8 && a.protocol == 80,
{
}

/// A flush fails with the error of its command, except that a device need not
/// have the command.
pub proof fn lemma_flushes(n: usize, e: ErrorView)
    ensures
        flushed(Ok(n)) is Ok,
        flushed(Err(e)) is Ok <==> e.kind == ErrorKind::NotSupported,
        flushed(Err(e)) matches Err(f) ==> f == e,
{
}

/// A capacity that could not be read is an error.
pub proof fn lemma_unread_capacity(e: ErrorView, b: Seq<u8>, prevent: bool)
    ensures
        capacity_10(Err(e), b) == Err::<Option<Capacity>, ErrorView>(e),
        capacity_16(Err(e), b) == Err::<Capacity, ErrorView>(e),
        prevent_command(prevent).cdb == seq![
            0x1eu8,
            0,
            0,
            0,
            if prevent {
                1u8
            } else {
                0u8
            },
            0,
        ],
{
}

} // verus!
