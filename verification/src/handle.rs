//! An open device: configuration, interfaces, and synchronous transfers.
//!
//! [`DeviceHandle`] keeps the books of an open device: which interfaces it
//! claimed, from which it took the kernel driver, and which are in use by a
//! class helper.

use crate::bytes::{self, le16, le16_at, zeros};
use crate::descriptors::{self, ConfigDescriptor, DeviceDescriptor, Interface};
use crate::error::{bytes_outcome, message, outcome, text_outcome, Error, ErrorKind, ErrorView, Result};
use crate::text;
use crate::transfer::{control_buffer, fresh_transfer, Transfer, TransferView};
use crate::types::{
    descriptor_type, request, setup_packet, ControlSetup, ControlType, Direction, Recipient, TransferType,
};
use vstd::prelude::*;
use vstd::string::*;

verus! {

/// Timeout used by the string-descriptor helpers, matching libusb: 1 s.
pub const STRING_TIMEOUT: u64 = 1_000_000_000;

/// US English, the language of a device whose language table is empty or
/// malformed.
pub const DEFAULT_LANGUAGE: u16 = 0x0409;

/// The books of an open USB device.
#[derive(Debug)]
pub struct DeviceHandle {
    /// The interfaces it claimed.
    pub claimed: Vec<u8>,
    /// The interfaces whose kernel driver it detached.
    pub detached: Vec<u8>,
    /// Whether claiming an interface detaches its kernel driver.
    pub auto_detach: bool,
    /// Interfaces a class helper currently drives, so that two helpers can
    /// never share one.
    pub leased: Vec<u8>,
    /// The language string descriptors are read in, once known.
    pub string_language: Option<u16>,
}

/// What a [`DeviceHandle`] holds.
#[verifier::ext_equal]
pub struct DeviceHandleView {
    pub claimed: Seq<u8>,
    pub detached: Seq<u8>,
    pub auto_detach: bool,
    pub leased: Seq<u8>,
    pub string_language: Option<u16>,
}

impl View for DeviceHandle {
    type V = DeviceHandleView;

    open spec fn view(&self) -> DeviceHandleView {
        DeviceHandleView {
            claimed: self.claimed@,
            detached: self.detached@,
            auto_detach: self.auto_detach,
            leased: self.leased@,
            string_language: self.string_language,
        }
    }
}

/// A list without any of the given numbers.
pub open spec fn without(v: Seq<u8>, gone: Seq<u8>) -> Seq<u8>
    decreases v.len(),
{
    if v.len() == 0 {
        Seq::empty()
    } else if gone.contains(v.last()) {
        without(v.drop_last(), gone)
    } else {
        without(v.drop_last(), gone).push(v.last())
    }
}

/// A list that contains a number.
pub open spec fn including(v: Seq<u8>, n: u8) -> Seq<u8> {
    if v.contains(n) {
        v
    } else {
        v.push(n)
    }
}

/// The position of the first occurrence of a number, or the length.
pub open spec fn position(v: Seq<u8>, n: u8) -> int
    decreases v.len(),
{
    if v.len() == 0 || v[0] == n {
        0
    } else {
        1 + position(v.skip(1), n)
    }
}

/// A list without the first occurrence of a number.
pub open spec fn without_first(v: Seq<u8>, n: u8) -> Seq<u8> {
    if position(v, n) < v.len() {
        v.remove(position(v, n))
    } else {
        v
    }
}

fn contains(v: &[u8], n: u8) -> (r: bool)
    ensures
        r == v@.contains(n),
{
    let mut i: usize = 0;
    while i < v.len()
        invariant
            i <= v@.len(),
            forall|j: int| 0 <= j < i ==> v@[j] != n,
        decreases v@.len() - i,
    {
        if v[i] == n {
            assert(v@[i as int] == n);
            return true;
        }
        i += 1;
    }
    false
}

fn remove_all(v: &Vec<u8>, gone: &[u8]) -> (r: Vec<u8>)
    ensures
        r@ == without(v@, gone@),
{
    let mut out: Vec<u8> = Vec::new();
    let mut i: usize = 0;
    assert(v@.take(0) =~= Seq::empty());
    while i < v.len()
        invariant
            i <= v@.len(),
            out@ == without(v@.take(i as int), gone@),
        decreases v@.len() - i,
    {
        assert(v@.take(i + 1).drop_last() =~= v@.take(i as int));
        if !contains(gone, v[i]) {
            out.push(v[i]);
        }
        i += 1;
    }
    assert(v@.take(i as int) =~= v@);
    out
}

proof fn lemma_position(v: Seq<u8>, n: u8, k: int)
    requires
        0 <= k <= v.len(),
        forall|j: int| 0 <= j < k ==> v[j] != n,
        k < v.len() ==> v[k] == n,
    ensures
        position(v, n) == k,
    decreases v.len(),
{
    if k > 0 {
        let w = v.skip(1);
        assert(forall|j: int| 0 <= j < k - 1 ==> w[j] == v[j + 1]);
        lemma_position(w, n, k - 1);
    }
}

// ----- claiming interfaces -----------------------------------------------------------

/// Where the claiming of an interface stands.
#[derive(Debug, Clone, Copy, PartialEq, Eq, Structural)]
pub enum ClaimPhase {
    /// Whether a kernel driver is bound is being asked.
    Asking,
    /// The kernel driver is being detached.
    Detaching,
    /// The interface is being claimed.
    Claiming,
    /// Claiming is over.
    Over,
}

/// The claiming of one interface.
#[derive(Debug, Clone, Copy, PartialEq, Eq, Structural)]
pub struct Claiming {
    pub interface: u8,
    pub phase: ClaimPhase,
}

/// What claiming an interface asks for.
#[derive(Debug)]
pub enum ClaimAction {
    /// Ask whether a kernel driver is bound to the interface.
    AskDriver,
    /// Detach the kernel driver.
    Detach,
    /// Claim the interface.
    Claim,
    /// Claiming is over.
    Finish(Result<()>),
}

/// What a [`ClaimAction`] holds.
pub enum ClaimActionView {
    AskDriver,
    Detach,
    Claim,
    Finish(std::result::Result<(), ErrorView>),
}

impl View for ClaimAction {
    type V = ClaimActionView;

    open spec fn view(&self) -> ClaimActionView {
        match *self {
            ClaimAction::AskDriver => ClaimActionView::AskDriver,
            ClaimAction::Detach => ClaimActionView::Detach,
            ClaimAction::Claim => ClaimActionView::Claim,
            ClaimAction::Finish(r) => ClaimActionView::Finish(outcome(r)),
        }
    }
}

/// What claiming an interface asks for first.
pub open spec fn claim_first(interface: u8, detach: bool) -> (Claiming, ClaimActionView) {
    if detach {
        (Claiming { interface, phase: ClaimPhase::Asking }, ClaimActionView::AskDriver)
    } else {
        (Claiming { interface, phase: ClaimPhase::Claiming }, ClaimActionView::Claim)
    }
}

/// Whether an error of detaching a driver does not matter.
pub open spec fn detach_excused(e: ErrorView) -> bool {
    e.kind == ErrorKind::NotSupported || e.kind == ErrorKind::NotFound
}

/// Claiming after the outcome of its last action; for the question it is the
/// answer, otherwise only whether it is an error counts.
pub open spec fn claim_next(
    c: Claiming,
    h: DeviceHandleView,
    r: std::result::Result<bool, ErrorView>,
) -> (Claiming, DeviceHandleView, ClaimActionView) {
    let over = Claiming { phase: ClaimPhase::Over, ..c };
    let claiming = Claiming { phase: ClaimPhase::Claiming, ..c };
    match c.phase {
        ClaimPhase::Asking => if r == Ok::<bool, ErrorView>(true) {
            (Claiming { phase: ClaimPhase::Detaching, ..c }, h, ClaimActionView::Detach)
        } else {
            (claiming, h, ClaimActionView::Claim)
        },
        ClaimPhase::Detaching => match r {
            Ok(_) => (
                claiming,
                DeviceHandleView { detached: h.detached.push(c.interface), ..h },
                ClaimActionView::Claim,
            ),
            Err(e) => if detach_excused(e) {
                (claiming, h, ClaimActionView::Claim)
            } else {
                (over, h, ClaimActionView::Finish(Err(e)))
            },
        },
        _ => match r {
            Ok(_) => (
                over,
                DeviceHandleView { claimed: including(h.claimed, c.interface), ..h },
                ClaimActionView::Finish(Ok(())),
            ),
            Err(e) => (over, h, ClaimActionView::Finish(Err(e))),
        },
    }
}

impl Claiming {
    /// Starts claiming an interface, detaching a bound kernel driver first if
    /// `detach` says so.
    pub fn new(interface: u8, detach: bool) -> (r: (Claiming, ClaimAction))
        ensures
            (r.0, r.1@) == claim_first(interface, detach),
    {
        if detach {
            (Claiming { interface, phase: ClaimPhase::Asking }, ClaimAction::AskDriver)
        } else {
            (Claiming { interface, phase: ClaimPhase::Claiming }, ClaimAction::Claim)
        }
    }

    /// Takes the outcome of the last action and says what to do next.
    pub fn step(self, handle: &mut DeviceHandle, r: Result<bool>) -> (x: (Claiming, ClaimAction))
        ensures
            (x.0, final(handle)@, x.1@) == claim_next(self, old(handle)@, outcome(r)),
    {
        let mut c = self;
        match self.phase {
            ClaimPhase::Asking => {
                let active = match r {
                    Ok(a) => a,
                    Err(_) => false,
                };
                if active {
                    c.phase = ClaimPhase::Detaching;
                    (c, ClaimAction::Detach)
                } else {
                    c.phase = ClaimPhase::Claiming;
                    (c, ClaimAction::Claim)
                }
            },
            ClaimPhase::Detaching => {
                match r {
                    Ok(_) => {
                        handle.detached.push(self.interface);
                    },
                    Err(e) => {
                        let excused = match e.kind() {
                            ErrorKind::NotSupported | ErrorKind::NotFound => true,
                            _ => false,
                        };
                        if !excused {
                            c.phase = ClaimPhase::Over;
                            return (c, ClaimAction::Finish(Err(e)));
                        }
                    },
                }
                c.phase = ClaimPhase::Claiming;
                (c, ClaimAction::Claim)
            },
            _ => {
                c.phase = ClaimPhase::Over;
                match r {
                    Ok(_) => {
                        if !contains(handle.claimed.as_slice(), self.interface) {
                            handle.claimed.push(self.interface);
                        }
                        (c, ClaimAction::Finish(Ok(())))
                    },
                    Err(e) => (c, ClaimAction::Finish(Err(e))),
                }
            },
        }
    }
}

/// The numbers of a list of interfaces.
pub open spec fn numbers(v: Seq<Interface>) -> Seq<u8> {
    Seq::new(v.len(), |i: int| v[i].number)
}

/// The claiming of every interface of a configuration. All or nothing: on a
/// failure the interfaces in `newly` are to be released again.
#[derive(Debug)]
pub struct ClaimAll {
    /// Every interface.
    pub numbers: Vec<u8>,
    /// How many of them were dealt with.
    pub next: usize,
    /// Those claimed so far.
    pub newly: Vec<u8>,
}

/// The position of the next interface that is not claimed yet, from `k` on.
pub open spec fn next_unclaimed(numbers: Seq<u8>, k: int, claimed: Seq<u8>) -> int
    decreases numbers.len() - k,
{
    if k >= numbers.len() || !claimed.contains(numbers[k]) {
        k
    } else {
        next_unclaimed(numbers, k + 1, claimed)
    }
}

/// An error with the interface whose claiming it is.
pub open spec fn claiming_error(interface: u8, e: ErrorView) -> ErrorView {
    ErrorView { message: Some("claiming interface "@ + text::decimal(interface as nat)), ..e }
}

impl ClaimAll {
    /// What holds throughout.
    pub open spec fn wf(&self) -> bool {
        self.next <= self.numbers@.len()
    }

    /// Starts claiming every interface of a configuration.
    pub fn new(cfg: &ConfigDescriptor) -> (r: ClaimAll)
        ensures
            r.wf(),
            r.numbers@ == numbers(cfg.interfaces@),
            r.next == 0,
            r.newly@.len() == 0,
    {
        let mut list: Vec<u8> = Vec::new();
        let mut i: usize = 0;
        while i < cfg.interfaces.len()
            invariant
                i <= cfg.interfaces@.len(),
                list@ =~= numbers(cfg.interfaces@).take(i as int),
            decreases cfg.interfaces@.len() - i,
        {
            list.push(cfg.interfaces[i].number);
            i += 1;
        }
        ClaimAll { numbers: list, next: 0, newly: Vec::new() }
    }

    /// The next interface to claim (detaching its kernel driver), or `None`
    /// when all are claimed.
    pub fn advance(&mut self, handle: &DeviceHandle) -> (r: Option<u8>)
        requires
            old(self).wf(),
        ensures
            final(self).wf(),
            final(self).numbers@ == old(self).numbers@,
            final(self).newly@ == old(self).newly@,
            final(self).next == next_unclaimed(old(self).numbers@, old(self).next as int, handle@.claimed),
            r == (if final(self).next < final(self).numbers@.len() {
                Some(final(self).numbers@[final(self).next as int])
            } else {
                None
            }),
    {
        let ghost list = self.numbers@;
        let ghost start = self.next as int;
        let ghost newly = self.newly@;
        while self.next < self.numbers.len() && contains(handle.claimed.as_slice(), self.numbers[self.next])
            invariant
                self.wf(),
                self.numbers@ == list,
                self.newly@ == newly,
                next_unclaimed(list, start, handle@.claimed) == next_unclaimed(
                    list,
                    self.next as int,
                    handle@.claimed,
                ),
            decreases self.numbers@.len() - self.next,
        {
            self.next = self.next + 1;
        }
        if self.next < self.numbers.len() {
            Some(self.numbers[self.next])
        } else {
            None
        }
    }

    /// Takes the outcome of claiming the interface that
    /// [`advance`](Self::advance) named.
    pub fn claimed(&mut self, r: Result<()>) -> (x: Result<()>)
        requires
            old(self).wf(),
            old(self).next < old(self).numbers@.len(),
        ensures
            final(self).wf(),
            final(self).numbers@ == old(self).numbers@,
            r is Ok ==> x is Ok && final(self).next == old(self).next + 1 && final(self).newly@
                == old(self).newly@.push(old(self).numbers@[old(self).next as int]),
            r is Err ==> x is Err && x->Err_0@ == claiming_error(
                old(self).numbers@[old(self).next as int],
                r->Err_0@,
            ) && final(self).newly@ == old(self).newly@ && final(self).next == old(self).next,
    {
        let count: usize = self.numbers.len();
        let iface: u8 = self.numbers[self.next];
        assert(self.next < count);
        match r {
            Ok(()) => {
                self.newly.push(iface);
                self.next = self.next + 1;
                Ok(())
            },
            Err(e) => {
                let mut what = String::from_str("claiming interface ");
                text::push_decimal(&mut what, iface as u64);
                Err(e.context(what.as_str()))
            },
        }
    }
}

/// The claiming again of every claimed interface after a reset.
#[derive(Debug)]
pub struct Resetting {
    /// The interfaces that were claimed.
    pub claimed: Vec<u8>,
    /// How many of them were taken back.
    pub next: usize,
}

/// What a [`Resetting`] holds.
#[verifier::ext_equal]
pub struct ResettingView {
    pub claimed: Seq<u8>,
    pub next: nat,
}

impl View for Resetting {
    type V = ResettingView;

    open spec fn view(&self) -> ResettingView {
        ResettingView { claimed: self.claimed@, next: self.next as nat }
    }
}

/// What a reset asks for.
#[derive(Debug)]
pub enum ResetAction {
    /// Claim this interface again.
    Claim(u8),
    /// The reset is over.
    Finish(Result<()>),
}

/// What a [`ResetAction`] holds.
pub enum ResetActionView {
    Claim(u8),
    Finish(std::result::Result<(), ErrorView>),
}

impl View for ResetAction {
    type V = ResetActionView;

    open spec fn view(&self) -> ResetActionView {
        match *self {
            ResetAction::Claim(i) => ResetActionView::Claim(i),
            ResetAction::Finish(r) => ResetActionView::Finish(outcome(r)),
        }
    }
}

/// What a reset asks for with some interfaces taken back.
pub open spec fn reset_action(s: ResettingView) -> ResetActionView {
    if s.next < s.claimed.len() {
        ResetActionView::Claim(s.claimed[s.next as int])
    } else {
        ResetActionView::Finish(Ok(()))
    }
}

/// What follows the reset of the port.
pub open spec fn reset_first(claimed: Seq<u8>, r: std::result::Result<(), ErrorView>) -> (ResettingView, ResetActionView) {
    let s = ResettingView { claimed, next: 0 };
    match r {
        Ok(_) => (s, reset_action(s)),
        Err(e) => (s, ResetActionView::Finish(Err(e))),
    }
}

/// What follows an attempt to take an interface back. One that cannot be
/// belongs to another device now.
pub open spec fn reset_next(s: ResettingView, r: std::result::Result<(), ErrorView>) -> (ResettingView, ResetActionView) {
    match r {
        Ok(_) => {
            let t = ResettingView { next: s.next + 1, ..s };
            (t, reset_action(t))
        },
        Err(_) => (
            s,
            ResetActionView::Finish(Err(message(ErrorKind::NotFound, "device changed across reset; reopen it"@))),
        ),
    }
}

impl Resetting {
    /// What holds while an interface is being taken back.
    pub open spec fn wf(&self) -> bool {
        self.next < self.claimed@.len()
    }

    fn action(&self) -> (r: ResetAction)
        ensures
            r@ == reset_action(self@),
    {
        if self.next < self.claimed.len() {
            ResetAction::Claim(self.claimed[self.next])
        } else {
            ResetAction::Finish(Ok(()))
        }
    }

    /// Takes the outcome of claiming the interface that was asked for.
    pub fn step(self, r: Result<()>) -> (x: (Resetting, ResetAction))
        requires
            self.wf(),
        ensures
            (x.0@, x.1@) == reset_next(self@, outcome(r)),
            x.1@ is Claim ==> x.0.wf(),
    {
        match r {
            Ok(()) => {
                let count: usize = self.claimed.len();
                assert(self.next < count);
                let s = Resetting { claimed: self.claimed, next: self.next + 1 };
                let action = s.action();
                (s, action)
            },
            Err(_) => (
                self,
                ResetAction::Finish(
                    Err(Error::with_message(ErrorKind::NotFound, "device changed across reset; reopen it")),
                ),
            ),
        }
    }
}

/// The first of the wanted interfaces that is leased already.
pub open spec fn first_leased(wanted: Seq<u8>, leased: Seq<u8>) -> Option<u8>
    decreases wanted.len(),
{
    if wanted.len() == 0 {
        None
    } else if leased.contains(wanted[0]) {
        Some(wanted[0])
    } else {
        first_leased(wanted.skip(1), leased)
    }
}

/// The error of wanting an interface that another helper drives.
pub open spec fn lease_error(interface: u8) -> ErrorView {
    message(
        ErrorKind::Busy,
        "interface "@ + text::decimal(interface as nat) + " is already in use by another class helper"@,
    )
}

/// A handle after an interface was released.
pub open spec fn after_release(h: DeviceHandleView, interface: u8) -> DeviceHandleView {
    DeviceHandleView {
        claimed: without(h.claimed, seq![interface]),
        detached: without_first(h.detached, interface),
        ..h
    }
}

impl DeviceHandle {
    /// The books of a device that was just opened.
    pub fn new() -> (r: DeviceHandle)
        ensures
            r@ == (DeviceHandleView {
                claimed: Seq::empty(),
                detached: Seq::empty(),
                auto_detach: false,
                leased: Seq::empty(),
                string_language: None,
            }),
    {
        let h = DeviceHandle {
            claimed: Vec::new(),
            detached: Vec::new(),
            auto_detach: false,
            leased: Vec::new(),
            string_language: None,
        };
        assert(h@.claimed =~= Seq::empty() && h@.detached =~= Seq::empty() && h@.leased =~= Seq::empty());
        h
    }

    /// Starts claiming an interface so that its endpoints can be used. If
    /// [`set_auto_detach_kernel_driver`](Self::set_auto_detach_kernel_driver)
    /// is on, a kernel driver bound to the interface is detached first.
    pub fn claim_interface(&self, interface: u8) -> (r: (Claiming, ClaimAction))
        ensures
            (r.0, r.1@) == claim_first(interface, self@.auto_detach),
    {
        Claiming::new(interface, self.auto_detach)
    }

    /// Whether this handle holds a claim on the interface.
    pub fn is_claimed(&self, interface: u8) -> (r: bool)
        ensures
            r == self@.claimed.contains(interface),
    {
        contains(self.claimed.as_slice(), interface)
    }

    /// Notes that an interface was released; whether its kernel driver is to
    /// be attached again, because it was detached for the claim.
    pub fn release_interface(&mut self, interface: u8) -> (r: bool)
        ensures
            final(self)@ == after_release(old(self)@, interface),
            r == old(self)@.detached.contains(interface),
    {
        let gone: [u8; 1] = [interface];
        assert(gone@ =~= seq![interface]);
        let kept = remove_all(&self.claimed, gone.as_slice());
        self.claimed = kept;
        let ghost before = self.detached@;
        let mut i: usize = 0;
        while i < self.detached.len()
            invariant
                i <= self.detached@.len(),
                self.detached@ == before,
                before == old(self)@.detached,
                self@.claimed == without(old(self)@.claimed, seq![interface]),
                self@.leased == old(self)@.leased,
                self@.auto_detach == old(self)@.auto_detach,
                self@.string_language == old(self)@.string_language,
                forall|j: int| 0 <= j < i ==> before[j] != interface,
            decreases self.detached@.len() - i,
        {
            if self.detached[i] == interface {
                proof {
                    lemma_position(before, interface, i as int);
                    assert(before[i as int] == interface);
                }
                self.detached.remove(i);
                return true;
            }
            i += 1;
        }
        proof {
            lemma_position(before, interface, i as int);
        }
        false
    }

    /// Interfaces currently claimed through this handle.
    pub fn claimed_interfaces(&self) -> (r: &Vec<u8>)
        ensures
            r@ == self@.claimed,
    {
        &self.claimed
    }

    /// Reserves interfaces for one class helper. Fails with
    /// [`ErrorKind::Busy`] if another helper already drives one of them.
    pub fn lease(&mut self, interfaces: &[u8]) -> (r: Result<()>)
        ensures
            match first_leased(interfaces@, old(self)@.leased) {
                Some(i) => r is Err && r->Err_0@ == lease_error(i) && final(self)@ == old(self)@,
                None => r is Ok && final(self)@ == (DeviceHandleView {
                    leased: old(self)@.leased + interfaces@,
                    ..old(self)@
                }),
            },
    {
        let mut k: usize = 0;
        assert(interfaces@.skip(0) =~= interfaces@);
        while k < interfaces.len()
            invariant
                k <= interfaces@.len(),
                self@ == old(self)@,
                first_leased(interfaces@, old(self)@.leased) == first_leased(
                    interfaces@.skip(k as int),
                    old(self)@.leased,
                ),
            decreases interfaces@.len() - k,
        {
            assert(interfaces@.skip(k as int).skip(1) =~= interfaces@.skip(k + 1));
            if contains(self.leased.as_slice(), interfaces[k]) {
                let mut what = String::from_str("interface ");
                text::push_decimal(&mut what, interfaces[k] as u64);
                what.append(" is already in use by another class helper");
                return Err(Error::with_message(ErrorKind::Busy, what.as_str()));
            }
            k += 1;
        }
        bytes::put(&mut self.leased, interfaces);
        Ok(())
    }

    /// Gives reserved interfaces back.
    pub fn unlease(&mut self, interfaces: &[u8])
        ensures
            final(self)@ == (DeviceHandleView {
                leased: without(old(self)@.leased, interfaces@),
                ..old(self)@
            }),
    {
        let kept = remove_all(&self.leased, interfaces);
        self.leased = kept;
    }

    /// Enables or disables automatic kernel-driver detaching on
    /// [`claim_interface`](Self::claim_interface) (and re-attaching on
    /// release). Off by default, like libusb.
    pub fn set_auto_detach_kernel_driver(&mut self, enable: bool)
        ensures
            final(self)@ == (DeviceHandleView { auto_detach: enable, ..old(self)@ }),
    {
        self.auto_detach = enable;
    }

    /// Takes the outcome of resetting the port. On success the device is
    /// re-enumerated but the handle stays usable: a reset unbinds every
    /// interface, so the claimed ones are taken back.
    pub fn reset(&self, r: Result<()>) -> (x: (Resetting, ResetAction))
        ensures
            (x.0@, x.1@) == reset_first(self@.claimed, outcome(r)),
    {
        let claimed = bytes::copy_range(self.claimed.as_slice(), 0, self.claimed.len());
        assert(claimed@ =~= self@.claimed);
        let s = Resetting { claimed, next: 0 };
        match r {
            Ok(()) => {
                let action = s.action();
                (s, action)
            },
            Err(e) => (s, ResetAction::Finish(Err(e))),
        }
    }
}

/// The configuration in an answer of one byte.
pub open spec fn configuration_in(
    r: std::result::Result<usize, ErrorView>,
    byte: u8,
) -> std::result::Result<u8, ErrorView> {
    match r {
        Err(e) => Err(e),
        Ok(n) => if n != 1 {
            Err(message(ErrorKind::Io, "GET_CONFIGURATION returned no data"@))
        } else {
            Ok(byte)
        },
    }
}

/// Interprets the outcome of GET_CONFIGURATION.
pub fn configuration_outcome(r: Result<usize>, byte: u8) -> (x: Result<u8>)
    ensures
        outcome(x) == configuration_in(outcome(r), byte),
{
    match r {
        Err(e) => Err(e),
        Ok(n) => if n != 1 {
            Err(Error::with_message(ErrorKind::Io, "GET_CONFIGURATION returned no data"))
        } else {
            Ok(byte)
        },
    }
}

/// The request for the active configuration.
fn configuration_request() -> (r: ControlSetup)
    ensures
        r == setup_packet(
            Direction::In,
            ControlType::Standard,
            Recipient::Device,
            request::GET_CONFIGURATION,
            0,
            0,
            1,
        ),
{
    ControlSetup::new(
        Direction::In,
        ControlType::Standard,
        Recipient::Device,
        request::GET_CONFIGURATION,
        0,
        0,
        1,
    )
}

/// How the active configuration is found out.
#[derive(Debug)]
pub enum ConfigurationQuery {
    /// The operating system told, or failed to.
    Known(Result<u8>),
    /// Ask the device, and see [`configuration_outcome`].
    Ask(ControlSetup),
}

/// A [`ConfigurationQuery`] by value.
pub enum ConfigurationQueryView {
    Known(std::result::Result<u8, ErrorView>),
    Ask(ControlSetup),
}

impl View for ConfigurationQuery {
    type V = ConfigurationQueryView;

    open spec fn view(&self) -> ConfigurationQueryView {
        match self {
            ConfigurationQuery::Known(r) => ConfigurationQueryView::Known(outcome(*r)),
            ConfigurationQuery::Ask(s) => ConfigurationQueryView::Ask(*s),
        }
    }
}

impl DeviceHandle {
    /// The `bConfigurationValue` of the active configuration, 0 for a device
    /// that is unconfigured: as the operating system knows it, else as the
    /// device says.
    pub fn active_configuration(&self, known: Result<Option<u8>>) -> (r: ConfigurationQuery)
        ensures
            r@ == (match known {
                Ok(Some(v)) => ConfigurationQueryView::Known(Ok(v)),
                Ok(None) => ConfigurationQueryView::Ask(
                    setup_packet(
                        Direction::In,
                        ControlType::Standard,
                        Recipient::Device,
                        request::GET_CONFIGURATION,
                        0,
                        0,
                        1,
                    ),
                ),
                Err(e) => ConfigurationQueryView::Known(Err(e@)),
            }),
    {
        match known {
            Ok(Some(v)) => ConfigurationQuery::Known(Ok(v)),
            Ok(None) => ConfigurationQuery::Ask(configuration_request()),
            Err(e) => ConfigurationQuery::Known(Err(e)),
        }
    }

    /// Takes the whole device: every interface of its configuration is to be
    /// claimed, all or nothing.
    pub fn claim_all_interfaces(&self, cfg: &ConfigDescriptor) -> (r: ClaimAll)
        ensures
            r.wf(),
            r.numbers@ == numbers(cfg.interfaces@),
            r.next == 0,
            r.newly@.len() == 0,
    {
        ClaimAll::new(cfg)
    }
}

// ----- synchronous transfers -----------------------------------------------------------

/// The length field of a request for `len` bytes.
pub open spec fn clamped(len: int) -> u16 {
    if len > 0xffff {
        0xffff
    } else {
        len as u16
    }
}

impl DeviceHandle {
    /// The transfer that a control request makes, its data being `data`: for an
    /// IN request it is read into, for an OUT request it is sent. At most 65535
    /// bytes are transferred.
    pub fn control_transfer(&self, setup: ControlSetup, data: &[u8], timeout: u64) -> (r: Transfer)
        ensures
            r@ == (TransferView {
                timeout,
                ..fresh_transfer(
                    TransferType::Control,
                    0,
                    control_buffer(
                        ControlSetup { length: clamped(data@.len() as int), ..setup },
                        data@.take(clamped(data@.len() as int) as int),
                    ),
                )
            }),
    {
        let len: u16 = if data.len() > 0xffff {
            0xffff
        } else {
            data.len() as u16
        };
        let mut setup = setup;
        setup.length = len;
        let part = vstd::slice::slice_subrange(data, 0, len as usize);
        assert(part@ =~= data@.take(len as int));
        let mut t = Transfer::control(setup, part);
        t.timeout = timeout;
        t
    }

    /// The transfer that reads `len` bytes with a control request (`request_type`
    /// must have the IN bit set).
    pub fn control_read(&self, request_type: u8, request: u8, value: u16, index: u16, len: usize, timeout: u64) -> (r: Result<
        Transfer,
    >)
        ensures
            request_type < 0x80 ==> r is Err && r->Err_0@ == message(
                ErrorKind::InvalidParam,
                "control_read needs an IN request type"@,
            ),
            request_type >= 0x80 ==> r is Ok && r->Ok_0@ == (TransferView {
                timeout,
                ..fresh_transfer(
                    TransferType::Control,
                    0,
                    control_buffer(
                        ControlSetup { request_type, request, value, index, length: clamped(len as int) },
                        Seq::empty(),
                    ),
                )
            }),
    {
        if request_type < 0x80 {
            return Err(Error::with_message(ErrorKind::InvalidParam, "control_read needs an IN request type"));
        }
        let length: u16 = if len > 0xffff {
            0xffff
        } else {
            len as u16
        };
        let none: Vec<u8> = Vec::new();
        assert(none@ =~= Seq::<u8>::empty());
        let mut t = Transfer::control(ControlSetup::raw(request_type, request, value, index, length), none.as_slice());
        t.timeout = timeout;
        Ok(t)
    }

    /// The transfer that writes with a control request (`request_type` must have
    /// the IN bit clear).
    pub fn control_write(&self, request_type: u8, request: u8, value: u16, index: u16, data: &[u8], timeout: u64) -> (r: Result<
        Transfer,
    >)
        ensures
            request_type >= 0x80 ==> r is Err && r->Err_0@ == message(
                ErrorKind::InvalidParam,
                "control_write needs an OUT request type"@,
            ),
            request_type < 0x80 ==> r is Ok && r->Ok_0@ == (TransferView {
                timeout,
                ..fresh_transfer(
                    TransferType::Control,
                    0,
                    control_buffer(
                        ControlSetup {
                            request_type,
                            request,
                            value,
                            index,
                            length: (data@.len() as int % 0x1_0000) as u16,
                        },
                        data@,
                    ),
                )
            }),
    {
        if request_type >= 0x80 {
            return Err(Error::with_message(ErrorKind::InvalidParam, "control_write needs an OUT request type"));
        }
        let length: u16 = (data.len() % 0x1_0000) as u16;
        let mut t = Transfer::control(ControlSetup::raw(request_type, request, value, index, length), data);
        t.timeout = timeout;
        Ok(t)
    }
}

/// The transfer that a synchronous read makes.
pub open spec fn read_transfer(
    kind: TransferType,
    endpoint: u8,
    len: usize,
    timeout: u64,
) -> std::result::Result<TransferView, ErrorView> {
    if endpoint < 0x80 {
        Err(message(ErrorKind::InvalidParam, "read needs an IN endpoint"@))
    } else {
        Ok(TransferView { timeout, ..fresh_transfer(kind, endpoint, zeros(len as int)) })
    }
}

/// The transfer that a synchronous write makes.
pub open spec fn write_transfer(
    kind: TransferType,
    endpoint: u8,
    data: Seq<u8>,
    timeout: u64,
) -> std::result::Result<TransferView, ErrorView> {
    if endpoint >= 0x80 {
        Err(message(ErrorKind::InvalidParam, "write needs an OUT endpoint"@))
    } else {
        Ok(TransferView { timeout, ..fresh_transfer(kind, endpoint, data) })
    }
}

/// An outcome that carries a transfer.
pub open spec fn transfer_outcome(r: Result<Transfer>) -> std::result::Result<TransferView, ErrorView> {
    match r {
        Ok(t) => Ok(t@),
        Err(e) => Err(e@),
    }
}

fn sync_read(kind: TransferType, endpoint: u8, len: usize, timeout: u64) -> (r: Result<Transfer>)
    ensures
        transfer_outcome(r) == read_transfer(kind, endpoint, len, timeout),
{
    if endpoint < 0x80 {
        return Err(Error::with_message(ErrorKind::InvalidParam, "read needs an IN endpoint"));
    }
    let mut buffer: Vec<u8> = Vec::new();
    bytes::pad_to(&mut buffer, len);
    assert(buffer@ =~= zeros(len as int));
    let mut t = Transfer::new(kind, endpoint, buffer);
    t.timeout = timeout;
    Ok(t)
}

fn sync_write(kind: TransferType, endpoint: u8, data: &[u8], timeout: u64) -> (r: Result<Transfer>)
    ensures
        transfer_outcome(r) == write_transfer(kind, endpoint, data@, timeout),
{
    if endpoint >= 0x80 {
        return Err(Error::with_message(ErrorKind::InvalidParam, "write needs an OUT endpoint"));
    }
    let mut t = Transfer::new(kind, endpoint, vstd::slice::slice_to_vec(data));
    t.timeout = timeout;
    Ok(t)
}

impl DeviceHandle {
    /// The transfer that reads up to `len` bytes from a bulk IN endpoint.
    pub fn bulk_read(&self, endpoint: u8, len: usize, timeout: u64) -> (r: Result<Transfer>)
        ensures
            transfer_outcome(r) == read_transfer(TransferType::Bulk, endpoint, len, timeout),
    {
        sync_read(TransferType::Bulk, endpoint, len, timeout)
    }

    /// The transfer that writes to a bulk OUT endpoint.
    pub fn bulk_write(&self, endpoint: u8, data: &[u8], timeout: u64) -> (r: Result<Transfer>)
        ensures
            transfer_outcome(r) == write_transfer(TransferType::Bulk, endpoint, data@, timeout),
    {
        sync_write(TransferType::Bulk, endpoint, data, timeout)
    }

    /// The transfer that reads up to `len` bytes from an interrupt IN endpoint.
    pub fn interrupt_read(&self, endpoint: u8, len: usize, timeout: u64) -> (r: Result<Transfer>)
        ensures
            transfer_outcome(r) == read_transfer(TransferType::Interrupt, endpoint, len, timeout),
    {
        sync_read(TransferType::Interrupt, endpoint, len, timeout)
    }

    /// The transfer that writes to an interrupt OUT endpoint.
    pub fn interrupt_write(&self, endpoint: u8, data: &[u8], timeout: u64) -> (r: Result<Transfer>)
        ensures
            transfer_outcome(r) == write_transfer(TransferType::Interrupt, endpoint, data@, timeout),
    {
        sync_write(TransferType::Interrupt, endpoint, data, timeout)
    }
}

// ----- descriptors ------------------------------------------------------------------------

/// A standard GET_DESCRIPTOR request.
pub open spec fn descriptor_setup(kind: u8, index: u8, language: u16, length: u16) -> ControlSetup {
    setup_packet(
        Direction::In,
        ControlType::Standard,
        Recipient::Device,
        request::GET_DESCRIPTOR,
        (kind * 256 + index) as u16,
        language,
        length,
    )
}

/// A GET_DESCRIPTOR request.
fn descriptor_request(kind: u8, index: u8, language: u16, length: u16) -> (r: ControlSetup)
    ensures
        r == descriptor_setup(kind, index, language, length),
{
    ControlSetup::new(
        Direction::In,
        ControlType::Standard,
        Recipient::Device,
        request::GET_DESCRIPTOR,
        kind as u16 * 256 + index as u16,
        language,
        length,
    )
}

impl DeviceHandle {
    /// The request that fetches a descriptor of up to `length` bytes.
    pub fn read_descriptor(&self, kind: u8, index: u8, language: u16, length: u16) -> (r: ControlSetup)
        ensures
            r == descriptor_setup(kind, index, language, length),
    {
        descriptor_request(kind, index, language, length)
    }
}

/// Where the reading of a string descriptor stands.
#[derive(Debug, Clone, Copy, PartialEq, Eq, Structural)]
pub enum StringPhase {
    /// The largest possible descriptor is being asked for.
    Whole,
    /// The 2-byte header is being read.
    Header,
    /// Exactly the length that the header declares is being read.
    Exact,
    /// Reading is over.
    Over,
}

/// The reading of a raw string descriptor the way the Linux kernel does: ask
/// for the largest possible descriptor, and if the device stalls that or
/// sends less than a header, read the 2-byte header and then exactly the
/// length it declares.
#[derive(Debug, Clone, Copy, PartialEq, Eq, Structural)]
pub struct StringRead {
    pub index: u8,
    pub language: u16,
    pub phase: StringPhase,
}

/// What a [`StringRead`] asks for.
#[derive(Debug)]
pub enum StringAction {
    /// Read with the request.
    Read { setup: ControlSetup },
    /// Reading is over; the descriptor, trimmed to its length.
    Finish(Result<Vec<u8>>),
}

/// What a [`StringAction`] holds.
#[verifier::ext_equal]
pub enum StringActionView {
    Read { setup: ControlSetup },
    Finish(std::result::Result<Seq<u8>, ErrorView>),
}

impl View for StringAction {
    type V = StringActionView;

    open spec fn view(&self) -> StringActionView {
        match *self {
            StringAction::Read { setup } => StringActionView::Read { setup },
            StringAction::Finish(r) => StringActionView::Finish(bytes_outcome(r)),
        }
    }
}

/// A descriptor without what follows its declared length.
pub open spec fn trimmed(data: Seq<u8>) -> Seq<u8> {
    if data.len() == 0 {
        data
    } else {
        let len = if data[0] < 2 {
            2int
        } else {
            data[0] as int
        };
        if len < data.len() {
            data.take(len)
        } else {
            data
        }
    }
}

/// Asking for a string descriptor.
pub open spec fn string_request(s: StringRead, phase: StringPhase, length: u16) -> (StringRead, StringActionView) {
    (
        StringRead { phase, ..s },
        StringActionView::Read { setup: descriptor_setup(descriptor_type::STRING, s.index, s.language, length) },
    )
}

/// The reading of a string descriptor that is over.
pub open spec fn string_over(
    s: StringRead,
    r: std::result::Result<Seq<u8>, ErrorView>,
) -> (StringRead, StringActionView) {
    (StringRead { phase: StringPhase::Over, ..s }, StringActionView::Finish(r))
}

/// The reading of a string descriptor after what its last request returned.
pub open spec fn string_next(
    s: StringRead,
    r: std::result::Result<Seq<u8>, ErrorView>,
) -> (StringRead, StringActionView) {
    match s.phase {
        StringPhase::Whole => match r {
            Ok(data) => if data.len() >= 2 {
                string_over(s, Ok(trimmed(data)))
            } else {
                string_request(s, StringPhase::Header, 2)
            },
            Err(e) => if e.kind == ErrorKind::Pipe {
                string_request(s, StringPhase::Header, 2)
            } else {
                string_over(s, Err(e))
            },
        },
        StringPhase::Header => match r {
            Ok(head) => if head.len() < 2 || head[0] < 2 {
                string_over(s, Err(message(ErrorKind::Io, "string descriptor too short"@)))
            } else {
                string_request(s, StringPhase::Exact, head[0] as u16)
            },
            Err(e) => string_over(s, Err(e)),
        },
        _ => match r {
            Ok(data) => string_over(s, Ok(trimmed(data))),
            Err(e) => string_over(s, Err(e)),
        },
    }
}

fn trim(data: &Vec<u8>) -> (r: Vec<u8>)
    ensures
        r@ == trimmed(data@),
{
    if data.len() == 0 {
        return Vec::new();
    }
    let len: usize = if data[0] < 2 {
        2
    } else {
        data[0] as usize
    };
    let n: usize = if len < data.len() {
        len
    } else {
        data.len()
    };
    let out = bytes::copy_range(data.as_slice(), 0, n);
    assert(out@ =~= trimmed(data@));
    out
}

impl StringRead {
    /// Starts reading a string descriptor.
    pub fn new(index: u8, language: u16) -> (r: (StringRead, StringAction))
        ensures
            (r.0, r.1@) == string_request(
                StringRead { index, language, phase: StringPhase::Whole },
                StringPhase::Whole,
                255,
            ),
    {
        let s = StringRead { index, language, phase: StringPhase::Whole };
        s.ask(StringPhase::Whole, 255)
    }

    fn ask(self, phase: StringPhase, length: u16) -> (r: (StringRead, StringAction))
        ensures
            (r.0, r.1@) == string_request(self, phase, length),
    {
        let mut s = self;
        s.phase = phase;
        (s, StringAction::Read { setup: descriptor_request(descriptor_type::STRING, s.index, s.language, length) })
    }

    fn over(self, r: Result<Vec<u8>>) -> (x: (StringRead, StringAction))
        ensures
            (x.0, x.1@) == string_over(self, bytes_outcome(r)),
    {
        let mut s = self;
        s.phase = StringPhase::Over;
        (s, StringAction::Finish(r))
    }

    /// Takes what the last request returned and says what to do next.
    pub fn step(self, r: Result<Vec<u8>>) -> (x: (StringRead, StringAction))
        ensures
            (x.0, x.1@) == string_next(self, bytes_outcome(r)),
    {
        match self.phase {
            StringPhase::Whole => match r {
                Ok(data) => if data.len() >= 2 {
                    self.over(Ok(trim(&data)))
                } else {
                    self.ask(StringPhase::Header, 2)
                },
                Err(e) => if e.is_stall() {
                    self.ask(StringPhase::Header, 2)
                } else {
                    self.over(Err(e))
                },
            },
            StringPhase::Header => match r {
                Ok(head) => if head.len() < 2 || head[0] < 2 {
                    self.over(Err(Error::with_message(ErrorKind::Io, "string descriptor too short")))
                } else {
                    self.ask(StringPhase::Exact, head[0] as u16)
                },
                Err(e) => self.over(Err(e)),
            },
            _ => match r {
                Ok(data) => self.over(Ok(trim(&data))),
                Err(e) => self.over(Err(e)),
            },
        }
    }
}

/// Whether a raw string descriptor can be decoded: it does not declare less
/// than its own header.
pub open spec fn decodable(raw: Seq<u8>) -> bool {
    descriptors::is_string_descriptor(raw) ==> raw[0] >= 2
}

/// The language IDs in a raw string descriptor 0.
pub open spec fn languages_of(
    r: std::result::Result<Seq<u8>, ErrorView>,
) -> std::result::Result<Seq<u16>, ErrorView> {
    match r {
        Err(e) => Err(e),
        Ok(raw) => if descriptors::is_string_descriptor(raw) {
            Ok(descriptors::string_units(raw))
        } else {
            Err(message(ErrorKind::Io, "not a string descriptor"@))
        },
    }
}

/// An outcome that carries language IDs.
pub open spec fn units_outcome(r: Result<Vec<u16>>) -> std::result::Result<Seq<u16>, ErrorView> {
    match r {
        Ok(v) => Ok(v@),
        Err(e) => Err(e@),
    }
}

impl DeviceHandle {
    /// The language IDs the device offers string descriptors in, from what
    /// reading descriptor 0 returned.
    pub fn read_languages(&self, r: Result<Vec<u8>>) -> (x: Result<Vec<u16>>)
        requires
            r is Ok ==> decodable(r->Ok_0@),
        ensures
            units_outcome(x) == languages_of(bytes_outcome(r)),
    {
        match r {
            Err(e) => Err(e),
            Ok(raw) => descriptors::decode_language_ids(raw.as_slice()),
        }
    }
}

/// The text in a raw string descriptor.
pub open spec fn string_in(
    r: std::result::Result<Seq<u8>, ErrorView>,
) -> std::result::Result<Seq<char>, ErrorView> {
    match r {
        Err(e) => Err(e),
        Ok(raw) => if descriptors::is_string_descriptor(raw) {
            Ok(descriptors::utf16_lossy(descriptors::string_units(raw)))
        } else {
            Err(message(ErrorKind::Io, "not a string descriptor"@))
        },
    }
}

impl DeviceHandle {
    /// Starts reading a string descriptor in the given language.
    pub fn read_string_descriptor(&self, language_id: u16, index: u8) -> (r: Result<(StringRead, StringAction)>)
        ensures
            index == 0 ==> r is Err && r->Err_0@ == message(
                ErrorKind::InvalidParam,
                "string index 0 is the language table"@,
            ),
            index != 0 ==> r is Ok && (r->Ok_0.0, r->Ok_0.1@) == string_request(
                StringRead { index, language: language_id, phase: StringPhase::Whole },
                StringPhase::Whole,
                255,
            ),
    {
        if index == 0 {
            return Err(Error::with_message(ErrorKind::InvalidParam, "string index 0 is the language table"));
        }
        Ok(StringRead::new(index, language_id))
    }
}

/// The text of a string descriptor, from what reading it returned.
pub fn string_outcome(r: Result<Vec<u8>>) -> (x: Result<String>)
    requires
        r is Ok ==> decodable(r->Ok_0@),
    ensures
        text_outcome(x) == string_in(bytes_outcome(r)),
{
    match r {
        Err(e) => Err(e),
        Ok(raw) => descriptors::decode_string_descriptor(raw.as_slice()),
    }
}

/// Whether an error says that a language table came but is malformed, and not
/// that the device could not return it.
pub open spec fn malformed_table(e: ErrorView) -> bool {
    &&& e.kind == ErrorKind::Io
    &&& e.code is None
    &&& e.message == Some("string descriptor too short"@) || e.message == Some("not a string descriptor"@)
}

fn is_malformed_table(e: &Error) -> (r: bool)
    ensures
        r == malformed_table(e@),
{
    if e.kind() != ErrorKind::Io || e.os_code().is_some() {
        return false;
    }
    match e.message() {
        Some(m) => text::same(m, "string descriptor too short") || text::same(m, "not a string descriptor"),
        None => false,
    }
}

/// The language that strings are read in: the device's first one; a device
/// whose language table is empty or malformed gets US English, as the Linux
/// kernel assumes; one that cannot return the table at all gets the error.
pub open spec fn language_of(
    r: std::result::Result<Seq<u16>, ErrorView>,
) -> std::result::Result<u16, ErrorView> {
    match r {
        Ok(langs) => Ok(
            if langs.len() > 0 {
                langs[0]
            } else {
                DEFAULT_LANGUAGE
            },
        ),
        Err(e) => if malformed_table(e) {
            Ok(DEFAULT_LANGUAGE)
        } else {
            Err(e)
        },
    }
}

/// The language that strings are read in, from what reading descriptor 0
/// returned. A table that declares less than its own header is malformed.
pub open spec fn language_of_table(
    r: std::result::Result<Seq<u8>, ErrorView>,
) -> std::result::Result<u16, ErrorView> {
    if r is Ok && !decodable(r->Ok_0) {
        Ok(DEFAULT_LANGUAGE)
    } else {
        language_of(languages_of(r))
    }
}

impl DeviceHandle {
    /// Takes the device's language table, read once per handle, and settles
    /// the language that strings are read in.
    pub fn choose_language(&mut self, r: Result<Vec<u16>>) -> (x: Result<u16>)
        ensures
            outcome(x) == language_of(units_outcome(r)),
            final(self)@ == (DeviceHandleView {
                string_language: match language_of(units_outcome(r)) {
                    Ok(lang) => Some(lang),
                    Err(_) => old(self)@.string_language,
                },
                ..old(self)@
            }),
    {
        let lang: u16 = match r {
            Ok(langs) => if langs.len() > 0 {
                langs[0]
            } else {
                DEFAULT_LANGUAGE
            },
            Err(e) => {
                if !is_malformed_table(&e) {
                    return Err(e);
                }
                DEFAULT_LANGUAGE
            },
        };
        self.string_language = Some(lang);
        Ok(lang)
    }

    /// The language that strings are read in: the one settled before, or else
    /// the one that the device's table (descriptor 0, as it was read) offers.
    pub fn string_language(&mut self, table: Result<Vec<u8>>) -> (x: Result<u16>)
        ensures
            old(self)@.string_language matches Some(lang) ==> x == Ok::<u16, Error>(lang) && final(self)@ == old(self)@,
            old(self)@.string_language is None ==> outcome(x) == language_of_table(bytes_outcome(table)) && final(self)@
                == (DeviceHandleView {
                string_language: match language_of_table(bytes_outcome(table)) {
                    Ok(lang) => Some(lang),
                    Err(_) => None,
                },
                ..old(self)@
            }),
    {
        match self.string_language {
            Some(lang) => {
                return Ok(lang);
            },
            None => {},
        }
        let malformed = match &table {
            Ok(raw) => raw.len() >= 2 && raw[1] == descriptor_type::STRING && raw[0] < 2,
            Err(_) => false,
        };
        if malformed {
            self.string_language = Some(DEFAULT_LANGUAGE);
            return Ok(DEFAULT_LANGUAGE);
        }
        let languages = self.read_languages(table);
        self.choose_language(languages)
    }

    /// Starts reading a string descriptor in the device's first language.
    /// `table` is descriptor 0 as it was read, for a handle that has not
    /// settled its language.
    pub fn read_string(&mut self, index: u8, table: Result<Vec<u8>>) -> (r: Result<(StringRead, StringAction)>)
        ensures
            ({
                let language = match old(self)@.string_language {
                    Some(lang) => Ok::<u16, ErrorView>(lang),
                    None => language_of_table(bytes_outcome(table)),
                };
                &&& final(self)@ == (DeviceHandleView {
                    string_language: match language {
                        Ok(lang) => Some(lang),
                        Err(_) => None,
                    },
                    ..old(self)@
                })
                &&& match language {
                    Err(e) => r is Err && r->Err_0@ == e,
                    Ok(lang) => if index == 0 {
                        r is Err && r->Err_0@ == message(
                            ErrorKind::InvalidParam,
                            "string index 0 is the language table"@,
                        )
                    } else {
                        r is Ok && (r->Ok_0.0, r->Ok_0.1@) == string_request(
                            StringRead { index, language: lang, phase: StringPhase::Whole },
                            StringPhase::Whole,
                            255,
                        )
                    },
                }
            }),
    {
        match self.string_language(table) {
            Err(e) => Err(e),
            Ok(language) => self.read_string_descriptor(language, index),
        }
    }
}

/// The index of an optional string: 0 stands for none.
pub open spec fn optional_index(index: u8) -> Option<u8> {
    if index == 0 {
        None
    } else {
        Some(index)
    }
}

fn optional(index: u8) -> (r: Option<u8>)
    ensures
        r == optional_index(index),
{
    if index == 0 {
        None
    } else {
        Some(index)
    }
}

impl DeviceHandle {
    /// The index of the manufacturer string, if the device has one.
    pub fn read_manufacturer_string(&self, d: &DeviceDescriptor) -> (r: Option<u8>)
        ensures
            r == optional_index(d.manufacturer_string_index),
    {
        optional(d.manufacturer_string_index)
    }

    /// The index of the product string, if the device has one.
    pub fn read_product_string(&self, d: &DeviceDescriptor) -> (r: Option<u8>)
        ensures
            r == optional_index(d.product_string_index),
    {
        optional(d.product_string_index)
    }

    /// The index of the serial number string, if the device has one.
    pub fn read_serial_number_string(&self, d: &DeviceDescriptor) -> (r: Option<u8>)
        ensures
            r == optional_index(d.serial_number_string_index),
    {
        optional(d.serial_number_string_index)
    }
}

/// The request for a Binary Object Store descriptor, from what reading its
/// 5-byte header returned.
pub open spec fn bos_setup(
    r: std::result::Result<Seq<u8>, ErrorView>,
) -> std::result::Result<ControlSetup, ErrorView> {
    match r {
        Err(e) => Err(e),
        Ok(head) => if head.len() < 5 || head[1] != descriptor_type::BOS {
            Err(message(ErrorKind::Io, "malformed BOS descriptor"@))
        } else {
            Ok(
                descriptor_setup(
                    descriptor_type::BOS,
                    0,
                    0,
                    if le16_at(head, 2) < 5 {
                        5
                    } else {
                        le16_at(head, 2)
                    },
                ),
            )
        },
    }
}

impl DeviceHandle {
    /// The request that reads the whole Binary Object Store descriptor (USB 2.1+ /
    /// 3.x devices), from what reading its 5-byte header returned. The bytes it
    /// returns are the descriptor; devices that do not have one stall.
    pub fn read_bos_descriptor(&self, r: Result<Vec<u8>>) -> (x: Result<ControlSetup>)
        ensures
            outcome(x) == bos_setup(bytes_outcome(r)),
    {
        match r {
            Err(e) => Err(e),
            Ok(head) => {
                if head.len() < 5 || head[1] != descriptor_type::BOS {
                    return Err(Error::with_message(ErrorKind::Io, "malformed BOS descriptor"));
                }
                let total: u16 = le16(head.as_slice(), 2);
                Ok(descriptor_request(descriptor_type::BOS, 0, 0, if total < 5 { 5 } else { total }))
            },
        }
    }
}

// ----- what holds of handles -------------------------------------------------------------

proof fn lemma_without(v: Seq<u8>, gone: Seq<u8>, n: u8)
    ensures
        without(v, gone).contains(n) <==> v.contains(n) && !gone.contains(n),
    decreases v.len(),
{
    if v.len() > 0 {
        lemma_without(v.drop_last(), gone, n);
        let rest = without(v.drop_last(), gone);
        let last = v.last();
        assert(v =~= v.drop_last().push(last));
        if v.contains(n) {
            let k = choose|k: int| 0 <= k < v.len() && v[k] == n;
            if k < v.len() - 1 {
                assert(v.drop_last()[k] == n);
            }
        }
        if v.drop_last().contains(n) {
            let k = choose|k: int| 0 <= k < v.drop_last().len() && v.drop_last()[k] == n;
            assert(v[k] == n);
        }
        if rest.contains(n) {
            let k = choose|k: int| 0 <= k < rest.len() && rest[k] == n;
            assert(rest.push(last)[k] == n);
        }
        if last == n {
            assert(v[v.len() - 1] == n);
            assert(rest.push(last)[rest.len() as int] == n);
        }
        if !gone.contains(last) && rest.push(last).contains(n) {
            let k = choose|k: int| 0 <= k < rest.push(last).len() && rest.push(last)[k] == n;
            if k < rest.len() {
                assert(rest[k] == n);
            }
        }
    }
}

proof fn lemma_without_absent(v: Seq<u8>, gone: Seq<u8>)
    requires
        forall|i: int| 0 <= i < v.len() ==> !gone.contains(#[trigger] v[i]),
    ensures
        without(v, gone) == v,
    decreases v.len(),
{
    if v.len() > 0 {
        assert(!gone.contains(v[v.len() - 1]));
        assert forall|i: int| 0 <= i < v.drop_last().len() implies !gone.contains(#[trigger] v.drop_last()[i]) by {
            assert(v.drop_last()[i] == v[i]);
        }
        lemma_without_absent(v.drop_last(), gone);
        assert(v =~= v.drop_last().push(v.last()));
    } else {
        assert(without(v, gone) =~= v);
    }
}

proof fn lemma_without_all(v: Seq<u8>, w: Seq<u8>, gone: Seq<u8>)
    requires
        forall|i: int| 0 <= i < w.len() ==> gone.contains(#[trigger] w[i]),
    ensures
        without(v + w, gone) == without(v, gone),
    decreases w.len(),
{
    if w.len() > 0 {
        let all = v + w;
        assert(all.drop_last() =~= v + w.drop_last());
        assert(all.last() == w[w.len() - 1]);
        assert forall|i: int| 0 <= i < w.drop_last().len() implies gone.contains(#[trigger] w.drop_last()[i]) by {
            assert(w.drop_last()[i] == w[i]);
        }
        lemma_without_all(v, w.drop_last(), gone);
    } else {
        assert(v + w =~= v);
    }
}

proof fn lemma_first_leased(wanted: Seq<u8>, leased: Seq<u8>)
    ensures
        first_leased(wanted, leased) is None <==> forall|i: int|
            0 <= i < wanted.len() ==> !leased.contains(#[trigger] wanted[i]),
        first_leased(wanted, leased) is Some ==> wanted.contains(first_leased(wanted, leased)->0) && leased.contains(
            first_leased(wanted, leased)->0,
        ),
    decreases wanted.len(),
{
    if wanted.len() > 0 {
        let w = wanted.skip(1);
        lemma_first_leased(w, leased);
        assert forall|i: int| 0 <= i < w.len() implies #[trigger] w[i] == wanted[i + 1] by {}
        if leased.contains(wanted[0]) {
            assert(wanted.contains(wanted[0]));
        } else if first_leased(w, leased) is None {
            assert forall|i: int| 0 <= i < wanted.len() implies !leased.contains(#[trigger] wanted[i]) by {
                if i > 0 {
                    assert(w[i - 1] == wanted[i]);
                }
            }
        } else {
            let f = first_leased(w, leased)->0;
            let k = choose|k: int| 0 <= k < w.len() && w[k] == f;
            assert(wanted[k + 1] == f);
        }
    }
}

/// Two class helpers never share an interface: leasing succeeds only if no
/// wanted interface is in use, and what it leased is then in use.
pub proof fn lemma_leases_are_exclusive(leased: Seq<u8>, wanted: Seq<u8>, n: u8)
    requires
        wanted.contains(n),
    ensures
        first_leased(wanted, leased) is None ==> !leased.contains(n) && (leased + wanted).contains(n),
        leased.contains(n) ==> first_leased(wanted, leased) is Some,
{
    lemma_first_leased(wanted, leased);
    let k = choose|k: int| 0 <= k < wanted.len() && wanted[k] == n;
    assert((leased + wanted)[leased.len() + k] == n);
}

/// Giving a lease back leaves exactly the leases that were there before it.
pub proof fn lemma_unlease_undoes_lease(leased: Seq<u8>, wanted: Seq<u8>)
    requires
        first_leased(wanted, leased) is None,
    ensures
        without(leased + wanted, wanted) == leased,
{
    lemma_first_leased(wanted, leased);
    assert forall|i: int| 0 <= i < leased.len() implies !wanted.contains(#[trigger] leased[i]) by {
        if wanted.contains(leased[i]) {
            let k = choose|k: int| 0 <= k < wanted.len() && wanted[k] == leased[i];
            assert(!leased.contains(wanted[k]));
        }
    }
    assert forall|i: int| 0 <= i < wanted.len() implies wanted.contains(#[trigger] wanted[i]) by {}
    lemma_without_all(leased, wanted, wanted);
    lemma_without_absent(leased, wanted);
}

/// Releasing an interface right after it was newly claimed leaves exactly the
/// claims that were there before, which is what makes claiming every
/// interface all or nothing.
pub proof fn lemma_release_undoes_claim(claimed: Seq<u8>, n: u8)
    requires
        !claimed.contains(n),
    ensures
        including(claimed, n).contains(n),
        without(including(claimed, n), seq![n]) == claimed,
{
    let gone = seq![n];
    assert(gone[0] == n);
    assert(including(claimed, n)[claimed.len() as int] == n);
    assert(including(claimed, n) =~= claimed + gone);
    assert forall|i: int| 0 <= i < gone.len() implies gone.contains(#[trigger] gone[i]) by {}
    lemma_without_all(claimed, gone, gone);
    lemma_without_absent(claimed, gone);
}

/// An interface that was released is not claimed any more, and every other
/// claim stays.
pub proof fn lemma_release_releases(claimed: Seq<u8>, n: u8, m: u8)
    ensures
        without(claimed, seq![n]).contains(m) <==> claimed.contains(m) && m != n,
{
    lemma_without(claimed, seq![n], m);
    assert(seq![n].contains(m) <==> m == n) by {
        assert(seq![n][0] == n);
    }
}

/// Claims after a list of interfaces was claimed one by one.
pub open spec fn claimed_after(claimed: Seq<u8>, newly: Seq<u8>) -> Seq<u8>
    decreases newly.len(),
{
    if newly.len() == 0 {
        claimed
    } else {
        including(claimed_after(claimed, newly.drop_last()), newly.last())
    }
}

/// Claims after a list of interfaces was released one by one.
pub open spec fn released_after(claimed: Seq<u8>, list: Seq<u8>) -> Seq<u8>
    decreases list.len(),
{
    if list.len() == 0 {
        claimed
    } else {
        without(released_after(claimed, list.drop_last()), seq![list.last()])
    }
}

proof fn lemma_released_absent(v: Seq<u8>, w: Seq<u8>, list: Seq<u8>)
    requires
        forall|i: int, j: int| 0 <= i < v.len() && 0 <= j < list.len() ==> v[i] != list[j],
    ensures
        released_after(v + w, list) == v + released_after(w, list),
    decreases list.len(),
{
    if list.len() > 0 {
        lemma_released_absent(v, w, list.drop_last());
        let rest = released_after(w, list.drop_last());
        let gone = seq![list.last()];
        assert forall|i: int| 0 <= i < v.len() implies !gone.contains(#[trigger] v[i]) by {
            assert(v[i] != list[list.len() - 1]);
        }
        lemma_without_prefix(v, rest, gone);
    }
}

proof fn lemma_without_prefix(v: Seq<u8>, w: Seq<u8>, gone: Seq<u8>)
    requires
        forall|i: int| 0 <= i < v.len() ==> !gone.contains(#[trigger] v[i]),
    ensures
        without(v + w, gone) == v + without(w, gone),
    decreases w.len(),
{
    if w.len() == 0 {
        lemma_without_absent(v, gone);
        assert(v + w =~= v);
        assert(v + without(w, gone) =~= v);
    } else {
        lemma_without_prefix(v, w.drop_last(), gone);
        assert((v + w).drop_last() =~= v + w.drop_last());
        assert((v + w).last() == w.last());
        let x = without(w.drop_last(), gone);
        assert((v + x).push(w.last()) =~= v + x.push(w.last()));
    }
}

proof fn lemma_released_all(list: Seq<u8>, k: int)
    requires
        0 <= k <= list.len(),
        forall|i: int, j: int| 0 <= i < j < list.len() ==> list[i] != list[j],
    ensures
        released_after(list, list.take(k)) == list.skip(k),
    decreases k,
{
    if k == 0 {
        assert(list.take(0) =~= Seq::empty());
        assert(list.skip(0) =~= list);
    } else {
        lemma_released_all(list, k - 1);
        assert(list.take(k).drop_last() =~= list.take(k - 1));
        let rest = list.skip(k - 1);
        let n = list[k - 1];
        assert(list.take(k).last() == n);
        assert(rest =~= seq![n] + list.skip(k));
        let gone = seq![n];
        assert(gone.contains(n)) by {
            assert(gone[0] == n);
        }
        let tail = list.skip(k);
        assert forall|i: int| 0 <= i < tail.len() implies !gone.contains(#[trigger] tail[i]) by {
            assert(tail[i] == list[k + i]);
        }
        lemma_without_front(n, tail);
    }
}

proof fn lemma_without_front(n: u8, tail: Seq<u8>)
    requires
        forall|i: int| 0 <= i < tail.len() ==> !seq![n].contains(#[trigger] tail[i]),
    ensures
        without(seq![n] + tail, seq![n]) == tail,
    decreases tail.len(),
{
    let gone = seq![n];
    let all = gone + tail;
    if tail.len() == 0 {
        assert(all.drop_last() =~= Seq::empty());
        assert(all.last() == n);
        assert(gone.contains(n)) by {
            assert(gone[0] == n);
        }
        assert(without(all.drop_last(), gone) =~= tail);
    } else {
        assert(all.drop_last() =~= gone + tail.drop_last());
        assert(all.last() == tail[tail.len() - 1]);
        assert forall|i: int| 0 <= i < tail.drop_last().len() implies !gone.contains(
            #[trigger] tail.drop_last()[i],
        ) by {
            assert(tail.drop_last()[i] == tail[i]);
        }
        lemma_without_front(n, tail.drop_last());
        assert(tail =~= tail.drop_last().push(tail.last()));
    }
}

proof fn lemma_claimed_after(claimed: Seq<u8>, newly: Seq<u8>)
    requires
        forall|i: int, j: int| 0 <= i < claimed.len() && 0 <= j < newly.len() ==> claimed[i] != newly[j],
        forall|i: int, j: int| 0 <= i < j < newly.len() ==> newly[i] != newly[j],
    ensures
        claimed_after(claimed, newly) == claimed + newly,
    decreases newly.len(),
{
    if newly.len() > 0 {
        let front = newly.drop_last();
        lemma_claimed_after(claimed, front);
        let n = newly.last();
        assert(!(claimed + front).contains(n)) by {
            if (claimed + front).contains(n) {
                let k = choose|k: int| 0 <= k < (claimed + front).len() && (claimed + front)[k] == n;
                if k < claimed.len() {
                    assert(claimed[k] != newly[newly.len() - 1]);
                } else {
                    assert(newly[k - claimed.len()] != newly[newly.len() - 1]);
                }
            }
        }
        assert(claimed + newly =~= (claimed + front).push(n));
    } else {
        assert(claimed + newly =~= claimed);
    }
}

/// Claiming every interface is all or nothing: releasing the interfaces that
/// were newly claimed, once one of them cannot be, leaves exactly the claims
/// that were there before.
pub proof fn lemma_claim_all_rolls_back(claimed: Seq<u8>, newly: Seq<u8>)
    requires
        forall|i: int, j: int| 0 <= i < claimed.len() && 0 <= j < newly.len() ==> claimed[i] != newly[j],
        forall|i: int, j: int| 0 <= i < j < newly.len() ==> newly[i] != newly[j],
    ensures
        released_after(claimed_after(claimed, newly), newly) == claimed,
{
    lemma_claimed_after(claimed, newly);
    lemma_released_absent(claimed, newly, newly);
    lemma_released_all(newly, newly.len() as int);
    assert(newly.take(newly.len() as int) =~= newly);
    assert(claimed + newly.skip(newly.len() as int) =~= claimed);
}

/// Claiming an interface ends.
pub proof fn lemma_claiming_ends(c: Claiming, h: DeviceHandleView, r: std::result::Result<bool, ErrorView>)
    requires
        c.phase != ClaimPhase::Over,
    ensures
        claim_next(c, h, r).2 is Finish <==> claim_next(c, h, r).0.phase == ClaimPhase::Over,
        claim_next(c, h, r).0.phase == c.phase ==> false,
        c.phase == ClaimPhase::Claiming ==> claim_next(c, h, r).0.phase == ClaimPhase::Over,
        c.phase == ClaimPhase::Detaching ==> claim_next(c, h, r).0.phase != ClaimPhase::Asking,
{
}

/// A reset of a handle after a run of outcomes: the first is that of the port
/// reset, the others are those of claiming interfaces again.
pub open spec fn reset_after(claimed: Seq<u8>, outcomes: Seq<std::result::Result<(), ErrorView>>) -> (ResettingView, ResetActionView)
    decreases outcomes.len(),
{
    if outcomes.len() <= 1 {
        reset_first(claimed, outcomes[0])
    } else {
        reset_next(reset_after(claimed, outcomes.drop_last()).0, outcomes.last())
    }
}

/// A reset takes every claimed interface back, in order: while all goes well
/// the next one is asked for until none is left, and the reset succeeds then
/// and only then. The first failure ends it: that of the port with its own
/// error, that of an interface with "not found".
pub proof fn lemma_reset_takes_every_claim_back(claimed: Seq<u8>, outcomes: Seq<std::result::Result<(), ErrorView>>)
    requires
        1 <= outcomes.len() <= claimed.len() + 1,
        forall|i: int| 0 <= i < outcomes.len() - 1 ==> (#[trigger] outcomes[i]) is Ok,
    ensures
        ({
            let n = outcomes.len() - 1;
            let action = reset_after(claimed, outcomes).1;
            match outcomes.last() {
                Ok(_) => action == (if n < claimed.len() {
                    ResetActionView::Claim(claimed[n])
                } else {
                    ResetActionView::Finish(Ok(()))
                }),
                Err(e) => action == ResetActionView::Finish(
                    Err(
                        if n == 0 {
                            e
                        } else {
                            message(ErrorKind::NotFound, "device changed across reset; reopen it"@)
                        },
                    ),
                ),
            }
        }),
        outcomes.last() is Ok ==> reset_after(claimed, outcomes).0 == (ResettingView {
            claimed,
            next: (outcomes.len() - 1) as nat,
        }),
    decreases outcomes.len(),
{
    if outcomes.len() > 1 {
        let w = outcomes.drop_last();
        assert(w.last() == outcomes[w.len() - 1]);
        assert forall|i: int| 0 <= i < w.len() - 1 implies (#[trigger] w[i]) is Ok by {
            assert(w[i] == outcomes[i]);
        }
        lemma_reset_takes_every_claim_back(claimed, w);
    } else {
        assert(outcomes[0] == outcomes.last());
    }
}

/// A lease is refused on account of the first interface that is wanted and in
/// use, if one is.
pub proof fn lemma_lease_conflict(v: Seq<u8>, leased: Seq<u8>, k: int)
    requires
        0 <= k <= v.len(),
        forall|j: int| 0 <= j < k ==> !(leased.contains((#[trigger] v[j]))),
    ensures
        k == v.len() ==> first_leased(v, leased) is None,
        k < v.len() && leased.contains(v[k]) ==> first_leased(v, leased) == Some(v[k]),
    decreases k,
{
    if k > 0 {
        let w = v.skip(1);
        assert(!(leased.contains(v[0])));
        assert forall|j: int| 0 <= j < k - 1 implies !(leased.contains((#[trigger] w[j]))) by {
            assert(w[j] == v[j + 1]);
        }
        if k < v.len() {
            assert(w[k - 1] == v[k]);
        }
        lemma_lease_conflict(w, leased, k - 1);
    }
}

/// The way of a claim: where the kernel's driver is to be detached, it is
/// asked for first; one that is there is detached, and that is noted; then the
/// interface is claimed, and that is noted too.
pub proof fn lemma_claim_steps(interface: u8, h: DeviceHandleView, e: ErrorView)
    ensures
        claim_first(interface, false).1 is Claim,
        claim_first(interface, true).1 is AskDriver,
        ({
            let c = claim_first(interface, true).0;
            let (d, g, a) = claim_next(c, h, Ok(true));
            let (f, k, b) = claim_next(d, g, Ok(true));
            &&& a is Detach
            &&& g == h
            &&& b is Claim
            &&& k == (DeviceHandleView { detached: h.detached.push(interface), ..h })
            &&& claim_next(c, h, Ok(false)).2 is Claim
            &&& claim_next(c, h, Ok(false)).1 == h
            &&& claim_next(c, h, Err(e)).2 is Claim
            &&& claim_next(d, h, Err(e)).1 == h
            &&& claim_next(d, h, Err(e)).2 is Claim <==> e.kind == ErrorKind::NotSupported || e.kind == ErrorKind::NotFound
            &&& claim_next(d, h, Err(e)).2 is Claim || claim_next(d, h, Err(e)).2 == ClaimActionView::Finish(
                Err::<(), ErrorView>(e),
            )
        }),
        ({
            let c = claim_first(interface, false).0;
            let (d, g, a) = claim_next(c, h, Ok(true));
            &&& a == ClaimActionView::Finish(Ok::<(), ErrorView>(()))
            &&& g.claimed.contains(interface)
            &&& h.claimed.is_prefix_of(g.claimed)
            &&& h.claimed.contains(interface) ==> g == h
            &&& !h.claimed.contains(interface) ==> g == (DeviceHandleView { claimed: h.claimed.push(interface), ..h })
            &&& claim_next(c, h, Err(e)).1 == h
            &&& claim_next(c, h, Err(e)).2 == ClaimActionView::Finish(Err::<(), ErrorView>(e))
        }),
{
    assert(including(h.claimed, interface).last() == interface || h.claimed.contains(interface));
    if !h.claimed.contains(interface) {
        assert(h.claimed.push(interface)[h.claimed.len() as int] == interface);
    }
}

/// What is taken out of a list is gone, and the rest stays in order.
pub proof fn lemma_without_in_order(v: Seq<u8>, n: u8, gone: Seq<u8>)
    ensures
        without(Seq::empty(), gone).len() == 0,
        gone.contains(n) ==> without(v.push(n), gone) == without(v, gone),
        !gone.contains(n) ==> without(v.push(n), gone) == without(v, gone).push(n),
{
    assert(v.push(n).drop_last() =~= v);
}

/// Interfaces are claimed in order, and those that are claimed already are
/// passed over.
pub proof fn lemma_next_unclaimed(numbers: Seq<u8>, k: int, claimed: Seq<u8>, j: int)
    requires
        0 <= k <= numbers.len(),
    ensures
        k <= next_unclaimed(numbers, k, claimed) <= numbers.len(),
        next_unclaimed(numbers, k, claimed) < numbers.len() ==> !claimed.contains(
            numbers[next_unclaimed(numbers, k, claimed)],
        ),
        k <= j < next_unclaimed(numbers, k, claimed) ==> claimed.contains(numbers[j]),
    decreases numbers.len() - k,
{
    if k < numbers.len() && claimed.contains(numbers[k]) {
        lemma_next_unclaimed(numbers, k + 1, claimed, j);
    }
}

/// A synchronous read takes an IN endpoint and has room for what is wanted; a
/// write takes an OUT endpoint and carries the data.
pub proof fn lemma_sync_transfers(kind: TransferType, endpoint: u8, len: usize, data: Seq<u8>, timeout: u64)
    ensures
        read_transfer(kind, endpoint, len, timeout) is Ok <==> endpoint >= 0x80,
        read_transfer(kind, endpoint, len, timeout) matches Ok(t) ==> t.kind == kind && t.endpoint == endpoint
            && t.buffer.len() == len && t.timeout == timeout && !t.in_flight,
        read_transfer(kind, endpoint, len, timeout) matches Err(e) ==> e.kind == ErrorKind::InvalidParam,
        write_transfer(kind, endpoint, data, timeout) is Ok <==> endpoint < 0x80,
        write_transfer(kind, endpoint, data, timeout) matches Ok(t) ==> t.kind == kind && t.endpoint == endpoint
            && t.buffer == data && t.timeout == timeout && !t.in_flight,
        write_transfer(kind, endpoint, data, timeout) matches Err(e) ==> e.kind == ErrorKind::InvalidParam,
        len <= 0xffff ==> clamped(len as int) == len,
        len > 0xffff ==> clamped(len as int) == 0xffff,
{
}

/// A descriptor is read from the device by request 6, with its type above its
/// index.
pub proof fn lemma_descriptor_requests(kind: u8, index: u8, language: u16, length: u16)
    ensures
        ({
            let s = descriptor_setup(kind, index, language, length);
            &&& s.request_type == 0x80
            &&& s.request == 6
            &&& s.value / 256 == kind
            &&& s.value % 256 == index
            &&& s.index == language
            &&& s.length == length
        }),
{
}

/// A string is read whole; where that stalls or brings too little, its header
/// is read first and then as much as that declares.
pub proof fn lemma_string_reads(s: StringRead, data: Seq<u8>, e: ErrorView)
    requires
        s.phase == StringPhase::Whole,
    ensures
        string_request(s, StringPhase::Whole, 255).1 == (StringActionView::Read {
            setup: descriptor_setup(3, s.index, s.language, 255),
        }),
        data.len() >= 2 ==> string_next(s, Ok(data)).1 == StringActionView::Finish(
            Ok::<Seq<u8>, ErrorView>(trimmed(data)),
        ),
        data.len() < 2 ==> string_next(s, Ok(data)).1 == (StringActionView::Read {
            setup: descriptor_setup(3, s.index, s.language, 2),
        }),
        e.kind == ErrorKind::Pipe ==> string_next(s, Err(e)).1 == (StringActionView::Read {
            setup: descriptor_setup(3, s.index, s.language, 2),
        }),
        e.kind != ErrorKind::Pipe ==> string_next(s, Err(e)).1 == StringActionView::Finish(Err::<Seq<u8>, ErrorView>(e)),
        ({
            let h = StringRead { phase: StringPhase::Header, ..s };
            &&& data.len() >= 2 && data[0] >= 2 ==> string_next(h, Ok(data)).1 == (StringActionView::Read {
                setup: descriptor_setup(3, s.index, s.language, data[0] as u16),
            })
            &&& data.len() < 2 || data[0] < 2 ==> string_next(h, Ok(data)).1 is Finish && string_next(
                h,
                Ok(data),
            ).1->Finish_0 is Err
        }),
{
}

/// Of what was read, as much counts as the first byte declares.
pub proof fn lemma_trimmed_to_length(data: Seq<u8>)
    requires
        data.len() >= 2,
        data[0] >= 2,
    ensures
        data[0] <= data.len() ==> trimmed(data) == data.take(data[0] as int),
        data[0] > data.len() ==> trimmed(data) == data,
{
    if data[0] == data.len() {
        assert(data.take(data[0] as int) =~= data);
    }
}

/// Strings are read in the first language of the table; where the table is
/// empty or broken in English (United States), and any other failure comes
/// back.
pub proof fn lemma_languages(raw: Seq<u8>, langs: Seq<u16>, e: ErrorView)
    ensures
        langs.len() > 0 ==> language_of(Ok(langs)) == Ok::<u16, ErrorView>(langs[0]),
        langs.len() == 0 ==> language_of(Ok(langs)) == Ok::<u16, ErrorView>(0x0409),
        e.kind != ErrorKind::Io ==> language_of(Err(e)) == Err::<u16, ErrorView>(e),
        language_of(Err(e)) matches Ok(lang) ==> lang == 0x0409,
        raw.len() >= 4 && raw[0] == 4 && raw[1] == 3 ==> language_of_table(Ok(raw)) is Ok && language_of_table(
            Ok(raw),
        )->Ok_0 == raw[2] + 256 * raw[3],
{
    if raw.len() >= 4 && raw[0] == 4 && raw[1] == 3 {
        descriptors::lemma_string_layout(raw, 0);
    }
}

/// A string index of 0 means that there is no string.
pub proof fn lemma_string_indices(index: u8)
    ensures
        optional_index(index) is None <==> index == 0,
        optional_index(index) matches Some(i) ==> i == index,
{
}

/// The binary object store is read in full once its header, which must be of
/// type 0x0f, says how long it is.
pub proof fn lemma_object_store(head: Seq<u8>, e: ErrorView)
    ensures
        bos_setup(Ok(head)) is Ok <==> head.len() >= 5 && head[1] == 0x0f,
        bos_setup(Ok(head)) matches Ok(s) ==> s.request_type == 0x80 && s.request == 6 && s.value == 0x0f00 && s.index == 0
            && (head[2] + 256 * head[3] >= 5 ==> s.length == head[2] + 256 * head[3]) && s.length >= 5,
        bos_setup(Err(e)) == Err::<ControlSetup, ErrorView>(e),
{
}

/// Releasing an interface takes it off the claimed ones, and one mark off the
/// detached ones.
pub proof fn lemma_release_steps(h: DeviceHandleView, interface: u8)
    ensures
        ({
            let g = after_release(h, interface);
            &&& !g.claimed.contains(interface)
            &&& (g.auto_detach, g.leased, g.string_language) == (h.auto_detach, h.leased, h.string_language)
            &&& h.detached.contains(interface) ==> g.detached.len() == h.detached.len() - 1
            &&& !h.detached.contains(interface) ==> g.detached == h.detached
        }),
{
    lemma_release_releases(h.claimed, interface, interface);
    lemma_position_bounds(h.detached, interface);
}

proof fn lemma_position_bounds(v: Seq<u8>, n: u8)
    ensures
        0 <= position(v, n) <= v.len(),
        position(v, n) < v.len() <==> v.contains(n),
    decreases v.len(),
{
    if v.len() > 0 {
        if v[0] == n {
            assert(v.contains(v[0]));
        } else {
            let w = v.skip(1);
            lemma_position_bounds(w, n);
            if v.contains(n) {
                let j = choose|j: int| 0 <= j < v.len() && v[j] == n;
                assert(w[j - 1] == n);
            }
            if w.contains(n) {
                let j = choose|j: int| 0 <= j < w.len() && w[j] == n;
                assert(v[j + 1] == n);
            }
        }
    }
}

/// After a reset the interfaces that were claimed are taken back in order; the
/// first one that cannot be ends it.
pub proof fn lemma_reset_steps(claimed: Seq<u8>, s: ResettingView, e: ErrorView)
    ensures
        ({
            let (a, first) = reset_first(claimed, Ok(()));
            &&& a.claimed == claimed && a.next == 0
            &&& claimed.len() > 0 ==> first == ResetActionView::Claim(claimed[0])
            &&& claimed.len() == 0 ==> first == ResetActionView::Finish(Ok(()))
        }),
        reset_first(claimed, Err(e)).1 == ResetActionView::Finish(Err(e)),
        ({
            let (t, next) = reset_next(s, Ok(()));
            &&& t.claimed == s.claimed && t.next == s.next + 1
            &&& s.next + 1 < s.claimed.len() ==> next == ResetActionView::Claim(s.claimed[(s.next + 1) as int])
            &&& s.next + 1 >= s.claimed.len() ==> next == ResetActionView::Finish(Ok(()))
        }),
        reset_next(s, Err(e)).1 matches ResetActionView::Finish(Err(f)) && f.kind == ErrorKind::NotFound,
{
}

/// What is said of an interface that cannot be had.
pub proof fn lemma_interface_errors(interface: u8, e: ErrorView)
    ensures
        lease_error(interface).kind == ErrorKind::Busy,
        lease_error(interface).code is None,
        lease_error(interface).message == Some(
            "interface "@ + text::decimal(interface as nat) + " is already in use by another class helper"@,
        ),
        claiming_error(interface, e).kind == e.kind,
        claiming_error(interface, e).code == e.code,
        claiming_error(interface, e).message == Some("claiming interface "@ + text::decimal(interface as nat)),
{
}

/// A text or a language table is in a descriptor of type 3, and nowhere else.
pub proof fn lemma_string_answers(raw: Seq<u8>, e: ErrorView)
    ensures
        string_in(Err(e)) == Err::<Seq<char>, ErrorView>(e),
        languages_of(Err(e)) == Err::<Seq<u16>, ErrorView>(e),
        string_in(Ok(raw)) is Ok <==> raw.len() >= 2 && raw[1] == 3,
        languages_of(Ok(raw)) is Ok <==> raw.len() >= 2 && raw[1] == 3,
        raw.len() >= 2 && raw[1] == 3 ==> {
            &&& string_in(Ok(raw))->Ok_0 == descriptors::utf16_lossy(descriptors::string_units(raw))
            &&& languages_of(Ok(raw))->Ok_0 == descriptors::string_units(raw)
        },
        raw.len() < 2 || raw[1] != 3 ==> string_in(Ok(raw))->Err_0.kind == ErrorKind::Io && languages_of(
            Ok(raw),
        )->Err_0.kind == ErrorKind::Io && language_of_table(Ok(raw)) == Ok::<u16, ErrorView>(0x0409),
        decodable(raw) <==> raw.len() < 2 || raw[1] != 3 || raw[0] >= 2,
{
}

/// The configuration is the one byte of the answer.
pub proof fn lemma_configuration_answers(n: usize, byte: u8, e: ErrorView)
    ensures
        configuration_in(Ok(1), byte) == Ok::<u8, ErrorView>(byte),
        configuration_in(Err(e), byte) == Err::<u8, ErrorView>(e),
        n != 1 ==> configuration_in(Ok(n), byte) is Err && configuration_in(Ok(n), byte)->Err_0.kind == ErrorKind::Io,
{
}

} // verus!
