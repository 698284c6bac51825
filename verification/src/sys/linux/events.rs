//! The event thread: what it polls for, how long, and what it does about what
//! comes back.

use super::{EAGAIN, EINTR};
use vstd::prelude::*;

verus! {

/// `POLLIN`
pub const POLLIN: u16 = 1;

/// `POLLOUT`: usbfs signals it when a URB is ready to be reaped.
pub const POLLOUT: u16 = 4;

/// `POLLERR`
pub const POLLERR: u16 = 8;

/// `POLLHUP`
pub const POLLHUP: u16 = 16;

/// `POLLNVAL`
pub const POLLNVAL: u16 = 32;

/// Whether the bit of value `bit` is set.
pub open spec fn signals(revents: u16, bit: u16) -> bool {
    revents as int / bit as int % 2 == 1
}

fn has(revents: u16, bit: u16) -> (r: bool)
    requires
        bit > 0,
    ensures
        r == signals(revents, bit),
{
    revents / bit % 2 == 1
}

/// An open device, as the event thread sees it.
#[derive(Debug, Clone, Copy, PartialEq, Eq, Structural)]
pub struct Watched {
    /// Whether anything still uses it.
    pub alive: bool,
    /// Whether it is gone.
    pub disconnected: bool,
    /// The earliest deadline of its transfers, in nanoseconds of the
    /// monotonic clock.
    pub deadline: Option<u64>,
}

/// The devices to poll, by index.
pub open spec fn polled(v: Seq<Watched>) -> Seq<usize>
    decreases v.len(),
{
    if v.len() == 0 {
        Seq::empty()
    } else if v.last().alive && !v.last().disconnected {
        polled(v.drop_last()).push((v.len() - 1) as usize)
    } else {
        polled(v.drop_last())
    }
}

/// The devices to poll: those that something uses and that are not gone.
pub fn poll_set(v: &[Watched]) -> (r: Vec<usize>)
    ensures
        r@ == polled(v@),
{
    let mut out: Vec<usize> = Vec::new();
    let mut i: usize = 0;
    assert(v@.take(0) =~= Seq::<Watched>::empty());
    while i < v.len()
        invariant
            i <= v@.len(),
            out@ == polled(v@.take(i as int)),
        decreases v@.len() - i,
    {
        assert(v@.take(i + 1).drop_last() =~= v@.take(i as int));
        if v[i].alive && !v[i].disconnected {
            out.push(i);
        }
        i += 1;
    }
    assert(v@.take(i as int) =~= v@);
    out
}

/// The earlier of two deadlines.
pub open spec fn earlier(a: Option<u64>, b: Option<u64>) -> Option<u64> {
    match (a, b) {
        (Some(x), Some(y)) => if x <= y {
            a
        } else {
            b
        },
        (Some(_), None) => a,
        (None, _) => b,
    }
}

/// The earliest of deadlines.
pub open spec fn earliest(v: Seq<Option<u64>>) -> Option<u64>
    decreases v.len(),
{
    if v.len() == 0 {
        None
    } else {
        earlier(earliest(v.drop_last()), v.last())
    }
}

/// The earliest deadline.
pub fn next_deadline(v: &[Option<u64>]) -> (r: Option<u64>)
    ensures
        r == earliest(v@),
{
    let mut min: Option<u64> = None;
    let mut i: usize = 0;
    assert(v@.take(0) =~= Seq::<Option<u64>>::empty());
    while i < v.len()
        invariant
            i <= v@.len(),
            min == earliest(v@.take(i as int)),
        decreases v@.len() - i,
    {
        assert(v@.take(i + 1).drop_last() =~= v@.take(i as int));
        match v[i] {
            Some(d) => match min {
                Some(m) => {
                    if d < m {
                        min = Some(d);
                    }
                },
                None => {
                    min = Some(d);
                },
            },
            None => {},
        }
        i += 1;
    }
    assert(v@.take(i as int) =~= v@);
    min
}

/// No deadline is before the earliest, and it is one of them.
pub proof fn lemma_earliest(v: Seq<Option<u64>>, i: int)
    requires
        0 <= i < v.len(),
        v[i] is Some,
    ensures
        earliest(v) is Some,
        earliest(v)->0 <= v[i]->0,
        v.contains(earliest(v)),
    decreases v.len(),
{
    let rest = v.drop_last();
    if i < rest.len() {
        lemma_earliest(rest, i);
        assert(rest[i] == v[i]);
    }
    if earliest(rest) is Some {
        lemma_earliest_is_one(rest);
        let k = choose|k: int| 0 <= k < rest.len() && rest[k] == earliest(rest);
        assert(v[k] == earliest(rest));
    }
    assert(v[v.len() - 1] == v.last());
}

proof fn lemma_earliest_is_one(v: Seq<Option<u64>>)
    requires
        earliest(v) is Some,
    ensures
        v.contains(earliest(v)),
    decreases v.len(),
{
    let rest = v.drop_last();
    if earliest(rest) is Some {
        lemma_earliest_is_one(rest);
        let k = choose|k: int| 0 <= k < rest.len() && rest[k] == earliest(rest);
        assert(v[k] == earliest(rest));
    }
    assert(v[v.len() - 1] == v.last());
}

/// How long to poll, in milliseconds, for a deadline in nanoseconds; -1 is
/// for as long as it takes.
pub open spec fn timeout_ms(deadline: Option<u64>, now: u64) -> int {
    match deadline {
        Some(d) => {
            let left = if d > now {
                d - now
            } else {
                0
            };
            let ms = left / 1_000_000 + 1;
            if ms > i32::MAX {
                i32::MAX as int
            } else {
                ms
            }
        },
        None => -1,
    }
}

/// How long to poll. Rounded up, so that the thread never spins on a deadline
/// a few microseconds away.
pub fn poll_timeout(deadline: Option<u64>, now: u64) -> (r: i32)
    ensures
        r == timeout_ms(deadline, now),
{
    match deadline {
        Some(d) => {
            let left: u64 = if d > now {
                d - now
            } else {
                0
            };
            let ms: u64 = left / 1_000_000 + 1;
            if ms > 0x7fff_ffff {
                0x7fff_ffff
            } else {
                ms as i32
            }
        },
        None => -1,
    }
}

/// A poll that ran its full time, however near the deadline was, ends after
/// the deadline, so what is due then is found due (unless the deadline is
/// weeks away, when the thread merely polls again).
pub proof fn lemma_poll_reaches_the_deadline(deadline: u64, now: u64)
    requires
        timeout_ms(Some(deadline), now) < i32::MAX,
    ensures
        timeout_ms(Some(deadline), now) >= 1,
        now + timeout_ms(Some(deadline), now) * 1_000_000 > deadline,
{
}

/// What follows a poll.
#[derive(Debug, Clone, Copy, PartialEq, Eq, Structural)]
pub enum PollNext {
    /// Look at what it reported.
    Handle,
    /// Start over.
    Again,
    /// Start over after that many milliseconds, so as not to run hot.
    Pause(u64),
}

/// What follows a poll that returned `n`, and left `errno` if it failed.
pub fn after_poll(n: i32, errno: i32) -> (r: PollNext)
    ensures
        r == (if n >= 0 {
            PollNext::Handle
        } else if errno == EINTR {
            PollNext::Again
        } else {
            PollNext::Pause(10)
        }),
{
    if n >= 0 {
        PollNext::Handle
    } else if errno == EINTR {
        PollNext::Again
    } else {
        PollNext::Pause(10)
    }
}

/// What the wake-up pipe asks for.
#[derive(Debug, Clone, Copy, PartialEq, Eq, Structural)]
pub struct WakeActions {
    /// Empty the pipe.
    pub drain: bool,
    /// End the thread.
    pub end: bool,
}

/// What the wake-up pipe asks for. Once its other end is closed, and the
/// context with it, the thread ends.
pub fn on_wake(revents: u16, context_gone: bool) -> (r: WakeActions)
    ensures
        r.drain == signals(revents, POLLIN),
        r.end == (context_gone && (signals(revents, POLLHUP) || signals(revents, POLLERR) || signals(
            revents,
            POLLNVAL,
        ))),
{
    WakeActions {
        drain: has(revents, POLLIN),
        end: context_gone && (has(revents, POLLHUP) || has(revents, POLLERR) || has(revents, POLLNVAL)),
    }
}

/// Whether the wake-up pipe may hold more after a read of `got` bytes into
/// `room`; `None` if the read failed.
pub fn drain_again(got: Option<usize>, room: usize) -> (r: bool)
    ensures
        r == (got is Some && got->0 >= room),
{
    match got {
        Some(n) => n >= room,
        None => false,
    }
}

/// What a device's node asks for.
#[derive(Debug, Clone, Copy, PartialEq, Eq, Structural)]
pub struct NodeActions {
    /// Reap the URBs that are ready.
    pub reap: bool,
    /// Then take the device for gone.
    pub disconnect: bool,
}

/// What a device's node asks for. A node that hung up may still hold URBs to
/// reap.
pub fn on_node(revents: u16) -> (r: NodeActions)
    ensures
        r.reap == (signals(revents, POLLOUT) || signals(revents, POLLERR) || signals(revents, POLLHUP)),
        r.disconnect == (signals(revents, POLLERR) || signals(revents, POLLHUP) || signals(revents, POLLNVAL)),
{
    NodeActions {
        reap: has(revents, POLLOUT) || has(revents, POLLERR) || has(revents, POLLHUP),
        disconnect: has(revents, POLLERR) || has(revents, POLLHUP) || has(revents, POLLNVAL),
    }
}

/// What follows a reap that failed.
#[derive(Debug, Clone, Copy, PartialEq, Eq, Structural)]
pub enum ReapNext {
    /// Try again.
    Again,
    /// There is nothing left to reap.
    Stop,
    /// The device is gone and so are its URBs.
    Disconnect,
}

/// What follows a reap that failed.
pub open spec fn reap_next(errno: i32) -> ReapNext {
    if errno == EINTR {
        ReapNext::Again
    } else if errno == EAGAIN {
        ReapNext::Stop
    } else {
        ReapNext::Disconnect
    }
}

/// What follows a reap that failed with `errno`.
pub fn after_reap(errno: i32) -> (r: ReapNext)
    ensures
        r == reap_next(errno),
{
    if errno == EINTR {
        ReapNext::Again
    } else if errno == EAGAIN {
        ReapNext::Stop
    } else {
        ReapNext::Disconnect
    }
}

// ----- one round of the event thread ---------------------------------------------------

/// What the event thread polls, and for how long.
#[derive(Debug)]
pub struct PollPlan {
    /// The devices whose nodes are polled behind the wake-up pipe, by index.
    pub devices: Vec<usize>,
    /// The timeout in milliseconds, -1 for none.
    pub timeout: i32,
}

/// The deadlines of devices.
pub open spec fn deadlines_of(v: Seq<Watched>, devices: Seq<usize>) -> Seq<Option<u64>> {
    devices.map_values(|i: usize| v[i as int].deadline)
}

proof fn lemma_polled_in_range(v: Seq<Watched>)
    requires
        v.len() <= usize::MAX,
    ensures
        forall|k: int| 0 <= k < polled(v).len() ==> #[trigger] polled(v)[k] < v.len(),
    decreases v.len(),
{
    if v.len() > 0 {
        let rest = polled(v.drop_last());
        lemma_polled_in_range(v.drop_last());
        assert forall|k: int| 0 <= k < polled(v).len() implies #[trigger] polled(v)[k] < v.len() by {
            if k < rest.len() {
                assert(polled(v)[k] == rest[k]);
            }
        }
    }
}

/// Plans the next poll: every device that something uses and that is not
/// gone, until the earliest deadline of their transfers.
pub fn plan_poll(v: &[Watched], now: u64) -> (r: PollPlan)
    ensures
        r.devices@ == polled(v@),
        r.timeout == timeout_ms(earliest(deadlines_of(v@, polled(v@))), now),
{
    let devices = poll_set(v);
    let n: usize = v.len();
    proof {
        lemma_polled_in_range(v@);
    }
    let mut deadlines: Vec<Option<u64>> = Vec::new();
    let mut i: usize = 0;
    while i < devices.len()
        invariant
            i <= devices@.len(),
            n == v@.len(),
            devices@ == polled(v@),
            forall|k: int| 0 <= k < devices@.len() ==> #[trigger] devices@[k] < v@.len(),
            deadlines@ == deadlines_of(v@, devices@).take(i as int),
        decreases devices@.len() - i,
    {
        deadlines.push(v[devices[i]].deadline);
        assert(deadlines@ =~= deadlines_of(v@, devices@).take(i + 1));
        i += 1;
    }
    assert(deadlines_of(v@, devices@).take(i as int) =~= deadlines_of(v@, devices@));
    let timeout: i32 = poll_timeout(next_deadline(deadlines.as_slice()), now);
    PollPlan { devices, timeout }
}

/// What the event thread does about one device; afterwards it stops the
/// device's transfers that are due.
#[derive(Debug, Clone, Copy, PartialEq, Eq, Structural)]
pub struct DeviceStep {
    /// The device, by its index.
    pub device: usize,
    /// Reap its URBs that are ready.
    pub reap: bool,
    /// Then take it for gone.
    pub disconnect: bool,
}

/// What a round comes to.
#[derive(Debug)]
pub enum Round {
    /// Start over.
    Again,
    /// Start over after that many milliseconds.
    Pause(u64),
    /// End the thread.
    End,
    /// Deal with each device in turn, then start over.
    Devices(Vec<DeviceStep>),
}

/// What a [`Round`] holds.
#[verifier::ext_equal]
pub enum RoundView {
    Again,
    Pause(u64),
    End,
    Devices(Seq<DeviceStep>),
}

impl View for Round {
    type V = RoundView;

    open spec fn view(&self) -> RoundView {
        match *self {
            Round::Again => RoundView::Again,
            Round::Pause(ms) => RoundView::Pause(ms),
            Round::End => RoundView::End,
            Round::Devices(v) => RoundView::Devices(v@),
        }
    }
}

/// What is done about a device whose node reported `revents`.
pub open spec fn step_of(device: usize, revents: u16) -> DeviceStep {
    DeviceStep {
        device,
        reap: signals(revents, POLLOUT) || signals(revents, POLLERR) || signals(revents, POLLHUP),
        disconnect: signals(revents, POLLERR) || signals(revents, POLLHUP) || signals(revents, POLLNVAL),
    }
}

/// What a round comes to after a poll that returned `n` with `errno`, where
/// the wake-up pipe reported `wake` and the nodes `revents`.
pub open spec fn round_of(
    n: i32,
    errno: i32,
    wake: u16,
    context_gone: bool,
    devices: Seq<usize>,
    revents: Seq<u16>,
) -> RoundView {
    if n < 0 {
        if errno == EINTR {
            RoundView::Again
        } else {
            RoundView::Pause(10)
        }
    } else if context_gone && (signals(wake, POLLHUP) || signals(wake, POLLERR) || signals(wake, POLLNVAL)) {
        RoundView::End
    } else {
        RoundView::Devices(Seq::new(devices.len(), |i: int| step_of(devices[i], revents[i])))
    }
}

/// Decides what a round comes to, once the wake-up pipe has been emptied.
pub fn event_loop(
    n: i32,
    errno: i32,
    wake: u16,
    context_gone: bool,
    devices: &[usize],
    revents: &[u16],
) -> (r: Round)
    requires
        devices@.len() == revents@.len(),
    ensures
        r@ == round_of(n, errno, wake, context_gone, devices@, revents@),
{
    match after_poll(n, errno) {
        PollNext::Again => {
            return Round::Again;
        },
        PollNext::Pause(ms) => {
            return Round::Pause(ms);
        },
        PollNext::Handle => {},
    }
    if on_wake(wake, context_gone).end {
        return Round::End;
    }
    let ghost all = Seq::new(devices@.len(), |i: int| step_of(devices@[i], revents@[i]));
    let mut steps: Vec<DeviceStep> = Vec::new();
    let mut i: usize = 0;
    while i < devices.len()
        invariant
            i <= devices@.len(),
            devices@.len() == revents@.len(),
            all == Seq::new(devices@.len(), |i: int| step_of(devices@[i], revents@[i])),
            steps@ == all.take(i as int),
        decreases devices@.len() - i,
    {
        let a: NodeActions = on_node(revents[i]);
        steps.push(DeviceStep { device: devices[i], reap: a.reap, disconnect: a.disconnect });
        assert(steps@ =~= all.take(i + 1));
        i += 1;
    }
    assert(all.take(i as int) =~= all);
    Round::Devices(steps)
}

/// A device that hung up is dealt with whole: what it finished is reaped
/// before it is taken for gone.
pub proof fn lemma_hangup_reaps_first(device: usize, revents: u16)
    requires
        signals(revents, POLLHUP) || signals(revents, POLLERR),
    ensures
        step_of(device, revents).reap,
        step_of(device, revents).disconnect,
{
}

// ----- URBs with the kernel -------------------------------------------------------------

/// A URB that the kernel owns.
#[derive(Debug, Clone, Copy, PartialEq, Eq, Structural)]
pub struct PendingUrb {
    /// Its address.
    pub key: u64,
    /// The transfer that it is part of.
    pub transfer: u64,
    /// Its place among the transfer's URBs.
    pub index: usize,
}

/// Every URB that the kernel owns.
#[derive(Debug)]
pub struct Pending {
    /// The URBs, no two at one address.
    pub urbs: Vec<PendingUrb>,
}

/// URBs as a map from their address.
pub open spec fn by_key(v: Seq<PendingUrb>) -> Map<u64, (u64, usize)>
    decreases v.len(),
{
    if v.len() == 0 {
        Map::empty()
    } else {
        by_key(v.drop_last()).insert(v.last().key, (v.last().transfer, v.last().index))
    }
}

/// Whether no two URBs are at one address.
pub open spec fn distinct_keys(v: Seq<PendingUrb>) -> bool {
    forall|i: int, j: int| 0 <= i < j < v.len() ==> (#[trigger] v[i]).key != (#[trigger] v[j]).key
}

impl View for Pending {
    type V = Map<u64, (u64, usize)>;

    open spec fn view(&self) -> Map<u64, (u64, usize)> {
        by_key(self.urbs@)
    }
}

proof fn lemma_by_key(v: Seq<PendingUrb>)
    requires
        distinct_keys(v),
    ensures
        forall|k: u64|
            #[trigger] by_key(v).contains_key(k) <==> exists|i: int| 0 <= i < v.len() && (#[trigger] v[i]).key == k,
        forall|i: int|
            0 <= i < v.len() ==> by_key(v).contains_key((#[trigger] v[i]).key) && by_key(v)[v[i].key] == (
                v[i].transfer,
                v[i].index,
            ),
    decreases v.len(),
{
    if v.len() > 0 {
        let rest = v.drop_last();
        assert forall|i: int, j: int| 0 <= i < j < rest.len() implies (#[trigger] rest[i]).key
            != (#[trigger] rest[j]).key by {
            assert(v[i].key != v[j].key);
        }
        lemma_by_key(rest);
        assert(v[v.len() - 1] == v.last());
        assert forall|i: int| 0 <= i < v.len() implies by_key(v).contains_key((#[trigger] v[i]).key) && by_key(
            v,
        )[v[i].key] == (v[i].transfer, v[i].index) by {
            if i < rest.len() {
                assert(rest[i] == v[i]);
                assert(v[i].key != v[v.len() - 1].key);
            }
        }
        assert forall|k: u64| #[trigger]
            by_key(v).contains_key(k) <==> exists|i: int| 0 <= i < v.len() && (#[trigger] v[i]).key == k by {
            if by_key(v).contains_key(k) && k != v.last().key {
                assert(by_key(rest).contains_key(k));
                let i = choose|i: int| 0 <= i < rest.len() && (#[trigger] rest[i]).key == k;
                assert(v[i].key == k);
            }
            if exists|i: int| 0 <= i < v.len() && (#[trigger] v[i]).key == k {
                let i = choose|i: int| 0 <= i < v.len() && (#[trigger] v[i]).key == k;
                assert(by_key(v).contains_key(v[i].key));
            }
        }
    }
}

impl Pending {
    /// Whether no two URBs are at one address.
    pub open spec fn wf(self) -> bool {
        distinct_keys(self.urbs@)
    }

    /// Nothing is with the kernel.
    pub fn new() -> (r: Self)
        ensures
            r.wf(),
            r@ == Map::<u64, (u64, usize)>::empty(),
    {
        Pending { urbs: Vec::new() }
    }

    fn position(&self, key: u64) -> (r: usize)
        requires
            self.wf(),
        ensures
            r <= self.urbs@.len(),
            r < self.urbs@.len() <==> self@.contains_key(key),
            r < self.urbs@.len() ==> self.urbs@[r as int].key == key,
    {
        proof {
            lemma_by_key(self.urbs@);
        }
        let mut i: usize = 0;
        while i < self.urbs.len() && self.urbs[i].key != key
            invariant
                i <= self.urbs@.len(),
                forall|k: int| 0 <= k < i ==> (#[trigger] self.urbs@[k]).key != key,
            decreases self.urbs@.len() - i,
        {
            i += 1;
        }
        i
    }

    /// Notes a URB that is handed to the kernel.
    pub fn insert(&mut self, key: u64, transfer: u64, index: usize)
        requires
            old(self).wf(),
        ensures
            final(self).wf(),
            final(self)@ == old(self)@.insert(key, (transfer, index)),
    {
        let _ = self.remove(key);
        proof {
            lemma_by_key(self.urbs@);
        }
        let ghost v = self.urbs@;
        self.urbs.push(PendingUrb { key, transfer, index });
        proof {
            assert(self.urbs@.drop_last() =~= v);
            assert(self.wf()) by {
                assert forall|i: int, j: int| 0 <= i < j < self.urbs@.len() implies (#[trigger] self.urbs@[i]).key
                    != (#[trigger] self.urbs@[j]).key by {
                    if j == v.len() {
                        assert(by_key(v).contains_key(v[i].key));
                    } else {
                        assert(v[i].key != v[j].key);
                    }
                }
            }
            assert(self@ =~= old(self)@.insert(key, (transfer, index)));
        }
    }

    /// Takes out the URB at an address, if the kernel owns it: its transfer
    /// and its place there.
    pub fn remove(&mut self, key: u64) -> (r: Option<(u64, usize)>)
        requires
            old(self).wf(),
        ensures
            final(self).wf(),
            final(self)@ == old(self)@.remove(key),
            r == (if old(self)@.contains_key(key) {
                Some(old(self)@[key])
            } else {
                None
            }),
    {
        let at: usize = self.position(key);
        let ghost v = self.urbs@;
        proof {
            lemma_by_key(v);
        }
        if at >= self.urbs.len() {
            assert(self@ =~= old(self)@.remove(key));
            return None;
        }
        let urb = self.urbs.remove(at);
        proof {
            let w = self.urbs@;
            assert(w =~= v.remove(at as int));
            assert forall|i: int, j: int| 0 <= i < j < w.len() implies (#[trigger] w[i]).key
                != (#[trigger] w[j]).key by {
                let a = if i < at {
                    i
                } else {
                    i + 1
                };
                let b = if j < at {
                    j
                } else {
                    j + 1
                };
                assert(v[a].key != v[b].key);
            }
            lemma_by_key(w);
            assert forall|k: u64| #[trigger] self@.contains_key(k) <==> old(self)@.remove(key).contains_key(k) by {
                if self@.contains_key(k) {
                    let i = choose|i: int| 0 <= i < w.len() && (#[trigger] w[i]).key == k;
                    let a = if i < at {
                        i
                    } else {
                        i + 1
                    };
                    assert(v[a] == w[i]);
                    if a < at {
                        assert(v[a].key != v[at as int].key);
                    } else {
                        assert(v[at as int].key != v[a].key);
                    }
                }
                if old(self)@.contains_key(k) && k != key {
                    let a = choose|a: int| 0 <= a < v.len() && (#[trigger] v[a]).key == k;
                    let i = if a < at {
                        a
                    } else {
                        a - 1
                    };
                    assert(w[i] == v[a]);
                }
            }
            assert forall|k: u64| #[trigger] self@.contains_key(k) implies self@[k] == old(self)@[k] by {
                let i = choose|i: int| 0 <= i < w.len() && (#[trigger] w[i]).key == k;
                let a = if i < at {
                    i
                } else {
                    i + 1
                };
                assert(v[a] == w[i]);
            }
            assert(self@ =~= old(self)@.remove(key));
        }
        Some((urb.transfer, urb.index))
    }

    /// The transfers with URBs at the kernel, each once.
    pub fn transfers(&self) -> (r: Vec<u64>)
        requires
            self.wf(),
        ensures
            r@.no_duplicates(),
            forall|t: u64|
                r@.contains(t) <==> exists|k: u64| #[trigger] self@.contains_key(k) && self@[k].0 == t,
    {
        proof {
            lemma_by_key(self.urbs@);
        }
        let mut out: Vec<u64> = Vec::new();
        let mut i: usize = 0;
        while i < self.urbs.len()
            invariant
                i <= self.urbs@.len(),
                out@.no_duplicates(),
                forall|t: u64|
                    out@.contains(t) <==> exists|a: int| 0 <= a < i && (#[trigger] self.urbs@[a]).transfer == t,
            decreases self.urbs@.len() - i,
        {
            let t: u64 = self.urbs[i].transfer;
            let ghost before = out@;
            if !listed(&out, t) {
                out.push(t);
            }
            proof {
                assert(out@.contains(t)) by {
                    if !before.contains(t) {
                        assert(out@[before.len() as int] == t);
                    }
                }
                assert forall|u: u64|
                    out@.contains(u) <==> exists|a: int|
                        0 <= a < i + 1 && (#[trigger] self.urbs@[a]).transfer == u by {
                    if out@.contains(u) && u != t {
                        let k = choose|k: int| 0 <= k < out@.len() && out@[k] == u;
                        assert(before[k] == u);
                        assert(before.contains(u));
                    }
                    if before.contains(u) {
                        let k = choose|k: int| 0 <= k < before.len() && before[k] == u;
                        assert(out@[k] == u);
                    }
                    if u == t {
                        assert(self.urbs@[i as int].transfer == u);
                    }
                }
            }
            i += 1;
        }
        proof {
            assert forall|t: u64|
                out@.contains(t) <==> exists|k: u64| #[trigger] self@.contains_key(k) && self@[k].0 == t by {
                if out@.contains(t) {
                    let a = choose|a: int| 0 <= a < i && (#[trigger] self.urbs@[a]).transfer == t;
                    assert(self@.contains_key(self.urbs@[a].key));
                }
                if exists|k: u64| #[trigger] self@.contains_key(k) && self@[k].0 == t {
                    let k = choose|k: u64| #[trigger] self@.contains_key(k) && self@[k].0 == t;
                    let a = choose|a: int| 0 <= a < self.urbs@.len() && (#[trigger] self.urbs@[a]).key == k;
                    assert(self.urbs@[a].transfer == t);
                }
            }
        }
        out
    }
}

fn listed(v: &Vec<u64>, t: u64) -> (r: bool)
    ensures
        r == v@.contains(t),
{
    let mut i: usize = 0;
    while i < v.len()
        invariant
            i <= v@.len(),
            forall|k: int| 0 <= k < i ==> v@[k] != t,
        decreases v@.len() - i,
    {
        if v[i] == t {
            return true;
        }
        i += 1;
    }
    false
}

// ----- uevents ------------------------------------------------------------------

/// The line of a uevent that names the USB subsystem: `SUBSYSTEM=usb`.
pub open spec fn usb_line() -> Seq<u8> {
    seq![83u8, 85, 66, 83, 89, 83, 84, 69, 77, 61, 117, 115, 98]
}

/// Whether the bytes from `s` until `e` are a line of a message, whose lines
/// are separated by zero bytes.
pub open spec fn line_at(message: Seq<u8>, s: int, e: int) -> bool {
    &&& 0 <= s <= e <= message.len()
    &&& s == 0 || message[s - 1] == 0
    &&& e == message.len() || message[e] == 0
    &&& forall|k: int| s <= k < e ==> #[trigger] message[k] != 0
}

/// Whether some line of a message is the one that names the USB subsystem.
pub open spec fn names_usb(message: Seq<u8>) -> bool {
    exists|s: int, e: int| #[trigger] line_at(message, s, e) && message.subrange(s, e) == usb_line()
}

/// Whether the bytes from `at` are the line that names the USB subsystem.
fn usb_line_at(message: &[u8], at: usize) -> (r: bool)
    requires
        at <= message@.len(),
    ensures
        r == (at + 13 <= message@.len() && message@.subrange(at as int, at + 13) == usb_line() && (at + 13
            == message@.len() || message@[at + 13] == 0)),
{
    let line: [u8; 13] = [83, 85, 66, 83, 89, 83, 84, 69, 77, 61, 117, 115, 98];
    assert(line@ =~= usb_line());
    let n: usize = message.len();
    if n - at < 13 {
        return false;
    }
    let mut i: usize = 0;
    while i < 13
        invariant
            i <= 13,
            at + 13 <= n,
            n == message@.len(),
            line@ == usb_line(),
            forall|k: int| 0 <= k < i ==> message@[at + k] == #[trigger] line@[k],
        decreases 13 - i,
    {
        if message[at + i] != line[i] {
            assert(message@.subrange(at as int, at + 13)[i as int] != usb_line()[i as int]);
            return false;
        }
        i += 1;
    }
    assert(message@.subrange(at as int, at + 13) =~= usb_line());
    n - at == 13 || message[at + 13] == 0
}

/// Whether a uevent is about the USB subsystem, so that devices may have come
/// or gone.
pub fn about_usb(message: &[u8]) -> (r: bool)
    ensures
        r == names_usb(message@),
{
    let ghost m = message@;
    let mut at: usize = 0;
    while at < message.len()
        invariant
            m == message@,
            at <= m.len(),
            forall|s: int, e: int|
                0 <= s < at && #[trigger] line_at(m, s, e) ==> m.subrange(s, e) != usb_line(),
        decreases m.len() - at,
    {
        if (at == 0 || message[at - 1] == 0) && usb_line_at(message, at) {
            proof {
                let w = m.subrange(at as int, at + 13);
                assert forall|k: int| at <= k < at + 13 implies #[trigger] m[k] != 0 by {
                    assert(w[k - at] == m[k]);
                    assert(usb_line()[k - at] != 0);
                }
                assert(line_at(m, at as int, at + 13));
            }
            return true;
        }
        assert forall|s: int, e: int| 0 <= s < at + 1 && #[trigger] line_at(m, s, e) implies m.subrange(s, e)
            != usb_line() by {
            if s == at && m.subrange(s, e) == usb_line() {
                assert(m.subrange(s, e).len() == 13);
            }
        }
        at += 1;
    }
    assert forall|s: int, e: int| #[trigger] line_at(m, s, e) implies m.subrange(s, e) != usb_line() by {
        if s == m.len() {
            assert(m.subrange(s, e).len() == 0);
        }
    }
    false
}

/// What the flags of a device mean: one that is writable has URBs to reap, and
/// so has one with an error or a hangup, which is taken for gone after that;
/// one whose descriptor is invalid is just gone.
pub proof fn lemma_device_flags(device: usize, revents: u16)
    ensures
        step_of(device, revents).device == device,
        step_of(device, revents).reap <==> revents / 4 % 2 == 1 || revents / 8 % 2 == 1 || revents / 16 % 2 == 1,
        step_of(device, revents).disconnect <==> revents / 8 % 2 == 1 || revents / 16 % 2 == 1 || revents / 32 % 2 == 1,
{
}

/// Devices that are in use and present are polled, in order.
pub proof fn lemma_polled(v: Seq<Watched>, w: Watched)
    requires
        v.len() < usize::MAX,
    ensures
        polled(Seq::empty()).len() == 0,
        w.alive && !w.disconnected ==> polled(v.push(w)) == polled(v).push(v.len() as usize),
        !w.alive || w.disconnected ==> polled(v.push(w)) == polled(v),
{
    assert(v.push(w).drop_last() =~= v);
}

/// A poll lasts until the deadline, in milliseconds rounded up, and without
/// one for ever.
pub proof fn lemma_poll_times(deadline: u64, now: u64)
    ensures
        timeout_ms(None, now) == -1,
        deadline <= now ==> timeout_ms(Some(deadline), now) == 1,
        deadline > now && (deadline - now) / 1_000_000 < i32::MAX ==> timeout_ms(Some(deadline), now) == (deadline - now)
            / 1_000_000 + 1,
{
}

/// What a round comes to: an interrupted poll is repeated, one that failed
/// after a pause of 10 ms; a context that is gone ends the loop once its wake
/// channel says so; otherwise every device gets its step.
pub proof fn lemma_rounds(n: i32, errno: i32, wake: u16, gone: bool, devices: Seq<usize>, revents: Seq<u16>, i: int)
    ensures
        ({
            let r = round_of(n, errno, wake, gone, devices, revents);
            let over = gone && (wake / 16 % 2 == 1 || wake / 8 % 2 == 1 || wake / 32 % 2 == 1);
            &&& n < 0 && errno == 4 ==> r is Again
            &&& n < 0 && errno != 4 ==> r == RoundView::Pause(10)
            &&& n >= 0 && over ==> r is End
            &&& n >= 0 && !over ==> r is Devices && r->Devices_0.len() == devices.len()
            &&& n >= 0 && !over && 0 <= i < devices.len() ==> r->Devices_0[i] == step_of(devices[i], revents[i])
        }),
{
}

/// A URB is found again by its address, with its transfer and its place; the
/// others stay.
pub proof fn lemma_urbs_by_key(v: Seq<PendingUrb>, u: PendingUrb, key: u64)
    ensures
        by_key(Seq::empty()) == Map::<u64, (u64, usize)>::empty(),
        by_key(v.push(u)).dom().contains(u.key),
        by_key(v.push(u))[u.key] == (u.transfer, u.index),
        key != u.key ==> by_key(v.push(u)).dom().contains(key) == by_key(v).dom().contains(key),
        key != u.key && by_key(v).dom().contains(key) ==> by_key(v.push(u))[key] == by_key(v)[key],
{
    assert(v.push(u).drop_last() =~= v);
}

/// The line that tells a USB event from others.
pub proof fn lemma_usb_line()
    ensures
        usb_line().len() == 13,
        usb_line() == seq![
            'S' as u8, 'U' as u8, 'B' as u8, 'S' as u8, 'Y' as u8, 'S' as u8, 'T' as u8, 'E' as u8, 'M' as u8, '=' as u8,
            'u' as u8, 's' as u8, 'b' as u8,
        ],
{
}

/// An interrupted reap is done again, one that found nothing is over, and any
/// other failure means that the device is gone.
pub proof fn lemma_reaping(errno: i32)
    ensures
        reap_next(4) == ReapNext::Again,
        reap_next(11) == ReapNext::Stop,
        errno != 4 && errno != 11 ==> reap_next(errno) == ReapNext::Disconnect,
{
}

/// A message is about USB if one of its lines, which zero bytes separate, is
/// the one that names the subsystem.
pub proof fn lemma_messages_about_usb(line: Seq<u8>, rest: Seq<u8>)
    requires
        forall|k: int| 0 <= k < line.len() ==> #[trigger] line[k] != 0,
    ensures
        names_usb(line) <==> line == usb_line(),
        names_usb(line + seq![0u8] + rest) <==> line == usb_line() || names_usb(rest),
{
    let m = line + seq![0u8] + rest;
    let n = line.len() as int;
    assert forall|s: int, e: int| #[trigger] line_at(line, s, e) implies line.subrange(s, e) == line by {
        if s > 0 {
            assert(line[s - 1] != 0);
        }
        if e < n {
            assert(line[e] != 0);
        }
        assert(line.subrange(s, e) =~= line);
    }
    assert(line_at(line, 0, n));
    assert(line.subrange(0, n) =~= line);
    assert(line_at(m, 0, n)) by {
        assert(m[n] == 0);
        assert forall|k: int| 0 <= k < n implies #[trigger] m[k] != 0 by {
            assert(m[k] == line[k]);
        }
    }
    assert(m.subrange(0, n) =~= line);
    if names_usb(rest) {
        let (s, e) = choose|s: int, e: int| #[trigger] line_at(rest, s, e) && rest.subrange(s, e) == usb_line();
        lemma_line_behind(line, rest, s, e);
        assert(line_at(m, s + n + 1, e + n + 1));
    }
    if names_usb(m) {
        let (s, e) = choose|s: int, e: int| #[trigger] line_at(m, s, e) && m.subrange(s, e) == usb_line();
        if s <= n {
            if s > 0 {
                assert(m[s - 1] == line[s - 1]);
            }
            if e < n {
                assert(m[e] == line[e]);
            }
            if e > n {
                assert(m[n] == 0);
            }
            assert(m.subrange(s, e) =~= line);
        } else {
            lemma_line_behind(line, rest, s - n - 1, e - n - 1);
            assert(line_at(rest, s - n - 1, e - n - 1));
        }
    }
}

proof fn lemma_line_behind(line: Seq<u8>, rest: Seq<u8>, s: int, e: int)
    requires
        0 <= s <= e <= rest.len(),
    ensures
        ({
            let m = line + seq![0u8] + rest;
            let n = line.len() as int;
            &&& line_at(m, s + n + 1, e + n + 1) <==> line_at(rest, s, e)
            &&& m.subrange(s + n + 1, e + n + 1) == rest.subrange(s, e)
        }),
{
    let m = line + seq![0u8] + rest;
    let n = line.len() as int;
    assert forall|k: int| 0 <= k < rest.len() implies #[trigger] rest[k] == m[k + n + 1] by {}
    assert(m[n] == 0);
    assert(m.subrange(s + n + 1, e + n + 1) =~= rest.subrange(s, e));
    if line_at(rest, s, e) {
        assert forall|k: int| s + n + 1 <= k < e + n + 1 implies #[trigger] m[k] != 0 by {
            assert(rest[k - n - 1] != 0);
        }
        assert(s > 0 ==> rest[s - 1] == 0);
        assert(e < rest.len() ==> rest[e] == 0);
    }
    if line_at(m, s + n + 1, e + n + 1) {
        assert forall|k: int| s <= k < e implies #[trigger] rest[k] != 0 by {
            assert(m[k + n + 1] != 0);
        }
        assert(s > 0 ==> rest[s - 1] == m[s + n]);
        assert(e < rest.len() ==> rest[e] == m[e + n + 1]);
    }
}

} // verus!
