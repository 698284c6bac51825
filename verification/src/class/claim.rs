//! Holding a claim on the interfaces that a class helper drives, and transfers
//! that keep resubmitting themselves.

use crate::error::Result;
use crate::handle::{first_leased, lease_error, next_unclaimed, without, DeviceHandle, DeviceHandleView};
use vstd::prelude::*;

verus! {

/// How long to wait for a cancelled transfer to come back: 1 s.
pub const STOP_TIMEOUT: u64 = 1_000_000_000;

/// The interfaces a class helper drives.
///
/// Each is leased exclusively (a second helper on the same handle gets
/// [`ErrorKind::Busy`](crate::error::ErrorKind::Busy)). An interface the
/// handle had already claimed is borrowed and stays claimed; one the helper
/// had to claim itself (detaching the kernel driver) is released at the end,
/// which re-attaches the driver.
#[derive(Debug)]
pub struct Claim {
    /// The interfaces, in ascending order.
    pub leased: Vec<u8>,
    /// Those that the helper claimed itself.
    pub owned: Vec<u8>,
    /// How many of them were dealt with.
    pub next: usize,
}

/// Whether numbers are in ascending order, each once.
pub open spec fn ascending(v: Seq<u8>) -> bool {
    forall|i: int, j: int| 0 <= i < j < v.len() ==> v[i] < v[j]
}

/// A number at its place among ascending ones.
pub open spec fn with_number(v: Seq<u8>, n: u8) -> Seq<u8>
    decreases v.len(),
{
    if v.len() == 0 || v.last() < n {
        v.push(n)
    } else if v.last() == n {
        v
    } else {
        with_number(v.drop_last(), n).push(v.last())
    }
}

/// Numbers in ascending order, each once.
pub open spec fn in_ascending_order(v: Seq<u8>) -> Seq<u8>
    decreases v.len(),
{
    if v.len() == 0 {
        v
    } else {
        with_number(in_ascending_order(v.drop_last()), v.last())
    }
}

proof fn lemma_with_number(v: Seq<u8>, n: u8)
    requires
        ascending(v),
    ensures
        ascending(with_number(v, n)),
        forall|m: u8| #[trigger] with_number(v, n).contains(m) <==> v.contains(m) || m == n,
    decreases v.len(),
{
    let w = with_number(v, n);
    if v.len() == 0 || v.last() < n {
        lemma_push(v, n);
    } else if v.last() == n {
        assert(v[v.len() - 1] == n);
    } else {
        let rest = v.drop_last();
        lemma_with_number(rest, n);
        lemma_push(with_number(rest, n), v.last());
        lemma_push(rest, v.last());
        assert(rest.push(v.last()) =~= v);
        let q = with_number(rest, n);
        assert forall|i: int, j: int| 0 <= i < j < w.len() implies w[i] < w[j] by {
            if j == q.len() {
                assert(q.contains(q[i]));
                if q[i] != n {
                    let k = choose|k: int| 0 <= k < rest.len() && rest[k] == q[i];
                    assert(v[k] < v[v.len() - 1]);
                }
            }
        }
    }
}

proof fn lemma_push(v: Seq<u8>, n: u8)
    ensures
        forall|m: u8| #[trigger] v.push(n).contains(m) <==> v.contains(m) || m == n,
{
    assert forall|m: u8| #[trigger] v.push(n).contains(m) <==> v.contains(m) || m == n by {
        assert(v.push(n)[v.len() as int] == n);
        if v.contains(m) {
            let k = choose|k: int| 0 <= k < v.len() && v[k] == m;
            assert(v.push(n)[k] == m);
        }
        if v.push(n).contains(m) && m != n {
            let k = choose|k: int| 0 <= k < v.push(n).len() && v.push(n)[k] == m;
            assert(v[k] == m);
        }
    }
}

/// Sorting numbers keeps which ones there are.
pub proof fn lemma_in_ascending_order(v: Seq<u8>)
    ensures
        ascending(in_ascending_order(v)),
        forall|m: u8| #[trigger] in_ascending_order(v).contains(m) <==> v.contains(m),
    decreases v.len(),
{
    if v.len() > 0 {
        lemma_in_ascending_order(v.drop_last());
        lemma_with_number(in_ascending_order(v.drop_last()), v.last());
        lemma_push(v.drop_last(), v.last());
        assert(v.drop_last().push(v.last()) =~= v);
        assert forall|m: u8| #[trigger] in_ascending_order(v).contains(m) <==> v.contains(m) by {
            assert(v.drop_last().push(v.last()).contains(m) <==> v.drop_last().contains(m) || m == v.last());
            assert(in_ascending_order(v.drop_last()).contains(m) <==> v.drop_last().contains(m));
        }
    }
}

fn put_number(v: &mut Vec<u8>, n: u8)
    ensures
        final(v)@ == with_number(old(v)@, n),
{
    let ghost all = v@;
    let len: usize = v.len();
    let mut i: usize = len;
    proof {
        assert(all.take(len as int) =~= all);
        assert(all.skip(len as int) =~= Seq::<u8>::empty());
        assert(with_number(all, n) =~= with_number(all.take(len as int), n) + all.skip(len as int));
    }
    while i > 0 && v[i - 1] > n
        invariant
            i <= len,
            len == v@.len(),
            all == v@,
            with_number(all, n) == with_number(all.take(i as int), n) + all.skip(i as int),
        decreases i,
    {
        proof {
            let t = all.take(i as int);
            assert(t.drop_last() =~= all.take(i - 1));
            assert(with_number(t, n) + all.skip(i as int) =~= with_number(all.take(i - 1), n) + all.skip(i - 1));
        }
        i -= 1;
    }
    proof {
        assert(i > 0 ==> all.take(i as int).last() == all[i - 1]);
    }
    if i > 0 && v[i - 1] == n {
        assert(all.take(i as int) + all.skip(i as int) =~= all);
        return;
    }
    v.insert(i, n);
    assert(v@ =~= all.take(i as int).push(n) + all.skip(i as int));
}

/// Numbers in ascending order, each once.
pub fn sorted_numbers(v: &[u8]) -> (r: Vec<u8>)
    ensures
        r@ == in_ascending_order(v@),
{
    let mut out: Vec<u8> = Vec::new();
    let mut i: usize = 0;
    assert(v@.take(0) =~= Seq::<u8>::empty());
    while i < v.len()
        invariant
            i <= v@.len(),
            out@ == in_ascending_order(v@.take(i as int)),
        decreases v@.len() - i,
    {
        assert(v@.take(i + 1).drop_last() =~= v@.take(i as int));
        put_number(&mut out, v[i]);
        i += 1;
    }
    assert(v@.take(i as int) =~= v@);
    out
}

impl Claim {
    /// What holds throughout.
    pub open spec fn wf(&self) -> bool {
        self.next <= self.leased@.len()
    }

    /// Leases the listed interfaces. On failure nothing was done.
    pub fn new(handle: &mut DeviceHandle, interfaces: &[u8]) -> (r: Result<Claim>)
        ensures
            ({
                let wanted = in_ascending_order(interfaces@);
                match first_leased(wanted, old(handle)@.leased) {
                    Some(i) => r is Err && r->Err_0@ == lease_error(i) && final(handle)@ == old(handle)@,
                    None => {
                        &&& r is Ok && r->Ok_0.wf()
                        &&& r->Ok_0.leased@ == wanted
                        &&& r->Ok_0.owned@.len() == 0
                        &&& r->Ok_0.next == 0
                        &&& final(handle)@ == (DeviceHandleView {
                            leased: old(handle)@.leased + wanted,
                            ..old(handle)@
                        })
                    },
                }
            }),
    {
        let wanted = sorted_numbers(interfaces);
        match handle.lease(wanted.as_slice()) {
            Ok(()) => Ok(Claim { leased: wanted, owned: Vec::new(), next: 0 }),
            Err(e) => Err(e),
        }
    }

    /// The next interface to claim, detaching its kernel driver: one that the
    /// handle has not claimed yet. `None` when all are claimed.
    pub fn advance(&mut self, handle: &DeviceHandle) -> (r: Option<u8>)
        requires
            old(self).wf(),
        ensures
            final(self).wf(),
            final(self).leased@ == old(self).leased@,
            final(self).owned@ == old(self).owned@,
            final(self).next == next_unclaimed(old(self).leased@, old(self).next as int, handle@.claimed),
            r == (if final(self).next < final(self).leased@.len() {
                Some(final(self).leased@[final(self).next as int])
            } else {
                None
            }),
    {
        let ghost list = self.leased@;
        let ghost start = self.next as int;
        let ghost owned = self.owned@;
        while self.next < self.leased.len() && handle.is_claimed(self.leased[self.next])
            invariant
                self.wf(),
                self.leased@ == list,
                self.owned@ == owned,
                next_unclaimed(list, start, handle@.claimed) == next_unclaimed(
                    list,
                    self.next as int,
                    handle@.claimed,
                ),
            decreases self.leased@.len() - self.next,
        {
            self.next = self.next + 1;
        }
        if self.next < self.leased.len() {
            Some(self.leased[self.next])
        } else {
            None
        }
    }

    /// Takes the outcome of claiming the interface that
    /// [`advance`](Self::advance) named. On failure the claim is to be
    /// [given up](Self::release).
    pub fn claimed(&mut self, r: Result<()>) -> (x: Result<()>)
        requires
            old(self).wf(),
            old(self).next < old(self).leased@.len(),
        ensures
            final(self).wf(),
            final(self).leased@ == old(self).leased@,
            match r {
                Ok(()) => {
                    &&& x is Ok
                    &&& final(self).next == old(self).next + 1
                    &&& final(self).owned@ == old(self).owned@.push(old(self).leased@[old(self).next as int])
                },
                Err(e) => {
                    &&& x is Err && x->Err_0@ == e@
                    &&& final(self).next == old(self).next
                    &&& final(self).owned@ == old(self).owned@
                },
            },
    {
        let count: usize = self.leased.len();
        assert(self.next < count);
        match r {
            Ok(()) => {
                self.owned.push(self.leased[self.next]);
                self.next = self.next + 1;
                Ok(())
            },
            Err(e) => Err(e),
        }
    }

    /// Gives the claim up: returns the interfaces to release, which are those
    /// that the helper claimed itself, and ends the lease.
    pub fn release(self, handle: &mut DeviceHandle) -> (r: Vec<u8>)
        ensures
            r@ == self.owned@,
            final(handle)@ == (DeviceHandleView {
                leased: without(old(handle)@.leased, self.leased@),
                ..old(handle)@
            }),
    {
        handle.unlease(self.leased.as_slice());
        self.owned
    }
}

/// A transfer that resubmits itself from its completion callback until it is
/// stopped: notification endpoints, receive queues.
#[derive(Debug, Clone, Copy, PartialEq, Eq, Structural)]
pub struct Repeating {
    /// Set at the end. Once it is set any resubmission already happened (and
    /// can be cancelled) or never will.
    pub stopped: bool,
}

impl Repeating {
    /// A transfer that keeps going.
    pub fn start() -> (r: Self)
        ensures
            r == (Repeating { stopped: false }),
    {
        Repeating { stopped: false }
    }

    /// Whether to submit the transfer again after a completion; `again` is
    /// what its owner wants.
    pub fn resubmits(&self, again: bool) -> (r: bool)
        ensures
            r == (again && !self.stopped),
    {
        again && !self.stopped
    }

    /// Stops the transfer; it is then to be cancelled.
    pub fn stop(&mut self)
        ensures
            *final(self) == (Repeating { stopped: true }),
    {
        self.stopped = true;
    }
}

/// What the interfaces that a helper claims become: it owns those of its
/// interfaces, and only those, that the handle had not claimed before.
pub open spec fn to_own(leased: Seq<u8>, claimed: Seq<u8>) -> Seq<u8>
    decreases leased.len(),
{
    if leased.len() == 0 {
        Seq::empty()
    } else if claimed.contains(leased.last()) {
        to_own(leased.drop_last(), claimed)
    } else {
        to_own(leased.drop_last(), claimed).push(leased.last())
    }
}

/// While a helper works through its interfaces, what it owns is what it dealt
/// with and found unclaimed: passing over one that is claimed adds nothing, and
/// claiming one adds that one.
pub proof fn lemma_owned_are_the_unclaimed(leased: Seq<u8>, claimed: Seq<u8>, k: int)
    requires
        0 <= k < leased.len(),
    ensures
        to_own(leased.take(k + 1), claimed) == (if claimed.contains(leased[k]) {
            to_own(leased.take(k), claimed)
        } else {
            to_own(leased.take(k), claimed).push(leased[k])
        }),
{
    assert(leased.take(k + 1).drop_last() =~= leased.take(k));
}

/// A borrowed interface is never among those that a helper releases.
pub proof fn lemma_borrowed_stay_claimed(leased: Seq<u8>, claimed: Seq<u8>, n: u8)
    requires
        claimed.contains(n),
    ensures
        !to_own(leased, claimed).contains(n),
    decreases leased.len(),
{
    if leased.len() > 0 {
        lemma_borrowed_stay_claimed(leased.drop_last(), claimed, n);
        lemma_push(to_own(leased.drop_last(), claimed), leased.last());
    }
}

} // verus!
