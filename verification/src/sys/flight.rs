//! Transfers in flight: what every backend checks before it hands one to the
//! operating system, and what it keeps of one that it handed over.

use crate::error::{message, Error, ErrorKind, Result};
use crate::types::{setup_of, ControlSetup, TransferStatus};
use vstd::prelude::*;

verus! {

/// Checks that a transfer may be handed to the operating system.
pub fn check_submit(disconnected: bool, submitted: bool) -> (r: Result<()>)
    ensures
        disconnected ==> r is Err && r->Err_0@ == message(ErrorKind::NoDevice, "device disconnected"@),
        !disconnected && submitted ==> r is Err && r->Err_0@ == message(
            ErrorKind::Busy,
            "transfer already submitted"@,
        ),
        !disconnected && !submitted ==> r is Ok,
{
    if disconnected {
        return Err(Error::with_message(ErrorKind::NoDevice, "device disconnected"));
    }
    if submitted {
        return Err(Error::with_message(ErrorKind::Busy, "transfer already submitted"));
    }
    Ok(())
}

/// Checks that a transfer is there to be cancelled.
pub fn check_cancel(submitted: bool) -> (r: Result<()>)
    ensures
        submitted ==> r is Ok,
        !submitted ==> r is Err && r->Err_0@ == message(ErrorKind::NotFound, "transfer is not in flight"@),
{
    if submitted {
        Ok(())
    } else {
        Err(Error::with_message(ErrorKind::NotFound, "transfer is not in flight"))
    }
}

/// The setup packet at the head of a control transfer's buffer.
pub fn setup_packet_of(buffer: &[u8]) -> (r: ControlSetup)
    requires
        buffer@.len() >= 8,
    ensures
        r == setup_of(buffer@.take(8)),
{
    let head: [u8; 8] = [
        buffer[0],
        buffer[1],
        buffer[2],
        buffer[3],
        buffer[4],
        buffer[5],
        buffer[6],
        buffer[7],
    ];
    assert(head@ =~= buffer@.take(8));
    ControlSetup::from_bytes(head)
}

/// The request of a control transfer with the length of its data stage: at
/// most what the buffer holds behind the setup packet.
pub open spec fn request_in(buffer: Seq<u8>) -> ControlSetup {
    let setup = setup_of(buffer.take(8));
    if buffer.len() - 8 < setup.length {
        ControlSetup { length: (buffer.len() - 8) as u16, ..setup }
    } else {
        setup
    }
}

/// The request of a control transfer with the length of its data stage.
pub fn control_request(buffer: &[u8]) -> (r: ControlSetup)
    requires
        buffer@.len() >= 8,
    ensures
        r == request_in(buffer@),
{
    let mut setup = setup_packet_of(buffer);
    let room: usize = buffer.len() - 8;
    if room < setup.length as usize {
        setup.length = room as u16;
    }
    setup
}

/// What is kept of a transfer that the operating system has.
#[derive(Debug, Clone, Copy, PartialEq, Eq, Structural)]
pub struct Flight {
    /// When it is to be stopped, in nanoseconds of the monotonic clock.
    pub deadline: Option<u64>,
    /// Whether a cancellation stopped it.
    pub cancelled: bool,
    /// Whether the timeout stopped it.
    pub timed_out: bool,
}

/// A transfer that was just handed over.
pub open spec fn taken_off(timeout: u64, now: u64, enforced: bool) -> Flight {
    Flight {
        deadline: if timeout != 0 && !enforced {
            Some((now + timeout) as u64)
        } else {
            None
        },
        cancelled: false,
        timed_out: false,
    }
}

/// Whether the timeout of a transfer has passed.
pub open spec fn due(f: Flight, now: u64) -> bool {
    !f.timed_out && f.deadline is Some && f.deadline->0 <= now
}

/// A transfer after its timeout has passed.
pub open spec fn expired(f: Flight, stopped: bool) -> Flight {
    Flight { timed_out: f.timed_out || stopped, deadline: None, ..f }
}

impl Flight {
    /// A transfer that was just handed over. A timeout of 0 is none; one that
    /// the operating system enforces itself needs no deadline here.
    pub fn new(timeout: u64, now: u64, enforced: bool) -> (r: Flight)
        requires
            now + timeout <= u64::MAX,
        ensures
            r == taken_off(timeout, now, enforced),
    {
        let deadline: Option<u64> = if timeout != 0 && !enforced {
            Some(now + timeout)
        } else {
            None
        };
        Flight { deadline, cancelled: false, timed_out: false }
    }

    /// Notes a cancellation; `stopped` is whether the operating system took
    /// it.
    pub fn cancel(&mut self, stopped: bool)
        ensures
            *final(self) == (Flight { cancelled: old(self).cancelled || stopped, ..*old(self) }),
    {
        if stopped {
            self.cancelled = true;
        }
    }

    /// Whether the timeout has passed and the transfer is to be stopped.
    pub fn is_due(&self, now: u64) -> (r: bool)
        ensures
            r == due(*self, now),
    {
        match self.deadline {
            Some(d) => !self.timed_out && d <= now,
            None => false,
        }
    }

    /// Notes that the timeout passed; `stopped` is whether the operating
    /// system took the cancellation. If it did not, the transfer had already
    /// completed and reports its real outcome.
    pub fn expire(&mut self, stopped: bool)
        ensures
            *final(self) == expired(*old(self), stopped),
    {
        if stopped {
            self.timed_out = true;
        }
        self.deadline = None;
    }
}

/// What a transfer that we stopped ends as, whatever its result: the timeout
/// counts before the cancellation.
pub open spec fn stopped_as(f: Flight) -> Option<TransferStatus> {
    if f.timed_out {
        Some(TransferStatus::TimedOut)
    } else if f.cancelled {
        Some(TransferStatus::Cancelled)
    } else {
        None
    }
}

/// A transfer times out at most once: after that it is never due again.
pub proof fn lemma_times_out_once(f: Flight, stopped: bool, now: u64)
    ensures
        !due(expired(f, stopped), now),
{
}

/// A request is cut to what its buffer holds behind the setup packet.
pub proof fn lemma_requests_fit(buffer: Seq<u8>)
    requires
        buffer.len() >= 8,
    ensures
        ({
            let r = request_in(buffer);
            let declared = buffer[6] + 256 * buffer[7];
            &&& (r.request_type, r.request) == (buffer[0], buffer[1])
            &&& r.value == buffer[2] + 256 * buffer[3]
            &&& r.index == buffer[4] + 256 * buffer[5]
            &&& declared <= buffer.len() - 8 ==> r.length == declared
            &&& declared > buffer.len() - 8 ==> r.length == buffer.len() - 8
        }),
{
}

/// A time limit becomes a point in time, unless there is none or the system
/// keeps it.
pub proof fn lemma_deadlines(timeout: u64, now: u64, f: Flight)
    requires
        now + timeout <= u64::MAX,
    ensures
        timeout > 0 ==> taken_off(timeout, now, false).deadline == Some((now + timeout) as u64),
        taken_off(0, now, false).deadline is None,
        taken_off(timeout, now, true).deadline is None,
        due(f, now) <==> !f.timed_out && f.deadline is Some && now >= f.deadline->0,
        timeout > 0 ==> !due(taken_off(timeout, now, false), now) && due(
            taken_off(timeout, now, false),
            (now + timeout) as u64,
        ),
{
}

/// Why a transfer was stopped: a time limit goes before a cancellation.
pub proof fn lemma_stop_reasons(f: Flight)
    ensures
        f.timed_out ==> stopped_as(f) == Some(TransferStatus::TimedOut),
        !f.timed_out && f.cancelled ==> stopped_as(f) == Some(TransferStatus::Cancelled),
        !f.timed_out && !f.cancelled ==> stopped_as(f) is None,
        expired(f, true).timed_out,
        expired(f, false).timed_out == f.timed_out,
        expired(f, true).cancelled == f.cancelled,
        expired(f, true).deadline is None,
{
}

} // verus!
