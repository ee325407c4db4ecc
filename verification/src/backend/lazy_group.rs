//! A lazy group that is initialized in the background: its state, as the initializing thread
//! reports it, and what readers see of it.

use vstd::prelude::*;
use std::time::Instant;

verus! {

/// A moment in time.
#[verifier::external_type_specification]
#[verifier::external_body]
pub struct ExInstant(std::time::Instant);

/// A status sent from the thread where the lazy group is initialized.
pub struct Status {
    /// [`u16::MAX`] means done.
    pub progress: Option<u16>,
    pub msg: Option<String>,
    /// When we got the info above from the initializing thread.
    /// Could be also used to check if the thread became stale or deadlocked.
    pub time: Instant,
}

/// How the initialization ended.
pub enum Finalized<Final> {
    Success(Final),
    Terminated,
}

/// What a reader sees of a lazy group.
pub enum View<'mutex, 's, Final> {
    Finished(&'s Final),
    Initializing(&'mutex Status),
    Terminated,
}

/// A lazy group which may be in a final state or still initializing; the initializing thread
/// reports its progress and, once, how it ended.
pub struct Dynamic<Final> {
    pub status: Status,
    /// If Some, we already have obtained a final group
    pub finalized: Option<Finalized<Final>>,
}

/// `v` is what a reader sees of `d`.
pub open spec fn view_of<'a, Final>(d: &'a Dynamic<Final>, v: View<'a, 'a, Final>) -> bool {
    match d.finalized {
        Some(Finalized::Success(f)) => v matches View::Finished(r) && *r == f,
        Some(Finalized::Terminated) => v is Terminated,
        None => v matches View::Initializing(s) && *s == d.status,
    }
}

impl<Final> Dynamic<Final> {
    /// A lazy group just started, with its first status.
    pub fn new(time: Instant) -> (r: Self)
        ensures
            r.status.progress is None,
            r.status.msg is None,
            r.status.time == time,
            r.finalized is None,
    {
        Dynamic { status: Status { progress: None, msg: None, time }, finalized: None }
    }

    /// A lazy group that is already final.
    pub fn from_final(fin_group: Final, time: Instant) -> (r: Self)
        ensures
            r.finalized == Some(Finalized::Success(fin_group)),
            r.status.progress is None,
            r.status.msg is None,
            r.status.time == time,
    {
        Dynamic { status: Status { progress: None, msg: None, time }, finalized: Some(Finalized::Success(fin_group)) }
    }

    /// Gives what a reader sees of the group to `reader`.
    pub fn read<T, F: Fn(View<'_, '_, Final>) -> T>(&self, reader: F) -> (r: T)
        requires
            forall|v: View<'_, '_, Final>| reader.requires((v,)),
        ensures
            exists|v: View<'_, '_, Final>| view_of(self, v) && #[trigger] reader.ensures((v,), r),
    {
        let v = match &self.finalized {
            Some(Finalized::Success(final_group)) => View::Finished(final_group),
            Some(Finalized::Terminated) => View::Terminated,
            None => View::Initializing(&self.status),
        };
        reader(v)
    }

    /// The initializing thread reports its progress.
    pub fn report(&mut self, progress: Option<u16>, msg: Option<String>, time: Instant)
        ensures
            final(self).status.progress == progress,
            final(self).status.msg == msg,
            final(self).status.time == time,
            final(self).finalized == old(self).finalized,
    {
        self.status = Status { progress, msg, time };
    }

    /// The initializing thread ended, with the final group or terminated (`None`). Only the
    /// first end counts; returns whether this one did.
    pub fn finish(&mut self, result: Option<Final>) -> (r: bool)
        ensures
            r == (old(self).finalized is None),
            r ==> final(self).finalized == Some(match result {
                Some(g) => Finalized::Success(g),
                None => Finalized::<Final>::Terminated,
            }),
            !r ==> final(self).finalized == old(self).finalized,
            final(self).status == old(self).status,
    {
        if self.finalized.is_some() {
            return false;
        }
        self.finalized = Some(match result {
            Some(group) => Finalized::Success(group),
            None => Finalized::Terminated,
        });
        true
    }
}

/// Whether the initialization should stop, given what the channel of the terminator gave:
/// `Some(true)` for a message, `Some(false)` for none yet, `None` when the sender was dropped.
pub fn should_terminate(received: Option<bool>) -> (r: bool)
    ensures
        r == (received != Some(false)),
{
    match received {
        Some(true) => true,
        Some(false) => false,
        None => true,
    }
}

} // verus!
