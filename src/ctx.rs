//! Cancellation: a signal fired at most once, observed by any number of
//! listeners, each of which is notified exactly once.

use vstd::prelude::*;

verus! {

/// The run-wide cancellation signal.
#[derive(Debug)]
pub struct Context {
    stopped: bool,
}

/// One listener of the signal.
#[derive(Debug)]
pub struct Listener {
    notified: bool,
}

/// Notifications that a listener gets from `n` polls of a signal whose
/// state is `stopped`, having been notified already or not.
pub open spec fn notifications(stopped: bool, notified: bool, n: nat) -> nat
    decreases n,
{
    if n == 0 {
        0
    } else {
        (if stopped && !notified {
            1nat
        } else {
            0nat
        }) + notifications(stopped, notified || stopped, (n - 1) as nat)
    }
}

/// Whether the signal has fired after a `stop`, given whether it had before.
pub open spec fn fired_after_stop(fired: bool) -> bool {
    true
}

/// Stopping twice leaves the signal as stopping once does.
pub proof fn lemma_stop_idempotent(fired: bool)
    ensures
        fired_after_stop(fired_after_stop(fired)) == fired_after_stop(fired),
{
}

impl View for Context {
    type V = bool;

    /// Whether the signal has fired.
    closed spec fn view(&self) -> bool {
        self.stopped
    }
}

impl View for Listener {
    type V = bool;

    /// Whether the listener has been notified.
    closed spec fn view(&self) -> bool {
        self.notified
    }
}

impl Context {
    /// A signal that has not fired.
    pub fn new() -> (r: Context)
        ensures
            !r@,
    {
        Context { stopped: false }
    }

    /// Fires the signal; firing it again changes nothing.
    pub fn stop(&mut self)
        ensures
            final(self)@ == fired_after_stop(old(self)@),
    {
        self.stopped = true;
    }

    /// Whether the signal has fired.
    pub fn is_stopped(&self) -> (r: bool)
        ensures
            r == self@,
    {
        self.stopped
    }

    /// A new listener; one made after the signal fired still sees it.
    pub fn recv(&self) -> (r: Listener)
        ensures
            !r@,
    {
        Listener { notified: false }
    }
}

impl Listener {
    /// Whether this poll brings the notification: true the first time the
    /// signal is seen fired, false ever after.
    pub fn poll(&mut self, ctx: &Context) -> (r: bool)
        ensures
            r == (ctx@ && !old(self)@),
            final(self)@ == (old(self)@ || ctx@),
    {
        let r = ctx.stopped && !self.notified;
        self.notified = self.notified || ctx.stopped;
        r
    }
}

/// Once the signal has fired (by one `stop` or several), a listener that
/// has not been notified, whenever it was made, is notified exactly once
/// over any number of polls.
pub proof fn lemma_exactly_one_notification(n: nat)
    requires
        n >= 1,
    ensures
        notifications(true, false, n) == 1,
{
    lemma_no_more_notifications((n - 1) as nat);
}

proof fn lemma_no_more_notifications(n: nat)
    ensures
        notifications(true, true, n) == 0,
    decreases n,
{
    if n > 0 {
        lemma_no_more_notifications((n - 1) as nat);
    }
}

} // verus!
