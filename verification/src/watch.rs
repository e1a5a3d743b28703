//! The lifecycle of a watch: an owned, single-use token for one outstanding
//! subscription on the native side.
//!
//! A watch is consumed by exactly one wait, and the native release entry
//! point is invoked exactly once on disposal, whether or not the wait ever
//! happened. The token tracks the phase; the holder of the native handle
//! consults it before every native call on the subscription.

use vstd::prelude::*;

verus! {

/// The phase of a subscription: created but not waited on, returned from
/// the native wait, or disposed.
#[derive(Clone, Copy, Debug, PartialEq, Eq, Structural)]
pub enum WatchPhase {
    /// The subscription stands and nobody has waited on it.
    Pending,
    /// The native wait call has returned.
    Waited,
    /// The subscription has been released.
    Released,
}

/// Whether a wait may be issued in the given phase. A second wait, or a
/// wait after release, is left undefined by the native contract and is
/// refused here.
pub open spec fn wait_allowed(p: WatchPhase) -> bool {
    p is Pending
}

/// The phase after asking to wait: consumed when it was allowed, unchanged
/// when it was refused.
pub open spec fn wait_step(p: WatchPhase) -> WatchPhase {
    if wait_allowed(p) {
        WatchPhase::Waited
    } else {
        p
    }
}

/// Whether disposal in the given phase must invoke the native release entry
/// point: always, unless it already happened.
pub open spec fn release_due(p: WatchPhase) -> bool {
    !(p is Released)
}

/// The phase after disposal.
pub open spec fn release_step(p: WatchPhase) -> WatchPhase {
    WatchPhase::Released
}

/// The token that guards one subscription.
pub struct WatchToken {
    phase: WatchPhase,
}

impl WatchToken {
    /// The current phase.
    pub closed spec fn phase(&self) -> WatchPhase {
        self.phase
    }

    /// A token for a subscription the native side has just opened.
    pub fn new() -> (t: WatchToken)
        ensures
            t.phase() is Pending,
    {
        WatchToken { phase: WatchPhase::Pending }
    }

    /// Asks to wait on the subscription. Returns whether the native wait
    /// call may be made; the token steps to `Waited` exactly when it may.
    pub fn begin_wait(&mut self) -> (ok: bool)
        ensures
            ok == wait_allowed(old(self).phase()),
            final(self).phase() == wait_step(old(self).phase()),
    {
        match self.phase {
            WatchPhase::Pending => {
                self.phase = WatchPhase::Waited;
                true
            },
            _ => false,
        }
    }

    /// Disposes of the subscription. Returns whether the native release
    /// entry point must now be invoked; after this, it never is again.
    pub fn release(&mut self) -> (due: bool)
        ensures
            due == release_due(old(self).phase()),
            final(self).phase() == release_step(old(self).phase()),
    {
        let due = match self.phase {
            WatchPhase::Released => false,
            _ => true,
        };
        self.phase = WatchPhase::Released;
        due
    }
}

/// A watch unblocks a wait at most once: once a wait was allowed and taken,
/// no further wait is, and none is after release. The release entry point
/// runs exactly once: disposal always leaves the token released, and a
/// released token never has a release due again.
pub proof fn lemma_watch_single_use(p: WatchPhase)
    ensures
        wait_allowed(p) ==> !wait_allowed(wait_step(p)),
        !wait_allowed(release_step(p)),
        release_step(p) is Released,
        !release_due(release_step(p)),
{
}

} // verus!
