//! Acquisition-time exclusivity for container views: any number of shared
//! views, or exactly one mutable or draining view, never both.

use vstd::prelude::*;

verus! {

/// Why a view could not be acquired.
#[derive(PartialEq, Eq, Structural, Debug, Clone, Copy)]
pub enum ViewError {
    /// A mutable or draining view is already alive.
    ExclusiveHeld,
    /// A mutable or draining view was asked for while shared views are
    /// alive.
    SharedHeld,
    /// The count of shared views is at its limit.
    TooManyShared,
}

/// The views currently alive on one container.
pub struct AccessLedger {
    shared: u64,
    exclusive: bool,
}

impl AccessLedger {
    /// How many shared views are alive.
    pub closed spec fn readers(&self) -> nat {
        self.shared as nat
    }

    /// Whether a mutable or draining view is alive.
    pub closed spec fn writer(&self) -> bool {
        self.exclusive
    }

    /// Shared and exclusive views never coexist.
    pub closed spec fn wf(&self) -> bool {
        self.exclusive ==> self.shared == 0
    }

    /// A ledger with no view alive.
    pub fn new() -> (r: AccessLedger)
        ensures
            r.wf(),
            r.readers() == 0,
            !r.writer(),
    {
        AccessLedger { shared: 0, exclusive: false }
    }

    /// Asks for a shared view: granted unless an exclusive view is alive.
    pub fn acquire_shared(&mut self) -> (r: Result<(), ViewError>)
        requires
            old(self).wf(),
        ensures
            final(self).wf(),
            old(self).writer() ==> r == Err::<(), ViewError>(ViewError::ExclusiveHeld),
            !old(self).writer() && old(self).readers() == u64::MAX ==> r == Err::<(), ViewError>(
                ViewError::TooManyShared,
            ),
            !old(self).writer() && old(self).readers() < u64::MAX ==> r is Ok,
            r is Ok ==> final(self).readers() == old(self).readers() + 1 && !final(self).writer(),
            r is Err ==> *final(self) == *old(self),
    {
        if self.exclusive {
            Err(ViewError::ExclusiveHeld)
        } else if self.shared == u64::MAX {
            Err(ViewError::TooManyShared)
        } else {
            self.shared = self.shared + 1;
            Ok(())
        }
    }

    /// Asks for a mutable or draining view: granted only when no view at
    /// all is alive.
    pub fn acquire_exclusive(&mut self) -> (r: Result<(), ViewError>)
        requires
            old(self).wf(),
        ensures
            final(self).wf(),
            old(self).writer() ==> r == Err::<(), ViewError>(ViewError::ExclusiveHeld),
            !old(self).writer() && old(self).readers() > 0 ==> r == Err::<(), ViewError>(
                ViewError::SharedHeld,
            ),
            !old(self).writer() && old(self).readers() == 0 ==> r is Ok,
            r is Ok ==> final(self).writer() && final(self).readers() == 0,
            r is Err ==> *final(self) == *old(self),
    {
        if self.exclusive {
            Err(ViewError::ExclusiveHeld)
        } else if self.shared > 0 {
            Err(ViewError::SharedHeld)
        } else {
            self.exclusive = true;
            Ok(())
        }
    }

    /// Ends one shared view.
    pub fn release_shared(&mut self)
        requires
            old(self).wf(),
            old(self).readers() > 0,
        ensures
            final(self).wf(),
            final(self).readers() == old(self).readers() - 1,
            final(self).writer() == old(self).writer(),
    {
        self.shared = self.shared - 1;
    }

    /// Ends the exclusive view.
    pub fn release_exclusive(&mut self)
        requires
            old(self).wf(),
            old(self).writer(),
        ensures
            final(self).wf(),
            final(self).readers() == 0,
            !final(self).writer(),
    {
        self.exclusive = false;
    }

    /// Whether a shared view is alive.
    pub fn has_shared(&self) -> (r: bool)
        ensures
            r == (self.readers() > 0),
    {
        self.shared > 0
    }

    /// Whether a mutable or draining view is alive.
    pub fn has_exclusive(&self) -> (r: bool)
        ensures
            r == self.writer(),
    {
        self.exclusive
    }
}

} // verus!
