use vstd::prelude::*;

verus! {

/// Timer ticks a sleeping acquirer waits between attempts.
pub const DEFAULT_LOCK_SLEEP: u64 = 10000;

/// The word of a mutex.
#[derive(Clone, Copy, Debug, PartialEq, Eq, Structural)]
pub enum LockState {
    Unlocked,
    Locked,
}

/// A one-word mutex, changed only by exchanging its word.
pub struct Mutex {
    state: LockState,
}

impl View for Mutex {
    type V = LockState;

    closed spec fn view(&self) -> LockState {
        self.state
    }
}

impl Mutex {
    /// An unlocked mutex.
    pub fn new() -> (r: Mutex)
        ensures
            r@ == LockState::Unlocked,
    {
        Mutex { state: LockState::Unlocked }
    }

    /// Store `new` in the word and return what it held.
    pub fn exchange(&mut self, new: LockState) -> (r: LockState)
        ensures
            r == old(self)@,
            final(self)@ == new,
    {
        let r = self.state;
        self.state = new;
        r
    }

    /// One acquisition attempt: exchange in `Locked`; true exactly when the
    /// word held `Unlocked`, so the caller now holds the lock.
    pub fn try_lock(&mut self) -> (r: bool)
        ensures
            r == (old(self)@ == LockState::Unlocked),
            final(self)@ == LockState::Locked,
    {
        let prev = self.exchange(LockState::Locked);
        match prev {
            LockState::Unlocked => true,
            LockState::Locked => false,
        }
    }

    /// Release: the word is `Unlocked` afterwards, whatever it held.
    pub fn unlock(&mut self)
        ensures
            final(self)@ == LockState::Unlocked,
    {
        let _prev = self.exchange(LockState::Unlocked);
    }

    /// Whether the word reads `Locked`.
    pub fn is_locked(&self) -> (r: bool)
        ensures
            r == (self@ == LockState::Locked),
    {
        match self.state {
            LockState::Locked => true,
            LockState::Unlocked => false,
        }
    }
}

/// What an acquirer does after an attempt.
#[derive(Clone, Copy, Debug, PartialEq, Eq, Structural)]
pub enum LockStep {
    /// The lock is held: go on.
    Acquired,
    /// Try again at once.
    Retry,
    /// Sleep this many timer ticks, then try again.
    Sleep(u64),
}

/// Next step of a spinning acquirer after an attempt that returned
/// `acquired`: it goes on only once an attempt found the lock free.
pub fn spin_lock_step(acquired: bool) -> (r: LockStep)
    ensures
        r == (if acquired { LockStep::Acquired } else { LockStep::Retry }),
{
    if acquired {
        LockStep::Acquired
    } else {
        LockStep::Retry
    }
}

/// Next step of a sleeping acquirer after an attempt that returned
/// `acquired`; for use from process context only, never on a lock that the
/// scheduler needs.
pub fn sleep_lock_step(acquired: bool) -> (r: LockStep)
    ensures
        r == (if acquired { LockStep::Acquired } else { LockStep::Sleep(DEFAULT_LOCK_SLEEP) }),
{
    if acquired {
        LockStep::Acquired
    } else {
        LockStep::Sleep(DEFAULT_LOCK_SLEEP)
    }
}

/// An acquirer goes on only after an attempt that found the word
/// `Unlocked`: while another holder keeps it `Locked`, every attempt says to
/// try again and leaves the word `Locked`.
pub proof fn lemma_no_acquire_while_locked(before: Mutex, after: Mutex, got: bool, step: LockStep)
    requires
        got == (before@ == LockState::Unlocked),
        after@ == LockState::Locked,
        step == (if got { LockStep::Acquired } else { LockStep::Retry }),
        before@ == LockState::Locked,
    ensures
        step == LockStep::Retry,
        after@ == LockState::Locked,
{
}

} // verus!
