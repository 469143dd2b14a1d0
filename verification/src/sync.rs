//! Interrupt-masking lock: mutual exclusion on a single CPU by disabling
//! local interrupts while the lock is held.
//!
//! Acquiring samples the interrupt flag, disables interrupts and records
//! the prior state in the guard; releasing restores exactly that state. On
//! one CPU this shuts out the only concurrent actor, the interrupt
//! handler. Critical sections must not themselves enable interrupts.

use vstd::prelude::*;

use crate::arch::ArchState;

verus! {

/// A lock that guards data by disabling interrupts on the current core.
/// The ghost brand ties guards to the lock they came from: the value is
/// unconstrained, so a caller can never prove a foreign guard matches.
pub struct SpinLock<T> {
    value: T,
    brand: Ghost<int>,
}

/// Guard recording the interrupt state to restore on release and the
/// brand of the lock it was taken from.
pub struct SpinLockGuard {
    interrupts_were_enabled: bool,
    brand: Ghost<int>,
}

impl SpinLockGuard {
    /// Whether interrupts were enabled when the guard was taken.
    pub closed spec fn spec_was_enabled(&self) -> bool {
        self.interrupts_were_enabled
    }

    /// The brand of the lock the guard belongs to.
    pub closed spec fn spec_brand(&self) -> int {
        self.brand@
    }
}

impl<T> SpinLock<T> {
    /// The protected value.
    pub closed spec fn spec_value(&self) -> T {
        self.value
    }

    /// The lock's brand.
    pub closed spec fn spec_brand(&self) -> int {
        self.brand@
    }

    /// Creates a new lock around the provided value.
    pub fn new(value: T) -> (r: SpinLock<T>)
        ensures
            r.spec_value() == value,
    {
        SpinLock { value, brand: Ghost(vstd::pervasive::arbitrary()) }
    }

    /// Acquires the lock: samples the interrupt flag, disables interrupts,
    /// and hands back a guard recording the sampled state. While the guard
    /// is live, interrupts stay disabled.
    pub fn lock(&self, arch: &mut ArchState) -> (g: SpinLockGuard)
        ensures
            !final(arch).spec_interrupts_enabled(),
            g.spec_was_enabled() == old(arch).spec_interrupts_enabled(),
            g.spec_brand() == self.spec_brand(),
            final(arch).spec_ticks() == old(arch).spec_ticks(),
            final(arch).spec_timer_callback() == old(arch).spec_timer_callback(),
            final(arch).spec_ipc_callback() == old(arch).spec_ipc_callback(),
            final(arch).spec_gp_fault() == old(arch).spec_gp_fault(),
            final(arch).spec_timer_armed() == old(arch).spec_timer_armed(),
    {
        let interrupts_were_enabled = arch.interrupts_enabled();
        if interrupts_were_enabled {
            arch.disable_interrupts();
        }
        SpinLockGuard { interrupts_were_enabled, brand: Ghost(self.brand@) }
    }

    /// Releases the lock, restoring the interrupt state the matching
    /// acquire observed.
    pub fn unlock(&self, arch: &mut ArchState, guard: SpinLockGuard)
        requires
            guard.spec_brand() == self.spec_brand(),
            !old(arch).spec_interrupts_enabled(),
        ensures
            final(arch).spec_interrupts_enabled() == guard.spec_was_enabled(),
            final(arch).spec_ticks() == old(arch).spec_ticks(),
            final(arch).spec_timer_callback() == old(arch).spec_timer_callback(),
            final(arch).spec_ipc_callback() == old(arch).spec_ipc_callback(),
            final(arch).spec_gp_fault() == old(arch).spec_gp_fault(),
            final(arch).spec_timer_armed() == old(arch).spec_timer_armed(),
    {
        if guard.interrupts_were_enabled {
            arch.enable_interrupts();
        }
    }

    /// Reads the protected value through this lock's own live guard.
    pub fn get<'a>(&'a self, guard: &SpinLockGuard) -> (r: &'a T)
        requires
            guard.spec_brand() == self.spec_brand(),
        ensures
            *r == self.spec_value(),
    {
        let _ = guard;
        &self.value
    }

    /// Replaces the protected value through this lock's own live guard,
    /// returning the previous one.
    pub fn replace(&mut self, guard: &SpinLockGuard, value: T) -> (prev: T)
        requires
            guard.spec_brand() == old(self).spec_brand(),
        ensures
            prev == old(self).spec_value(),
            final(self).spec_value() == value,
            final(self).spec_brand() == old(self).spec_brand(),
    {
        let _ = guard;
        let mut value = value;
        core::mem::swap(&mut self.value, &mut value);
        value
    }
}

/// Executes the provided closure on the protected value while holding the
/// lock: the value moves out, the closure's first result moves back in, and
/// the interrupt flag ends where it began. The closure takes the value by
/// move, so the placeholder left during the call comes from `Default`.
pub fn with_lock<T: Default, R, F: FnOnce(T) -> (T, R)>(
    lock: &mut SpinLock<T>,
    arch: &mut ArchState,
    f: F,
) -> (r: R)
    requires
        call_requires(f, (old(lock).spec_value(),)),
    ensures
        call_ensures(f, (old(lock).spec_value(),), (final(lock).spec_value(), r)),
        final(arch).spec_interrupts_enabled() == old(arch).spec_interrupts_enabled(),
        final(arch).spec_ticks() == old(arch).spec_ticks(),
{
    let guard = lock.lock(arch);
    let mut value: T = Default::default();
    core::mem::swap(&mut lock.value, &mut value);
    let (value_after, result) = f(value);
    let mut value_after = value_after;
    core::mem::swap(&mut lock.value, &mut value_after);
    lock.unlock(arch, guard);
    result
}

} // verus!
