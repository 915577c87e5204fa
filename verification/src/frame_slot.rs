//! A single-frame mailbox between a capture callback and the consumer.
//!
//! The producer (a display-stream callback on its own thread) always stores
//! the *newest* frame, replacing any frame the consumer has not collected
//! yet; the consumer can wait for a frame with a timeout instead of polling.
//! What the mailbox does to its slot is stated on a plain `Option<T>`:
//! `put_into` and `take_from` with their laws, and `should_wait` for the
//! decision to wait. `FrameSlot` calls them under its mutex; the mutex is
//! shared between threads, so what it holds between two calls (another
//! thread may put or take in between) is not tracked here.
use std::sync::{Condvar, Mutex, MutexGuard, PoisonError};
use std::time::Duration;
use vstd::prelude::*;

verus! {

#[verifier::external_type_specification]
#[verifier::external_body]
#[verifier::reject_recursive_types(T)]
pub struct ExMutex<T: ?Sized>(Mutex<T>);

#[verifier::external_type_specification]
#[verifier::external_body]
#[verifier::reject_recursive_types(T)]
pub struct ExMutexGuard<'a, T: ?Sized + 'a>(MutexGuard<'a, T>);

#[verifier::external_type_specification]
#[verifier::external_body]
pub struct ExCondvar(Condvar);

#[verifier::reject_recursive_types(T)]
pub struct FrameSlot<T> {
    slot: Mutex<Option<T>>,
    arrived: Condvar,
}

/// `Mutex::new`.
#[verifier::external_body]
fn new_mutex<T>(value: T) -> Mutex<T> {
    Mutex::new(value)
}

/// `Condvar::new`.
#[verifier::external_body]
fn new_condvar() -> Condvar {
    Condvar::new()
}

/// `Mutex::lock`, taking the guard out of a poisoned mutex too: a panic
/// while holding the lock cannot leave the `Option` in a bad state.
#[verifier::external_body]
fn lock_slot<T>(slot: &Mutex<Option<T>>) -> MutexGuard<'_, Option<T>> {
    slot.lock().unwrap_or_else(PoisonError::into_inner)
}

/// `DerefMut` of the guard: the slot it holds locked. Nothing is claimed of
/// the slot's contents (other threads fill it).
#[verifier::external_body]
fn slot_mut<'a, 'b, T>(guard: &'a mut MutexGuard<'b, Option<T>>) -> &'a mut Option<T> {
    &mut **guard
}

/// `Deref` of the guard: the slot it holds locked. Nothing is claimed of the
/// slot's contents (other threads fill it).
#[verifier::external_body]
fn slot_ref<'a, 'b, T>(guard: &'a MutexGuard<'b, Option<T>>) -> &'a Option<T> {
    &**guard
}

/// `Condvar::notify_one`.
#[verifier::external_body]
fn notify_one(arrived: &Condvar) {
    arrived.notify_one();
}

/// `Duration::is_zero`.
#[verifier::external_body]
fn duration_is_zero(timeout: Duration) -> bool {
    timeout.is_zero()
}

/// `Condvar::wait_timeout_while`: waits up to `timeout`, waking early once
/// the slot holds a frame (spurious wake-ups wait again); a poisoned mutex
/// still hands its guard back.
#[verifier::external_body]
fn wait_while_empty<'a, T>(
    arrived: &Condvar,
    guard: MutexGuard<'a, Option<T>>,
    timeout: Duration,
) -> MutexGuard<'a, Option<T>> {
    arrived.wait_timeout_while(guard, timeout, |s| holds_no_frame(s)).unwrap_or_else(
        PoisonError::into_inner,
    ).0
}

/// Whether the slot is empty.
fn holds_no_frame<T>(slot: &mut Option<T>) -> (r: bool)
    ensures
        r == (*old(slot) is None),
        *final(slot) == *old(slot),
{
    slot.is_none()
}

/// Whether `take` waits for a frame: only when the slot is empty and the
/// timeout is not zero. A frame already there is taken at once, and a zero
/// timeout never waits.
pub open spec fn waits(slot_empty: bool, timeout_zero: bool) -> bool {
    slot_empty && !timeout_zero
}

/// The slot after a put: the new frame, whatever it held before (an older
/// frame not yet taken is dropped, never queued).
pub open spec fn after_put<T>(slot: Option<T>, frame: T) -> Option<T> {
    Some(frame)
}

/// A take from a slot: what it hands out (whatever the slot held) and what
/// the slot holds afterwards (nothing).
pub open spec fn taken<T>(slot: Option<T>) -> (Option<T>, Option<T>) {
    (slot, None)
}

/// Whether to wait for a frame before taking.
pub fn should_wait(slot_empty: bool, timeout_zero: bool) -> (r: bool)
    ensures
        r == waits(slot_empty, timeout_zero),
{
    slot_empty && !timeout_zero
}

/// Store `frame` in the slot, dropping any frame not taken yet.
pub fn put_into<T>(slot: &mut Option<T>, frame: T)
    ensures
        *final(slot) == after_put(*old(slot), frame),
{
    *slot = Some(frame);
}

/// Take whatever the slot holds, leaving it empty.
pub fn take_from<T>(slot: &mut Option<T>) -> (r: Option<T>)
    ensures
        (r, *final(slot)) == taken(*old(slot)),
{
    match slot.take() {
        Some(frame) => Some(frame),
        None => None,
    }
}

/// Only the newest frame is kept: whatever the slot held, after two puts a
/// take hands out the second frame and leaves the slot empty, so a further
/// take hands out nothing.
pub proof fn law_take_returns_the_newest_frame<T>(slot: Option<T>, first: T, second: T)
    ensures
        taken(after_put(after_put(slot, first), second)) == (Some(second), None::<T>),
        taken(taken(after_put(after_put(slot, first), second)).1).0 is None,
{
}

/// A take hands out the frame put just before it, and a take from an empty
/// slot hands out nothing.
pub proof fn law_take_returns_the_frame_put<T>(slot: Option<T>, frame: T)
    ensures
        taken(after_put(slot, frame)).0 == Some(frame),
        taken(None::<T>).0 is None,
{
}

/// A take never waits when the slot holds a frame or the timeout is zero.
pub proof fn law_waits_only_on_an_empty_slot(slot_empty: bool, timeout_zero: bool)
    ensures
        waits(slot_empty, timeout_zero) ==> slot_empty,
        timeout_zero ==> !waits(slot_empty, timeout_zero),
{
}

impl<T> FrameSlot<T> {
    /// An empty slot.
    pub fn new() -> Self {
        FrameSlot { slot: new_mutex(None), arrived: new_condvar() }
    }

    /// Store the newest frame, dropping any frame not collected yet, and
    /// wake a waiting `take`: `put_into` on the slot under the lock.
    pub fn put(&self, frame: T) {
        {
            let mut guard = self.lock();
            put_into(slot_mut(&mut guard), frame);
        }
        notify_one(&self.arrived);
    }

    /// Take the stored frame, waiting up to `timeout` for one to arrive.
    /// Returns `None` if the timeout passes with nothing to take; with a zero
    /// timeout it never waits. Under the lock: `should_wait` decides whether
    /// to wait, then `take_from` empties the slot.
    pub fn take(&self, timeout: Duration) -> Option<T> {
        let mut guard = self.lock();
        if should_wait(slot_ref(&guard).is_none(), duration_is_zero(timeout)) {
            guard = wait_while_empty(&self.arrived, guard, timeout);
        }
        take_from(slot_mut(&mut guard))
    }

    fn lock(&self) -> MutexGuard<'_, Option<T>> {
        lock_slot(&self.slot)
    }
}

} // verus!
