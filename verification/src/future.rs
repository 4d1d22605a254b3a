//! A one-shot value cell shared between a producer and a consumer.
//!
//! `SharedState` holds the value and whether it has been produced. The blocking
//! handles that share it between threads wait on its condition variable and
//! call into the operations below while holding its lock.

use std::sync::{Arc, Condvar};
use vstd::prelude::*;

verus! {

/// The side that waits for a value.
pub trait Future<T> {
    fn consume(&self) -> Option<T>;
}

/// The side that supplies a value.
pub trait Promise<T> {
    fn produce(&mut self, value: T) -> Result<(), PromiseError>;
}

/// Why a value could not be handed over.
pub struct PromiseError {
    pub message: String,
}

#[verifier::external_type_specification]
#[verifier::external_body]
pub struct ExCondvar(Condvar);

/// Makes a fresh condition variable (`std::sync::Condvar::new`). Nothing is
/// claimed of the value: it is only carried along for the waiting handles.
#[verifier::external_body]
fn new_condvar() -> Condvar {
    Condvar::new()
}

/// The state shared by a promise and its future: the value, once produced,
/// and the condition variable that waiting consumers sleep on.
pub struct SharedState<T> {
    value: Option<T>,
    ready: bool,
    wait_cond: Arc<Condvar>,
}

impl<T> SharedState<T> {
    /// A value is present exactly when the state is marked ready.
    #[verifier::type_invariant]
    spec fn ready_iff_value(self) -> bool {
        self.ready == self.value.is_some()
    }

    /// The condition variable that this state was made with.
    pub closed spec fn cond(&self) -> Arc<Condvar> {
        self.wait_cond
    }

    /// A state in which nothing has been produced yet.
    pub fn new() -> (state: Self)
        ensures
            state@ is None,
    {
        SharedState { value: None, ready: false, wait_cond: Arc::new(new_condvar()) }
    }

    /// Whether a value has been produced.
    pub fn is_ready(&self) -> (ready: bool)
        ensures
            ready == self@.is_some(),
    {
        proof { use_type_invariant(self); }
        self.ready
    }

    /// The condition variable that consumers wait on until the value is ready.
    pub fn wait_cond(&self) -> (cond: &Arc<Condvar>)
        ensures
            *cond == self.cond(),
    {
        &self.wait_cond
    }
}

impl<T> View for SharedState<T> {
    type V = Option<T>;

    /// The produced value, or `None` while nothing has been produced.
    closed spec fn view(&self) -> Option<T> {
        self.value
    }
}

impl<T> Default for SharedState<T> {
    fn default() -> (state: Self)
        ensures
            state@ is None,
    {
        Self::new()
    }
}

impl<T> Promise<T> for SharedState<T> {
    /// Stores `value` and marks the state ready; a later value replaces an
    /// earlier one. Handing over to a state one holds always succeeds.
    fn produce(&mut self, value: T) -> (result: Result<(), PromiseError>)
        ensures
            result is Ok,
            produced(*old(self), *final(self), value),
    {
        let wait_cond = self.wait_cond.clone();
        *self = SharedState { value: Some(value), ready: true, wait_cond };
        Ok(())
    }
}

impl<T: Clone> Future<T> for SharedState<T> {
    /// A copy of the produced value, or `None` while nothing is produced yet.
    /// (The blocking future waits for readiness before it asks.)
    fn consume(&self) -> (result: Option<T>)
        ensures
            consumed(self@, result),
    {
        proof { use_type_invariant(self); }
        match &self.value {
            Some(v) => Some(v.clone()),
            None => None,
        }
    }
}

/// One `produce(value)`, from `before` to `after`: the state now holds
/// `value` and keeps its condition variable.
pub open spec fn produced<T>(before: SharedState<T>, after: SharedState<T>, value: T) -> bool {
    &&& after@ == Some(value)
    &&& after.cond() == before.cond()
}

/// What `consume` gives for a state whose view is `view`: nothing before a
/// value is produced, a clone of the value after.
pub open spec fn consumed<T: Clone>(view: Option<T>, result: Option<T>) -> bool {
    match view {
        None => result is None,
        Some(v) => result matches Some(c) && cloned(v, c),
    }
}

/// A read after a write gives back what was written: once `produce(value)`
/// has run, `consume` returns (a clone of) `value`.
pub proof fn law_consume_returns_produced<T: Clone>(
    before: SharedState<T>,
    after: SharedState<T>,
    value: T,
    result: Option<T>,
)
    requires
        produced(before, after, value),
        consumed(after@, result),
    ensures
        result is Some,
        cloned(value, result.unwrap()),
{
}

/// Nothing can be consumed from a fresh state.
pub proof fn law_fresh_state_is_empty<T: Clone>(state: SharedState<T>, result: Option<T>)
    requires
        state@ is None,
        consumed(state@, result),
    ensures
        result is None,
{
}

} // verus!
