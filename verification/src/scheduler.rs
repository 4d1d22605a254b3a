//! What a scheduler runs and how it is driven.

pub mod easy;

use vstd::prelude::*;
use vstd::string::*;

verus! {

/// A unit of work that a worker thread runs once it is handed over.
pub trait Runnable: Send + Sync {
    /// Whether a run of this unit of work may end with `result`. A unit of
    /// work that says nothing more allows any result.
    closed spec fn runs_to(&self, result: Result<(), RunnableError>) -> bool {
        true
    }

    fn run(&mut self) -> (result: Result<(), RunnableError>)
        ensures
            old(self).runs_to(result),
    ;
}

/// Why a unit of work failed.
pub struct RunnableError {
    pub message: String,
}

impl RunnableError {
    /// The error as it is reported: `RunnableError: ` followed by the message.
    pub fn describe(&self) -> (text: String)
        ensures
            text@ == "RunnableError: "@ + self.message@,
    {
        String::from_str("RunnableError: ").concat(self.message.as_str())
    }
}

/// Turns a closure into a `Runnable` that calls it the first time it runs.
pub struct RunnableWrapper<F> where F: FnOnce() + Send + Sync + 'static {
    f: Option<F>,
}

/// The text of the error that a wrapper reports when it runs a second time.
pub open spec fn already_run_message() -> Seq<char> {
    "RunnableWrapper is already run"@
}

impl<F> RunnableWrapper<F> where F: FnOnce() + Send + Sync + 'static {
    /// A closure that is still held may be called.
    #[verifier::type_invariant]
    spec fn callable(self) -> bool {
        self.f matches Some(g) ==> call_requires(g, ())
    }

    /// Whether the closure has not been called yet.
    pub closed spec fn pending(&self) -> bool {
        self.f is Some
    }

    /// The closure, while it is held.
    pub closed spec fn closure(&self) -> F
        recommends
            self.pending(),
    {
        self.f.unwrap()
    }

    /// A wrapper that will call `f` when it first runs.
    pub fn new(f: F) -> (wrapper: Self)
        requires
            call_requires(f, ()),
        ensures
            wrapper.pending(),
            wrapper.closure() == f,
    {
        RunnableWrapper { f: Some(f) }
    }
}

/// One run of a wrapper, from `before` to `after` with this `result`: the
/// closure is called (and returns) if it was still held, and is gone
/// afterwards; a wrapper without it reports `RunnableWrapper is already run`.
pub open spec fn ran<F>(before: RunnableWrapper<F>, after: RunnableWrapper<F>, result: Result<(), RunnableError>) -> bool
    where F: FnOnce() + Send + Sync + 'static
{
    &&& !after.pending()
    &&& result is Ok <==> before.pending()
    &&& before.pending() ==> call_ensures(before.closure(), (), ())
    &&& result matches Err(e) ==> e.message@ == already_run_message()
}

impl<F> Runnable for RunnableWrapper<F> where F: FnOnce() + Send + Sync + 'static {
    /// A run succeeds exactly while the closure is still held, and otherwise
    /// reports `RunnableWrapper is already run`.
    open spec fn runs_to(&self, result: Result<(), RunnableError>) -> bool {
        &&& result is Ok <==> self.pending()
        &&& result matches Err(e) ==> e.message@ == already_run_message()
    }

    /// Calls the closure the first time; every later run fails with
    /// `RunnableWrapper is already run`.
    fn run(&mut self) -> (result: Result<(), RunnableError>)
        ensures
            ran(*old(self), *final(self), result),
    {
        proof { use_type_invariant(&*self); }
        let mut taken: Option<F> = None;
        std::mem::swap(&mut taken, &mut self.f);
        match taken {
            Some(f) => {
                f();
                Ok(())
            },
            None => Err(RunnableError { message: String::from_str("RunnableWrapper is already run") }),
        }
    }
}

/// A wrapper runs its closure at most once: whatever the first run gave, a
/// second run fails with `RunnableWrapper is already run`.
pub proof fn law_wrapper_runs_once<F>(
    w0: RunnableWrapper<F>,
    w1: RunnableWrapper<F>,
    w2: RunnableWrapper<F>,
    first: Result<(), RunnableError>,
    second: Result<(), RunnableError>,
)
    where F: FnOnce() + Send + Sync + 'static
    requires
        ran(w0, w1, first),
        ran(w1, w2, second),
    ensures
        second matches Err(e) && e.message@ == already_run_message(),
{
}

/// The side of a scheduler that accepts work. Each call reports whether the
/// scheduler received it.
pub trait SchedulerAdapter {
    fn schedule(&mut self, runnable: Box<dyn Runnable>) -> bool;
    fn stop(&mut self) -> bool;
}

/// A scheduler's dispatch loop.
pub trait Scheduler {
    fn run(&mut self);
}

} // verus!
