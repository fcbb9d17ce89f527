//! Shutdown bookkeeping, which makes a shutdown idempotent.
//!
//! The tasks stay in the state until they have ended, so a call of shutdown that is
//! abandoned while it waits leaves the rest of them to the next call.

use vstd::prelude::*;

use crate::error::ShutdownError;

verus! {

/// The result of a shutdown: whether the time allowed for it ran out, and if not,
/// whether a task panicked.
pub open spec fn outcome(timed_out: bool, panicked: bool) -> Result<(), ShutdownError> {
    if timed_out {
        Err(ShutdownError::TimedOut)
    } else if panicked {
        Err(ShutdownError::WorkerPanicked)
    } else {
        Ok(())
    }
}

/// What a call of shutdown has to do.
#[derive(Debug)]
pub enum ShutdownStep {
    /// Nothing: the shutdown is over, with this result.
    Cached(Result<(), ShutdownError>),
    /// Stop the tasks and wait for those that are left.
    Join,
}

/// Who has to be waited for, and how the shutdown ended.
#[derive(Debug)]
pub struct ShutdownState<H> {
    handles: Vec<H>,
    panicked: bool,
    result: Option<Result<(), ShutdownError>>,
}

/// Something that ends in the course of a shutdown.
pub enum ShutdownEvent {
    /// The task that was waited for.
    Ended {
        /// Whether it panicked.
        panicked: bool,
    },
    /// The shutdown.
    Finished {
        /// Whether the time allowed for it ran out.
        timed_out: bool,
    },
}

/// What is known of the shutdown of a sink.
#[verifier::ext_equal]
pub struct ShutdownView<H> {
    /// The tasks that are not known to have ended.
    pub waiting: Seq<H>,
    /// Whether one of those that have ended panicked.
    pub panicked: bool,
    /// The result, once a shutdown is over.
    pub result: Option<Result<(), ShutdownError>>,
}

impl<H> ShutdownView<H> {
    /// A running sink with these tasks.
    pub open spec fn start(tasks: Seq<H>) -> ShutdownView<H> {
        ShutdownView { waiting: tasks, panicked: false, result: None }
    }

    /// After the first task that is waited for ended.
    pub open spec fn ended(self, panicked: bool) -> ShutdownView<H> {
        ShutdownView {
            waiting: self.waiting.drop_first(),
            panicked: self.panicked || panicked,
            ..self
        }
    }

    /// After several tasks ended; for each, whether it panicked.
    pub open spec fn ended_all(self, panics: Seq<bool>) -> ShutdownView<H>
        decreases panics.len(),
    {
        if panics.len() == 0 {
            self
        } else {
            self.ended_all(panics.drop_last()).ended(panics.last())
        }
    }

    /// After a shutdown ended; a result that stands already is kept.
    pub open spec fn finished(self, timed_out: bool) -> ShutdownView<H> {
        if self.result is Some {
            self
        } else {
            ShutdownView { result: Some(outcome(timed_out, self.panicked)), ..self }
        }
    }

    /// After an event.
    pub open spec fn after(self, event: ShutdownEvent) -> ShutdownView<H> {
        match event {
            ShutdownEvent::Ended { panicked } => self.ended(panicked),
            ShutdownEvent::Finished { timed_out } => self.finished(timed_out),
        }
    }

    /// After a series of events.
    pub open spec fn after_all(self, events: Seq<ShutdownEvent>) -> ShutdownView<H>
        decreases events.len(),
    {
        if events.len() == 0 {
            self
        } else {
            self.after_all(events.drop_last()).after(events.last())
        }
    }
}

impl<H> View for ShutdownState<H> {
    type V = ShutdownView<H>;

    closed spec fn view(&self) -> ShutdownView<H> {
        ShutdownView { waiting: self.handles@, panicked: self.panicked, result: self.result }
    }
}

impl<H> ShutdownState<H> {
    /// The state of a running sink with these tasks.
    pub fn new(handles: Vec<H>) -> (state: ShutdownState<H>)
        ensures
            state@ == ShutdownView::<H>::start(handles@),
    {
        ShutdownState { handles, panicked: false, result: None }
    }

    /// Begins a call of shutdown. A shutdown that is over is not run again: its result
    /// stands. Beginning changes nothing, so a call that is abandoned takes no task
    /// away from the next one.
    pub fn begin(&self) -> (step: ShutdownStep)
        ensures
            step == match self@.result {
                Some(result) => ShutdownStep::Cached(result),
                None => ShutdownStep::Join,
            },
    {
        match self.result {
            Some(result) => ShutdownStep::Cached(result),
            None => ShutdownStep::Join,
        }
    }

    /// Whether there is a task left to wait for.
    pub fn is_waiting(&self) -> (waiting: bool)
        ensures
            waiting == (self@.waiting.len() > 0),
    {
        !self.handles.is_empty()
    }

    /// The task to wait for next. It stays in the state until it has ended.
    pub fn next_mut(&mut self) -> (task: &mut H)
        requires
            old(self)@.waiting.len() > 0,
        ensures
            *task == old(self)@.waiting[0],
            final(self)@ == (ShutdownView {
                waiting: old(self)@.waiting.update(0, *final(task)),
                ..old(self)@
            }),
    {
        &mut self.handles[0]
    }

    /// The task that was waited for has ended.
    pub fn ended(&mut self, panicked: bool)
        requires
            old(self)@.waiting.len() > 0,
        ensures
            final(self)@ == old(self)@.ended(panicked),
    {
        let _ = self.handles.remove(0);
        if panicked {
            self.panicked = true;
        }
        assert(self@.waiting =~= old(self)@.waiting.drop_first());
    }

    /// Ends a shutdown, because all tasks have ended or because the time allowed for it
    /// ran out. Its result is kept for later calls, and returned; one that stands already
    /// is kept and returned instead.
    pub fn finish(&mut self, timed_out: bool) -> (result: Result<(), ShutdownError>)
        requires
            !timed_out ==> old(self)@.waiting.len() == 0,
        ensures
            result == match old(self)@.result {
                Some(standing) => standing,
                None => outcome(timed_out, old(self)@.panicked),
            },
            final(self)@ == old(self)@.finished(timed_out),
    {
        if let Some(standing) = self.result {
            return standing;
        }
        let result = if timed_out {
            Err(ShutdownError::TimedOut)
        } else if self.panicked {
            Err(ShutdownError::WorkerPanicked)
        } else {
            Ok(())
        };
        self.result = Some(result);
        result
    }
}

/// Shutdown is idempotent: once a call has ended the shutdown, its result stands, whatever
/// else ends afterwards and however often, so every later call gets that result.
pub proof fn shutdown_is_idempotent<H>(
    state: ShutdownView<H>,
    timed_out: bool,
    later: Seq<ShutdownEvent>,
)
    ensures
        state.finished(timed_out).result is Some,
        state.result is None ==> state.finished(timed_out).result == Some(
            outcome(timed_out, state.panicked),
        ),
        state.finished(timed_out).after_all(later).result == state.finished(timed_out).result,
    decreases later.len(),
{
    if later.len() > 0 {
        shutdown_is_idempotent(state, timed_out, later.drop_last());
    }
}

/// Shutdown waits for everybody: after so many tasks have ended, in however many calls,
/// of which any may have been abandoned, exactly the others are still waited for, and
/// nothing is forgotten of how they ended. So a shutdown that is over without having
/// timed out saw every task end, and reports a panic if and only if there was one.
pub proof fn shutdown_waits_for_all<H>(tasks: Seq<H>, panics: Seq<bool>)
    requires
        panics.len() <= tasks.len(),
    ensures
        ({
            let state = ShutdownView::start(tasks).ended_all(panics);
            &&& state.waiting == tasks.skip(panics.len() as int)
            &&& state.panicked == panics.contains(true)
            &&& state.result is None
            &&& state.waiting.len() == 0 <==> panics.len() == tasks.len()
            &&& state.finished(false).result == Some(outcome(false, panics.contains(true)))
        }),
    decreases panics.len(),
{
    if panics.len() == 0 {
        assert(tasks.skip(0) =~= tasks);
    } else {
        let sofar = panics.drop_last();
        shutdown_waits_for_all(tasks, sofar);
        assert(tasks.skip(sofar.len() as int).drop_first() =~= tasks.skip(panics.len() as int));
        assert(panics =~= sofar.push(panics.last()));
        vstd::seq_lib::lemma_seq_contains_after_push(sofar, panics.last(), true);
    }
}

/// An abandoned call makes no difference: what one call saw end and what the next one
/// sees end add up to what a single call would have seen.
pub proof fn abandoned_calls_add_up<H>(
    state: ShutdownView<H>,
    panics: Seq<bool>,
    later_panics: Seq<bool>,
    timed_out: bool,
)
    ensures
        state.ended_all(panics).ended_all(later_panics).finished(timed_out) == state.ended_all(
            panics + later_panics,
        ).finished(timed_out),
{
    lemma_ended_series(state, panics, later_panics);
}

proof fn lemma_ended_series<H>(state: ShutdownView<H>, first: Seq<bool>, later: Seq<bool>)
    ensures
        state.ended_all(first + later) == state.ended_all(first).ended_all(later),
    decreases later.len(),
{
    if later.len() == 0 {
        assert(first + later =~= first);
    } else {
        assert((first + later).drop_last() =~= first + later.drop_last());
        lemma_ended_series(state, first, later.drop_last());
    }
}

/// A shutdown succeeds if and only if its time did not run out and no task panicked; running out
/// of time goes before a panic.
pub proof fn outcomes_are_exact(timed_out: bool, panicked: bool)
    ensures
        outcome(timed_out, panicked) is Ok <==> !timed_out && !panicked,
        outcome(timed_out, panicked) == Err::<(), ShutdownError>(ShutdownError::TimedOut)
            <==> timed_out,
        outcome(timed_out, panicked) == Err::<(), ShutdownError>(ShutdownError::WorkerPanicked)
            <==> !timed_out && panicked,
{
}

/// A task that ends is no longer waited for, and the others still are, in order; a panic is
/// never forgotten. Ending a shutdown gives up no task.
pub proof fn tasks_leave_one_by_one<H>(state: ShutdownView<H>, panicked: bool, timed_out: bool)
    requires
        state.waiting.len() > 0,
    ensures
        state.waiting == seq![state.waiting[0]] + state.ended(panicked).waiting,
        state.ended(panicked).panicked <==> state.panicked || panicked,
        state.ended(panicked).result == state.result,
        state.finished(timed_out).waiting == state.waiting,
        state.finished(timed_out).panicked == state.panicked,
        state.finished(timed_out).result is Some,
        state.result is Some ==> state.finished(timed_out).result == state.result,
{
    assert(state.waiting =~= seq![state.waiting[0]] + state.waiting.drop_first());
}

} // verus!
