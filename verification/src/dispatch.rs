//! Dispatch of one fired event over its handlers, as a state machine.
//!
//! The program that owns the handler functions runs the loop: it asks
//! [`EventDispatch::next_step`] which handler to call next (and with which
//! cancellation flag), calls it, and hands its outcome back through
//! [`EventDispatch::report`], until the dispatch is done.
use vstd::prelude::*;
use crate::event::{EventResult, FireResult, HandlerId};

verus! {

/// What the dispatcher asks for next.
#[derive(Debug, Clone, Copy, PartialEq, Eq, Structural)]
pub enum DispatchStep {
    /// Call this handler, passing it this cancellation flag.
    Call { handler: HandlerId, cancelled: bool },
    /// Dispatch is over, with this result.
    Done(FireResult),
}

/// Handler `i` of the plan is passed over: the event is cancelled and the
/// handler did not opt in to cancelled events.
pub open spec fn skipped(plan: Seq<(HandlerId, bool)>, cancelled: bool, i: int) -> bool {
    cancelled && !plan[i].1
}

pub struct EventDispatch {
    plan: Vec<(HandlerId, bool)>,
    pos: usize,
    cancelled: bool,
    is_cancellable: bool,
    awaiting: bool,
    finished: Option<FireResult>,
}

impl EventDispatch {
    /// The handlers in run order, each with its opt-in to cancelled events.
    pub closed spec fn plan(&self) -> Seq<(HandlerId, bool)> {
        self.plan@
    }

    /// The position of the next handler to consider (or of the one being called).
    pub closed spec fn pos(&self) -> int {
        self.pos as int
    }

    /// The event's cancellation flag so far.
    pub closed spec fn is_cancelled(&self) -> bool {
        self.cancelled
    }

    pub closed spec fn cancellable(&self) -> bool {
        self.is_cancellable
    }

    /// A handler has been handed out and its outcome is still to be reported.
    pub closed spec fn awaiting(&self) -> bool {
        self.awaiting
    }

    /// The result, once dispatch is over.
    pub closed spec fn finished(&self) -> Option<FireResult> {
        self.finished
    }

    pub closed spec fn wf(&self) -> bool {
        &&& self.pos <= self.plan@.len()
        &&& self.awaiting ==> self.pos < self.plan@.len() && self.finished is None
        &&& !self.is_cancellable ==> !self.cancelled
        &&& self.finished matches Some(r) ==> (!self.is_cancellable ==> !r.cancelled)
    }

    /// Start dispatching an event over the handlers of `plan`, in that order.
    pub fn new(plan: Vec<(HandlerId, bool)>, is_cancellable: bool) -> (d: Self)
        ensures
            d.wf(),
            d.plan() == plan@,
            d.pos() == 0,
            !d.is_cancelled(),
            d.cancellable() == is_cancellable,
            !d.awaiting(),
            d.finished() is None,
    {
        EventDispatch { plan, pos: 0, cancelled: false, is_cancellable, awaiting: false, finished: None }
    }

    /// The next handler to call, skipping those that did not opt in to an
    /// event that is already cancelled; or the result once none is left or a
    /// handler panicked.
    pub fn next_step(&mut self) -> (step: DispatchStep)
        requires
            old(self).wf(),
            !old(self).awaiting(),
        ensures
            final(self).wf(),
            final(self).plan() == old(self).plan(),
            final(self).cancellable() == old(self).cancellable(),
            final(self).is_cancelled() == old(self).is_cancelled(),
            old(self).finished() matches Some(r) ==> step == DispatchStep::Done(r) && *final(self) == *old(self),
            old(self).finished() is None ==> {
                &&& old(self).pos() <= final(self).pos()
                &&& forall|j: int|
                    old(self).pos() <= j < final(self).pos() ==> skipped(
                        old(self).plan(),
                        old(self).is_cancelled(),
                        j,
                    )
                &&& if final(self).pos() < old(self).plan().len() {
                    &&& !skipped(old(self).plan(), old(self).is_cancelled(), final(self).pos())
                    &&& step == DispatchStep::Call {
                        handler: old(self).plan()[final(self).pos()].0,
                        cancelled: old(self).is_cancelled(),
                    }
                    &&& final(self).awaiting()
                    &&& final(self).finished() is None
                } else {
                    &&& step == DispatchStep::Done(
                        FireResult { result: EventResult::Continue, cancelled: old(self).is_cancelled() },
                    )
                    &&& !final(self).awaiting()
                    &&& final(self).finished() == Some(
                        FireResult { result: EventResult::Continue, cancelled: old(self).is_cancelled() },
                    )
                }
            },
            // A handler that did not opt in never sees a cancelled event.
            step matches DispatchStep::Call { handler, cancelled } ==> (cancelled
                ==> final(self).plan()[final(self).pos()].1),
            // An event that cannot be cancelled never ends cancelled.
            step matches DispatchStep::Done(r) ==> (!final(self).cancellable() ==> !r.cancelled),
    {
        if let Some(r) = self.finished {
            return DispatchStep::Done(r);
        }
        while self.pos < self.plan.len() && self.cancelled && !self.plan[self.pos].1
            invariant
                self.pos <= self.plan@.len(),
                self.pos >= old(self).pos,
                self.plan == old(self).plan,
                self.cancelled == old(self).cancelled,
                self.is_cancellable == old(self).is_cancellable,
                self.awaiting == old(self).awaiting,
                self.finished == old(self).finished,
                old(self).finished is None,
                !old(self).awaiting,
                old(self).wf(),
                forall|j: int| old(self).pos <= j < self.pos ==> skipped(self.plan@, self.cancelled, j),
            decreases self.plan@.len() - self.pos,
        {
            self.pos = self.pos + 1;
        }
        if self.pos < self.plan.len() {
            self.awaiting = true;
            DispatchStep::Call { handler: self.plan[self.pos].0, cancelled: self.cancelled }
        } else {
            let r = FireResult { result: EventResult::Continue, cancelled: self.cancelled };
            self.finished = Some(r);
            DispatchStep::Done(r)
        }
    }

    /// Hand back what the handler that `next_step` named returned, and the
    /// cancellation flag it left. A panic ends the dispatch; otherwise the
    /// flag is taken over when the event is cancellable and ignored when not.
    pub fn report(&mut self, result: EventResult, handler_cancelled: bool)
        requires
            old(self).wf(),
            old(self).awaiting(),
        ensures
            final(self).wf(),
            !final(self).awaiting(),
            final(self).plan() == old(self).plan(),
            final(self).cancellable() == old(self).cancellable(),
            result == EventResult::Panic ==> {
                &&& final(self).finished() == Some(
                    FireResult { result: EventResult::Panic, cancelled: old(self).is_cancelled() },
                )
                &&& final(self).is_cancelled() == old(self).is_cancelled()
                &&& final(self).pos() == old(self).pos()
            },
            result == EventResult::Continue ==> {
                &&& final(self).finished() is None
                &&& final(self).pos() == old(self).pos() + 1
                &&& final(self).is_cancelled() == if old(self).cancellable() {
                    handler_cancelled
                } else {
                    old(self).is_cancelled()
                }
            },
    {
        let n = self.plan.len();
        self.awaiting = false;
        match result {
            EventResult::Panic => {
                self.finished = Some(FireResult { result: EventResult::Panic, cancelled: self.cancelled });
            },
            EventResult::Continue => {
                if self.is_cancellable {
                    self.cancelled = handler_cancelled;
                }
                self.pos = self.pos + 1;
            },
        }
    }
}

/// A handler is passed over exactly when the event is already cancelled and
/// the handler did not opt in to cancelled events.
pub proof fn lemma_skipped(plan: Seq<(HandlerId, bool)>, cancelled: bool, i: int)
    ensures
        skipped(plan, cancelled, i) <==> (cancelled && !plan[i].1),
        !cancelled ==> !skipped(plan, cancelled, i),
        plan[i].1 ==> !skipped(plan, cancelled, i),
{
}

} // verus!
