use steel::dispatch::{DispatchStep, EventDispatch};
use steel::event::{EventResult, FireResult, HandlerId};

fn call(id: u64, cancelled: bool) -> DispatchStep {
    DispatchStep::Call { handler: HandlerId(id), cancelled }
}

fn done(result: EventResult, cancelled: bool) -> DispatchStep {
    DispatchStep::Done(FireResult { result, cancelled })
}

#[test]
fn empty_plan_finishes_uncancelled() {
    let mut d = EventDispatch::new(vec![], true);
    assert_eq!(d.next_step(), done(EventResult::Continue, false));
    assert_eq!(d.next_step(), done(EventResult::Continue, false));
}

#[test]
fn cancellation_skips_handlers_that_did_not_opt_in() {
    let plan = vec![(HandlerId(1), false), (HandlerId(2), false), (HandlerId(3), true), (HandlerId(4), false)];
    let mut d = EventDispatch::new(plan, true);
    assert_eq!(d.next_step(), call(1, false));
    d.report(EventResult::Continue, true);
    assert_eq!(d.next_step(), call(3, true));
    d.report(EventResult::Continue, false);
    assert_eq!(d.next_step(), call(4, false));
    d.report(EventResult::Continue, false);
    assert_eq!(d.next_step(), done(EventResult::Continue, false));
}

#[test]
fn cancelled_event_ends_cancelled() {
    let plan = vec![(HandlerId(1), false), (HandlerId(2), false)];
    let mut d = EventDispatch::new(plan, true);
    assert_eq!(d.next_step(), call(1, false));
    d.report(EventResult::Continue, true);
    assert_eq!(d.next_step(), done(EventResult::Continue, true));
}

#[test]
fn non_cancellable_event_ignores_cancellation() {
    let plan = vec![(HandlerId(1), false), (HandlerId(2), false)];
    let mut d = EventDispatch::new(plan, false);
    assert_eq!(d.next_step(), call(1, false));
    d.report(EventResult::Continue, true);
    assert_eq!(d.next_step(), call(2, false));
    d.report(EventResult::Continue, true);
    assert_eq!(d.next_step(), done(EventResult::Continue, false));
}

#[test]
fn panic_stops_dispatch() {
    let plan = vec![(HandlerId(1), false), (HandlerId(2), true), (HandlerId(3), true)];
    let mut d = EventDispatch::new(plan, true);
    assert_eq!(d.next_step(), call(1, false));
    d.report(EventResult::Continue, true);
    assert_eq!(d.next_step(), call(2, true));
    d.report(EventResult::Panic, false);
    assert_eq!(d.next_step(), done(EventResult::Panic, true));
    assert_eq!(d.next_step(), done(EventResult::Panic, true));
}
