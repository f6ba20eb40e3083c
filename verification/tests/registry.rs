use std::hash::{DefaultHasher, Hash, Hasher};

use steel::dispatch::DispatchStep;
use steel::event::{EventApi, EventResult, FireResult, HandlerId, ServerStartingEvent};
use steel::registry::{fire_event, registration_message, EventRegistry};

fn h(s: &str) -> u64 {
    let mut x = DefaultHasher::new();
    s.hash(&mut x);
    x.finish()
}

#[test]
fn register_counts_and_orders() {
    let mut reg = EventRegistry::new();
    assert_eq!(reg.handler_count("steel:server_starting"), 0);
    let (none, warn) = reg.order("steel:server_starting");
    assert!(none.is_none());
    assert!(!warn);

    reg.register(EventApi::new("zeta").register::<ServerStartingEvent>(HandlerId(10)));
    reg.register(EventApi::new("alpha").on::<ServerStartingEvent>(HandlerId(11)).before("zeta").register());
    assert_eq!(reg.handler_count("steel:server_starting"), 2);
    assert_eq!(reg.handler_count("other:event"), 0);

    let (order, warn) = reg.order("steel:server_starting");
    assert_eq!(order, Some(vec![1, 0]));
    assert!(!warn);
    // Cached: the same order again.
    let (again, warn2) = reg.order("steel:server_starting");
    assert_eq!(again, Some(vec![1, 0]));
    assert!(!warn2);
}

#[test]
fn registration_invalidates_cached_order() {
    let mut reg = EventRegistry::new();
    reg.register(EventApi::new("one").register::<ServerStartingEvent>(HandlerId(1)));
    assert_eq!(reg.order("steel:server_starting").0, Some(vec![0]));
    reg.register(EventApi::new("two").on::<ServerStartingEvent>(HandlerId(2)).before("one").register());
    assert_eq!(reg.order("steel:server_starting").0, Some(vec![1, 0]));
}

#[test]
fn cycle_warns_once() {
    let mut reg = EventRegistry::new();
    reg.register(EventApi::new("p").on::<ServerStartingEvent>(HandlerId(1)).before("q").register());
    reg.register(EventApi::new("q").on::<ServerStartingEvent>(HandlerId(2)).before("p").register());
    let (order, warn) = reg.order("steel:server_starting");
    assert!(warn);
    let mut expected = vec![0usize, 1];
    let names = ["p", "q"];
    expected.sort_by_key(|&i| (h(names[i]), i));
    assert_eq!(order, Some(expected));
    let (_, warn_again) = reg.order("steel:server_starting");
    assert!(!warn_again);
}

#[test]
fn fire_dispatches_in_order() {
    let mut reg = EventRegistry::new();
    reg.register(EventApi::new("late").on::<ServerStartingEvent>(HandlerId(20)).after("early").register());
    reg.register(EventApi::new("early").on::<ServerStartingEvent>(HandlerId(21)).receive_cancelled().register());
    let (mut d, warn) = fire_event::<ServerStartingEvent>(&mut reg);
    assert!(!warn);
    assert_eq!(d.next_step(), DispatchStep::Call { handler: HandlerId(21), cancelled: false });
    d.report(EventResult::Continue, true);
    // The event is not cancellable: the flag is ignored.
    assert_eq!(d.next_step(), DispatchStep::Call { handler: HandlerId(20), cancelled: false });
    d.report(EventResult::Continue, false);
    assert_eq!(
        d.next_step(),
        DispatchStep::Done(FireResult { result: EventResult::Continue, cancelled: false })
    );
}

#[test]
fn fire_without_handlers() {
    let mut reg = EventRegistry::new();
    let (mut d, warn) = reg.begin_fire("nothing:here", true);
    assert!(!warn);
    assert_eq!(
        d.next_step(),
        DispatchStep::Done(FireResult { result: EventResult::Continue, cancelled: false })
    );
}

#[test]
fn cancellable_fire_skips() {
    let mut reg = EventRegistry::new();
    reg.register(EventApi::new("a").on::<ServerStartingEvent>(HandlerId(1)).before("b").register());
    reg.register(EventApi::new("b").on::<ServerStartingEvent>(HandlerId(2)).before("c").register());
    reg.register(EventApi::new("c").on::<ServerStartingEvent>(HandlerId(3)).receive_cancelled().register());
    let (mut d, _) = reg.begin_fire("steel:server_starting", true);
    assert_eq!(d.next_step(), DispatchStep::Call { handler: HandlerId(1), cancelled: false });
    d.report(EventResult::Continue, true);
    assert_eq!(d.next_step(), DispatchStep::Call { handler: HandlerId(3), cancelled: true });
    d.report(EventResult::Continue, true);
    assert_eq!(
        d.next_step(),
        DispatchStep::Done(FireResult { result: EventResult::Continue, cancelled: true })
    );
}

#[test]
fn registration_log_lines() {
    let plain = EventApi::new("hello_world").register::<ServerStartingEvent>(HandlerId(1));
    assert_eq!(
        registration_message(&plain),
        "[Host] Registered event handler: steel:server_starting (plugin: hello_world)"
    );
    let ordered = EventApi::new("p")
        .on::<ServerStartingEvent>(HandlerId(2))
        .before("q")
        .after("r")
        .register();
    assert_eq!(
        registration_message(&ordered),
        "[Host] Registered event handler: steel:server_starting (plugin: p) (before q, after r)"
    );
}
