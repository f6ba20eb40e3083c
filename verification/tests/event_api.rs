use steel::event::{
    Event, EventApi, HandlerId, OrderingConstraint, PlayerGreetedEvent, ServerStartingEvent,
};
use steel::plugin::PluginContext;

#[test]
fn event_names() {
    assert_eq!(ServerStartingEvent::NAME, "steel:server_starting");
    assert!(!ServerStartingEvent::IS_CANCELLABLE);
    assert_eq!(PlayerGreetedEvent::NAME, "shared:player_greeted");
    assert!(!PlayerGreetedEvent::IS_CANCELLABLE);
}

#[test]
fn register_with_defaults() {
    let api = EventApi::new("hello_world");
    let args = api.register::<ServerStartingEvent>(HandlerId(7));
    assert_eq!(args.plugin_id, "hello_world");
    assert_eq!(args.event_name, "steel:server_starting");
    assert_eq!(args.handler, HandlerId(7));
    assert!(!args.receive_cancelled);
    assert!(args.orderings.is_empty());
}

#[test]
fn builder_collects_options_in_order() {
    let ctx = PluginContext::new("alpha");
    let args = ctx
        .events()
        .on::<PlayerGreetedEvent>(HandlerId(3))
        .before("beta")
        .receive_cancelled()
        .after("gamma")
        .register();
    assert_eq!(args.plugin_id, "alpha");
    assert_eq!(args.event_name, "shared:player_greeted");
    assert_eq!(args.handler, HandlerId(3));
    assert!(args.receive_cancelled);
    assert_eq!(args.orderings.len(), 2);
    assert_eq!(args.orderings[0].constraint, OrderingConstraint::Before);
    assert_eq!(args.orderings[0].plugin_id, "beta");
    assert_eq!(args.orderings[1].constraint, OrderingConstraint::After);
    assert_eq!(args.orderings[1].plugin_id, "gamma");
}

#[test]
fn fire_and_emit_carry_name_and_cancellability() {
    let api = EventApi::new("alpha");
    let ev = PlayerGreetedEvent { player_name: String::from("Alex") };
    let f = api.fire(&ev);
    assert_eq!(f.event_name, "shared:player_greeted");
    assert!(!f.is_cancellable);
    let start = ServerStartingEvent { block_count: 10 };
    let e = api.emit(&start);
    assert_eq!(e.event_name, "steel:server_starting");
    assert!(!e.is_cancellable);
}
