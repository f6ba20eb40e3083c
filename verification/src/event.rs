//! Event types shared by plugins and the host, and the plugin-side
//! registration / firing API.
//!
//! The ABI plumbing (vtables of `extern "C"` function pointers and raw event
//! pointers) lives with the program that loads plugins; what crosses it is
//! modelled here as plain values: a registration is a [`RegisterArgs`], a
//! request to fire an event is a [`FireArgs`], and a handler function is
//! known to the library by its [`HandlerId`].
use vstd::prelude::*;

verus! {

// ── Results ─────────────────────────────────────────────────────────

/// What a single event handler reported.
#[derive(Debug, Clone, Copy, PartialEq, Eq, Structural)]
pub enum EventResult {
    /// Handler completed normally.
    Continue,
    /// The handler panicked. Host should initiate graceful shutdown.
    Panic,
}

/// Result of firing an event through the host.
#[derive(Debug, Clone, Copy, PartialEq, Eq, Structural)]
pub struct FireResult {
    /// Whether any handler panicked.
    pub result: EventResult,
    /// Whether the event was cancelled by a handler.
    pub cancelled: bool,
}

// ── Directionality markers ──────────────────────────────────────────

/// Marker trait: plugins can register handlers for this event.
pub trait Receivable {}

/// Marker trait: plugins can fire this event.
pub trait Sendable {}

/// Marker trait for events that can be cancelled by handlers.
pub trait Cancellable {}

// ── Event trait ─────────────────────────────────────────────────────

/// Associates an event struct with its string name and cancellability.
pub trait Event: Sized {
    /// Namespaced event name, e.g. `"steel:server_starting"`.
    const NAME: &'static str;
    /// Whether this event supports cancellation.
    const IS_CANCELLABLE: bool = false;
}

// ── Built-in events ─────────────────────────────────────────────────

/// Fired by the host while the server starts; plugins may only receive it.
pub struct ServerStartingEvent {
    pub block_count: u32,
}

impl Receivable for ServerStartingEvent {}

impl Event for ServerStartingEvent {
    const NAME: &'static str = "steel:server_starting";
}

/// An event shared between plugins: a player has been greeted.
/// Plugins may both send and receive it.
pub struct PlayerGreetedEvent {
    pub player_name: String,
}

impl Sendable for PlayerGreetedEvent {}

impl Receivable for PlayerGreetedEvent {}

impl Event for PlayerGreetedEvent {
    const NAME: &'static str = "shared:player_greeted";
}

// ── Ordering constraints ────────────────────────────────────────────

#[derive(Debug, Clone, Copy, PartialEq, Eq, Structural)]
pub enum OrderingConstraint {
    /// This handler must run before the named plugin's handler.
    Before,
    /// This handler must run after the named plugin's handler.
    After,
}

/// A single ordering constraint: (kind, target_plugin_id).
#[derive(Debug, Clone)]
pub struct HandlerOrdering {
    pub constraint: OrderingConstraint,
    pub plugin_id: String,
}

// ── Handler identity ────────────────────────────────────────────────

/// The identity of a type-erased handler function. The program that holds
/// the function pointers maps each id to its function.
#[derive(Debug, Clone, Copy, PartialEq, Eq, Structural)]
pub struct HandlerId(pub u64);

// ── Argument bundles that cross the host boundary ───────────────────

/// A handler registration, as handed to the host.
pub struct RegisterArgs {
    pub plugin_id: String,
    pub event_name: String,
    pub handler: HandlerId,
    pub receive_cancelled: bool,
    pub orderings: Vec<HandlerOrdering>,
}

/// A request to fire an event, as handed to the host (the event data itself
/// travels beside it as a pointer).
pub struct FireArgs {
    pub event_name: String,
    pub is_cancellable: bool,
}

/// The bundle that firing an event of type `E` hands to the host.
pub open spec fn fire_args_for<E: Event>(args: FireArgs) -> bool {
    &&& args.event_name@ == E::NAME@
    &&& args.is_cancellable == E::IS_CANCELLABLE
}

/// The bundle for firing an event of type `E` names that type's event and
/// carries that type's own cancellability: the host honours cancellation of
/// a cancellable event and ignores it otherwise.
pub proof fn lemma_fire_args_carry_event_type<E: Event>(args: FireArgs)
    requires
        fire_args_for::<E>(args),
    ensures
        args.event_name@ == E::NAME@,
        args.is_cancellable == E::IS_CANCELLABLE,
        E::IS_CANCELLABLE ==> args.is_cancellable,
        !E::IS_CANCELLABLE ==> !args.is_cancellable,
{
}

// ── EventApi — plugin-side wrapper ──────────────────────────────────

/// Scoped API for event registration and custom event firing.
/// Carries the plugin_id so registrations are automatically tagged.
pub struct EventApi {
    plugin_id: String,
}

impl EventApi {
    /// The plugin id that this API tags registrations with.
    pub closed spec fn plugin_id(&self) -> Seq<char> {
        self.plugin_id@
    }

    pub fn new(plugin_id: &str) -> (api: Self)
        ensures
            api.plugin_id() == plugin_id@,
    {
        EventApi { plugin_id: plugin_id.to_owned() }
    }

    /// Begin building a handler registration for event `E`.
    pub fn on<E: Event + Receivable>(&self, handler: HandlerId) -> (b: HandlerBuilder)
        ensures
            b.plugin_id() == self.plugin_id(),
            b.event_name() == E::NAME@,
            b.handler() == handler,
            !b.receives_cancelled(),
            b.orderings() == Seq::<(OrderingConstraint, Seq<char>)>::empty(),
    {
        HandlerBuilder {
            plugin_id: self.plugin_id.clone(),
            handler,
            event_name: E::NAME.to_owned(),
            receive_cancelled: false,
            orderings: Vec::new(),
        }
    }

    /// Shorthand: a handler registration with default options.
    pub fn register<E: Event + Receivable>(&self, handler: HandlerId) -> (args: RegisterArgs)
        ensures
            args.plugin_id@ == self.plugin_id(),
            args.event_name@ == E::NAME@,
            args.handler == handler,
            !args.receive_cancelled,
            args.orderings@.len() == 0,
    {
        let args = self.on::<E>(handler).register();
        assert(args.orderings@.map_values(|o: HandlerOrdering| ordering_model(o)).len()
            == args.orderings@.len());
        args
    }

    /// Fire an event so that all registered handlers are called.
    pub fn fire<E: Event + Sendable>(&self, event: &E) -> (args: FireArgs)
        ensures
            fire_args_for::<E>(args),
            args.event_name@ == E::NAME@,
            args.is_cancellable == E::IS_CANCELLABLE,
    {
        self.emit(event)
    }

    /// Fire an event without requiring `Sendable`.
    ///
    /// Intended for the plugin/crate that defines the event — use `fire`
    /// everywhere else so the `Sendable` bound catches misuse.
    pub fn emit<E: Event>(&self, event: &E) -> (args: FireArgs)
        ensures
            fire_args_for::<E>(args),
            args.event_name@ == E::NAME@,
            args.is_cancellable == E::IS_CANCELLABLE,
    {
        FireArgs { event_name: E::NAME.to_owned(), is_cancellable: E::IS_CANCELLABLE }
    }
}

// ── HandlerBuilder ──────────────────────────────────────────────────

/// The model of one ordering constraint: its kind and target plugin id.
pub open spec fn ordering_model(o: HandlerOrdering) -> (OrderingConstraint, Seq<char>) {
    (o.constraint, o.plugin_id@)
}

/// Builder for configuring and registering an event handler.
pub struct HandlerBuilder {
    plugin_id: String,
    handler: HandlerId,
    event_name: String,
    receive_cancelled: bool,
    orderings: Vec<HandlerOrdering>,
}

impl HandlerBuilder {
    pub closed spec fn plugin_id(&self) -> Seq<char> {
        self.plugin_id@
    }

    pub closed spec fn handler(&self) -> HandlerId {
        self.handler
    }

    pub closed spec fn event_name(&self) -> Seq<char> {
        self.event_name@
    }

    pub closed spec fn receives_cancelled(&self) -> bool {
        self.receive_cancelled
    }

    /// The ordering constraints declared so far, in declaration order.
    pub closed spec fn orderings(&self) -> Seq<(OrderingConstraint, Seq<char>)> {
        self.orderings@.map_values(|o: HandlerOrdering| ordering_model(o))
    }

    /// Opt in to receiving events that have already been cancelled.
    pub fn receive_cancelled(self) -> (b: Self)
        ensures
            b.receives_cancelled(),
            b.plugin_id() == self.plugin_id(),
            b.handler() == self.handler(),
            b.event_name() == self.event_name(),
            b.orderings() == self.orderings(),
    {
        let mut b = self;
        b.receive_cancelled = true;
        b
    }

    /// Declare that this handler must run before the given plugin's handler.
    pub fn before(self, plugin_id: &str) -> (b: Self)
        ensures
            b.orderings() == self.orderings().push((OrderingConstraint::Before, plugin_id@)),
            b.receives_cancelled() == self.receives_cancelled(),
            b.plugin_id() == self.plugin_id(),
            b.handler() == self.handler(),
            b.event_name() == self.event_name(),
    {
        let mut b = self;
        b.orderings.push(
            HandlerOrdering { constraint: OrderingConstraint::Before, plugin_id: plugin_id.to_owned() },
        );
        assert(b.orderings() =~= self.orderings().push((OrderingConstraint::Before, plugin_id@)));
        b
    }

    /// Declare that this handler must run after the given plugin's handler.
    pub fn after(self, plugin_id: &str) -> (b: Self)
        ensures
            b.orderings() == self.orderings().push((OrderingConstraint::After, plugin_id@)),
            b.receives_cancelled() == self.receives_cancelled(),
            b.plugin_id() == self.plugin_id(),
            b.handler() == self.handler(),
            b.event_name() == self.event_name(),
    {
        let mut b = self;
        b.orderings.push(
            HandlerOrdering { constraint: OrderingConstraint::After, plugin_id: plugin_id.to_owned() },
        );
        assert(b.orderings() =~= self.orderings().push((OrderingConstraint::After, plugin_id@)));
        b
    }

    /// Finalize the registration: the bundle handed to the host.
    pub fn register(self) -> (args: RegisterArgs)
        ensures
            args.plugin_id@ == self.plugin_id(),
            args.event_name@ == self.event_name(),
            args.handler == self.handler(),
            args.receive_cancelled == self.receives_cancelled(),
            args.orderings@.map_values(|o: HandlerOrdering| ordering_model(o)) == self.orderings(),
    {
        RegisterArgs {
            plugin_id: self.plugin_id,
            event_name: self.event_name,
            handler: self.handler,
            receive_cancelled: self.receive_cancelled,
            orderings: self.orderings,
        }
    }
}

/// An ordering constraint's model is its kind and its target plugin id.
pub proof fn lemma_ordering_model(o: HandlerOrdering)
    ensures
        ordering_model(o).0 == o.constraint,
        ordering_model(o).1 == o.plugin_id@,
{
}

} // verus!
