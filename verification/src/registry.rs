//! The host's event registry: handlers per event name in registration order,
//! with a cache of each event's computed run order that registration
//! invalidates.
use vstd::prelude::*;
use crate::dispatch::EventDispatch;
use crate::event::{Event, HandlerId, HandlerOrdering, OrderingConstraint, RegisterArgs};
use crate::order::{compute_order, handler_order, is_order_of, lemma_order_unique, HandlerRecord};
use crate::strmap::StrMap;

verus! {

/// The handlers registered for one event, and the cached run order.
pub struct EventEntry {
    handlers: Vec<HandlerRecord>,
    sorted_order: Option<Vec<usize>>,
}

pub struct EventRegistry {
    events: StrMap<EventEntry>,
}

/// The record that a registration adds.
pub open spec fn record_of(args: RegisterArgs) -> HandlerRecord {
    HandlerRecord {
        plugin_id: args.plugin_id,
        handler: args.handler,
        receive_cancelled: args.receive_cancelled,
        orderings: args.orderings,
    }
}

/// The dispatch plan of `handlers` run in `order`: each handler's id and opt-in.
pub open spec fn plan_of(handlers: Seq<HandlerRecord>, order: Seq<usize>) -> Seq<(HandlerId, bool)> {
    Seq::new(
        order.len(),
        |p: int| (handlers[order[p] as int].handler, handlers[order[p] as int].receive_cancelled),
    )
}

/// The record that a registration adds keeps each of the registration's
/// fields, each independently of the others.
pub proof fn lemma_record_keeps_registration(args: RegisterArgs)
    ensures
        record_of(args).plugin_id@ == args.plugin_id@,
        record_of(args).handler == args.handler,
        record_of(args).receive_cancelled == args.receive_cancelled,
        record_of(args).orderings == args.orderings,
{
}

/// Entry `p` of the dispatch plan is the handler placed at position `p` of
/// the run order, paired with the opt-in that same handler registered with.
pub proof fn lemma_plan_pairs_handler_with_its_opt_in(handlers: Seq<HandlerRecord>, order: Seq<usize>, p: int)
    requires
        0 <= p < order.len(),
    ensures
        plan_of(handlers, order).len() == order.len(),
        plan_of(handlers, order)[p].0 == handlers[order[p] as int].handler,
        plan_of(handlers, order)[p].1 == handlers[order[p] as int].receive_cancelled,
{
}

/// In the run order `o` of `handlers`, a cycle of constraints left some
/// handlers to be placed by hash order alone.
pub open spec fn left_unresolved(handlers: Seq<HandlerRecord>, o: Seq<usize>) -> bool {
    exists|k: nat| handler_order(handlers, o, k) && k < o.len()
}

/// Firing an event with `handlers`: its run order `o` is now cached (other
/// events' cached orders are kept), it is the cached order if there was one,
/// the dispatch plan runs the handlers in that order, and a warning is given
/// exactly when the order was computed afresh and a cycle left it unresolved.
pub open spec fn fired_with_order(
    handlers: Seq<HandlerRecord>,
    cached_before: Map<Seq<char>, Seq<usize>>,
    cached_after: Map<Seq<char>, Seq<usize>>,
    name: Seq<char>,
    plan: Seq<(HandlerId, bool)>,
    warn: bool,
) -> bool {
    let o = cached_after[name];
    &&& cached_after == cached_before.insert(name, o)
    &&& is_order_of(handlers, o)
    &&& cached_before.contains_key(name) ==> o == cached_before[name]
    &&& plan == plan_of(handlers, o)
    &&& warn <==> (!cached_before.contains_key(name) && left_unresolved(handlers, o))
}

impl View for EventRegistry {
    /// Event name -> handlers, in registration order.
    type V = Map<Seq<char>, Seq<HandlerRecord>>;

    closed spec fn view(&self) -> Map<Seq<char>, Seq<HandlerRecord>> {
        self.events@.map_values(|e: EventEntry| e.handlers@)
    }
}

impl EventRegistry {
    /// The table is well formed and every cached order is the run order of
    /// the handlers it was computed for.
    pub closed spec fn wf(&self) -> bool {
        &&& self.events.wf()
        &&& forall|k: Seq<char>|
            #[trigger] self.events@.contains_key(k) ==> (self.events@[k].sorted_order matches Some(o)
                ==> is_order_of(self.events@[k].handlers@, o@))
    }

    /// Event name -> its cached run order, for the events whose order is
    /// cached (computed since their last registration).
    pub closed spec fn cached_orders(&self) -> Map<Seq<char>, Seq<usize>> {
        Map::new(
            |k: Seq<char>| self.events@.contains_key(k) && self.events@[k].sorted_order is Some,
            |k: Seq<char>| self.events@[k].sorted_order.unwrap()@,
        )
    }

    /// Every cached order belongs to an event with handlers and is the run
    /// order of those handlers.
    pub proof fn lemma_cached_orders_correct(&self)
        requires
            self.wf(),
        ensures
            forall|k: Seq<char>|
                #[trigger] self.cached_orders().contains_key(k) ==> self@.contains_key(k) && is_order_of(
                    self@[k],
                    self.cached_orders()[k],
                ),
    {
    }

    pub fn new() -> (r: Self)
        ensures
            r.wf(),
            r@ == Map::<Seq<char>, Seq<HandlerRecord>>::empty(),
            r.cached_orders() == Map::<Seq<char>, Seq<usize>>::empty(),
    {
        let r = EventRegistry { events: StrMap::new() };
        assert(r@ =~= Map::<Seq<char>, Seq<HandlerRecord>>::empty());
        assert(r.cached_orders() =~= Map::<Seq<char>, Seq<usize>>::empty());
        r
    }

    /// Record a handler registration: the handler is appended to those of
    /// its event, and the event's cached order is dropped.
    pub fn register(&mut self, args: RegisterArgs)
        requires
            old(self).wf(),
        ensures
            final(self).wf(),
            final(self)@ == old(self)@.insert(
                args.event_name@,
                if old(self)@.contains_key(args.event_name@) {
                    old(self)@[args.event_name@]
                } else {
                    Seq::empty()
                }.push(record_of(args)),
            ),
            final(self).cached_orders() == old(self).cached_orders().remove(args.event_name@),
            // The appended record keeps every field of the registration.
            final(self)@.contains_key(args.event_name@),
            final(self)@[args.event_name@].len() > 0,
            final(self)@[args.event_name@].last().plugin_id@ == args.plugin_id@,
            final(self)@[args.event_name@].last().handler == args.handler,
            final(self)@[args.event_name@].last().receive_cancelled == args.receive_cancelled,
            final(self)@[args.event_name@].last().orderings == args.orderings,
            old(self)@.contains_key(args.event_name@) ==> final(self)@[args.event_name@].drop_last()
                == old(self)@[args.event_name@],
            !old(self)@.contains_key(args.event_name@) ==> final(self)@[args.event_name@].len() == 1,
    {
        let ghost name = args.event_name@;
        let ghost rec = record_of(args);
        let record = HandlerRecord {
            plugin_id: args.plugin_id,
            handler: args.handler,
            receive_cancelled: args.receive_cancelled,
            orderings: args.orderings,
        };
        let event_name = args.event_name;
        match self.events.find(event_name.as_str()) {
            Some(i) => {
                let mut entry = self.events.replace_at(
                    i,
                    EventEntry { handlers: Vec::new(), sorted_order: None },
                );
                entry.handlers.push(record);
                entry.sorted_order = None;
                let ghost new_entry = entry;
                self.events.replace_at(i, entry);
                proof {
                    assert(self.events@ =~= old(self).events@.insert(name, new_entry));
                }
            },
            None => {
                let mut handlers = Vec::new();
                handlers.push(record);
                self.events.insert(event_name, EventEntry { handlers, sorted_order: None });
                assert(handlers@ =~= Seq::<HandlerRecord>::empty().push(rec));
            },
        }
        proof {
            assert(self@ =~= old(self)@.insert(
                name,
                if old(self)@.contains_key(name) {
                    old(self)@[name]
                } else {
                    Seq::empty()
                }.push(rec),
            ));
            assert(self.cached_orders() =~= old(self).cached_orders().remove(name));
            if old(self)@.contains_key(name) {
                assert(self@[name].drop_last() =~= old(self)@[name]);
            }
        }
    }

    /// The number of handlers registered for `event_name`.
    pub fn handler_count(&self, event_name: &str) -> (n: usize)
        requires
            self.wf(),
        ensures
            n == if self@.contains_key(event_name@) {
                self@[event_name@].len()
            } else {
                0
            },
    {
        match self.events.get(event_name) {
            None => 0,
            Some(e) => e.handlers.len(),
        }
    }

    /// The run order of the handlers of `event_name`, computed on first use
    /// after a registration and cached; `None` when it has no handlers.
    pub fn order(&mut self, event_name: &str) -> (r: (Option<Vec<usize>>, bool))
        requires
            old(self).wf(),
        ensures
            final(self).wf(),
            final(self)@ == old(self)@,
            r.0 is None <==> !old(self)@.contains_key(event_name@),
            r.0 matches Some(o) ==> is_order_of(old(self)@[event_name@], o@),
            // The order is cached: a cached one is returned as it is, a fresh one is stored.
            r.0 is None ==> final(self).cached_orders() == old(self).cached_orders(),
            r.0 is Some ==> final(self).cached_orders() == old(self).cached_orders().insert(
                event_name@,
                r.0.unwrap()@,
            ),
            old(self).cached_orders().contains_key(event_name@) ==> r.0 is Some && r.0.unwrap()@
                == old(self).cached_orders()[event_name@],
            // A warning is due exactly when a fresh computation left a cycle unresolved.
            r.1 <==> (r.0 is Some && !old(self).cached_orders().contains_key(event_name@)
                && left_unresolved(old(self)@[event_name@], r.0.unwrap()@)),
    {
        match self.events.find(event_name) {
            None => {
                assert(!old(self).cached_orders().contains_key(event_name@));
                (None, false)
            },
            Some(i) => {
                let ghost k = self.events.key_at(i as int);
                let mut entry = self.events.replace_at(
                    i,
                    EventEntry { handlers: Vec::new(), sorted_order: None },
                );
                let ghost hs = entry.handlers@;
                assert(hs == old(self)@[event_name@]);
                let mut warn = false;
                let ghost mut wk: nat = 0;
                let ghost mut wo: Seq<usize> = Seq::empty();
                let ghost was_cached = entry.sorted_order is Some;
                let hn = entry.handlers.len();
                assert(hs.len() == hn);
                if entry.sorted_order.is_none() {
                    let (computed, resolved) = compute_order(&entry.handlers);
                    warn = !resolved;
                    proof {
                        wk = choose|kk: nat| handler_order(hs, computed@, kk) && (resolved <==> kk == hs.len());
                        wo = computed@;
                        if resolved {
                            assert forall|k2: nat| !(handler_order(hs, wo, k2) && k2 < wo.len()) by {
                                if handler_order(hs, wo, k2) {
                                    lemma_order_unique(hs, wo, wk, wo, k2);
                                }
                            }
                        }
                    }
                    entry.sorted_order = Some(computed);
                }
                assert(!was_cached ==> (entry.sorted_order matches Some(o) && o@ == wo));
                assert(!was_cached ==> (warn <==> left_unresolved(hs, wo)));
                assert(warn ==> handler_order(hs, wo, wk) && wk < wo.len());
                assert(warn ==> (entry.sorted_order matches Some(o) && o@ == wo));
                let mut out: Vec<usize> = Vec::new();
                match &entry.sorted_order {
                    Some(o) => {
                        let mut j: usize = 0;
                        while j < o.len()
                            invariant
                                j <= o@.len(),
                                out@ == o@.take(j as int),
                            decreases o@.len() - j,
                        {
                            out.push(o[j]);
                            j += 1;
                            assert(out@ =~= o@.take(j as int));
                        }
                        assert(o@.take(o@.len() as int) =~= o@);
                    },
                    None => {},
                }
                let ghost new_entry = entry;
                self.events.replace_at(i, entry);
                proof {
                    assert(self.events@ =~= old(self).events@.insert(k, new_entry));
                    assert(self@ =~= old(self)@);
                    if warn {
                        assert(out@ == wo);
                        assert(handler_order(old(self)@[event_name@], out@, wk) && wk < out@.len());
                    }
                }
                proof {
                    if warn {
                        assert(left_unresolved(old(self)@[event_name@], out@));
                    }
                    if !was_cached {
                        assert(out@ == wo);
                    }
                    assert(was_cached <==> old(self).cached_orders().contains_key(event_name@));
                    assert(self.cached_orders() =~= old(self).cached_orders().insert(event_name@, out@));
                }
                (Some(out), warn)
            },
        }
    }

    /// Prepare the dispatch of a fired event: its handlers in run order.
    /// An event without handlers is dispatched over an empty plan.
    pub fn begin_fire(&mut self, event_name: &str, is_cancellable: bool) -> (r: (EventDispatch, bool))
        requires
            old(self).wf(),
        ensures
            final(self).wf(),
            final(self)@ == old(self)@,
            r.0.wf(),
            r.0.pos() == 0,
            !r.0.is_cancelled(),
            !r.0.awaiting(),
            r.0.finished() is None,
            r.0.cancellable() == is_cancellable,
            !old(self)@.contains_key(event_name@) ==> {
                &&& r.0.plan().len() == 0
                &&& !r.1
                &&& final(self).cached_orders() == old(self).cached_orders()
            },
            old(self)@.contains_key(event_name@) ==> fired_with_order(
                old(self)@[event_name@],
                old(self).cached_orders(),
                final(self).cached_orders(),
                event_name@,
                r.0.plan(),
                r.1,
            ),
            old(self)@.contains_key(event_name@) ==> {
                let o = final(self).cached_orders()[event_name@];
                &&& final(self).cached_orders().contains_key(event_name@)
                &&& r.0.plan().len() == o.len()
                &&& forall|p: int|
                    0 <= p < o.len() ==> {
                        &&& #[trigger] r.0.plan()[p].0 == old(self)@[event_name@][o[p] as int].handler
                        &&& r.0.plan()[p].1 == old(self)@[event_name@][o[p] as int].receive_cancelled
                    }
            },
    {
        let ghost before = self.cached_orders();
        let (order, warn) = self.order(event_name);
        let mut plan: Vec<(HandlerId, bool)> = Vec::new();
        match order {
            None => {},
            Some(o) => {
                let entry = self.events.get(event_name);
                match entry {
                    None => {},
                    Some(e) => {
                        let ghost hs = e.handlers@;
                        assert(hs == old(self)@[event_name@]);
                        let ghost kk: nat = choose|kk: nat| handler_order(hs, o@, kk);
                        assert(handler_order(hs, o@, kk));
                        let mut j: usize = 0;
                        while j < o.len()
                            invariant
                                j <= o@.len(),
                                hs == e.handlers@,
                                handler_order(hs, o@, kk),
                                plan@ == plan_of(hs, o@.take(j as int)),
                            decreases o@.len() - j,
                        {
                            let idx = o[j];
                            let h = &e.handlers[idx];
                            plan.push((h.handler, h.receive_cancelled));
                            j += 1;
                            assert(plan@ =~= plan_of(hs, o@.take(j as int)));
                        }
                        assert(o@.take(o@.len() as int) =~= o@);
                    },
                }
            },
        }
        proof {
            if old(self)@.contains_key(event_name@) {
                let o = order.unwrap()@;
                assert(self.cached_orders()[event_name@] == o);
                assert(self.cached_orders() == before.insert(event_name@, self.cached_orders()[event_name@]));
            }
        }
        (EventDispatch::new(plan, is_cancellable), warn)
    }
}

/// Typed fire for host-side use: dispatch an event of type `E` with the
/// cancellability its type declares.
pub fn fire_event<E: Event>(registry: &mut EventRegistry) -> (r: (EventDispatch, bool))
    requires
        old(registry).wf(),
    ensures
        final(registry).wf(),
        final(registry)@ == old(registry)@,
        r.0.wf(),
        r.0.pos() == 0,
        !r.0.is_cancelled(),
        !r.0.awaiting(),
        r.0.finished() is None,
        r.0.cancellable() == E::IS_CANCELLABLE,
        !old(registry)@.contains_key(E::NAME@) ==> {
            &&& r.0.plan().len() == 0
            &&& !r.1
            &&& final(registry).cached_orders() == old(registry).cached_orders()
        },
        old(registry)@.contains_key(E::NAME@) ==> fired_with_order(
            old(registry)@[E::NAME@],
            old(registry).cached_orders(),
            final(registry).cached_orders(),
            E::NAME@,
            r.0.plan(),
            r.1,
        ),
        old(registry)@.contains_key(E::NAME@) ==> {
            let o = final(registry).cached_orders()[E::NAME@];
            &&& final(registry).cached_orders().contains_key(E::NAME@)
            &&& r.0.plan().len() == o.len()
            &&& forall|p: int|
                0 <= p < o.len() ==> {
                    &&& #[trigger] r.0.plan()[p].0 == old(registry)@[E::NAME@][o[p] as int].handler
                    &&& r.0.plan()[p].1 == old(registry)@[E::NAME@][o[p] as int].receive_cancelled
                }
        },
{
    registry.begin_fire(E::NAME, E::IS_CANCELLABLE)
}

/// How an ordering constraint reads in the log: `before <id>` or `after <id>`.
pub open spec fn ordering_text(o: HandlerOrdering) -> Seq<char> {
    if o.constraint == OrderingConstraint::Before {
        "before "@ + o.plugin_id@
    } else {
        "after "@ + o.plugin_id@
    }
}

/// The texts joined with `sep` between each two.
pub open spec fn join_texts(parts: Seq<Seq<char>>, sep: Seq<char>) -> Seq<char>
    decreases parts.len(),
{
    if parts.len() == 0 {
        Seq::empty()
    } else if parts.len() == 1 {
        parts[0]
    } else {
        join_texts(parts.drop_last(), sep) + sep + parts.last()
    }
}

/// The log suffix for a registration's constraints: empty without any,
/// ` (before a, after b)` otherwise.
pub open spec fn orderings_suffix(orderings: Seq<HandlerOrdering>) -> Seq<char> {
    if orderings.len() == 0 {
        Seq::empty()
    } else {
        " ("@ + join_texts(orderings.map_values(|o: HandlerOrdering| ordering_text(o)), ", "@) + ")"@
    }
}

/// The line the host logs for a registration.
pub open spec fn registration_text(args: RegisterArgs) -> Seq<char> {
    "[Host] Registered event handler: "@ + args.event_name@ + " (plugin: "@ + args.plugin_id@ + ")"@
        + orderings_suffix(args.orderings@)
}

/// The log line announcing a handler registration.
pub fn registration_message(args: &RegisterArgs) -> (line: String)
    ensures
        line@ == registration_text(*args),
        args.orderings@.len() == 0 ==> line@ == "[Host] Registered event handler: "@ + args.event_name@
            + " (plugin: "@ + args.plugin_id@ + ")"@,
        args.orderings@.len() > 0 ==> line@ == "[Host] Registered event handler: "@ + args.event_name@
            + " (plugin: "@ + args.plugin_id@ + ")"@ + " ("@ + join_texts(
            args.orderings@.map_values(|o: HandlerOrdering| ordering_text(o)),
            ", "@,
        ) + ")"@,
{
    let ghost texts = args.orderings@.map_values(|o: HandlerOrdering| ordering_text(o));
    let mut joined = String::new();
    let n = args.orderings.len();
    let mut i: usize = 0;
    while i < n
        invariant
            n == args.orderings@.len(),
            i <= n,
            texts == args.orderings@.map_values(|o: HandlerOrdering| ordering_text(o)),
            joined@ == join_texts(texts.take(i as int), ", "@),
        decreases n - i,
    {
        if i > 0 {
            joined.append(", ");
        }
        let o = &args.orderings[i];
        match o.constraint {
            OrderingConstraint::Before => joined.append("before "),
            OrderingConstraint::After => joined.append("after "),
        }
        joined.append(o.plugin_id.as_str());
        proof {
            let t = texts.take(i + 1);
            assert(t.drop_last() =~= texts.take(i as int));
            assert(t.last() == ordering_text(args.orderings@[i as int]));
            if i == 0 {
                assert(joined@ =~= t[0]);
            } else {
                assert(joined@ =~= join_texts(t.drop_last(), ", "@) + ", "@ + t.last());
            }
        }
        i += 1;
    }
    let mut line = String::from_str("[Host] Registered event handler: ");
    line.append(args.event_name.as_str());
    line.append(" (plugin: ");
    line.append(args.plugin_id.as_str());
    line.append(")");
    if n > 0 {
        line.append(" (");
        line.append(joined.as_str());
        line.append(")");
    }
    proof {
        assert(texts.take(n as int) =~= texts);
        assert(line@ =~= registration_text(*args));
    }
    line
}

/// A constraint reads `before <id>` or `after <id>` after its kind.
pub proof fn lemma_ordering_text(o: HandlerOrdering)
    ensures
        o.constraint == OrderingConstraint::Before ==> ordering_text(o) == "before "@ + o.plugin_id@,
        o.constraint == OrderingConstraint::After ==> ordering_text(o) == "after "@ + o.plugin_id@,
{
}

/// Joining: nothing gives the empty text, one text gives itself, and one
/// more text adds the separator and that text at the end.
pub proof fn lemma_join_texts(parts: Seq<Seq<char>>, sep: Seq<char>, x: Seq<char>)
    ensures
        join_texts(Seq::empty(), sep) == Seq::<char>::empty(),
        join_texts(seq![x], sep) == x,
        parts.len() > 0 ==> join_texts(parts.push(x), sep) == join_texts(parts, sep) + sep + x,
{
    assert(parts.push(x).drop_last() =~= parts);
}

/// A registration's log suffix is empty exactly when it declares no
/// constraint; with constraints it is ` (` + their texts joined by `, ` + `)`,
/// so a single constraint `c` gives ` (` + its text + `)`.
pub proof fn lemma_orderings_suffix(orderings: Seq<HandlerOrdering>)
    ensures
        orderings.len() == 0 <==> orderings_suffix(orderings) == Seq::<char>::empty(),
        orderings.len() > 0 ==> orderings_suffix(orderings) == " ("@ + join_texts(
            orderings.map_values(|o: HandlerOrdering| ordering_text(o)),
            ", "@,
        ) + ")"@,
        orderings.len() == 1 ==> orderings_suffix(orderings) == " ("@ + ordering_text(orderings[0]) + ")"@,
{
    if orderings.len() > 0 {
        let t = " ("@ + join_texts(orderings.map_values(|o: HandlerOrdering| ordering_text(o)), ", "@);
        assert((t + ")"@).len() >= ")"@.len());
        reveal_strlit(")");
        assert((t + ")"@).len() > 0);
    }
    if orderings.len() == 1 {
        assert(orderings.map_values(|o: HandlerOrdering| ordering_text(o)) =~= seq![ordering_text(orderings[0])]);
    }
}

} // verus!
