//! Bookkeeping of the script runtime: which scripts start, which handlers
//! are connected to which event, and which modules `require` has loaded.
use std::collections::{HashMap, HashSet};
use vstd::prelude::*;

verus! {

broadcast use vstd::std_specs::hash::group_hash_axioms;

/// A server or local script component.
pub struct ScriptState {
    pub entity: u64,
    pub enabled: bool,
    pub started: bool,
}

/// The entities of the enabled scripts that have not started, in order.
pub open spec fn startable(scripts: Seq<ScriptState>) -> Seq<u64>
    decreases scripts.len(),
{
    if scripts.len() == 0 {
        Seq::empty()
    } else if !scripts.last().started && scripts.last().enabled {
        startable(scripts.drop_last()).push(scripts.last().entity)
    } else {
        startable(scripts.drop_last())
    }
}

/// Marks every enabled script that has not started as started, and returns
/// their entities in order, to be compiled and run.
pub fn take_scripts_to_start(scripts: &mut Vec<ScriptState>) -> (r: Vec<u64>)
    ensures
        r@ == startable(old(scripts)@),
        final(scripts)@.len() == old(scripts)@.len(),
        forall|i: int|
            0 <= i < old(scripts)@.len() ==> {
                let before = #[trigger] old(scripts)@[i];
                let after = final(scripts)@[i];
                &&& after.entity == before.entity
                &&& after.enabled == before.enabled
                &&& after.started == (before.started || before.enabled)
            },
{
    let ghost orig = scripts@;
    let mut to_run: Vec<u64> = Vec::new();
    let mut i: usize = 0;
    while i < scripts.len()
        invariant
            i <= scripts.len(),
            scripts@.len() == orig.len(),
            to_run@ == startable(orig.take(i as int)),
            forall|k: int|
                i <= k < orig.len() ==> #[trigger] scripts@[k] == orig[k],
            forall|k: int|
                0 <= k < i ==> {
                    let before = #[trigger] orig[k];
                    let after = scripts@[k];
                    &&& after.entity == before.entity
                    &&& after.enabled == before.enabled
                    &&& after.started == (before.started || before.enabled)
                },
        decreases scripts.len() - i,
    {
        assert(orig.take(i + 1).drop_last() == orig.take(i as int));
        let entity = scripts[i].entity;
        let enabled = scripts[i].enabled;
        let started = scripts[i].started;
        if !started && enabled {
            to_run.push(entity);
        }
        scripts.set(i, ScriptState { entity, enabled, started: started || enabled });
        i = i + 1;
    }
    assert(orig.take(orig.len() as int) == orig);
    to_run
}

/// The events a script can connect a handler to.
#[derive(Clone, Copy, Debug, PartialEq, Eq, Structural)]
pub enum SignalEvent {
    Touched,
    PlayerAdded,
    Heartbeat,
    Stepped,
}

/// A handler connected to an event of an entity.
#[derive(Clone, Copy, Debug, PartialEq, Eq, Structural)]
pub struct Connection {
    pub entity: u64,
    pub event: SignalEvent,
    /// The registry key of the handler function.
    pub handler: u64,
}

/// The connected handlers, in the order they were connected. One list of
/// connections, rather than a hash map from entity and event to handlers,
/// so that the handlers of an event come out in connection order and the
/// contracts can say which run and in what order.
pub struct ScriptRegistry {
    pub connections: Vec<Connection>,
}

/// The handlers of one event of one entity, in order.
pub open spec fn handlers_of(connections: Seq<Connection>, entity: u64, event: SignalEvent) -> Seq<
    u64,
>
    decreases connections.len(),
{
    if connections.len() == 0 {
        Seq::empty()
    } else {
        let c = connections.last();
        if c.entity == entity && c.event == event {
            handlers_of(connections.drop_last(), entity, event).push(c.handler)
        } else {
            handlers_of(connections.drop_last(), entity, event)
        }
    }
}

/// The connections without those of `handler` to this event of this entity.
pub open spec fn without_handler(
    connections: Seq<Connection>,
    entity: u64,
    event: SignalEvent,
    handler: u64,
) -> Seq<Connection>
    decreases connections.len(),
{
    if connections.len() == 0 {
        Seq::empty()
    } else {
        let c = connections.last();
        if c.entity == entity && c.event == event && c.handler == handler {
            without_handler(connections.drop_last(), entity, event, handler)
        } else {
            without_handler(connections.drop_last(), entity, event, handler).push(c)
        }
    }
}

impl ScriptRegistry {
    /// No handlers.
    pub fn new() -> (r: Self)
        ensures
            r.connections@.len() == 0,
    {
        ScriptRegistry { connections: Vec::new() }
    }

    /// `Connect`: the handler runs after those connected before it.
    pub fn connect(&mut self, entity: u64, event: SignalEvent, handler: u64)
        ensures
            final(self).connections@ == old(self).connections@.push(
                Connection { entity, event, handler },
            ),
    {
        self.connections.push(Connection { entity, event, handler });
    }

    /// `Disconnect`: every connection of this handler to this event of this entity goes.
    pub fn disconnect(&mut self, entity: u64, event: SignalEvent, handler: u64)
        ensures
            final(self).connections@ == without_handler(
                old(self).connections@,
                entity,
                event,
                handler,
            ),
    {
        let mut kept: Vec<Connection> = Vec::new();
        let mut i: usize = 0;
        while i < self.connections.len()
            invariant
                i <= self.connections.len(),
                kept@ == without_handler(self.connections@.take(i as int), entity, event, handler),
            decreases self.connections.len() - i,
        {
            assert(self.connections@.take(i + 1).drop_last() == self.connections@.take(i as int));
            let c = self.connections[i];
            if !(c.entity == entity && c.event == event && c.handler == handler) {
                kept.push(c);
            }
            i = i + 1;
        }
        assert(self.connections@.take(self.connections.len() as int) == self.connections@);
        self.connections = kept;
    }

    /// The handlers connected to this event of this entity, in order.
    pub fn registered_functions(&self, entity: u64, event: SignalEvent) -> (r: Vec<u64>)
        ensures
            r@ == handlers_of(self.connections@, entity, event),
    {
        let mut out: Vec<u64> = Vec::new();
        let mut i: usize = 0;
        while i < self.connections.len()
            invariant
                i <= self.connections.len(),
                out@ == handlers_of(self.connections@.take(i as int), entity, event),
            decreases self.connections.len() - i,
        {
            assert(self.connections@.take(i + 1).drop_last() == self.connections@.take(i as int));
            let c = self.connections[i];
            if c.entity == entity && c.event == event {
                out.push(c.handler);
            }
            i = i + 1;
        }
        assert(self.connections@.take(self.connections.len() as int) == self.connections@);
        out
    }
}


/// A handler to run, and the entity it is given.
#[derive(Clone, Copy, Debug, PartialEq, Eq, Structural)]
pub struct HandlerCall {
    pub handler: u64,
    pub argument: u64,
}

/// `handlers`, each called with `argument`.
pub open spec fn calls_with(handlers: Seq<u64>, argument: u64) -> Seq<HandlerCall> {
    handlers.map_values(|h: u64| HandlerCall { handler: h, argument })
}

/// The `Touched` calls for touches that began: for each pair, the handlers
/// of the first entity get the second, then those of the second get the first.
pub open spec fn touched_calls_of(connections: Seq<Connection>, contacts: Seq<(u64, u64)>) -> Seq<
    HandlerCall,
>
    decreases contacts.len(),
{
    if contacts.len() == 0 {
        Seq::empty()
    } else {
        let (a, b) = contacts.last();
        touched_calls_of(connections, contacts.drop_last()) + calls_with(
            handlers_of(connections, a, SignalEvent::Touched),
            b,
        ) + calls_with(handlers_of(connections, b, SignalEvent::Touched), a)
    }
}

fn push_calls(out: &mut Vec<HandlerCall>, handlers: &Vec<u64>, argument: u64)
    ensures
        final(out)@ == old(out)@ + calls_with(handlers@, argument),
{
    let ghost start = out@;
    let mut i: usize = 0;
    while i < handlers.len()
        invariant
            i <= handlers.len(),
            out@ == start + calls_with(handlers@.take(i as int), argument),
        decreases handlers.len() - i,
    {
        assert(calls_with(handlers@.take(i + 1), argument) == calls_with(
            handlers@.take(i as int),
            argument,
        ).push(HandlerCall { handler: handlers@[i as int], argument }));
        out.push(HandlerCall { handler: handlers[i], argument });
        i = i + 1;
    }
    assert(handlers@.take(handlers.len() as int) == handlers@);
}

/// The handler calls that touches which began this frame cause, in order.
pub fn touched_calls(registry: &ScriptRegistry, contacts: &Vec<(u64, u64)>) -> (r: Vec<HandlerCall>)
    ensures
        r@ == touched_calls_of(registry.connections@, contacts@),
{
    let mut out: Vec<HandlerCall> = Vec::new();
    let mut i: usize = 0;
    while i < contacts.len()
        invariant
            i <= contacts.len(),
            out@ == touched_calls_of(registry.connections@, contacts@.take(i as int)),
        decreases contacts.len() - i,
    {
        assert(contacts@.take(i + 1).drop_last() == contacts@.take(i as int));
        let (a, b) = contacts[i];
        let first = registry.registered_functions(a, SignalEvent::Touched);
        push_calls(&mut out, &first, b);
        let second = registry.registered_functions(b, SignalEvent::Touched);
        push_calls(&mut out, &second, a);
        i = i + 1;
    }
    assert(contacts@.take(contacts.len() as int) == contacts@);
    out
}

/// The `PlayerAdded` calls: each handler of the Players service, in order,
/// is called once for each player that joined, in order.
pub open spec fn player_added_calls_of(handlers: Seq<u64>, joined: Seq<u64>) -> Seq<HandlerCall>
    decreases handlers.len(),
{
    if handlers.len() == 0 {
        Seq::empty()
    } else {
        let h = handlers.last();
        player_added_calls_of(handlers.drop_last(), joined) + joined.map_values(
            |p: u64| HandlerCall { handler: h, argument: p },
        )
    }
}

/// The handler calls for players that joined; `players_service` is the
/// Players service entity.
pub fn player_added_calls(registry: &ScriptRegistry, players_service: u64, joined: &Vec<u64>) -> (r:
    Vec<HandlerCall>)
    ensures
        r@ == player_added_calls_of(
            handlers_of(registry.connections@, players_service, SignalEvent::PlayerAdded),
            joined@,
        ),
{
    let handlers = registry.registered_functions(players_service, SignalEvent::PlayerAdded);
    let mut out: Vec<HandlerCall> = Vec::new();
    let mut i: usize = 0;
    while i < handlers.len()
        invariant
            i <= handlers.len(),
            out@ == player_added_calls_of(handlers@.take(i as int), joined@),
        decreases handlers.len() - i,
    {
        assert(handlers@.take(i + 1).drop_last() == handlers@.take(i as int));
        let h = handlers[i];
        let ghost before = out@;
        let mut k: usize = 0;
        while k < joined.len()
            invariant
                k <= joined.len(),
                out@ == before + joined@.take(k as int).map_values(
                    |p: u64| HandlerCall { handler: h, argument: p },
                ),
            decreases joined.len() - k,
        {
            assert(joined@.take(k + 1).map_values(|p: u64| HandlerCall { handler: h, argument: p })
                == joined@.take(k as int).map_values(
                |p: u64| HandlerCall { handler: h, argument: p },
            ).push(HandlerCall { handler: h, argument: joined@[k as int] }));
            out.push(HandlerCall { handler: h, argument: joined[k] });
            k = k + 1;
        }
        assert(joined@.take(joined.len() as int) == joined@);
        i = i + 1;
    }
    assert(handlers@.take(handlers.len() as int) == handlers@);
    out
}

/// The handlers the run service fires each frame on the workspace entity:
/// those of `Heartbeat`, then those of `Stepped`.
pub fn run_service_handlers(registry: &ScriptRegistry, workspace: u64) -> (r: Vec<u64>)
    ensures
        r@ == handlers_of(registry.connections@, workspace, SignalEvent::Heartbeat) + handlers_of(
            registry.connections@,
            workspace,
            SignalEvent::Stepped,
        ),
{
    let mut out = registry.registered_functions(workspace, SignalEvent::Heartbeat);
    let stepped = registry.registered_functions(workspace, SignalEvent::Stepped);
    let ghost first = out@;
    let mut i: usize = 0;
    while i < stepped.len()
        invariant
            i <= stepped.len(),
            out@ == first + stepped@.take(i as int),
        decreases stepped.len() - i,
    {
        out.push(stepped[i]);
        i = i + 1;
    }
    assert(stepped@.take(stepped.len() as int) == stepped@);
    out
}

/// After a handler is disconnected, it is no longer among the handlers of
/// that event of that entity, and the handlers of every other event or
/// entity are as before.
pub proof fn lemma_disconnect_removes_handler(
    connections: Seq<Connection>,
    entity: u64,
    event: SignalEvent,
    handler: u64,
    other_entity: u64,
    other_event: SignalEvent,
)
    ensures
        !handlers_of(without_handler(connections, entity, event, handler), entity, event).contains(
            handler,
        ),
        (other_entity != entity || other_event != event) ==> handlers_of(
            without_handler(connections, entity, event, handler),
            other_entity,
            other_event,
        ) == handlers_of(connections, other_entity, other_event),
    decreases connections.len(),
{
    if connections.len() > 0 {
        lemma_disconnect_removes_handler(
            connections.drop_last(),
            entity,
            event,
            handler,
            other_entity,
            other_event,
        );
        let w = without_handler(connections.drop_last(), entity, event, handler);
        let c = connections.last();
        if !(c.entity == entity && c.event == event && c.handler == handler) {
            assert(w.push(c).drop_last() == w);
            let h = handlers_of(w, entity, event);
            if c.entity == entity && c.event == event {
                assert forall|k: int| 0 <= k < h.push(c.handler).len() implies h.push(
                    c.handler,
                )[k] != handler by {
                    if k < h.len() {
                        assert(!h.contains(handler));
                        assert(h.push(c.handler)[k] == h[k]);
                    }
                }
            }
        }
    }
}

/// What `require` must do for a module.
pub enum RequireStep<V> {
    /// The module ran before; this is what it returned.
    Cached(V),
    /// The module is being loaded already: the requires form a cycle.
    Cycle,
    /// Compile and run the module, then report with `finish_load`.
    Load,
}

/// What the modules have returned, and which are being loaded.
pub struct ModuleCache<V> {
    pub cached_results: HashMap<u64, V>,
    pub loading_modules: HashSet<u64>,
}

impl<V: Copy> ModuleCache<V> {
    /// Nothing loaded.
    pub fn new() -> (r: Self)
        ensures
            r.cached_results@ == Map::<u64, V>::empty(),
            r.loading_modules@ == Set::<u64>::empty(),
    {
        ModuleCache { cached_results: HashMap::new(), loading_modules: HashSet::new() }
    }

    /// The start of `require(module)`: a module that ran before gives its
    /// result again; one that is still loading is a cyclic require; any
    /// other is marked as loading and must be run.
    pub fn begin_require(&mut self, module: u64) -> (r: RequireStep<V>)
        ensures
            old(self).cached_results@.contains_key(module) ==> r == RequireStep::Cached(
                old(self).cached_results@[module],
            ) && *final(self) == *old(self),
            !old(self).cached_results@.contains_key(module) && old(self).loading_modules@.contains(
                module,
            ) ==> r is Cycle && *final(self) == *old(self),
            !old(self).cached_results@.contains_key(module) && !old(
                self,
            ).loading_modules@.contains(module) ==> r is Load && final(self).cached_results@ == old(
                self,
            ).cached_results@ && final(self).loading_modules@ == old(self).loading_modules@.insert(
                module,
            ),
    {
        if let Some(v) = self.cached_results.get(&module) {
            return RequireStep::Cached(*v);
        }
        if self.loading_modules.contains(&module) {
            return RequireStep::Cycle;
        }
        self.loading_modules.insert(module);
        RequireStep::Load
    }

    /// The end of loading a module: it is no longer loading, and what it
    /// returned (if it did not fail) is kept for later requires.
    pub fn finish_load(&mut self, module: u64, result: Option<V>)
        ensures
            final(self).loading_modules@ == old(self).loading_modules@.remove(module),
            result matches Some(v) ==> final(self).cached_results@ == old(
                self,
            ).cached_results@.insert(module, v),
            result is None ==> final(self).cached_results@ == old(self).cached_results@,
    {
        self.loading_modules.remove(&module);
        if let Some(v) = result {
            self.cached_results.insert(module, v);
        }
    }
}

} // verus!
