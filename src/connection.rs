//! The lifecycle of one server-side connection.
//!
//! A connection is registered when it opens and is `Active` while both its
//! inbound and outbound loops run. The first loop to end terminates it and
//! deregisters it; the other loop is then abandoned, and whatever it still
//! reports changes nothing. A terminated connection dispatches no frame.
use crate::channel::Outbound;
use crate::dispatch::{route_frame, routed, DispatchTable, Inbound};
use crate::registry::Registry;
use crate::scope::Endpoint;
use tokio_tungstenite::tungstenite::protocol::Message;
use vstd::prelude::*;

verus! {

/// Where a connection is in its life.
#[derive(Clone, Copy, Debug, PartialEq, Eq, Structural)]
pub enum Phase {
    Active,
    Terminated,
}

/// One accepted connection, known by its identity.
#[derive(Debug)]
pub struct Connection {
    id: Endpoint,
    phase: Phase,
}

impl Connection {
    pub closed spec fn spec_id(&self) -> Endpoint {
        self.id
    }

    pub closed spec fn spec_phase(&self) -> Phase {
        self.phase
    }

    /// Registers the connection `id` with its outbound queue, before any of
    /// its frames is read.
    pub fn open(registry: &mut Registry, id: Endpoint, queue: Outbound) -> (c: Connection)
        requires
            old(registry).wf(),
        ensures
            c.spec_id() == id,
            c.spec_phase() == Phase::Active,
            final(registry).wf(),
            final(registry).ids().contains(id),
            old(registry).ids().contains(id) ==> exists|i: int|
                0 <= i < old(registry)@.len() && old(registry)@[i].0 == id && final(registry)@
                    == old(registry)@.update(i, (id, queue)),
            !old(registry).ids().contains(id) ==> final(registry)@ == old(registry)@.push(
                (id, queue),
            ),
    {
        registry.register(id, queue);
        Connection { id, phase: Phase::Active }
    }

    /// The connection's identity.
    pub fn id(&self) -> (r: Endpoint)
        ensures
            r == self.spec_id(),
    {
        self.id
    }

    /// The connection's phase.
    pub fn phase(&self) -> (r: Phase)
        ensures
            r == self.spec_phase(),
    {
        self.phase
    }

    /// What the inbound loop does with a frame: nothing once the connection
    /// has terminated, else what `route_frame` decides.
    pub fn on_frame(&self, table: &DispatchTable, frame: &Message) -> (r: Option<Inbound>)
        ensures
            self.spec_phase() == Phase::Terminated ==> r is None,
            self.spec_phase() == Phase::Active ==> (r matches Some(d) && (!(frame is Text)
                ==> d is Unsupported) && (frame is Text ==> exists|text: Seq<char>|
                routed(table@, text, d))),
            r matches Some(Inbound::Invoke { handler, .. }) ==> handler < table@.len(),
    {
        match self.phase {
            Phase::Active => Some(route_frame(table, frame)),
            Phase::Terminated => None,
        }
    }

    /// One of the two loops has ended. The first call terminates the
    /// connection and deregisters it; a later call changes nothing.
    pub fn on_loop_end(&mut self, registry: &mut Registry)
        requires
            old(registry).wf(),
        ensures
            final(self).spec_id() == old(self).spec_id(),
            final(self).spec_phase() == Phase::Terminated,
            final(registry).wf(),
            old(self).spec_phase() == Phase::Active ==> !final(registry).ids().contains(
                old(self).spec_id(),
            ),
            old(self).spec_phase() == Phase::Active && old(registry).ids().contains(
                old(self).spec_id(),
            ) ==> exists|i: int|
                0 <= i < old(registry)@.len() && old(registry)@[i].0 == old(self).spec_id()
                    && final(registry)@ == old(registry)@.remove(i),
            old(self).spec_phase() == Phase::Active && !old(registry).ids().contains(
                old(self).spec_id(),
            ) ==> final(registry)@ == old(registry)@,
            old(self).spec_phase() == Phase::Terminated ==> final(registry)@ == old(registry)@,
    {
        if self.phase == Phase::Active {
            registry.deregister(self.id);
            self.phase = Phase::Terminated;
        }
    }
}

} // verus!
