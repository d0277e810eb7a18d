//! The stage contract every source, processor and sink satisfies, the
//! context a processing step sees, and the forwarder through which a
//! processor re-emits messages onto its output edges.

use vstd::prelude::*;
use crate::channel::Channel;
use crate::dag::PortHandle;
use crate::storage::Environment;
use crate::types::{IngestionMessage, MessageView, Operation};

verus! {

/// What one processing step asks of the scheduler: keep delivering, or
/// begin this stage's graceful shutdown.
#[derive(Clone, Copy, Debug, PartialEq, Eq, Structural)]
pub enum NextStep {
    Continue,
    Stop,
}

/// Why a forward failed; both are fatal to the pipeline.
#[derive(Clone, Copy, Debug, PartialEq, Eq, Structural)]
pub enum ForwardError {
    ClosedChannel(PortHandle),
    UndeclaredPort(PortHandle),
}

/// What a stage may touch while processing: its scoped storage handles
/// live in the shared environment.
pub struct ExecutionContext {
    pub env: Environment,
}

/// An owned copy of a port declaration.
pub fn clone_ports(p: &Option<Vec<PortHandle>>) -> (r: Option<Vec<PortHandle>>)
    ensures
        crate::dag::port_decl_view(r) == crate::dag::port_decl_view(*p),
{
    match p {
        None => None,
        Some(v) => {
            let mut c: Vec<PortHandle> = Vec::new();
            let mut i: usize = 0;
            while i < v.len()
                invariant
                    i <= v@.len(),
                    c@ == v@.subrange(0, i as int),
                decreases v@.len() - i,
            {
                c.push(v[i]);
                i += 1;
            }
            proof {
                assert(c@ =~= v@);
            }
            Some(c)
        },
    }
}

/// A stage with no input ports: it emits messages of its own accord,
/// resuming after the last recorded checkpoint.
pub trait Source {
    fn get_output_ports(&self) -> Option<Vec<PortHandle>>;

    fn init(&mut self) -> Result<(), String>;

    /// Hands out the next message to emit, or `None` when exhausted.
    fn emit(&mut self, ctx: &mut ExecutionContext) -> Result<Option<IngestionMessage>, String>;
}

/// A stage with inputs and outputs: it may forward zero, one or many
/// messages per input through the forwarder. The scheduler invokes
/// `process` only when every output edge has room — a full edge makes
/// the producing stage wait between processing calls (backpressure),
/// never fail.
pub trait Processor {
    fn get_input_ports(&self) -> Option<Vec<PortHandle>>;

    fn get_output_ports(&self) -> Option<Vec<PortHandle>>;

    fn init(&mut self) -> Result<(), String>;

    fn process(
        &mut self,
        from_port: Option<PortHandle>,
        op: Operation,
        ctx: &mut ExecutionContext,
        fw: &mut ChannelForwarder,
    ) -> Result<NextStep, String>
        requires
            old(fw).well_formed(),
            old(fw).all_have_room(),
    ;
}

/// A stage with no output ports: it observes and optionally persists.
pub trait Sink {
    fn get_input_ports(&self) -> Option<Vec<PortHandle>>;

    fn init(&mut self) -> Result<(), String>;

    fn process(
        &mut self,
        from_port: Option<PortHandle>,
        op: Operation,
        ctx: &mut ExecutionContext,
    ) -> Result<NextStep, String>;
}

/// The forwarder of one processor stage: one slot per outgoing edge,
/// labelled with the output port the edge hangs off.
pub struct ChannelForwarder {
    pub ports: Vec<PortHandle>,
    pub channels: Vec<Channel>,
}

impl ChannelForwarder {
    /// One slot per edge.
    pub open spec fn well_formed(self) -> bool {
        self.ports@.len() == self.channels@.len()
    }

    /// The buffered messages of each outgoing edge.
    pub open spec fn queues(self) -> Seq<Seq<MessageView>> {
        self.channels@.map_values(|c: Channel| c@)
    }

    /// Every outgoing edge has room for one more message.
    pub open spec fn all_have_room(self) -> bool {
        forall|i: int|
            0 <= i < self.channels@.len() ==> (#[trigger] self.channels@[i])@.len()
                < self.channels@[i].capacity
    }

    /// Every edge the target names has room for one more message; edges
    /// a targeted send never touches put no backpressure on it.
    pub open spec fn has_room_for(self, port: Option<PortHandle>) -> bool {
        forall|i: int|
            0 <= i < self.channels@.len() && (port is None || self.ports@[i] == port.unwrap())
                ==> (#[trigger] self.channels@[i])@.len() < self.channels@[i].capacity
    }

    /// No outgoing edge is closed.
    pub open spec fn all_open(self) -> bool {
        forall|i: int| 0 <= i < self.channels@.len() ==> !(#[trigger] self.channels@[i]).closed
    }

    /// A forwarder with no edges yet.
    pub fn new() -> (r: ChannelForwarder)
        ensures
            r.well_formed(),
            r.ports@.len() == 0,
    {
        ChannelForwarder { ports: Vec::new(), channels: Vec::new() }
    }

    /// Hangs one more outgoing edge off output port `port`.
    pub fn add_edge(&mut self, port: PortHandle, capacity: usize)
        requires
            old(self).well_formed(),
        ensures
            final(self).well_formed(),
            final(self).ports@ == old(self).ports@.push(port),
            final(self).queues() == old(self).queues().push(Seq::<MessageView>::empty()),
            final(self).channels@.len() == old(self).channels@.len() + 1,
            forall|i: int|
                0 <= i < old(self).channels@.len() ==> #[trigger] final(self).channels@[i] == old(self).channels@[i],
            final(self).channels@[old(self).channels@.len() as int].capacity == capacity,
            !final(self).channels@[old(self).channels@.len() as int].closed,
    {
        let ghost pre = self.queues();
        self.ports.push(port);
        self.channels.push(Channel::new(capacity));
        proof {
            assert(self.queues() =~~= pre.push(Seq::<MessageView>::empty()));
        }
    }

    /// Delivers one copy of `msg` to every edge of the target: every edge
    /// of the calling stage for `None` (broadcast), every edge labelled
    /// with the port for `Some`. Nothing is delivered unless all targeted
    /// edges are open and the target names a declared port.
    pub fn send(&mut self, msg: IngestionMessage, port: Option<PortHandle>) -> (r: Result<
        (),
        ForwardError,
    >)
        requires
            old(self).well_formed(),
            old(self).has_room_for(port),
        ensures
            final(self).well_formed(),
            final(self).ports@ == old(self).ports@,
            final(self).channels@.len() == old(self).channels@.len(),
            forall|i: int|
                0 <= i < final(self).channels@.len() ==> (#[trigger] final(self).channels@[i]).capacity == old(self).channels@[i].capacity && final(self).channels@[i].closed == old(self).channels@[i].closed,
            r is Err ==> final(self).queues() == old(self).queues(),
            r matches Err(ForwardError::UndeclaredPort(p)) ==> port == Some(p) && !old(self).ports@.contains(p),
            r matches Err(ForwardError::ClosedChannel(p)) ==> exists|i: int|
                0 <= i < old(self).channels@.len() && (#[trigger] old(self).channels@[i]).closed
                    && old(self).ports@[i] == p && (port matches Some(q) ==> q == p),
            port is None && old(self).all_open() ==> r is Ok,
            port is None && r is Ok ==> forall|i: int|
                0 <= i < old(self).queues().len() ==> #[trigger] final(self).queues()[i] == old(self).queues()[i].push(msg@),
            port matches Some(p) ==> (r is Ok ==> old(self).ports@.contains(p) && forall|i: int|
                0 <= i < old(self).queues().len() ==> #[trigger] final(self).queues()[i] == (
                if old(self).ports@[i] == p {
                    old(self).queues()[i].push(msg@)
                } else {
                    old(self).queues()[i]
                })),
    {
        if let Some(p) = port {
            let mut declared = false;
            let mut i: usize = 0;
            while i < self.ports.len()
                invariant
                    i <= self.ports@.len(),
                    declared == exists|j: int| 0 <= j < i && self.ports@[j] == p,
                decreases self.ports@.len() - i,
            {
                if self.ports[i] == p {
                    declared = true;
                }
                i += 1;
            }
            if !declared {
                return Err(ForwardError::UndeclaredPort(p));
            }
        }
        let mut i: usize = 0;
        while i < self.channels.len()
            invariant
                self.well_formed(),
                i <= self.channels@.len(),
                forall|j: int|
                    0 <= j < i && (port is None || self.ports@[j] == port.unwrap()) ==> !(
                    #[trigger] self.channels@[j]).closed,
            decreases self.channels@.len() - i,
        {
            let targeted = match port {
                None => true,
                Some(p) => self.ports[i] == p,
            };
            if targeted && self.channels[i].closed {
                return Err(ForwardError::ClosedChannel(self.ports[i]));
            }
            i += 1;
        }
        let ghost pre = *self;
        let mut i: usize = 0;
        while i < self.channels.len()
            invariant
                self.well_formed(),
                self.ports@ == pre.ports@,
                self.channels@.len() == pre.channels@.len(),
                pre.has_room_for(port),
                forall|j: int|
                    0 <= j < pre.channels@.len() && (port is None || pre.ports@[j]
                        == port.unwrap()) ==> !(#[trigger] pre.channels@[j]).closed,
                i <= self.channels@.len(),
                forall|j: int|
                    0 <= j < self.channels@.len() ==> (#[trigger] self.channels@[j]).capacity
                        == pre.channels@[j].capacity && self.channels@[j].closed
                        == pre.channels@[j].closed,
                forall|j: int|
                    0 <= j < i && (port is None || pre.ports@[j] == port.unwrap())
                        ==> #[trigger] self.channels@[j]@ == pre.channels@[j]@.push(msg@),
                forall|j: int|
                    (i <= j < self.channels@.len() || (0 <= j < self.channels@.len() && !(port
                        is None || pre.ports@[j] == port.unwrap())))
                        ==> #[trigger] self.channels@[j]@ == pre.channels@[j]@,
            decreases self.channels@.len() - i,
        {
            let targeted = match port {
                None => true,
                Some(p) => self.ports[i] == p,
            };
            if targeted {
                let copy = msg.duplicate();
                let ghost prech = self.channels@;
                let mut c = self.channels.remove(i);
                let res = c.send(copy);
                self.channels.insert(i, c);
                proof {
                    assert(res is Ok);
                    assert forall|j: int| 0 <= j < self.channels@.len() && j != i implies
                        #[trigger] self.channels@[j] == prech[j] by {
                        assert(self.channels@ =~= prech.update(i as int, self.channels@[i as int]));
                    }
                }
            }
            i += 1;
        }
        proof {
            assert forall|j: int| 0 <= j < self.queues().len() implies #[trigger] self.queues()[j]
                == (if port is None || pre.ports@[j] == port.unwrap() {
                pre.queues()[j].push(msg@)
            } else {
                pre.queues()[j]
            }) by {
            }
        }
        Ok(())
    }
}

} // verus!
