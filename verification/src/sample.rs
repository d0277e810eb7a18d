//! Two concrete stages: a sink that samples the stream of sequence ids,
//! and a processor that forwards every input to all of its output edges.

use vstd::prelude::*;
use vstd::string::StringExecFns;
use crate::config::dec_digits;
use crate::dag::{port_decl_view, PortHandle};
use crate::node::{
    clone_ports, ChannelForwarder, ExecutionContext, ForwardError, NextStep, Processor, Sink,
};
use crate::types::{IngestionMessage, MessageView, Operation};

verus! {

/// Every so many sequence ids, the sink takes a sample.
pub const SAMPLE_INTERVAL: u64 = 1000;

/// The ids at which the sampling action fires.
pub open spec fn is_sample_point(id: u64) -> bool {
    id % SAMPLE_INTERVAL == 0
}

/// A sink that records which sequence ids it sampled; what is done at a
/// sample — say, reporting elapsed wall-clock time from a timer the
/// stage owns — is the caller's business, outside the decision itself.
#[derive(Debug)]
pub struct SampleSink {
    pub id: i32,
    pub input_ports: Option<Vec<PortHandle>>,
    pub samples: Vec<u64>,
}

impl SampleSink {
    pub fn new(id: i32, input_ports: Option<Vec<PortHandle>>) -> (r: SampleSink)
        ensures
            r.id == id,
            port_decl_view(r.input_ports) == port_decl_view(input_ports),
            r.samples@.len() == 0,
    {
        SampleSink { id, input_ports, samples: Vec::new() }
    }

    /// One delivered event: the sink samples exactly at the ids that are
    /// multiples of the interval, and always asks to continue.
    pub fn observe(&mut self, op: &Operation) -> (r: NextStep)
        ensures
            r == NextStep::Continue,
            final(self).id == old(self).id,
            final(self).input_ports == old(self).input_ports,
            final(self).samples@ == if is_sample_point(op.id) {
                old(self).samples@.push(op.id)
            } else {
                old(self).samples@
            },
    {
        if op.id % SAMPLE_INTERVAL == 0 {
            self.samples.push(op.id);
        }
        NextStep::Continue
    }
}

impl Sink for SampleSink {
    /// Returns a copy of the port declaration given at construction.
    fn get_input_ports(&self) -> (r: Option<Vec<PortHandle>>)
        ensures
            port_decl_view(r) == port_decl_view(self.input_ports),
    {
        clone_ports(&self.input_ports)
    }

    /// This stage's one-time setup never fails and changes nothing.
    fn init(&mut self) -> (r: Result<(), String>)
        ensures
            r is Ok,
            *final(self) == *old(self),
    {
        Ok(())
    }

    /// Every step continues; the sink samples exactly at the ids that
    /// are multiples of the interval and touches nothing else.
    fn process(
        &mut self,
        _from_port: Option<PortHandle>,
        op: Operation,
        _ctx: &mut ExecutionContext,
    ) -> (r: Result<NextStep, String>)
        ensures
            r == Ok::<NextStep, String>(NextStep::Continue),
            final(self).id == old(self).id,
            final(self).input_ports == old(self).input_ports,
            final(self).samples@ == if is_sample_point(op.id) {
                old(self).samples@.push(op.id)
            } else {
                old(self).samples@
            },
    {
        Ok(self.observe(&op))
    }
}

/// A processor that forwards every input, unchanged, as one copy per
/// output edge — fan-out through the broadcast target.
#[derive(Debug)]
pub struct SampleProcessor {
    pub id: i32,
    pub input_ports: Option<Vec<PortHandle>>,
    pub output_ports: Option<Vec<PortHandle>>,
}

impl SampleProcessor {
    pub fn new(
        id: i32,
        input_ports: Option<Vec<PortHandle>>,
        output_ports: Option<Vec<PortHandle>>,
    ) -> (r: SampleProcessor)
        ensures
            r.id == id,
            port_decl_view(r.input_ports) == port_decl_view(input_ports),
            port_decl_view(r.output_ports) == port_decl_view(output_ports),
    {
        SampleProcessor { id, input_ports, output_ports }
    }

    /// Broadcasts the event: when every output edge is open, exactly one
    /// copy of it lands at the back of every edge's queue.
    pub fn forward_all(&self, op: Operation, fw: &mut ChannelForwarder) -> (r: Result<
        NextStep,
        ForwardError,
    >)
        requires
            old(fw).well_formed(),
            old(fw).all_have_room(),
        ensures
            final(fw).well_formed(),
            final(fw).ports@ == old(fw).ports@,
            final(fw).channels@.len() == old(fw).channels@.len(),
            forall|i: int|
                0 <= i < final(fw).channels@.len() ==> (#[trigger] final(
                fw).channels@[i]).capacity == old(fw).channels@[i].capacity && final(
                fw).channels@[i].closed == old(fw).channels@[i].closed,
            old(fw).all_open() ==> r == Ok::<NextStep, ForwardError>(NextStep::Continue),
            r matches Ok(n) ==> n == NextStep::Continue,
            r is Ok ==> forall|i: int|
                0 <= i < old(fw).queues().len() ==> #[trigger] final(fw).queues()[i] == old(fw).queues()[i].push(MessageView::OperationEvent(op@)),
            r is Err ==> final(fw).queues() == old(fw).queues(),
            r matches Err(e) ==> (e matches ForwardError::ClosedChannel(p) && exists|i: int|
                0 <= i < old(fw).channels@.len() && (#[trigger] old(fw).channels@[i]).closed
                    && old(fw).ports@[i] == p),
    {
        let ghost opv = op@;
        let msg = IngestionMessage::OperationEvent(op);
        proof {
            assert(msg@ == MessageView::OperationEvent(opv));
        }
        match fw.send(msg, None) {
            Ok(()) => Ok(NextStep::Continue),
            Err(e) => Err(e),
        }
    }
}

impl Processor for SampleProcessor {
    /// Returns a copy of the port declaration given at construction.
    fn get_input_ports(&self) -> (r: Option<Vec<PortHandle>>)
        ensures
            port_decl_view(r) == port_decl_view(self.input_ports),
    {
        clone_ports(&self.input_ports)
    }

    /// Returns a copy of the port declaration given at construction.
    fn get_output_ports(&self) -> (r: Option<Vec<PortHandle>>)
        ensures
            port_decl_view(r) == port_decl_view(self.output_ports),
    {
        clone_ports(&self.output_ports)
    }

    /// This stage's one-time setup never fails and changes nothing.
    fn init(&mut self) -> (r: Result<(), String>)
        ensures
            r is Ok,
            *final(self) == *old(self),
    {
        Ok(())
    }

    /// Broadcasts the unmodified event and continues: on success, every
    /// output edge gains exactly one copy. A closed output edge is a
    /// fatal channel error naming the port, and then no queue changes; a
    /// merely full edge never reaches this call — the scheduler waits
    /// for room between processing calls.
    fn process(
        &mut self,
        _from_port: Option<PortHandle>,
        op: Operation,
        _ctx: &mut ExecutionContext,
        fw: &mut ChannelForwarder,
    ) -> (r: Result<NextStep, String>)
        ensures
            *final(self) == *old(self),
            final(fw).well_formed(),
            final(fw).ports@ == old(fw).ports@,
            final(fw).channels@.len() == old(fw).channels@.len(),
            forall|i: int|
                0 <= i < final(fw).channels@.len() ==> (#[trigger] final(
                fw).channels@[i]).capacity == old(fw).channels@[i].capacity && final(
                fw).channels@[i].closed == old(fw).channels@[i].closed,
            old(fw).all_open() ==> r is Ok,
            r matches Ok(n) ==> n == NextStep::Continue && forall|i: int|
                0 <= i < old(fw).queues().len() ==> #[trigger] final(fw).queues()[i] == old(
                fw).queues()[i].push(MessageView::OperationEvent(op@)),
            r matches Err(m) ==> final(fw).queues() == old(fw).queues() && exists|i: int|
                0 <= i < old(fw).channels@.len() && (#[trigger] old(fw).channels@[i]).closed
                    && m@ == "failed to send message on channel port "@ + dec_digits(
                    old(fw).ports@[i] as nat,
                ),
    {
        match self.forward_all(op, fw) {
            Ok(step) => Ok(step),
            Err(e) => {
                let port = match e {
                    ForwardError::ClosedChannel(p) => p,
                    ForwardError::UndeclaredPort(p) => p,
                };
                let mut m = "failed to send message on channel port ".to_owned();
                let digits = crate::config::u64_to_string(port as u64);
                m.append(digits.as_str());
                Err(m)
            },
        }
    }
}

} // verus!
