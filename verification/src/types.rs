//! Messages that flow through the pipeline, and the ingestion-side
//! forwarder contract with its error type.

use vstd::prelude::*;

verus! {

/// One data event: a per-source sequence id (monotonically increasing
/// within a source's lifetime) and an opaque payload.
#[derive(Clone, Debug, PartialEq, Eq)]
pub struct Operation {
    pub id: u64,
    pub payload: Vec<u8>,
}

/// The mathematical value of an [`Operation`].
pub struct OperationView {
    pub id: u64,
    pub payload: Seq<u8>,
}

impl View for Operation {
    type V = OperationView;

    open spec fn view(&self) -> OperationView {
        OperationView { id: self.id, payload: self.payload@ }
    }
}

/// A commit boundary: the pair is monotonically non-decreasing per source.
#[derive(Clone, Copy, Debug, PartialEq, Eq, Structural)]
pub struct Commit {
    pub source_sequence: u64,
    pub transaction_id: u64,
}

/// The tagged union a source emits: `Begin`, then zero or more
/// `OperationEvent`s, then exactly one `Commit`, repeating.
#[derive(Clone, Debug, PartialEq, Eq)]
pub enum IngestionMessage {
    Begin(),
    OperationEvent(Operation),
    Commit(Commit),
}

/// The mathematical value of an [`IngestionMessage`].
pub enum MessageView {
    Begin,
    OperationEvent(OperationView),
    Commit(Commit),
}

impl View for IngestionMessage {
    type V = MessageView;

    open spec fn view(&self) -> MessageView {
        match *self {
            IngestionMessage::Begin() => MessageView::Begin,
            IngestionMessage::OperationEvent(op) => MessageView::OperationEvent(op@),
            IngestionMessage::Commit(c) => MessageView::Commit(c),
        }
    }
}

impl Operation {
    /// An explicit deep copy that Verus knows carries the same value.
    pub fn duplicate(&self) -> (r: Operation)
        ensures
            r@ == self@,
    {
        let mut payload: Vec<u8> = Vec::new();
        let mut i: usize = 0;
        while i < self.payload.len()
            invariant
                i <= self.payload.len(),
                payload@ == self.payload@.subrange(0, i as int),
            decreases self.payload.len() - i,
        {
            payload.push(self.payload[i]);
            i += 1;
        }
        assert(payload@ =~= self.payload@);
        Operation { id: self.id, payload }
    }
}

impl IngestionMessage {
    /// An explicit deep copy that Verus knows carries the same value.
    pub fn duplicate(&self) -> (r: IngestionMessage)
        ensures
            r@ == self@,
    {
        match self {
            IngestionMessage::Begin() => IngestionMessage::Begin(),
            IngestionMessage::OperationEvent(op) => IngestionMessage::OperationEvent(
                op.duplicate(),
            ),
            IngestionMessage::Commit(c) => IngestionMessage::Commit(*c),
        }
    }
}

/// Failure of the ingestion side to hand a message to the runtime.
#[derive(Clone, Debug, PartialEq, Eq)]
pub enum IngestorError {
    ChannelError(String),
}

impl IngestorError {
    /// The human-readable description carried by the error.
    pub fn message(&self) -> (r: String)
        ensures
            self matches IngestorError::ChannelError(m) && r@ == m@,
    {
        match self {
            IngestorError::ChannelError(m) => m.clone(),
        }
    }
}

/// Implemented by adapters that push captured operations, keyed by their
/// (sequence, transaction) position, into the runtime.
pub trait IngestorForwarder {
    fn forward(&mut self, msg: ((u64, u64), Operation)) -> Result<(), IngestorError>;
}

/// A forwarder that stores everything handed to it, in arrival order.
pub struct BufferingForwarder {
    pub buffer: Vec<((u64, u64), Operation)>,
}

impl BufferingForwarder {
    pub fn new() -> (r: BufferingForwarder)
        ensures
            r.buffer@.len() == 0,
    {
        BufferingForwarder { buffer: Vec::new() }
    }

    /// Appends the message; never fails.
    pub fn push_message(&mut self, msg: ((u64, u64), Operation)) -> (r: Result<
        (),
        IngestorError,
    >)
        ensures
            r is Ok,
            final(self).buffer@ == old(self).buffer@.push(msg),
    {
        self.buffer.push(msg);
        Ok(())
    }
}

impl IngestorForwarder for BufferingForwarder {
    /// Appends the message at the back of the buffer; never fails.
    fn forward(&mut self, msg: ((u64, u64), Operation)) -> (r: Result<(), IngestorError>)
        ensures
            r is Ok,
            final(self).buffer@ == old(self).buffer@.push(msg),
    {
        self.push_message(msg)
    }
}

} // verus!
