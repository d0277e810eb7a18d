//! The bounded, ordered transport behind one edge: a FIFO queue of
//! messages with a capacity (a full queue makes the producer wait) and a
//! closed flag (a closed channel refuses new messages but drains what it
//! already buffered, which is how shutdown propagates downstream).

use vstd::prelude::*;
use crate::types::{IngestionMessage, MessageView};

verus! {

/// Why a send was refused.
#[derive(Clone, Copy, Debug, PartialEq, Eq, Structural)]
pub enum ChannelError {
    Closed,
}

/// One edge's transport.
#[derive(Debug)]
pub struct Channel {
    pub queue: Vec<IngestionMessage>,
    pub capacity: usize,
    pub closed: bool,
}

impl View for Channel {
    type V = Seq<MessageView>;

    open spec fn view(&self) -> Seq<MessageView> {
        self.queue@.map_values(|m: IngestionMessage| m@)
    }
}

impl Channel {
    /// An open, empty channel holding at most `capacity` messages.
    pub fn new(capacity: usize) -> (r: Channel)
        ensures
            r@.len() == 0,
            r.capacity == capacity,
            !r.closed,
    {
        let r = Channel { queue: Vec::new(), capacity, closed: false };
        proof {
            assert(r@ =~= Seq::<MessageView>::empty());
        }
        r
    }

    /// Whether a producer may send right now; when the buffer is full the
    /// producer waits instead — that is the backpressure of the edge.
    pub fn can_send(&self) -> (r: bool)
        ensures
            r == (self@.len() < self.capacity && !self.closed),
    {
        self.queue.len() < self.capacity && !self.closed
    }

    /// How many messages are buffered.
    pub fn len(&self) -> (r: usize)
        ensures
            r == self@.len(),
    {
        self.queue.len()
    }

    /// Appends one message at the back, provided the channel is open; the
    /// caller must have waited for space first.
    pub fn send(&mut self, msg: IngestionMessage) -> (r: Result<(), ChannelError>)
        requires
            old(self)@.len() < old(self).capacity,
        ensures
            final(self).capacity == old(self).capacity,
            final(self).closed == old(self).closed,
            old(self).closed ==> r == Err::<(), ChannelError>(ChannelError::Closed) && final(self)@ == old(self)@,
            !old(self).closed ==> r is Ok && final(self)@ == old(self)@.push(msg@),
    {
        if self.closed {
            return Err(ChannelError::Closed);
        }
        let ghost pre = self.queue@;
        self.queue.push(msg);
        proof {
            assert(self@ =~= pre.map_values(|m: IngestionMessage| m@).push(
                self.queue@[pre.len() as int]@,
            ));
        }
        Ok(())
    }

    /// Takes the oldest buffered message, if any; `None` on an empty
    /// channel, which after closing means end of stream.
    pub fn recv(&mut self) -> (r: Option<IngestionMessage>)
        ensures
            final(self).capacity == old(self).capacity,
            final(self).closed == old(self).closed,
            old(self)@.len() == 0 ==> r is None && final(self)@ == old(self)@,
            old(self)@.len() > 0 ==> (r matches Some(m) && m@ == old(self)@[0] && final(self)@
                == old(self)@.drop_first()),
    {
        if self.queue.len() == 0 {
            return None;
        }
        let ghost pre = self.queue@;
        let m = self.queue.remove(0);
        proof {
            assert(self@ =~= pre.map_values(|mm: IngestionMessage| mm@).drop_first());
        }
        Some(m)
    }

    /// Closes the channel: no more sends, already-buffered messages still
    /// drain.
    pub fn close(&mut self)
        ensures
            final(self).closed,
            final(self).capacity == old(self).capacity,
            final(self)@ == old(self)@,
    {
        self.closed = true;
    }
}

/// What remains buffered after `n` receives.
pub open spec fn after_receives(q: Seq<MessageView>, n: int) -> Seq<MessageView>
    decreases n,
{
    if n <= 0 {
        q
    } else {
        after_receives(q, n - 1).drop_first()
    }
}

/// Law: per-edge FIFO. If a producer has sent the messages `ms` in order
/// onto an empty channel, then the consumer's `n`-th receive observes
/// exactly `ms[n]`: messages appear in the exact order they were sent.
pub proof fn lemma_channel_fifo(ms: Seq<MessageView>, n: int)
    requires
        0 <= n < ms.len(),
    ensures
        after_receives(ms, n) == ms.skip(n),
        after_receives(ms, n)[0] == ms[n],
    decreases n,
{
    if n == 0 {
        assert(after_receives(ms, 0) =~= ms.skip(0));
    } else {
        lemma_channel_fifo(ms, n - 1);
        assert(after_receives(ms, n) =~= ms.skip(n - 1).drop_first());
        assert(ms.skip(n - 1).drop_first() =~= ms.skip(n));
    }
}

} // verus!
