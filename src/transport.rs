use vstd::prelude::*;
use crate::frame::{event_frame, score_frame, score_json};
use crate::hub::Hub;

verus! {

/// The per-connection side of a stream: it holds one subscription while the
/// connection is open and turns the values that reach it into event frames.
///
/// Every way out (a failed write, a server shutdown, a dropped connection)
/// goes through `close`, which gives the subscription back to the hub.
pub struct StreamTransport {
    pub id: u64,
    pub open: bool,
}

impl StreamTransport {
    /// Opens a stream: a new subscription is registered for it.
    pub fn connect(hub: &mut Hub) -> (r: StreamTransport)
        requires
            old(hub)@.wf(),
            old(hub)@.can_subscribe(),
        ensures
            r.open,
            r.id == old(hub)@.next_id,
            final(hub)@ == old(hub)@.subscribe(),
            final(hub)@.wf(),
    {
        let id = hub.subscribe();
        StreamTransport { id, open: true }
    }

    /// The next frame to write: the oldest value waiting for this stream,
    /// rendered. Nothing while the queue is empty or the stream is closed.
    pub fn next_frame(&self, hub: &mut Hub) -> (r: Option<String>)
        requires
            old(hub)@.wf(),
        ensures
            final(hub)@.wf(),
            !self.open ==> r is None && final(hub)@ == old(hub)@,
            self.open ==> final(hub)@ == old(hub)@.receive(self.id),
            self.open && old(hub)@.queue_of(self.id).len() > 0 ==> r is Some
                && r->0@ == event_frame(score_json(old(hub)@.queue_of(self.id)[0])),
            old(hub)@.queue_of(self.id).len() == 0 ==> r is None,
    {
        if !self.open {
            return None;
        }
        match hub.receive(self.id) {
            Some(v) => Some(score_frame(&v)),
            None => None,
        }
    }

    /// Closes the stream and releases its subscription. Closing a stream
    /// that is already closed changes nothing.
    pub fn close(&mut self, hub: &mut Hub)
        requires
            old(hub)@.wf(),
        ensures
            !final(self).open,
            final(self).id == old(self).id,
            final(hub)@.wf(),
            old(self).open ==> final(hub)@ == old(hub)@.unsubscribe(old(self).id),
            old(self).open ==> !final(hub)@.contains(old(self).id),
            !old(self).open ==> final(hub)@ == old(hub)@,
    {
        if self.open {
            hub.unsubscribe(self.id);
            proof {
                old(hub)@.lemma_unsubscribe_removes(self.id);
            }
            self.open = false;
        }
    }

    /// What follows a write of a frame to the client: a failed write means
    /// the client is gone, and the stream closes.
    pub fn after_write(&mut self, hub: &mut Hub, written: bool)
        requires
            old(hub)@.wf(),
        ensures
            final(self).id == old(self).id,
            final(hub)@.wf(),
            written ==> *final(self) == *old(self) && final(hub)@ == old(hub)@,
            !written ==> !final(self).open,
            !written && old(self).open ==> final(hub)@ == old(hub)@.unsubscribe(old(self).id),
            !written && !old(self).open ==> final(hub)@ == old(hub)@,
    {
        if !written {
            self.close(hub);
        }
    }
}

} // verus!
