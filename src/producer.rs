//! The producer's side of a session: it numbers messages, publishes them into
//! the ring, and keeps a subscription for each message whose result it awaits.
use crate::error::Error;
use crate::registry::Registry;
use crate::ringbuf::{space_needed, Ringbuf, MAX_PAYLOAD_LEN, OFFSET_LIMIT};
use vstd::prelude::*;

verus! {

pub struct Producer {
    pub ring: Ringbuf,
    pub registry: Registry,
    /// The id the next message gets; ids are never reused, not even across a
    /// change of ring.
    pub next_id: u32,
}

impl Producer {
    pub open spec fn wf(&self) -> bool {
        &&& self.ring.inv()
        &&& self.registry.wf()
        &&& forall|id: u32| #[trigger] self.registry@.contains_key(id) ==> id < self.next_id
    }

    pub fn new(ring: Ringbuf) -> (r: Producer)
        requires
            ring.inv(),
        ensures
            r.wf(),
            r.ring == ring,
            r.registry@ == Map::<u32, u64>::empty(),
            r.next_id == 0,
    {
        Producer { ring, registry: Registry::new(), next_id: 0 }
    }

    /// Publishes `payload` under the next id and returns that id.
    ///
    /// Fails with `NotEnoughSpace` when the ring is too full, and with
    /// `InvalidParameter` once every id has been used; either way nothing
    /// changes.
    pub fn send(&mut self, payload: &Vec<u8>) -> (r: Result<u32, Error>)
        requires
            old(self).wf(),
            old(self).ring.spec_produce() <= OFFSET_LIMIT,
            payload.len() <= MAX_PAYLOAD_LEN,
        ensures
            final(self).wf(),
            final(self).registry@ == old(self).registry@,
            old(self).next_id == u32::MAX ==> (r matches Err(e) && e is InvalidParameter),
            old(self).next_id < u32::MAX && space_needed(
                old(self).ring.spec_capacity(),
                old(self).ring.spec_produce(),
                payload.len() as int,
            ) > old(self).ring.spec_remaining() ==> (r matches Err(e) && e is NotEnoughSpace),
            r is Err ==> final(self).ring == old(self).ring && final(self).next_id == old(
                self,
            ).next_id,
            r matches Ok(id) ==> {
                &&& id == old(self).next_id
                &&& final(self).next_id == id + 1
                &&& final(self).ring.spec_produce() == old(self).ring.spec_produce() + space_needed(
                    old(self).ring.spec_capacity(),
                    old(self).ring.spec_produce(),
                    payload.len() as int,
                )
                &&& final(self).ring.spec_consume() == old(self).ring.spec_consume()
                &&& old(self).ring.wf() ==> final(self).ring.wf() && final(self).ring.messages()
                    == old(self).ring.messages().push((id, payload@))
            },
            r is Ok <==> old(self).next_id < u32::MAX && space_needed(
                old(self).ring.spec_capacity(),
                old(self).ring.spec_produce(),
                payload.len() as int,
            ) <= old(self).ring.spec_remaining(),
    {
        if self.next_id == u32::MAX {
            return Err(Error::InvalidParameter { detail: "message ids are exhausted".to_string() });
        }
        let id = self.next_id;
        match self.ring.publish(id, payload) {
            Err(e) => Err(e),
            Ok(()) => {
                self.next_id = id + 1;
                Ok(id)
            },
        }
    }

    /// Publishes `payload` like `send`, and subscribes to its result until
    /// `deadline`. The id is fresh, so the subscription is always accepted.
    pub fn send_and_subscribe(&mut self, payload: &Vec<u8>, deadline: u64) -> (r: Result<
        u32,
        Error,
    >)
        requires
            old(self).wf(),
            old(self).ring.spec_produce() <= OFFSET_LIMIT,
            payload.len() <= MAX_PAYLOAD_LEN,
        ensures
            final(self).wf(),
            r is Ok <==> old(self).next_id < u32::MAX && space_needed(
                old(self).ring.spec_capacity(),
                old(self).ring.spec_produce(),
                payload.len() as int,
            ) <= old(self).ring.spec_remaining(),
            r is Err ==> final(self).ring == old(self).ring && final(self).registry@ == old(
                self,
            ).registry@ && final(self).next_id == old(self).next_id,
            r matches Ok(id) ==> {
                &&& id == old(self).next_id
                &&& final(self).next_id == id + 1
                &&& final(self).registry@ == old(self).registry@.insert(id, deadline)
                &&& old(self).ring.wf() ==> final(self).ring.wf() && final(self).ring.messages()
                    == old(self).ring.messages().push((id, payload@))
            },
    {
        let id = match self.send(payload) {
            Err(e) => {
                return Err(e);
            },
            Ok(id) => id,
        };
        match self.registry.register(id, deadline) {
            Err(e) => {
                assert(false);
                Err(e)
            },
            Ok(()) => Ok(id),
        }
    }

    /// Starts over on a fresh ring after a reconnect: every outstanding
    /// subscription is dropped and its id returned, once each, for its waiter
    /// to complete with *Disconnected*. Ids keep counting up.
    pub fn reset(&mut self, ring: Ringbuf) -> (r: Vec<u32>)
        requires
            old(self).wf(),
            ring.inv(),
        ensures
            final(self).wf(),
            final(self).ring == ring,
            final(self).next_id == old(self).next_id,
            final(self).registry@ == Map::<u32, u64>::empty(),
            r@.no_duplicates(),
            forall|id: u32| r@.contains(id) <==> old(self).registry@.contains_key(id),
    {
        self.ring = ring;
        self.registry.drain()
    }
}

/// After a reconnect onto a fresh ring, the ring starts from zero offsets
/// and every id that was outstanding before is below the id the next message
/// gets: ids are not reused across a reset.
pub proof fn law_reset_starts_fresh(before: &Producer, after: &Producer, id: u32)
    requires
        before.wf(),
        after.wf(),
        after.next_id == before.next_id,
        after.ring.spec_produce() == 0,
        after.ring.spec_consume() == 0,
        before.registry@.contains_key(id),
    ensures
        id < after.next_id,
        after.ring.spec_produce() == after.ring.spec_consume(),
{
}

} // verus!
