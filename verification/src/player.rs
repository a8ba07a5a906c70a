//! The state of one connected player that the server's decisions read:
//! name, entity, chunk, and the keep-alive round trips that measure latency.

use vstd::prelude::*;

use std::collections::HashMap;

use crate::chunk_manager::ChunkPos;

verus! {

broadcast use vstd::std_specs::hash::group_hash_axioms;

/// The keep-alive bookkeeping of a player.
pub struct KeepAliveView {
    /// Keep-alive ids sent and not answered yet, with the time each was sent (ms).
    pub pending: Map<i32, u64>,
    /// The last measured latency (ms), if any.
    pub last_latency: Option<u64>,
    /// The id of the next keep-alive.
    pub next_id: i32,
}

/// Time that passed from `sent` to `now`, or zero when `now` is earlier.
pub open spec fn elapsed(sent: u64, now: u64) -> u64 {
    if now >= sent {
        (now - sent) as u64
    } else {
        0
    }
}

/// Sending a keep-alive at `now`: the state after, and the id sent.
pub open spec fn spec_start_measurement(k: KeepAliveView, now: u64) -> (KeepAliveView, i32) {
    (
        KeepAliveView {
            pending: k.pending.insert(k.next_id, now),
            last_latency: k.last_latency,
            next_id: if k.next_id == i32::MAX { i32::MIN } else { (k.next_id + 1) as i32 },
        },
        k.next_id,
    )
}

/// The latency that an answer at `now` to a keep-alive sent at `sent`
/// records, as a 16-bit count of milliseconds (wrapping).
pub open spec fn spec_latency(sent: u64, now: u64) -> i16 {
    elapsed(sent, now) as i16
}

/// Receiving the answer `value` to a keep-alive at `now`: the state after, and
/// the latency measured, `None` for an id that is not pending.
pub open spec fn spec_answer(k: KeepAliveView, value: i32, now: u64) -> (KeepAliveView, Option<i16>) {
    if k.pending.contains_key(value) {
        let latency = spec_latency(k.pending[value], now);
        (
            KeepAliveView {
                pending: k.pending.remove(value),
                last_latency: Some(latency as u64),
                next_id: k.next_id,
            },
            Some(latency),
        )
    } else {
        (k, None)
    }
}

/// The ping that the player list shows: the last latency as a 16-bit
/// count of milliseconds (wrapping), or 0 before any was measured.
pub open spec fn spec_ping(k: KeepAliveView) -> i16 {
    match k.last_latency {
        Some(ms) => ms as i16,
        None => 0,
    }
}

/// `rand::random::<i32>()`: a value from the thread-local generator. Nothing
/// is stated of it: any `i32` may come back.
#[verifier::external_body]
fn random_i32() -> (r: i32) {
    rand::random::<i32>()
}

/// One connected player.
pub struct Player {
    pub username: Option<String>,
    pub entity_id: Option<i32>,
    pub current_chunk_pos: ChunkPos,
    /// Keep-alive id -> time when it was sent (ms).
    pub pending_keepalive: HashMap<i32, u64>,
    /// Milliseconds.
    pub last_latency: Option<u64>,
    pub next_keepalive_id: i32,
}

impl Player {
    /// The keep-alive bookkeeping of the player.
    pub open spec fn keep_alive(&self) -> KeepAliveView {
        KeepAliveView {
            pending: self.pending_keepalive@,
            last_latency: self.last_latency,
            next_id: self.next_keepalive_id,
        }
    }

    /// The player's name, once it logged in.
    pub open spec fn spec_username(&self) -> Option<Seq<char>> {
        match self.username {
            Some(s) => Some(s@),
            None => None,
        }
    }

    /// A player that has not logged in: no name, no entity, at chunk (0, 0),
    /// nothing pending, and keep-alive ids starting at 1.
    pub fn new() -> (p: Self)
        ensures
            p.spec_username() is None,
            p.entity_id is None,
            p.current_chunk_pos == (ChunkPos { x: 0, z: 0 }),
            p.keep_alive() == (KeepAliveView { pending: Map::empty(), last_latency: None, next_id: 1 }),
    {
        Player {
            username: None,
            entity_id: None,
            current_chunk_pos: ChunkPos { x: 0, z: 0 },
            pending_keepalive: HashMap::new(),
            last_latency: None,
            next_keepalive_id: 1,
        }
    }

    /// Takes the next keep-alive id (wrapping) and records that it was sent at `now_ms`.
    pub fn start_latency_measurement(&mut self, now_ms: u64) -> (id: i32)
        ensures
            (final(self).keep_alive(), id) == spec_start_measurement(old(self).keep_alive(), now_ms),
            final(self).spec_username() == old(self).spec_username(),
            final(self).entity_id == old(self).entity_id,
            final(self).current_chunk_pos == old(self).current_chunk_pos,
    {
        let id = self.next_keepalive_id;
        self.next_keepalive_id = self.next_keepalive_id.wrapping_add(1);
        self.pending_keepalive.insert(id, now_ms);
        // Return the ID so caller can send it
        id
    }

    /// Takes the next keep-alive id without recording it.
    pub fn get_next_keepalive_id(&mut self) -> (id: i32)
        requires
            old(self).next_keepalive_id < i32::MAX,
        ensures
            id == old(self).next_keepalive_id,
            final(self).next_keepalive_id == old(self).next_keepalive_id + 1,
            final(self).pending_keepalive@ == old(self).pending_keepalive@,
            final(self).last_latency == old(self).last_latency,
            final(self).spec_username() == old(self).spec_username(),
            final(self).entity_id == old(self).entity_id,
            final(self).current_chunk_pos == old(self).current_chunk_pos,
    {
        let id = self.next_keepalive_id;
        self.next_keepalive_id += 1;
        id
    }

    /// Forgets a keep-alive that could not be sent.
    pub fn cancel_keepalive(&mut self, id: i32)
        ensures
            final(self).pending_keepalive@ == old(self).pending_keepalive@.remove(id),
            final(self).last_latency == old(self).last_latency,
            final(self).next_keepalive_id == old(self).next_keepalive_id,
            final(self).spec_username() == old(self).spec_username(),
            final(self).entity_id == old(self).entity_id,
            final(self).current_chunk_pos == old(self).current_chunk_pos,
    {
        self.pending_keepalive.remove(&id);
    }

    /// Handles the client's answer `value` to a keep-alive, received at
    /// `now_ms`: the latency it measures, `None` for an unexpected value.
    pub fn answer_keepalive(&mut self, value: i32, now_ms: u64) -> (latency: Option<i16>)
        ensures
            (final(self).keep_alive(), latency) == spec_answer(old(self).keep_alive(), value, now_ms),
            final(self).spec_username() == old(self).spec_username(),
            final(self).entity_id == old(self).entity_id,
            final(self).current_chunk_pos == old(self).current_chunk_pos,
    {
        match self.pending_keepalive.remove(&value) {
            Some(sent) => {
                let elapsed_ms = if now_ms >= sent {
                    now_ms - sent
                } else {
                    0
                };
                #[verifier::truncate]
                let latency = elapsed_ms as i16;
                #[verifier::truncate]
                let ms = latency as u64;
                self.last_latency = Some(ms);
                Some(latency)
            },
            None => {
                assert(self.pending_keepalive@ =~= old(self).pending_keepalive@);
                None
            },
        }
    }

    /// The ping that the player list shows for this player.
    pub fn ping(&self) -> (ping: i16)
        ensures
            ping == spec_ping(self.keep_alive()),
    {
        match self.last_latency {
            Some(ms) => {
                #[verifier::truncate]
                let ping = ms as i16;
                ping
            },
            None => 0,
        }
    }

    pub fn set_username(&mut self, username: String)
        ensures
            final(self).spec_username() == Some(username@),
            final(self).keep_alive() == old(self).keep_alive(),
            final(self).entity_id == old(self).entity_id,
            final(self).current_chunk_pos == old(self).current_chunk_pos,
    {
        self.username = Some(username);
    }

    pub fn get_username(&self) -> (name: Option<String>)
        ensures
            match name {
                Some(s) => self.spec_username() == Some(s@),
                None => self.spec_username() is None,
            },
    {
        match &self.username {
            Some(s) => Some(s.clone()),
            None => None,
        }
    }

    /// Gives the player a random entity id.
    pub fn assign_entity_id(&mut self) -> (id: i32)
        ensures
            final(self).entity_id == Some(id),
            final(self).keep_alive() == old(self).keep_alive(),
            final(self).spec_username() == old(self).spec_username(),
            final(self).current_chunk_pos == old(self).current_chunk_pos,
    {
        let id = random_i32();
        self.entity_id = Some(id);
        id
    }
}

/// A keep-alive that is answered after it was sent measures the time between
/// the two and is no longer pending; its id is the one the state offered, and
/// the next one follows it.
pub proof fn lemma_keepalive_round_trip(k: KeepAliveView, sent_at: u64, answered_at: u64)
    requires
        sent_at <= answered_at,
    ensures
        ({
            let (after_send, id) = spec_start_measurement(k, sent_at);
            let (after_answer, latency) = spec_answer(after_send, id, answered_at);
            &&& id == k.next_id
            &&& latency == Some(((answered_at - sent_at) as u64) as i16)
            &&& after_answer.pending == k.pending.remove(id)
            &&& after_answer.last_latency == Some(latency.unwrap() as u64)
            &&& spec_ping(after_answer) == ((latency.unwrap() as u64) as i16)
        }),
{
    let (after_send, id) = spec_start_measurement(k, sent_at);
    assert(after_send.pending.remove(id) =~= k.pending.remove(id));
}

/// Sending a keep-alive records the time it was sent under the id offered,
/// keeps every other pending id, and offers the next id after it (wrapping
/// from the largest `i32` to the smallest); the ping shows 0 before any
/// latency was measured and a measured latency below 2^15 ms as it is.
pub proof fn lemma_keepalive_send_and_ping(k: KeepAliveView, now: u64, other: i32)
    ensures
        ({
            let (after, id) = spec_start_measurement(k, now);
            &&& id == k.next_id
            &&& after.pending.contains_key(id) && after.pending[id] == now
            &&& other != id ==> after.pending.contains_key(other) == k.pending.contains_key(other)
            &&& other != id && k.pending.contains_key(other) ==> after.pending[other] == k.pending[other]
            &&& after.next_id as int == (if k.next_id == i32::MAX { i32::MIN as int } else { k.next_id + 1 })
            &&& after.last_latency == k.last_latency
        }),
        k.last_latency is None ==> spec_ping(k) == 0,
        k.last_latency is Some && k.last_latency.unwrap() < 0x8000 ==> spec_ping(k) as int == k.last_latency.unwrap() as int,
{
}

/// An answer to an id that is not pending changes nothing and measures nothing.
pub proof fn lemma_unexpected_answer_ignored(k: KeepAliveView, value: i32, now: u64)
    requires
        !k.pending.contains_key(value),
    ensures
        spec_answer(k, value, now) == (k, None::<i16>),
{
}

} // verus!
