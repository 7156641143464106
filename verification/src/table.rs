//! The socket worker's connection table: dense, reusable integer
//! keys, presence-filtered routing for the response demultiplexer,
//! and the bounded-age sweep.

use vstd::prelude::*;
use crate::types::{ConnectionId, PeerAddr, ResponseEnvelope};

verus! {

/// What the worker's bookkeeping holds of a connection: where its
/// peer is, and until when it is considered alive.
#[derive(Clone, Copy, Debug, PartialEq, Eq, Structural)]
pub struct TableEntry {
    pub peer_addr: PeerAddr,
    /// Deadline for the inactivity sweep, refreshed on every touch.
    pub valid_until: u64,
}

pub open spec fn spec_slot_entry(s: Option<TableEntry>) -> TableEntry {
    match s {
        Some(e) => e,
        None => arbitrary(),
    }
}

/// The table: slot `i` holds the connection with id `i`. A vacated
/// slot is reused by the next insert, so ids stay dense; an id is
/// stable for its connection's lifetime.
pub struct ConnectionTable {
    pub slots: Vec<Option<TableEntry>>,
}

impl ConnectionTable {
    /// The table as a map from live connection id to entry. Exactly
    /// one entry exists per live connection: its slot.
    pub open spec fn view(self) -> Map<int, TableEntry> {
        Map::new(
            |i: int| 0 <= i < self.slots@.len() && self.slots@[i] is Some,
            |i: int| spec_slot_entry(self.slots@[i]),
        )
    }

    pub fn new() -> (t: ConnectionTable)
        ensures
            t@ == Map::<int, TableEntry>::empty(),
            t.slots@.len() == 0,
    {
        let t = ConnectionTable { slots: Vec::new() };
        proof {
            assert(t@ =~= Map::<int, TableEntry>::empty());
        }
        t
    }

    /// Reserve the lowest vacant id for a new connection.
    pub fn insert(&mut self, entry: TableEntry) -> (id: ConnectionId)
        ensures
            !old(self)@.dom().contains(id.0 as int),
            final(self)@ == old(self)@.insert(id.0 as int, entry),
            forall|j: int| 0 <= j < id.0 ==> old(self)@.dom().contains(j),
            id.0 <= old(self).slots@.len(),
    {
        let n = self.slots.len();
        let mut i: usize = 0;
        while i < n
            invariant
                n == self.slots@.len(),
                i <= n,
                self.slots@ == old(self).slots@,
                forall|j: int| 0 <= j < i ==> self.slots@[j] is Some,
            decreases n - i,
        {
            let vacant = match &self.slots[i] {
                Option::None => true,
                Option::Some(_) => false,
            };
            if vacant {
                let ghost pre = *self;
                self.slots[i] = Some(entry);
                proof {
                    assert(self@ =~= pre@.insert(i as int, entry));
                }
                return ConnectionId(i);
            }
            i += 1;
        }
        let ghost pre = *self;
        self.slots.push(Some(entry));
        proof {
            assert(self@ =~= pre@.insert(n as int, entry));
        }
        ConnectionId(n)
    }

    /// Look a connection up by id: present iff the id is live, and
    /// then it is that id's entry — never another connection's.
    pub fn get(&self, id: ConnectionId) -> (r: Option<TableEntry>)
        ensures
            match r {
                Some(e) => self@.dom().contains(id.0 as int) && e == self@[id.0 as int],
                None => !self@.dom().contains(id.0 as int),
            },
    {
        if id.0 < self.slots.len() {
            self.slots[id.0]
        } else {
            None
        }
    }

    /// Drop a connection's entry; its id may be reused later.
    pub fn remove(&mut self, id: ConnectionId) -> (was_present: bool)
        ensures
            final(self)@ == old(self)@.remove(id.0 as int),
            was_present == old(self)@.dom().contains(id.0 as int),
    {
        if id.0 < self.slots.len() {
            let present = match &self.slots[id.0] {
                Option::Some(_) => true,
                Option::None => false,
            };
            if present {
                let ghost pre = *self;
                self.slots[id.0] = None;
                proof {
                    assert(self@ =~= pre@.remove(id.0 as int));
                }
                return true;
            }
        }
        proof {
            assert(self@ =~= self@.remove(id.0 as int));
        }
        false
    }

    /// Push a live connection's sweep deadline forward (any I/O on
    /// the connection counts as a touch).
    pub fn refresh(&mut self, id: ConnectionId, valid_until: u64) -> (was_present: bool)
        ensures
            was_present == old(self)@.dom().contains(id.0 as int),
            was_present ==> final(self)@ == old(self)@.insert(
                id.0 as int,
                TableEntry { peer_addr: old(self)@[id.0 as int].peer_addr, valid_until },
            ),
            !was_present ==> *final(self) == *old(self),
    {
        if id.0 < self.slots.len() {
            let slot = self.slots[id.0];
            if let Option::Some(e) = slot {
                let ghost pre = *self;
                self.slots[id.0] = Some(TableEntry { peer_addr: e.peer_addr, valid_until });
                proof {
                    assert(self@ =~= pre@.insert(
                        id.0 as int,
                        TableEntry { peer_addr: pre@[id.0 as int].peer_addr, valid_until },
                    ));
                }
                return true;
            }
        }
        false
    }

    /// Evict every connection whose deadline has passed; the rest
    /// stay untouched. Amortized by the caller: it runs only every
    /// `SWEEP_INTERVAL` poll iterations.
    pub fn sweep(&mut self, now: u64)
        ensures
            forall|i: int|
                #[trigger] final(self)@.dom().contains(i) <==> (old(self)@.dom().contains(i)
                    && old(self)@[i].valid_until >= now),
            forall|i: int|
                final(self)@.dom().contains(i) ==> final(self)@[i] == old(self)@[i],
    {
        let n = self.slots.len();
        let mut i: usize = 0;
        while i < n
            invariant
                n == self.slots@.len(),
                i <= n,
                forall|j: int|
                    i <= j < n ==> self.slots@[j] == old(self).slots@[j],
                forall|j: int| #![trigger self.slots@[j]] 0 <= j < i ==> {
                    &&& (self.slots@[j] is Some <==> (old(self).slots@[j] is Some
                        && spec_slot_entry(old(self).slots@[j]).valid_until >= now))
                    &&& (self.slots@[j] is Some ==> self.slots@[j] == old(self).slots@[j])
                },
            decreases n - i,
        {
            let expired = match &self.slots[i] {
                Option::Some(e) => e.valid_until < now,
                Option::None => false,
            };
            if expired {
                self.slots[i] = None;
            }
            i += 1;
        }
    }

}

/// The demultiplexer's routing rule: a response goes to the one
/// connection whose id its envelope names, and only if that entry is
/// still live; a response for an evicted id is dropped — no other
/// connection ever receives it.
pub fn route_response(table: &ConnectionTable, envelope: ResponseEnvelope) -> (target: Option<
    ConnectionId,
>)
    ensures
        match target {
            Some(cid) => {
                &&& cid == envelope.connection_id
                &&& table@.dom().contains(cid.0 as int)
            },
            None => !table@.dom().contains(envelope.connection_id.0 as int),
        },
{
    match table.get(envelope.connection_id) {
        Some(_) => Some(envelope.connection_id),
        None => None,
    }
}

} // verus!
