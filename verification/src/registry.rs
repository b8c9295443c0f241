//! The relay's registry: one entry per live connection, each with an
//! unbounded FIFO outbound queue, driving broadcast fan-out and connection
//! lifecycle. Broadcast appends a message to every queue but the sender's, so
//! each recipient sees one sender's messages in the sender's order.

use vstd::prelude::*;
use vstd::pervasive::VecAdditionalExecFns;
use crate::content::{MessageModel, WireMessage};

verus! {

/// The view of an outbound queue: its messages, in delivery order.
pub open spec fn messages_view(q: Seq<WireMessage>) -> Seq<MessageModel> {
    q.map_values(|m: WireMessage| m@)
}

/// One live connection: its identity and its outbound queue.
#[derive(Debug)]
pub struct RegistryEntry {
    pub id: u64,
    pub queue: Vec<WireMessage>,
}

/// One transport event the relay reacts to.
#[derive(Debug)]
pub enum RelayEvent {
    /// A data frame to fan out.
    Data(WireMessage),
    /// The sender closed its side; ends the sender's session only.
    Closed,
}

/// Whether the relay forwards this event to the other connections. Close
/// events are never broadcast.
pub fn should_broadcast(event: &RelayEvent) -> (r: bool)
    ensures
        r == (event is Data),
{
    match event {
        RelayEvent::Data(_) => true,
        RelayEvent::Closed => false,
    }
}

/// The registry of live connections.
#[derive(Debug)]
pub struct Registry {
    entries: Vec<RegistryEntry>,
}

impl Registry {
    /// The registered connections, in registration order.
    pub closed spec fn connections(self) -> Seq<RegistryEntry> {
        self.entries@
    }

    /// Connection identities are pairwise distinct.
    pub open spec fn wf(self) -> bool {
        forall|i: int, j: int|
            0 <= i < j < self.connections().len() ==> (#[trigger] self.connections()[i].id) != (
            #[trigger] self.connections()[j].id)
    }

    /// Whether a connection with this identity is registered.
    pub open spec fn has(self, id: u64) -> bool {
        exists|i: int| 0 <= i < self.connections().len() && self.connections()[i].id == id
    }

    /// An empty registry.
    pub fn new() -> (r: Registry)
        ensures
            r.wf(),
            r.connections().len() == 0,
    {
        Registry { entries: Vec::new() }
    }

    /// How many connections are registered.
    pub fn len(&self) -> (n: usize)
        ensures
            n == self.connections().len(),
    {
        self.entries.len()
    }

    /// Whether a connection with this identity is registered.
    pub fn contains(&self, id: u64) -> (r: bool)
        ensures
            r == self.has(id),
    {
        let mut i: usize = 0;
        while i < self.entries.len()
            invariant
                i <= self.entries@.len(),
                forall|j: int| 0 <= j < i ==> self.entries@[j].id != id,
            decreases self.entries@.len() - i,
        {
            if self.entries[i].id == id {
                proof {
                    assert(self.connections()[i as int].id == id);
                }
                return true;
            }
            i += 1;
        }
        false
    }

    /// Registers a connection with an empty outbound queue. Returns false and
    /// changes nothing when the identity is already present.
    pub fn register(&mut self, id: u64) -> (added: bool)
        requires
            old(self).wf(),
        ensures
            final(self).wf(),
            added == !old(self).has(id),
            final(self).has(id),
            !added ==> final(self).connections() == old(self).connections(),
            added ==> final(self).connections().len() == old(self).connections().len() + 1,
            added ==> forall|i: int|
                0 <= i < old(self).connections().len() ==> final(self).connections()[i] == old(self).connections()[i],
            added ==> final(self).connections()[old(self).connections().len() as int].id == id
                && final(self).connections()[old(self).connections().len() as int].queue@
                == Seq::<WireMessage>::empty(),
    {
        let mut i: usize = 0;
        while i < self.entries.len()
            invariant
                i <= self.entries@.len(),
                forall|j: int| 0 <= j < i ==> self.entries@[j].id != id,
                self == old(self),
                old(self).wf(),
            decreases self.entries@.len() - i,
        {
            if self.entries[i].id == id {
                proof {
                    assert(old(self).connections()[i as int].id == id);
                }
                return false;
            }
            i += 1;
        }
        self.entries.push(RegistryEntry { id, queue: Vec::new() });
        proof {
            let olen = old(self).connections().len() as int;
            assert(self.connections()[olen].id == id);
            assert(!old(self).has(id)) by {
                if old(self).has(id) {
                    let w = choose|w: int|
                        0 <= w < old(self).connections().len() && old(self).connections()[w].id
                            == id;
                    assert(old(self).connections()[w].id != id);
                }
            }
            assert forall|i: int, j: int|
                0 <= i < j < self.connections().len() implies self.connections()[i].id
                != self.connections()[j].id by {
                if j < olen {
                    assert(old(self).connections()[i].id != old(self).connections()[j].id);
                } else {
                    assert(self.connections()[i].id == old(self).connections()[i].id);
                    assert(old(self).connections()[i].id != id);
                }
            }
        }
        true
    }

    /// Removes the connection if present; does nothing otherwise, so removal
    /// is idempotent: a second removal of the same identity changes nothing.
    pub fn unregister(&mut self, id: u64)
        requires
            old(self).wf(),
        ensures
            final(self).wf(),
            !final(self).has(id),
            !old(self).has(id) ==> final(self).connections() == old(self).connections(),
            old(self).has(id) ==> exists|k: int|
                0 <= k < old(self).connections().len() && old(self).connections()[k].id == id
                    && final(self).connections() == old(self).connections().remove(k),
    {
        let mut i: usize = 0;
        while i < self.entries.len()
            invariant
                i <= self.entries@.len(),
                forall|j: int| 0 <= j < i ==> self.entries@[j].id != id,
                self == old(self),
                old(self).wf(),
            decreases self.entries@.len() - i,
        {
            if self.entries[i].id == id {
                proof {
                    assert(old(self).connections()[i as int].id == id);
                }
                self.entries.remove(i);
                proof {
                    let oc = old(self).connections();
                    assert(self.connections() =~= oc.remove(i as int));
                    assert forall|j: int|
                        0 <= j < self.connections().len() implies self.connections()[j].id
                        != id by {
                        if j < i {
                            assert(oc[j].id != id);
                        } else {
                            assert(self.connections()[j] == oc[j + 1]);
                            assert(oc[i as int].id != oc[j + 1].id);
                        }
                    }
                    assert forall|a: int, b: int|
                        0 <= a < b < self.connections().len() implies self.connections()[a].id
                        != self.connections()[b].id by {
                        let a0 = if a < i { a } else { a + 1 };
                        let b0 = if b < i { b } else { b + 1 };
                        assert(self.connections()[a] == oc[a0]);
                        assert(self.connections()[b] == oc[b0]);
                        assert(oc[a0].id != oc[b0].id);
                    }
                }
                return ;
            }
            i += 1;
        }
        proof {
            assert(!final(self).has(id)) by {
                if final(self).has(id) {
                    let w = choose|w: int|
                        0 <= w < self.connections().len() && self.connections()[w].id == id;
                    assert(self.connections()[w].id != id);
                }
            }
        }
    }

    /// Appends the message to the queue of every connection but the sender's.
    /// Identities and entry order are untouched; each other queue grows by
    /// exactly this message at its tail, so one sender's messages reach every
    /// recipient in the sender's order; nothing is ever queued for the sender
    /// itself.
    pub fn broadcast_except(&mut self, sender: u64, msg: &WireMessage)
        ensures
            final(self).connections().len() == old(self).connections().len(),
            forall|i: int|
                0 <= i < old(self).connections().len() ==> (#[trigger] final(self).connections()[i]).id == old(self).connections()[i].id,
            forall|i: int|
                0 <= i < old(self).connections().len() && old(self).connections()[i].id != sender
                    ==> messages_view((#[trigger] final(self).connections()[i]).queue@)
                    == messages_view(old(self).connections()[i].queue@) + seq![msg@],
            forall|i: int|
                0 <= i < old(self).connections().len() && old(self).connections()[i].id == sender
                    ==> (#[trigger] final(self).connections()[i]).queue@
                    == old(self).connections()[i].queue@,
            old(self).wf() ==> final(self).wf(),
    {
        let n = self.entries.len();
        let mut k: usize = 0;
        while k < n
            invariant
                n == self.entries@.len(),
                n == old(self).entries@.len(),
                k <= n,
                forall|i: int| k <= i < n ==> self.entries@[i] == old(self).entries@[i],
                forall|i: int|
                    0 <= i < k ==> (#[trigger] self.entries@[i]).id == old(self).entries@[i].id,
                forall|i: int|
                    0 <= i < k && old(self).entries@[i].id != sender ==> messages_view(
                        (#[trigger] self.entries@[i]).queue@,
                    ) == messages_view(old(self).entries@[i].queue@) + seq![msg@],
                forall|i: int|
                    0 <= i < k && old(self).entries@[i].id == sender ==> (#[trigger] self
                        .entries@[i]).queue@ == old(self).entries@[i].queue@,
            decreases n - k,
        {
            let mut tmp = RegistryEntry { id: 0, queue: Vec::new() };
            self.entries.set_and_swap(k, &mut tmp);
            if tmp.id != sender {
                let ghost before = tmp.queue@;
                tmp.queue.push(msg.duplicate());
                proof {
                    assert(messages_view(tmp.queue@) =~= messages_view(before) + seq![msg@]);
                }
            }
            self.entries.set_and_swap(k, &mut tmp);
            k += 1;
        }
    }

    /// Takes the queued messages of a connection in delivery order, leaving
    /// its queue empty. An unknown identity yields nothing.
    pub fn drain(&mut self, id: u64) -> (out: Vec<WireMessage>)
        requires
            old(self).wf(),
        ensures
            final(self).connections().len() == old(self).connections().len(),
            forall|i: int|
                0 <= i < old(self).connections().len() ==> (#[trigger] final(self).connections()[i]).id == old(self).connections()[i].id,
            forall|i: int|
                0 <= i < old(self).connections().len() && old(self).connections()[i].id != id
                    ==> (#[trigger] final(self).connections()[i]).queue@
                    == old(self).connections()[i].queue@,
            forall|i: int|
                0 <= i < old(self).connections().len() && old(self).connections()[i].id == id
                    ==> (#[trigger] final(self).connections()[i]).queue@ == Seq::<WireMessage>::empty()
                    && out@ == old(self).connections()[i].queue@,
            !old(self).has(id) ==> out@ == Seq::<WireMessage>::empty(),
            old(self).wf() ==> final(self).wf(),
    {
        let n = self.entries.len();
        let mut k: usize = 0;
        while k < n
            invariant
                n == self.entries@.len(),
                n == old(self).entries@.len(),
                k <= n,
                forall|i: int| k <= i < n ==> self.entries@[i] == old(self).entries@[i],
                forall|i: int| 0 <= i < k ==> self.entries@[i] == old(self).entries@[i],
                forall|j: int| 0 <= j < k ==> old(self).entries@[j].id != id,
                old(self).wf(),
            decreases n - k,
        {
            let found = self.entries[k].id == id;
            if found {
                let mut tmp = RegistryEntry { id, queue: Vec::new() };
                self.entries.set_and_swap(k, &mut tmp);
                proof {
                    let oc = old(self).connections();
                    assert(oc[k as int].id == id);
                    assert forall|i: int|
                        0 <= i < oc.len() && oc[i].id == id implies i == k as int by {
                        if i != k as int {
                            if i < k as int {
                                assert(oc[i].id != oc[k as int].id);
                            } else {
                                assert(oc[k as int].id != oc[i].id);
                            }
                        }
                    }
                }
                return tmp.queue;
            }
            k += 1;
        }
        Vec::new()
    }
}

} // verus!
