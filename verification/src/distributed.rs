//! Cross-node messaging. A distributed scheduler wraps a local one, adds
//! node identity and peer bookkeeping, and stamps broadcasts so that every
//! node inserts them at the same place in its delivery order.

use crate::actor::{ActorCell, ActorId};
use crate::message::{DataView, MessageData, MessageView};
use crate::scheduler::{EntryView, Scheduler};
use vstd::prelude::*;

verus! {

/// A node's identifier.
pub type NodeId = String;

/// The envelope a transport carries between nodes: everything a peer needs
/// to insert the message into its own queue at the same position.
#[derive(Debug, PartialEq)]
pub struct DistributedMessage {
    pub from_node: NodeId,
    pub target_actor: ActorId,
    pub sender_actor: ActorId,
    pub logical_time: u64,
    pub sequence_id: u64,
    pub data: MessageData,
}

/// Mathematical value of a [`DistributedMessage`].
pub struct DistributedMessageView {
    pub from_node: Seq<char>,
    pub target_actor: Seq<char>,
    pub sender_actor: Seq<char>,
    pub logical_time: u64,
    pub sequence_id: u64,
    pub data: DataView,
}

impl View for DistributedMessage {
    type V = DistributedMessageView;

    open spec fn view(&self) -> DistributedMessageView {
        DistributedMessageView {
            from_node: self.from_node@,
            target_actor: self.target_actor@,
            sender_actor: self.sender_actor@,
            logical_time: self.logical_time,
            sequence_id: self.sequence_id,
            data: self.data@,
        }
    }
}

impl Clone for DistributedMessage {
    /// A clone carries the same envelope.
    fn clone(&self) -> (r: Self)
        ensures
            r@ == self@,
    {
        DistributedMessage {
            from_node: self.from_node.clone(),
            target_actor: self.target_actor.clone(),
            sender_actor: self.sender_actor.clone(),
            logical_time: self.logical_time,
            sequence_id: self.sequence_id,
            data: self.data.clone(),
        }
    }
}

/// The queue entry an envelope turns into, on every node alike: the ordering
/// key is the envelope's, never the receiving node's.
pub open spec fn envelope_entry(m: DistributedMessageView) -> EntryView {
    EntryView {
        target: m.target_actor,
        message: MessageView {
            sender: m.sender_actor,
            data: m.data,
            logical_time: m.logical_time,
            sequence_id: m.sequence_id,
        },
    }
}

/// A local scheduler with a node identity and a peer list. Broadcasting
/// stamps an envelope from the local counters and self-delivers it; the
/// transport of envelopes to peers is the caller's business.
pub struct DistributedScheduler {
    pub node_id: NodeId,
    inner: Scheduler,
    peers: Vec<NodeId>,
}

/// The views of a peer list.
pub open spec fn peers_view(s: Seq<NodeId>) -> Seq<Seq<char>> {
    s.map_values(|p: NodeId| p@)
}

impl DistributedScheduler {
    /// The node's identity.
    pub closed spec fn node(&self) -> Seq<char> {
        self.node_id@
    }

    /// The wrapped scheduler.
    pub closed spec fn inner_view(&self) -> Scheduler {
        self.inner
    }

    /// The known peers, in arrival order.
    pub closed spec fn peers_seq(&self) -> Seq<Seq<char>> {
        peers_view(self.peers@)
    }

    /// Wraps a scheduler under a node identity, with no peers yet.
    pub fn new(node_id: NodeId, inner: Scheduler) -> (r: Self)
        requires
            inner.wf(),
        ensures
            r.inner_view().wf(),
            r.node() == node_id@,
            r.inner_view() == inner,
            r.peers_seq() == Seq::<Seq<char>>::empty(),
    {
        let r = DistributedScheduler { node_id, inner, peers: Vec::new() };
        proof {
            assert(peers_view(r.peers@) =~= Seq::<Seq<char>>::empty());
        }
        r
    }

    /// Remembers one more peer.
    pub fn add_peer(&mut self, peer_id: NodeId)
        ensures
            final(self).peers_seq() == old(self).peers_seq().push(peer_id@),
            final(self).inner_view() == old(self).inner_view(),
            final(self).node() == old(self).node(),
    {
        let ghost pre = self.peers@;
        self.peers.push(peer_id);
        proof {
            assert(peers_view(self.peers@) =~= peers_view(pre).push(self.peers@.last()@));
        }
    }

    /// Stamps a fresh `(logical_time, sequence_id)` pair from the local
    /// counters, builds the envelope, self-delivers it, and returns it for
    /// the transport to carry to the peers. A peer that feeds the same
    /// envelope to `receive_remote` enqueues the identical entry.
    pub fn broadcast(
        &mut self,
        target_actor: ActorId,
        sender_actor: ActorId,
        data: MessageData,
    ) -> (r: DistributedMessage)
        requires
            old(self).inner_view().wf(),
            old(self).inner_view().clock() < u64::MAX,
            old(self).inner_view().seq_counter() < u64::MAX,
        ensures
            final(self).inner_view().wf(),
            r@ == (DistributedMessageView {
                from_node: old(self).node(),
                target_actor: target_actor@,
                sender_actor: sender_actor@,
                logical_time: (old(self).inner_view().clock() + 1) as u64,
                sequence_id: (old(self).inner_view().seq_counter() + 1) as u64,
                data: data@,
            }),
            final(self).inner_view().clock() == old(self).inner_view().clock() + 1,
            final(self).inner_view().seq_counter() == old(self).inner_view().seq_counter() + 1,
            final(self).inner_view().queue_view() == old(self).inner_view().queue_view().push(
                envelope_entry(r@),
            ),
            final(self).inner_view().actors_seq() == old(self).inner_view().actors_seq(),
            final(self).inner_view().trace() == old(self).inner_view().trace(),
            final(self).node() == old(self).node(),
            final(self).peers_seq() == old(self).peers_seq(),
    {
        let stamp = self.inner.advance_stamp();
        let logical_time = stamp.0;
        let seq = stamp.1;
        let dist_msg = DistributedMessage {
            from_node: self.node_id.clone(),
            target_actor,
            sender_actor,
            logical_time,
            sequence_id: seq,
            data,
        };
        let r = dist_msg.clone();
        self.receive_remote(dist_msg);
        r
    }

    /// Inserts an envelope from another node — or this one — into the local
    /// queue, keeping the envelope's `(logical_time, sequence_id)` verbatim
    /// as the ordering key and advancing the clock to the envelope's time
    /// when that is ahead. Every node holding the same entries therefore
    /// delivers them in the same order.
    pub fn receive_remote(&mut self, msg: DistributedMessage)
        requires
            old(self).inner_view().wf(),
        ensures
            final(self).inner_view().wf(),
            final(self).inner_view().clock() == (if msg.logical_time > old(self).inner_view().clock() {
                msg.logical_time
            } else {
                old(self).inner_view().clock()
            }),
            final(self).inner_view().seq_counter() == old(self).inner_view().seq_counter(),
            final(self).inner_view().queue_view() == old(self).inner_view().queue_view().push(
                envelope_entry(msg@),
            ),
            final(self).inner_view().actors_seq() == old(self).inner_view().actors_seq(),
            final(self).inner_view().trace() == old(self).inner_view().trace(),
            final(self).node() == old(self).node(),
            final(self).peers_seq() == old(self).peers_seq(),
    {
        self.inner.send_with_time(
            msg.target_actor,
            msg.data,
            msg.sender_actor,
            msg.logical_time,
            msg.sequence_id,
        );
    }

    /// Spawns an actor on the wrapped scheduler.
    pub fn spawn(&mut self, actor_cell: ActorCell) -> (r: bool)
        requires
            old(self).inner_view().wf(),
            actor_cell.wf(),
        ensures
            final(self).inner_view().wf(),
            !old(self).inner_view().spec_has_actor(actor_cell.id@) ==> r == true && final(self).inner_view().actors_seq() == old(self).inner_view().actors_seq().push(actor_cell),
            old(self).inner_view().spec_has_actor(actor_cell.id@) ==> r == false && final(self).inner_view().actors_seq() == old(self).inner_view().actors_seq(),
            final(self).inner_view().queue_view() == old(self).inner_view().queue_view(),
            final(self).inner_view().clock() == old(self).inner_view().clock(),
            final(self).inner_view().seq_counter() == old(self).inner_view().seq_counter(),
            final(self).inner_view().trace() == old(self).inner_view().trace(),
            final(self).node() == old(self).node(),
            final(self).peers_seq() == old(self).peers_seq(),
    {
        self.inner.spawn(actor_cell)
    }

    /// Delivers the globally next message on the wrapped scheduler: the
    /// queued entry least under `(logical_time, target, sequence_id)` is
    /// removed and handled exactly as the wrapped scheduler's `step` says.
    pub fn step(&mut self) -> (r: bool)
        requires
            old(self).inner_view().wf(),
        ensures
            final(self).inner_view().wf(),
            final(self).node() == old(self).node(),
            final(self).peers_seq() == old(self).peers_seq(),
            final(self).inner_view().clock() == old(self).inner_view().clock(),
            final(self).inner_view().seq_counter() == old(self).inner_view().seq_counter(),
            old(self).inner_view().queue_view().len() == 0 ==> ({
                &&& r == false
                &&& final(self).inner_view().queue_view() == old(self).inner_view().queue_view()
                &&& final(self).inner_view().trace() == old(self).inner_view().trace()
                &&& final(self).inner_view().actors_seq() == old(self).inner_view().actors_seq()
            }),
            old(self).inner_view().queue_view().len() > 0 ==> ({
                let q = old(self).inner_view().queue_view();
                let i = crate::scheduler::first_min_index(q);
                let e = q[i];
                &&& final(self).inner_view().queue_view() == q.remove(i)
                &&& forall|j: int|
                    0 <= j < q.len() ==> crate::order::key_le(
                        crate::scheduler::entry_key(e),
                        #[trigger] crate::scheduler::entry_key(q[j]),
                    )
                &&& r == old(self).inner_view().spec_has_actor(e.target)
            }),
    {
        self.inner.step()
    }

    /// The wrapped scheduler's logical clock.
    pub fn clock_value(&self) -> (r: u64)
        ensures
            r == self.inner_view().clock(),
    {
        self.inner.clock_value()
    }

    /// The wrapped scheduler's sequence counter.
    pub fn sequence_value(&self) -> (r: u64)
        ensures
            r == self.inner_view().seq_counter(),
    {
        self.inner.sequence_value()
    }

    /// The wrapped scheduler's recorded trace.
    pub fn trace_events(&self) -> (r: &crate::trace::Tracer)
        ensures
            r.log() == self.inner_view().trace(),
    {
        self.inner.tracer()
    }
}

} // verus!
