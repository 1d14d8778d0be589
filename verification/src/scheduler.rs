//! The delivery engine: an actor table and a time-ordered message queue.
//! `step` removes the globally next message — least under
//! `(logical_time, target, sequence_id)` — records the trace event, and
//! invokes the target actor. Two schedulers fed the same multiset of stamped
//! messages deliver them in the same order.

use crate::actor::{
    behavior_post_state, behavior_run_effects, behavior_run_fault, behavior_state, ActorCell,
    ActorId,
};
use crate::fault::ActorFault;
use crate::message::{Message, MessageData, MessageView};
use crate::order::{
    chars_lt_exec, key_le, key_lt, lemma_key_lt_connected, lemma_key_lt_irreflexive, str_chars,
    KeyView,
};
use crate::trace::{TraceEvent, TraceEventView, Tracer};
use crate::vm::{effects_view, Effect, EffectView};
use vstd::multiset::Multiset;
use vstd::prelude::*;

verus! {

/// A queue entry: a stamped message and the actor it is addressed to. It
/// exists only inside the scheduler and is destroyed on delivery.
pub struct ScheduledMessage {
    pub message: Message,
    pub target: ActorId,
}

/// Mathematical value of a [`ScheduledMessage`].
pub struct EntryView {
    pub target: Seq<char>,
    pub message: MessageView,
}

impl View for ScheduledMessage {
    type V = EntryView;

    open spec fn view(&self) -> EntryView {
        EntryView { target: self.target@, message: self.message@ }
    }
}

/// The ordering key of a queue entry.
pub open spec fn entry_key(e: EntryView) -> KeyView {
    KeyView {
        logical_time: e.message.logical_time,
        target: e.target,
        sequence_id: e.message.sequence_id,
    }
}

/// Entry order: by key.
pub open spec fn entry_le(a: EntryView, b: EntryView) -> bool {
    key_le(entry_key(a), entry_key(b))
}

/// The views of a sequence of queue entries.
pub open spec fn entries_view(s: Seq<ScheduledMessage>) -> Seq<EntryView> {
    s.map_values(|e: ScheduledMessage| e@)
}

/// The index of the entry `step` removes: the first one whose key is least.
pub open spec fn first_min_index(q: Seq<EntryView>) -> int
    decreases q.len(),
{
    if q.len() <= 1 {
        0
    } else {
        let j = first_min_index(q.drop_last());
        if key_lt(entry_key(q.last()), entry_key(q[j])) {
            q.len() - 1
        } else {
            j
        }
    }
}

/// The chosen entry's key is least among all queued keys.
pub proof fn lemma_first_min_le(q: Seq<EntryView>)
    requires
        q.len() > 0,
    ensures
        0 <= first_min_index(q) < q.len(),
        forall|j: int|
            0 <= j < q.len() ==> key_le(
                entry_key(q[first_min_index(q)]),
                #[trigger] entry_key(q[j]),
            ),
    decreases q.len(),
{
    if q.len() > 1 {
        lemma_first_min_le(q.drop_last());
        let j = first_min_index(q.drop_last());
        let m = first_min_index(q);
        assert forall|i: int| 0 <= i < q.len() implies key_le(
            entry_key(q[m]),
            #[trigger] entry_key(q[i]),
        ) by {
            let lastk = entry_key(q.last());
            let jk = entry_key(q[j]);
            if i < q.len() - 1 {
                assert(q.drop_last()[i] == q[i]);
                let ik = entry_key(q[i]);
                assert(key_le(jk, ik));
                if key_lt(lastk, jk) && jk != ik {
                    crate::order::lemma_key_lt_transitive(lastk, jk, ik);
                }
            } else {
                if !key_lt(lastk, jk) && !key_lt(jk, lastk) {
                    lemma_key_lt_connected(jk, lastk);
                }
            }
        }
    }
}

/// Decides the strict key order between two queue entries.
fn entry_lt_exec(a: &ScheduledMessage, b: &ScheduledMessage) -> (r: bool)
    ensures
        r == key_lt(entry_key(a@), entry_key(b@)),
{
    if a.message.logical_time != b.message.logical_time {
        return a.message.logical_time < b.message.logical_time;
    }
    let ta = str_chars(a.target.as_str());
    let tb = str_chars(b.target.as_str());
    let lt = chars_lt_exec(ta.as_slice(), tb.as_slice());
    if lt {
        proof {
            lemma_key_lt_irreflexive(entry_key(a@));
            if a.target@ == b.target@ {
                crate::order::lemma_chars_lt_irreflexive(a.target@);
            }
        }
        return true;
    }
    let gt = chars_lt_exec(tb.as_slice(), ta.as_slice());
    if gt {
        proof {
            if a.target@ == b.target@ {
                crate::order::lemma_chars_lt_irreflexive(a.target@);
            }
        }
        return false;
    }
    proof {
        crate::order::lemma_chars_lt_connected(a.target@, b.target@);
    }
    a.message.sequence_id < b.message.sequence_id
}

/// The delivery engine. Owns the actor table, the message queue, the logical
/// clock and sequence counter, the tracer, and the dead-letter, failure and
/// output logs.
pub struct Scheduler {
    actors: Vec<ActorCell>,
    queue: Vec<ScheduledMessage>,
    logical_clock: u64,
    sequence_counter: u64,
    tracer: Tracer,
    dead_letters: Vec<ScheduledMessage>,
    failures: Vec<(ActorId, ActorFault)>,
    effects: Vec<Effect>,
}

impl Scheduler {
    /// Actor ids are unique, and every cell is well formed.
    pub closed spec fn wf(&self) -> bool {
        &&& forall|i: int, j: int|
            0 <= i < j < self.actors@.len() ==> self.actors@[i].id@ != self.actors@[j].id@
        &&& forall|i: int| 0 <= i < self.actors@.len() ==> (#[trigger] self.actors@[i]).wf()
    }

    /// The actor table, in spawn order.
    pub closed spec fn actors_seq(&self) -> Seq<ActorCell> {
        self.actors@
    }

    /// The queued entries, in arrival order.
    pub closed spec fn queue_view(&self) -> Seq<EntryView> {
        entries_view(self.queue@)
    }

    /// The logical clock.
    pub closed spec fn clock(&self) -> u64 {
        self.logical_clock
    }

    /// The sequence counter.
    pub closed spec fn seq_counter(&self) -> u64 {
        self.sequence_counter
    }

    /// The recorded trace.
    pub closed spec fn trace(&self) -> Seq<TraceEventView> {
        self.tracer.log()
    }

    /// Entries whose target did not exist at delivery time.
    pub closed spec fn dead_letters_view(&self) -> Seq<EntryView> {
        entries_view(self.dead_letters@)
    }

    /// Faults reported by deliveries, oldest first.
    pub closed spec fn failures_view(&self) -> Seq<(ActorId, ActorFault)> {
        self.failures@
    }

    /// Effects emitted by deliveries, oldest first.
    pub closed spec fn effects_log(&self) -> Seq<EffectView> {
        effects_view(self.effects@)
    }

    /// Whether an actor with this id is spawned.
    pub open spec fn spec_has_actor(&self, id: Seq<char>) -> bool {
        exists|i: int| 0 <= i < self.actors_seq().len() && self.actors_seq()[i].id@ == id
    }

    /// The spawned actor's index in the table.
    pub open spec fn actor_index(&self, id: Seq<char>) -> int {
        choose|i: int| 0 <= i < self.actors_seq().len() && self.actors_seq()[i].id@ == id
    }

    /// An empty scheduler: no actors, nothing queued, both counters at zero.
    pub fn new() -> (r: Self)
        ensures
            r.wf(),
            r.actors_seq() == Seq::<ActorCell>::empty(),
            r.queue_view() == Seq::<EntryView>::empty(),
            r.clock() == 0,
            r.seq_counter() == 0,
            r.trace() == Seq::<TraceEventView>::empty(),
            r.dead_letters_view() == Seq::<EntryView>::empty(),
            r.failures_view() == Seq::<(ActorId, ActorFault)>::empty(),
            r.effects_log() == Seq::<EffectView>::empty(),
    {
        let r = Scheduler {
            actors: Vec::new(),
            queue: Vec::new(),
            logical_clock: 0,
            sequence_counter: 0,
            tracer: Tracer::new(),
            dead_letters: Vec::new(),
            failures: Vec::new(),
            effects: Vec::new(),
        };
        proof {
            assert(entries_view(r.queue@) =~= Seq::<EntryView>::empty());
            assert(entries_view(r.dead_letters@) =~= Seq::<EntryView>::empty());
            assert(effects_view(r.effects@) =~= Seq::<EffectView>::empty());
        }
        r
    }

    /// Looks the actor table up by id.
    fn find_actor(&self, id: &ActorId) -> (r: Option<usize>)
        requires
            self.wf(),
        ensures
            match r {
                Some(i) => i < self.actors_seq().len() && self.actors_seq()[i as int].id@ == id@,
                None => !self.spec_has_actor(id@),
            },
    {
        let mut i: usize = 0;
        while i < self.actors.len()
            invariant
                i <= self.actors@.len(),
                forall|j: int| 0 <= j < i ==> self.actors@[j].id@ != id@,
            decreases self.actors@.len() - i,
        {
            if self.actors[i].id == *id {
                return Some(i);
            }
            i = i + 1;
        }
        None
    }

    /// Inserts a new cell, keyed by its id. Fails, changing nothing, when
    /// the id is already taken.
    pub fn spawn(&mut self, actor_cell: ActorCell) -> (r: bool)
        requires
            old(self).wf(),
            actor_cell.wf(),
        ensures
            final(self).wf(),
            !old(self).spec_has_actor(actor_cell.id@) ==> r == true && final(self).actors_seq()
                == old(self).actors_seq().push(actor_cell),
            old(self).spec_has_actor(actor_cell.id@) ==> r == false && final(self).actors_seq()
                == old(self).actors_seq(),
            final(self).queue_view() == old(self).queue_view(),
            final(self).clock() == old(self).clock(),
            final(self).seq_counter() == old(self).seq_counter(),
            final(self).trace() == old(self).trace(),
            final(self).dead_letters_view() == old(self).dead_letters_view(),
            final(self).failures_view() == old(self).failures_view(),
            final(self).effects_log() == old(self).effects_log(),
    {
        match self.find_actor(&actor_cell.id) {
            Some(_) => false,
            None => {
                self.actors.push(actor_cell);
                true
            },
        }
    }

    /// Advances the clock and the sequence counter by one each and hands the
    /// new values out, as one stamp. Broadcasting draws its ordering key
    /// here, so that the key is fixed before any node enqueues the message.
    pub fn advance_stamp(&mut self) -> (r: (u64, u64))
        requires
            old(self).wf(),
            old(self).clock() < u64::MAX,
            old(self).seq_counter() < u64::MAX,
        ensures
            final(self).wf(),
            final(self).clock() == old(self).clock() + 1,
            final(self).seq_counter() == old(self).seq_counter() + 1,
            r.0 == final(self).clock(),
            r.1 == final(self).seq_counter(),
            final(self).queue_view() == old(self).queue_view(),
            final(self).actors_seq() == old(self).actors_seq(),
            final(self).trace() == old(self).trace(),
            final(self).dead_letters_view() == old(self).dead_letters_view(),
            final(self).failures_view() == old(self).failures_view(),
            final(self).effects_log() == old(self).effects_log(),
    {
        self.logical_clock = self.logical_clock + 1;
        self.sequence_counter = self.sequence_counter + 1;
        (self.logical_clock, self.sequence_counter)
    }

    /// Stamps a locally-originated message: the clock and the sequence
    /// counter each advance by one, and the new values become the message's
    /// ordering key. The entry joins the queue; nothing is delivered yet.
    pub fn send(&mut self, target: ActorId, message_data: MessageData, sender: ActorId)
        requires
            old(self).wf(),
            old(self).clock() < u64::MAX,
            old(self).seq_counter() < u64::MAX,
        ensures
            final(self).wf(),
            final(self).clock() == old(self).clock() + 1,
            final(self).seq_counter() == old(self).seq_counter() + 1,
            final(self).queue_view() == old(self).queue_view().push(
                EntryView {
                    target: target@,
                    message: MessageView {
                        sender: sender@,
                        data: message_data@,
                        logical_time: (old(self).clock() + 1) as u64,
                        sequence_id: (old(self).seq_counter() + 1) as u64,
                    },
                },
            ),
            final(self).actors_seq() == old(self).actors_seq(),
            final(self).trace() == old(self).trace(),
            final(self).dead_letters_view() == old(self).dead_letters_view(),
            final(self).failures_view() == old(self).failures_view(),
            final(self).effects_log() == old(self).effects_log(),
    {
        self.logical_clock = self.logical_clock + 1;
        self.sequence_counter = self.sequence_counter + 1;
        let msg = Message::new(sender, message_data, self.logical_clock, self.sequence_counter);
        let ghost pre = self.queue@;
        self.queue.push(ScheduledMessage { message: msg, target });
        proof {
            assert(entries_view(self.queue@) =~= entries_view(pre).push(self.queue@.last()@));
        }
    }

    /// Accepts an externally stamped message — remote or replayed. The
    /// supplied `(time, seq)` pair is kept verbatim as the ordering key; the
    /// clock only advances to `time` when that is ahead, and the sequence
    /// counter is untouched. This keeps the key independent of which node
    /// processes the message.
    pub fn send_with_time(
        &mut self,
        target: ActorId,
        message_data: MessageData,
        sender: ActorId,
        time: u64,
        seq: u64,
    )
        requires
            old(self).wf(),
        ensures
            final(self).wf(),
            final(self).clock() == (if time > old(self).clock() {
                time
            } else {
                old(self).clock()
            }),
            old(self).clock() <= final(self).clock(),
            final(self).seq_counter() == old(self).seq_counter(),
            final(self).queue_view() == old(self).queue_view().push(
                EntryView {
                    target: target@,
                    message: MessageView {
                        sender: sender@,
                        data: message_data@,
                        logical_time: time,
                        sequence_id: seq,
                    },
                },
            ),
            final(self).actors_seq() == old(self).actors_seq(),
            final(self).trace() == old(self).trace(),
            final(self).dead_letters_view() == old(self).dead_letters_view(),
            final(self).failures_view() == old(self).failures_view(),
            final(self).effects_log() == old(self).effects_log(),
    {
        if time > self.logical_clock {
            self.logical_clock = time;
        }
        let msg = Message::new(sender, message_data, time, seq);
        let ghost pre = self.queue@;
        self.queue.push(ScheduledMessage { message: msg, target });
        proof {
            assert(entries_view(self.queue@) =~= entries_view(pre).push(self.queue@.last()@));
        }
    }

    /// Delivers the globally next message: the queued entry least under
    /// `(logical_time, target, sequence_id)` leaves the queue. When its
    /// target exists, the actor's pre-execution state goes into the trace,
    /// the actor receives the message, and any effects or fault are logged;
    /// the call returns true. When the target does not exist, the entry goes
    /// to the dead-letter log and the call returns false, as it does on an
    /// empty queue.
    #[verifier::rlimit(30)]
    pub fn step(&mut self) -> (r: bool)
        requires
            old(self).wf(),
        ensures
            final(self).wf(),
            final(self).clock() == old(self).clock(),
            final(self).seq_counter() == old(self).seq_counter(),
            old(self).queue_view().len() == 0 ==> ({
                &&& r == false
                &&& final(self).queue_view() == old(self).queue_view()
                &&& final(self).actors_seq() == old(self).actors_seq()
                &&& final(self).trace() == old(self).trace()
                &&& final(self).dead_letters_view() == old(self).dead_letters_view()
                &&& final(self).failures_view() == old(self).failures_view()
                &&& final(self).effects_log() == old(self).effects_log()
            }),
            old(self).queue_view().len() > 0 ==> ({
                let q = old(self).queue_view();
                let i = first_min_index(q);
                let e = q[i];
                &&& final(self).queue_view() == q.remove(i)
                &&& forall|j: int|
                    0 <= j < q.len() ==> key_le(entry_key(e), #[trigger] entry_key(q[j]))
                &&& if old(self).spec_has_actor(e.target) {
                    let k = old(self).actor_index(e.target);
                    let pre = old(self).actors_seq()[k];
                    &&& r == true
                    &&& final(self).actors_seq().len() == old(self).actors_seq().len()
                    &&& forall|j: int|
                        0 <= j < old(self).actors_seq().len() && j != k ==> final(self).actors_seq()[j] == old(self).actors_seq()[j]
                    &&& final(self).actors_seq()[k].id == pre.id
                    &&& final(self).actors_seq()[k].context == pre.context
                    &&& behavior_post_state(
                        pre.actor,
                        e.message,
                        final(self).actors_seq()[k].actor,
                    )
                    &&& final(self).trace() == old(self).trace().push(
                        TraceEventView {
                            logical_time: e.message.logical_time,
                            actor_id: e.target,
                            input: e.message,
                            state_snapshot: behavior_state(pre.actor),
                        },
                    )
                    &&& match behavior_run_fault(pre.actor, e.message.logical_time) {
                        Option::None => final(self).failures_view() == old(self).failures_view()
                            && final(self).effects_log() == old(self).effects_log()
                            + behavior_run_effects(pre.actor, e.message.logical_time),
                        Option::Some(f) => final(self).failures_view().len() == old(self).failures_view().len() + 1 && final(self).failures_view().last().0@
                            == e.target && final(self).failures_view().last().1 == f && final(self).failures_view().take(old(self).failures_view().len() as int) == old(self).failures_view() && final(self).effects_log() == old(self).effects_log(),
                    }
                    &&& final(self).dead_letters_view() == old(self).dead_letters_view()
                } else {
                    &&& r == false
                    &&& final(self).actors_seq() == old(self).actors_seq()
                    &&& final(self).trace() == old(self).trace()
                    &&& final(self).failures_view() == old(self).failures_view()
                    &&& final(self).effects_log() == old(self).effects_log()
                    &&& final(self).dead_letters_view() == old(self).dead_letters_view().push(e)
                }
            }),
    {
        if self.queue.len() == 0 {
            return false;
        }
        let ghost q = entries_view(self.queue@);
        let mut best: usize = 0;
        let mut i: usize = 1;
        proof {
            assert(q.take(1).drop_last() =~= Seq::<EntryView>::empty());
        }
        while i < self.queue.len()
            invariant
                self.queue@.len() > 0,
                q == entries_view(self.queue@),
                1 <= i <= self.queue@.len(),
                best < i,
                best == first_min_index(q.take(i as int)),
            decreases self.queue@.len() - i,
        {
            let smaller = entry_lt_exec(&self.queue[i], &self.queue[best]);
            proof {
                let t = q.take(i + 1);
                assert(t.drop_last() =~= q.take(i as int));
                assert(t.last() == q[i as int]);
            }
            if smaller {
                best = i;
            }
            i = i + 1;
        }
        proof {
            assert(q.take(q.len() as int) =~= q);
            lemma_first_min_le(q);
        }
        let sm = self.queue.remove(best);
        proof {
            assert(entries_view(self.queue@) =~= q.remove(best as int));
            assert(sm@ == q[best as int]);
        }
        let ScheduledMessage { message: msg, target } = sm;
        match self.find_actor(&target) {
            None => {
                let ghost pre_dead = self.dead_letters@;
                self.dead_letters.push(ScheduledMessage { message: msg, target });
                proof {
                    assert(entries_view(self.dead_letters@) =~= entries_view(pre_dead).push(
                        q[best as int],
                    ));
                }
                false
            },
            Some(k) => {
                proof {
                    let ghost ki = old(self).actor_index(q[best as int].target);
                    assert(old(self).spec_has_actor(q[best as int].target));
                    assert(0 <= ki < self.actors@.len() && self.actors@[ki].id@ == q[
                        best as int].target);
                    assert(ki == k as int);
                }
                let state = self.actors[k].actor.get_state();
                let ev = TraceEvent {
                    logical_time: msg.logical_time,
                    actor_id: target.clone(),
                    input: msg.clone(),
                    state_snapshot: state,
                };
                self.tracer.record(ev);
                let ghost pre_actors = self.actors@;
                let mut cell = self.actors.remove(k);
                let res = cell.actor.receive(&msg, &mut cell.context);
                self.actors.insert(k, cell);
                proof {
                    assert(self.actors@ =~= pre_actors.update(k as int, self.actors@[k as int]));
                }
                match res {
                    Ok(eff) => {
                        let ghost pre_eff = self.effects@;
                        let ghost effv = eff@;
                        let mut eff2 = eff;
                        self.effects.append(&mut eff2);
                        proof {
                            assert(effects_view(self.effects@) =~= effects_view(pre_eff)
                                + effects_view(effv));
                        }
                    },
                    Err(f) => {
                        self.failures.push((target, f));
                        proof {
                            assert(self.failures@.take(self.failures@.len() - 1)
                                =~= old(self).failures@);
                        }
                    },
                }
                true
            },
        }
    }

    /// The logical clock's current value.
    pub fn clock_value(&self) -> (r: u64)
        ensures
            r == self.clock(),
    {
        self.logical_clock
    }

    /// The sequence counter's current value.
    pub fn sequence_value(&self) -> (r: u64)
        ensures
            r == self.seq_counter(),
    {
        self.sequence_counter
    }

    /// How many entries wait in the queue.
    pub fn queue_len(&self) -> (r: usize)
        ensures
            r == self.queue_view().len(),
    {
        self.queue.len()
    }

    /// The recorded trace.
    pub fn tracer(&self) -> (r: &Tracer)
        ensures
            r.log() == self.trace(),
    {
        &self.tracer
    }

    /// The effects deliveries have emitted, oldest first.
    pub fn effects(&self) -> (r: &Vec<Effect>)
        ensures
            effects_view(r@) == self.effects_log(),
    {
        &self.effects
    }

    /// The deliveries that found no target, oldest first.
    pub fn dead_letters(&self) -> (r: &Vec<ScheduledMessage>)
        ensures
            entries_view(r@) == self.dead_letters_view(),
    {
        &self.dead_letters
    }

    /// The faults deliveries have reported, oldest first.
    pub fn failures(&self) -> (r: &Vec<(ActorId, ActorFault)>)
        ensures
            r@ == self.failures_view(),
    {
        &self.failures
    }
}

} // verus!


verus! {

/// The order a queue drains in when nothing new is sent: the least entry,
/// then the drain of the rest. `step` follows this order exactly.
pub open spec fn drain(q: Seq<EntryView>) -> Seq<EntryView>
    decreases q.len(),
    via drain_decreases
{
    if q.len() == 0 {
        Seq::empty()
    } else {
        seq![q[first_min_index(q)]] + drain(q.remove(first_min_index(q)))
    }
}

#[via_fn]
proof fn drain_decreases(q: Seq<EntryView>) {
    if q.len() > 0 {
        lemma_first_min_le(q);
    }
}

/// The entry order, as a relation value.
pub open spec fn entry_le_fn() -> spec_fn(EntryView, EntryView) -> bool {
    |a: EntryView, b: EntryView| entry_le(a, b)
}

/// Draining delivers as many entries as were queued.
pub proof fn lemma_drain_len(q: Seq<EntryView>)
    ensures
        drain(q).len() == q.len(),
    decreases q.len(),
{
    if q.len() > 0 {
        lemma_first_min_le(q);
        lemma_drain_len(q.remove(first_min_index(q)));
    }
}

/// `step` delivers the head of the drain, and leaves a queue whose drain is
/// the rest of it.
pub proof fn lemma_step_follows_drain(q: Seq<EntryView>)
    requires
        q.len() > 0,
    ensures
        drain(q).len() == q.len(),
        drain(q)[0] == q[first_min_index(q)],
        drain(q).drop_first() == drain(q.remove(first_min_index(q))),
{
    lemma_first_min_le(q);
    lemma_drain_len(q);
    assert(drain(q).drop_first() =~= drain(q.remove(first_min_index(q))));
}

/// Draining loses and invents nothing: the delivered entries are exactly the
/// queued ones.
pub proof fn lemma_drain_multiset(q: Seq<EntryView>)
    ensures
        drain(q).to_multiset() == q.to_multiset(),
    decreases q.len(),
{
    broadcast use vstd::seq_lib::group_to_multiset_ensures;
    broadcast use vstd::multiset::group_multiset_axioms;

    if q.len() > 0 {
        lemma_first_min_le(q);
        lemma_drain_len(q);
        let i = first_min_index(q);
        let e = q[i];
        let rest = q.remove(i);
        lemma_drain_multiset(rest);
        let d = drain(q);
        let md = d.to_multiset();
        let mq = q.to_multiset();
        assert(d[0] == e);
        assert(d.remove(0) =~= drain(rest));
        assert(drain(rest).to_multiset() =~= md.remove(e));
        assert(rest.to_multiset() =~= mq.remove(e));
        assert(md.remove(e) == mq.remove(e));
        assert(d.contains(e));
        assert(q.contains(e));
        assert(md.count(e) > 0);
        assert(mq.count(e) > 0);
        assert forall|x: EntryView| md.count(x) == mq.count(x) by {
            if x == e {
                assert(md.remove(e).count(e) == md.count(e) - 1);
                assert(mq.remove(e).count(e) == mq.count(e) - 1);
            } else {
                assert(md.remove(e).count(x) == md.count(x));
                assert(mq.remove(e).count(x) == mq.count(x));
            }
        }
        assert(md =~= mq);
    }
}

/// In the multiset, a key belongs to at most one entry. Two entries that
/// carry the same `(logical_time, target, sequence_id)` stamp but different
/// payloads would make the delivery sequence depend on arrival order.
pub open spec fn keys_functional(m: Multiset<EntryView>) -> bool {
    forall|x: EntryView, y: EntryView|
        m.contains(x) && m.contains(y) && entry_key(x) == entry_key(y) ==> x == y
}

/// Keys lower one another or are equal only symmetrically: mutual `key_le`
/// means equality.
proof fn lemma_key_le_antisymmetric(a: KeyView, b: KeyView)
    requires
        key_le(a, b),
        key_le(b, a),
    ensures
        a == b,
{
    if a != b {
        crate::order::lemma_key_lt_asymmetric(a, b);
    }
}

/// Determinism of delivery: two queues holding the same multiset of stamped
/// entries — whatever order they arrived in — drain in the identical
/// sequence, provided no two distinct entries share a stamp.
pub proof fn lemma_drain_deterministic(q1: Seq<EntryView>, q2: Seq<EntryView>)
    requires
        q1.to_multiset() == q2.to_multiset(),
        keys_functional(q1.to_multiset()),
    ensures
        drain(q1) == drain(q2),
    decreases q1.len(),
{
    broadcast use vstd::seq_lib::group_to_multiset_ensures;
    broadcast use vstd::multiset::group_multiset_axioms;

    if q1.len() == 0 {
        assert(q2.to_multiset().len() == 0);
        assert(drain(q1) =~= drain(q2));
    } else {
        assert(q1.to_multiset().len() == q2.to_multiset().len());
        lemma_first_min_le(q1);
        lemma_first_min_le(q2);
        let m1 = first_min_index(q1);
        let m2 = first_min_index(q2);
        let e1 = q1[m1];
        let e2 = q2[m2];
        assert(q1.contains(e1));
        assert(q2.contains(e2));
        assert(q1.to_multiset().contains(e1));
        assert(q2.to_multiset().contains(e2));
        assert(q1.to_multiset().contains(e2));
        assert(q2.to_multiset().contains(e1));
        assert(q1.contains(e2));
        assert(q2.contains(e1));
        let i2 = choose|i: int| 0 <= i < q1.len() && q1[i] == e2;
        let i1 = choose|i: int| 0 <= i < q2.len() && q2[i] == e1;
        assert(key_le(entry_key(e1), entry_key(q1[i2])));
        assert(key_le(entry_key(e2), entry_key(q2[i1])));
        lemma_key_le_antisymmetric(entry_key(e1), entry_key(e2));
        assert(e1 == e2);
        let r1 = q1.remove(m1);
        let r2 = q2.remove(m2);
        assert(r1.to_multiset() =~= q1.to_multiset().remove(e1));
        assert(r2.to_multiset() =~= q2.to_multiset().remove(e2));
        assert(r1.to_multiset() == r2.to_multiset());
        assert forall|x: EntryView, y: EntryView|
            r1.to_multiset().contains(x) && r1.to_multiset().contains(y) && entry_key(x)
                == entry_key(y) implies x == y by {
            assert(q1.to_multiset().count(x) >= r1.to_multiset().count(x));
            assert(q1.to_multiset().count(y) >= r1.to_multiset().count(y));
            assert(q1.to_multiset().contains(x));
            assert(q1.to_multiset().contains(y));
        }
        lemma_drain_deterministic(r1, r2);
        assert(drain(q1) =~= drain(q2));
    }
}

/// Every delivered entry was queued.
proof fn lemma_drain_element_queued(q: Seq<EntryView>, j: int)
    requires
        0 <= j < drain(q).len(),
    ensures
        q.to_multiset().contains(drain(q)[j]),
{
    broadcast use vstd::seq_lib::group_to_multiset_ensures;

    lemma_drain_multiset(q);
    assert(drain(q).contains(drain(q)[j]));
    assert(drain(q).to_multiset().contains(drain(q)[j]));
}

/// The total order of delivery: the drain is sorted by the
/// `(logical_time, target, sequence_id)` key.
pub proof fn lemma_drain_sorted(q: Seq<EntryView>)
    ensures
        vstd::relations::sorted_by(drain(q), entry_le_fn()),
    decreases q.len(),
{
    broadcast use vstd::seq_lib::group_to_multiset_ensures;

    if q.len() > 0 {
        lemma_first_min_le(q);
        let m = first_min_index(q);
        let rest = q.remove(m);
        q.remove_ensures(m);
        lemma_drain_sorted(rest);
        let d = drain(q);
        assert forall|i: int, j: int| 0 <= i < j < d.len() implies #[trigger] entry_le_fn()(
            d[i],
            d[j],
        ) by {
            if i == 0 {
                assert(d[j] == drain(rest)[j - 1]);
                lemma_drain_element_queued(rest, j - 1);
                assert(rest.to_multiset().contains(d[j]));
                assert(rest.contains(d[j]));
                let jq = choose|x: int| 0 <= x < rest.len() && rest[x] == d[j];
                if jq < m {
                    assert(rest[jq] == q[jq]);
                    assert(key_le(entry_key(q[m]), entry_key(q[jq])));
                } else {
                    assert(rest[jq] == q[jq + 1]);
                    assert(key_le(entry_key(q[m]), entry_key(q[jq + 1])));
                }
                assert(entry_le(d[0], d[j]));
            } else {
                assert(d[i] == drain(rest)[i - 1]);
                assert(d[j] == drain(rest)[j - 1]);
                assert(entry_le_fn()(drain(rest)[i - 1], drain(rest)[j - 1]));
            }
        }
    }
}

/// In the drain, an entry with the strictly smaller key stands strictly
/// earlier: together with [`lemma_drain_sorted`] this makes delivery order
/// and key order agree exactly.
pub proof fn lemma_smaller_key_delivered_first(q: Seq<EntryView>, i: int, j: int)
    requires
        0 <= i < drain(q).len(),
        0 <= j < drain(q).len(),
        key_lt(entry_key(drain(q)[i]), entry_key(drain(q)[j])),
    ensures
        i < j,
{
    lemma_drain_sorted(q);
    if i > j {
        assert(entry_le_fn()(drain(q)[j], drain(q)[i]));
        crate::order::lemma_key_lt_asymmetric(entry_key(drain(q)[i]), entry_key(drain(q)[j]));
    } else if i == j {
        crate::order::lemma_key_lt_irreflexive(entry_key(drain(q)[i]));
    }
}

} // verus!

verus! {

impl Scheduler {
    /// The actor table, for inspection.
    pub fn actors(&self) -> (r: &Vec<ActorCell>)
        ensures
            r@ == self.actors_seq(),
    {
        &self.actors
    }
}

} // verus!
