//! Actors: isolated execution units. A cell owns one behavior and one
//! context (its id and a private arena); the scheduler's table is the only
//! place a behavior is ever mutated.

use crate::arena::Arena;
use crate::fault::ActorFault;
use crate::message::{Message, MessageView};
use crate::text::dec_chars;
use crate::vm::{effects_view, json_globals, vm_result, Chunk, Effect, RunRes, VMContext, VM};
use vstd::prelude::*;

verus! {

/// An actor's identifier: unique per scheduler instance, stable for the
/// actor's lifetime.
pub type ActorId = String;

/// Bytes of scratch memory each actor gets by default.
pub const DEFAULT_ARENA_BYTES: usize = 1048576;

/// The fixed half of every virtual-machine seed; the other half is the
/// delivery's logical time.
pub const VM_SEED: u64 = 0xDEADBEEF;

/// How many instructions one delivery may execute.
pub const VM_STEP_BUDGET: u64 = 1000000;

/// What an actor can see of its surroundings: its own id and its arena.
pub struct Context {
    pub actor_id: ActorId,
    pub arena: Arena,
}

/// A behavior that executes a compiled chunk on each delivery.
pub struct VMActor {
    pub vm: VM,
    pub chunk: Chunk,
}

/// The run a delivery at `time` performs on this actor: its chunk, under its
/// machine's environment and capabilities, from its machine's stack and
/// globals, with the seed tied to the logical time.
pub open spec fn vm_actor_run(a: VMActor, time: u64) -> RunRes {
    vm_result(
        a.chunk@,
        a.vm.env_view(),
        a.vm.caps_view(),
        time,
        VM_SEED ^ time,
        a.vm.stack_view(),
        a.vm.globals_view(),
        VM_STEP_BUDGET as nat,
    )
}

impl VMActor {
    /// Wraps a chunk in a fresh machine.
    pub fn new(chunk: Chunk) -> (r: Self)
        ensures
            r.vm.wf(),
            r.chunk@ == chunk@,
            r.vm.stack_view() == Seq::<crate::value::ValueView>::empty(),
            r.vm.globals_view() == Map::<Seq<char>, crate::value::ValueView>::empty(),
            r.vm.globals_entries() == Seq::<(String, crate::value::Value)>::empty(),
            r.vm.env_view() == Map::<Seq<char>, Seq<char>>::empty(),
            r.vm.caps_view() == 0,
    {
        VMActor { vm: VM::new(), chunk }
    }
}

/// A behavior that keeps every delivered message, for inspection.
pub struct RecorderActor {
    pub received: Vec<Message>,
}

/// The views of a sequence of messages.
pub open spec fn messages_view(s: Seq<Message>) -> Seq<MessageView> {
    s.map_values(|m: Message| m@)
}

/// The state rendering of a recorder: how many messages it has seen.
pub open spec fn recorder_state(n: nat) -> Seq<char> {
    "{\"received\":"@ + dec_chars(n) + "}"@
}

/// An actor's behavior: what runs when a message is delivered.
pub enum ActorBehavior {
    /// Executes a compiled chunk.
    Vm(VMActor),
    /// Records the messages it receives.
    Recorder(RecorderActor),
}

/// The machine state a run leaves behind, whether it finished, faulted or
/// ran out of budget.
pub open spec fn run_final_snap(r: RunRes) -> crate::vm::VmSnap {
    match r {
        RunRes::Finished(s) => s,
        RunRes::Faulted(_, s) => s,
        RunRes::Pending(s) => s,
    }
}

/// How a delivery at this logical time ends: a recorder never faults; a
/// machine-backed actor reports its run's fault, a budget exhaustion
/// included.
pub open spec fn behavior_run_fault(pre: ActorBehavior, time: u64) -> Option<ActorFault> {
    match pre {
        ActorBehavior::Recorder(_) => Option::None,
        ActorBehavior::Vm(a) => match vm_actor_run(a, time) {
            RunRes::Finished(_) => Option::None,
            RunRes::Faulted(f, _) => Option::Some(f),
            RunRes::Pending(_) => Option::Some(ActorFault::StepBudgetExhausted),
        },
    }
}

/// The effects a delivery at this logical time emits: none unless a
/// machine-backed run finishes.
pub open spec fn behavior_run_effects(pre: ActorBehavior, time: u64) -> Seq<
    crate::vm::EffectView,
> {
    match pre {
        ActorBehavior::Recorder(_) => Seq::empty(),
        ActorBehavior::Vm(a) => match vm_actor_run(a, time) {
            RunRes::Finished(s) => s.out,
            RunRes::Faulted(_, _) => Seq::empty(),
            RunRes::Pending(_) => Seq::empty(),
        },
    }
}

/// How a delivery changes a behavior: a recorder appends the message; a
/// machine-backed actor keeps the state its run left behind, its chunk,
/// environment and capabilities untouched.
pub open spec fn behavior_post_state(
    pre: ActorBehavior,
    msg: MessageView,
    post: ActorBehavior,
) -> bool {
    match pre {
        ActorBehavior::Recorder(rec) => post matches ActorBehavior::Recorder(rec2)
            && messages_view(rec2.received@) == messages_view(rec.received@).push(msg),
        ActorBehavior::Vm(a) => post matches ActorBehavior::Vm(a2) && ({
            let s = run_final_snap(vm_actor_run(a, msg.logical_time));
            &&& a2.chunk@ == a.chunk@
            &&& a2.vm.env_view() == a.vm.env_view()
            &&& a2.vm.caps_view() == a.vm.caps_view()
            &&& a2.vm.stack_view() == s.stack
            &&& a2.vm.globals_view() == s.globals
            &&& a2.vm.rng_view() == s.rng
        }),
    }
}

/// How a delivery changes a behavior and what it returns: the new state per
/// [`behavior_post_state`], the effects and the fault per the run.
pub open spec fn behavior_receive_post(
    pre: ActorBehavior,
    msg: MessageView,
    post: ActorBehavior,
    r: Result<Vec<Effect>, ActorFault>,
) -> bool {
    &&& behavior_post_state(pre, msg, post)
    &&& match behavior_run_fault(pre, msg.logical_time) {
        Option::None => r matches Ok(eff) && effects_view(eff@) == behavior_run_effects(
            pre,
            msg.logical_time,
        ),
        Option::Some(f) => r matches Err(g) && g == f,
    }
}

/// The state rendering of a behavior, captured into the trace before each
/// delivery.
pub open spec fn behavior_state(b: ActorBehavior) -> Seq<char> {
    match b {
        ActorBehavior::Vm(a) => json_globals(a.vm.globals_entries()),
        ActorBehavior::Recorder(rec) => recorder_state(rec.received@.len()),
    }
}

impl ActorBehavior {
    /// The behavior's internal tables are well formed.
    pub open spec fn wf(&self) -> bool {
        match self {
            ActorBehavior::Vm(a) => a.vm.wf(),
            ActorBehavior::Recorder(_) => true,
        }
    }

    /// Handles one delivered message. Faults are returned, never thrown: a
    /// failing run leaves a report for the supervisor and the machine state
    /// the run reached.
    pub fn receive(&mut self, msg: &Message, ctx: &mut Context) -> (r: Result<
        Vec<Effect>,
        ActorFault,
    >)
        requires
            old(self).wf(),
        ensures
            final(self).wf(),
            behavior_receive_post(*old(self), msg@, *final(self), r),
            *final(ctx) == *old(ctx),
    {
        match self {
            ActorBehavior::Vm(a) => {
                let vm_ctx = VMContext {
                    logical_time: msg.logical_time,
                    rand_seed: VM_SEED ^ msg.logical_time,
                };
                a.vm.execute(&a.chunk, &vm_ctx, VM_STEP_BUDGET)
            },
            ActorBehavior::Recorder(rec) => {
                let ghost pre = rec.received@;
                rec.received.push(msg.clone());
                proof {
                    assert(messages_view(rec.received@) =~= messages_view(pre).push(msg@));
                    assert(effects_view(Seq::<Effect>::empty()) =~= Seq::<
                        crate::vm::EffectView,
                    >::empty());
                }
                let eff: Vec<Effect> = Vec::new();
                Ok(eff)
            },
        }
    }

    /// Renders the behavior's state, for the trace.
    pub fn get_state(&self) -> (r: String)
        ensures
            r@ == behavior_state(*self),
    {
        match self {
            ActorBehavior::Vm(a) => a.vm.state_json(),
            ActorBehavior::Recorder(rec) => {
                let mut out = String::new();
                crate::text::push_str_part("{\"received\":", &mut out);
                let n = rec.received.len() as u64;
                crate::text::push_dec(n, &mut out);
                out.push('}');
                proof {
                    reveal_strlit("}");
                    assert(out@ =~= recorder_state(rec.received@.len()));
                }
                out
            },
        }
    }
}

/// One spawned actor: its id, its behavior, and its private context.
pub struct ActorCell {
    pub id: ActorId,
    pub actor: ActorBehavior,
    pub context: Context,
}

impl ActorCell {
    /// The cell's behavior and arena are well formed.
    pub open spec fn wf(&self) -> bool {
        self.actor.wf() && self.context.arena.wf()
    }

    /// Wraps a behavior with a fresh context: the actor's own id and its own
    /// arena, so one actor's allocations cannot touch another's.
    pub fn new(id: ActorId, actor: ActorBehavior) -> (r: Self)
        requires
            actor.wf(),
        ensures
            r.wf(),
            r.id@ == id@,
            r.actor == actor,
            r.context.actor_id@ == id@,
            r.context.arena.spec_capacity() == DEFAULT_ARENA_BYTES,
            r.context.arena.spec_used() == 0,
    {
        let id2 = id.clone();
        ActorCell {
            id,
            actor,
            context: Context { actor_id: id2, arena: Arena::new(DEFAULT_ARENA_BYTES) },
        }
    }
}

} // verus!

verus! {

impl Context {
    /// Places `value` in the actor's arena, reporting the taxonomy's
    /// overflow fault when the budget does not suffice.
    pub fn alloc_bytes(&mut self, value: &[u8]) -> (r: Result<usize, ActorFault>)
        requires
            old(self).arena.wf(),
        ensures
            final(self).arena.wf(),
            final(self).actor_id == old(self).actor_id,
            final(self).arena.spec_capacity() == old(self).arena.spec_capacity(),
            value@.len() <= old(self).arena.spec_capacity() - old(self).arena.spec_used() ==> ({
                &&& r == Ok::<usize, ActorFault>(old(self).arena.spec_used() as usize)
                &&& final(self).arena.spec_used() == old(self).arena.spec_used() + value@.len()
                &&& final(self).arena.contents() == old(self).arena.contents() + value@
            }),
            value@.len() > old(self).arena.spec_capacity() - old(self).arena.spec_used() ==> ({
                &&& r == Err::<usize, ActorFault>(ActorFault::ArenaOverflow)
                &&& final(self).arena == old(self).arena
            }),
    {
        match self.arena.allocate(value) {
            Some(off) => Ok(off),
            None => Err(ActorFault::ArenaOverflow),
        }
    }
}

} // verus!
