use aeroflow_runtime::actor::{ActorBehavior, ActorCell, RecorderActor, VMActor};
use aeroflow_runtime::arena::Arena;
use aeroflow_runtime::capability::{Capabilities, CapabilityGuard, CAP_FS_READ, CAP_NET_SEND,
    CAP_SYS_ADMIN};
use aeroflow_runtime::distributed::DistributedScheduler;
use aeroflow_runtime::fault::{ActorFault, RuntimeFault};
use aeroflow_runtime::message::{Message, MessageData};
use aeroflow_runtime::scheduler::Scheduler;
use aeroflow_runtime::supervisor::{Strategy, Supervisor};
use aeroflow_runtime::text::u64_string;
use aeroflow_runtime::value::Value;
use aeroflow_runtime::vm::{Chunk, Instr};

#[test]
fn arena_rejects_what_does_not_fit() {
    let mut arena = Arena::new(8);
    assert_eq!(arena.allocate(&[1, 2, 3, 4, 5]), Some(0));
    assert_eq!(arena.used(), 5);
    assert_eq!(arena.allocate(&[9, 9, 9, 9]), None);
    assert_eq!(arena.used(), 5);
    assert_eq!(arena.read(0, 5), vec![1, 2, 3, 4, 5]);
    assert_eq!(arena.allocate(&[6, 7, 8]), Some(5));
    assert_eq!(arena.used(), 8);
}

#[test]
fn arena_reset_restores_full_capacity() {
    let mut arena = Arena::new(4);
    assert_eq!(arena.allocate(&[1, 2, 3, 4]), Some(0));
    assert_eq!(arena.allocate(&[5]), None);
    arena.reset();
    assert_eq!(arena.used(), 0);
    assert_eq!(arena.capacity(), 4);
    assert_eq!(arena.allocate(&[5, 6, 7, 8]), Some(0));
    assert_eq!(arena.read(0, 4), vec![5, 6, 7, 8]);
}

#[test]
fn context_allocation_reports_overflow() {
    let mut cell = ActorCell::new(
        "a".to_string(),
        ActorBehavior::Recorder(RecorderActor { received: Vec::new() }),
    );
    let big = vec![0u8; 1048577];
    assert_eq!(
        cell.context.alloc_bytes(&big),
        Err(ActorFault::ArenaOverflow)
    );
    assert_eq!(cell.context.alloc_bytes(&[1, 2]), Ok(0));
}

#[test]
fn capability_guard_checks_bits() {
    let guard = CapabilityGuard::new(Capabilities::from_bits(CAP_FS_READ | CAP_NET_SEND));
    assert!(guard.check(Capabilities::from_bits(CAP_FS_READ)));
    assert!(guard.check(Capabilities::from_bits(CAP_FS_READ | CAP_NET_SEND)));
    assert!(!guard.check(Capabilities::from_bits(CAP_SYS_ADMIN)));
    assert!(guard.enforce(Capabilities::from_bits(CAP_NET_SEND)).is_ok());
    assert_eq!(
        guard.enforce(Capabilities::from_bits(CAP_SYS_ADMIN)),
        Err(ActorFault::CapabilityViolation(CAP_SYS_ADMIN))
    );
}

#[test]
fn supervisor_one_for_one_restarts_the_failed_actor() {
    let mut sup = Supervisor::new(Strategy::OneForOne);
    sup.add_child("a".to_string());
    sup.add_child("b".to_string());
    let restart = sup.handle_failure(&"b".to_string());
    assert_eq!(restart, vec!["b".to_string()]);
}

#[test]
fn supervisor_all_for_one_restarts_every_child() {
    let mut sup = Supervisor::new(Strategy::AllForOne);
    sup.add_child("a".to_string());
    sup.add_child("b".to_string());
    sup.add_child("c".to_string());
    let restart = sup.handle_failure(&"b".to_string());
    assert_eq!(
        restart,
        vec!["a".to_string(), "b".to_string(), "c".to_string()]
    );
}

#[test]
fn broadcast_and_remote_receipt_agree_on_the_stamp() {
    let mut node1 = DistributedScheduler::new("N1".to_string(), Scheduler::new());
    node1.add_peer("N2".to_string());
    let mut node2 = DistributedScheduler::new("N2".to_string(), Scheduler::new());

    for node in [&mut node1, &mut node2] {
        assert!(node.spawn(ActorCell::new(
            "a".to_string(),
            ActorBehavior::Recorder(RecorderActor { received: Vec::new() }),
        )));
    }

    let envelope = node1.broadcast(
        "a".to_string(),
        "n1-sender".to_string(),
        MessageData::Text("hello".to_string()),
    );
    assert_eq!(envelope.from_node, "N1");
    assert_eq!(envelope.logical_time, 1);
    assert_eq!(envelope.sequence_id, 1);

    node2.receive_remote(envelope.clone());
    assert_eq!(node2.clock_value(), envelope.logical_time);

    assert!(node1.step());
    assert!(node2.step());
    assert_eq!(
        node1.trace_events().export_json(),
        node2.trace_events().export_json()
    );
}

#[test]
fn faulting_actor_is_reported_not_fatal() {
    let mut sched = Scheduler::new();
    let mut chunk = Chunk::new();
    chunk.emit(Instr::Add);
    assert!(sched.spawn(ActorCell::new(
        "bad".to_string(),
        ActorBehavior::Vm(VMActor::new(chunk)),
    )));
    assert!(sched.spawn(ActorCell::new(
        "good".to_string(),
        ActorBehavior::Recorder(RecorderActor { received: Vec::new() }),
    )));
    sched.send(
        "bad".to_string(),
        MessageData::Signal("go".to_string()),
        "s".to_string(),
    );
    sched.send(
        "good".to_string(),
        MessageData::Signal("go".to_string()),
        "s".to_string(),
    );
    assert!(sched.step());
    assert!(sched.step());
    assert_eq!(sched.failures().len(), 1);
    assert_eq!(sched.failures()[0].0, "bad");
    assert_eq!(
        sched.failures()[0].1,
        ActorFault::Runtime(RuntimeFault::StackUnderflow)
    );
    assert_eq!(sched.tracer().len(), 2);
}

#[test]
fn vm_actor_effects_reach_the_scheduler_log() {
    let mut sched = Scheduler::new();
    let mut chunk = Chunk::new();
    chunk.emit(Instr::LoadTime);
    chunk.emit(Instr::Render);
    assert!(sched.spawn(ActorCell::new(
        "emitter".to_string(),
        ActorBehavior::Vm(VMActor::new(chunk)),
    )));
    sched.send(
        "emitter".to_string(),
        MessageData::Signal("go".to_string()),
        "s".to_string(),
    );
    assert!(sched.step());
    assert_eq!(
        sched.effects(),
        &vec![aeroflow_runtime::vm::Effect::Output(Value::Number(1))]
    );
}

#[test]
fn decimal_rendering_is_exact() {
    assert_eq!(u64_string(0), "0");
    assert_eq!(u64_string(10), "10");
    assert_eq!(u64_string(12345), "12345");
    assert_eq!(u64_string(u64::MAX), "18446744073709551615");
}

#[test]
fn runtime_fault_names() {
    assert_eq!(RuntimeFault::StackUnderflow.name(), "StackUnderflow");
    assert_eq!(RuntimeFault::TypeMismatch.name(), "TypeMismatch");
    assert_eq!(RuntimeFault::UnknownIntrinsic.name(), "UnknownIntrinsic");
    assert_eq!(RuntimeFault::InvalidJumpTarget.name(), "InvalidJumpTarget");
}

#[test]
fn message_new_keeps_its_parts() {
    let m = Message::new(
        "me".to_string(),
        MessageData::Binary(vec![1, 2]),
        3,
        4,
    );
    assert_eq!(m.sender, "me");
    assert_eq!(m.data, MessageData::Binary(vec![1, 2]));
    assert_eq!(m.logical_time, 3);
    assert_eq!(m.sequence_id, 4);
}
