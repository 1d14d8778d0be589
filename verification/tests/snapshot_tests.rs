use aeroflow_runtime::actor::{ActorBehavior, ActorCell, RecorderActor, VMActor};
use aeroflow_runtime::message::{Message, MessageData};
use aeroflow_runtime::snapshot::resume;
use aeroflow_runtime::value::Value;
use aeroflow_runtime::vm::{Chunk, Instr, VMContext};

fn stateful_vm_cell() -> ActorCell {
    let mut chunk = Chunk::new();
    chunk.emit(Instr::LoadConst(Value::Number(-7)));
    chunk.emit(Instr::StoreVar("n".to_string()));
    chunk.emit(Instr::LoadConst(Value::Str("hé\"llo".to_string())));
    chunk.emit(Instr::StoreVar("s".to_string()));
    chunk.emit(Instr::LoadConst(Value::Bool(true)));
    chunk.emit(Instr::StoreVar("b".to_string()));
    chunk.emit(Instr::LoadConst(Value::Nil));
    chunk.emit(Instr::StoreVar("z".to_string()));
    let mut actor = VMActor::new(chunk);
    let ctx = VMContext { logical_time: 1, rand_seed: 1 };
    actor
        .vm
        .execute(&actor.chunk, &ctx, 1000)
        .expect("setup run should finish");
    ActorCell::new("cell".to_string(), ActorBehavior::Vm(actor))
}

#[test]
fn vm_state_survives_a_round_trip() {
    let cell = stateful_vm_cell();
    let before = match &cell.actor {
        ActorBehavior::Vm(a) => a.vm.state_json(),
        _ => unreachable!(),
    };
    let blob = cell.snapshot();
    let template = ActorBehavior::Vm(VMActor::new(Chunk::new()));
    let restored = resume("cell2".to_string(), blob.as_slice(), template)
        .expect("resume should accept its own snapshot");
    assert_eq!(restored.id, "cell2");
    let after = match &restored.actor {
        ActorBehavior::Vm(a) => a.vm.state_json(),
        _ => panic!("expected a machine-backed actor"),
    };
    assert_eq!(before, after);
    assert_eq!(before, "{\"n\":-7,\"s\":\"hé\\\"llo\",\"b\":true,\"z\":null}");
}

#[test]
fn recorder_log_survives_a_round_trip() {
    let mut rec = RecorderActor { received: Vec::new() };
    rec.received.push(Message::new(
        "a".to_string(),
        MessageData::Binary(vec![1, 2, 255]),
        4,
        9,
    ));
    rec.received.push(Message::new(
        "b".to_string(),
        MessageData::Signal("stop".to_string()),
        5,
        10,
    ));
    let cell = ActorCell::new("r".to_string(), ActorBehavior::Recorder(rec));
    let blob = cell.snapshot();
    let template = ActorBehavior::Recorder(RecorderActor { received: Vec::new() });
    let restored =
        resume("r".to_string(), blob.as_slice(), template).expect("resume should accept its own snapshot");
    match (&cell.actor, &restored.actor) {
        (ActorBehavior::Recorder(orig), ActorBehavior::Recorder(back)) => {
            assert_eq!(orig.received, back.received);
        },
        _ => panic!("expected recorders"),
    }
}

#[test]
fn resume_rejects_garbage_and_mismatches() {
    let cell = stateful_vm_cell();
    let blob = cell.snapshot();

    // A truncated snapshot does not parse.
    let cut = &blob[..blob.len() - 1];
    assert!(resume("x".to_string(), cut, ActorBehavior::Vm(VMActor::new(Chunk::new()))).is_none());

    // The wrong behavior variant is refused.
    let template = ActorBehavior::Recorder(RecorderActor { received: Vec::new() });
    assert!(resume("x".to_string(), blob.as_slice(), template).is_none());

    // An unknown tag is refused.
    assert!(resume("x".to_string(), &[9u8], ActorBehavior::Vm(VMActor::new(Chunk::new()))).is_none());
}
