use aeroflow_runtime::actor::{ActorBehavior, ActorCell, RecorderActor};
use aeroflow_runtime::message::{Message, MessageData};
use aeroflow_runtime::scheduler::Scheduler;
use aeroflow_runtime::trace::{TraceEvent, Tracer};

#[test]
fn empty_trace_exports_an_empty_array() {
    let tracer = Tracer::new();
    assert_eq!(tracer.export_json(), "[]");
}

#[test]
fn one_event_exports_exactly() {
    let mut tracer = Tracer::new();
    tracer.record(TraceEvent {
        logical_time: 1,
        actor_id: "B".to_string(),
        input: Message::new(
            "A".to_string(),
            MessageData::Signal("start".to_string()),
            1,
            1,
        ),
        state_snapshot: "{}".to_string(),
    });
    assert_eq!(
        tracer.export_json(),
        "[{\"logical_time\":1,\"actor_id\":\"B\",\"input\":{\"sender\":\"A\",\
         \"data\":{\"Signal\":\"start\"},\"logical_time\":1,\"sequence_id\":1},\
         \"state_snapshot\":\"{}\"}]"
    );
}

#[test]
fn binary_payload_exports_as_numbers() {
    let mut tracer = Tracer::new();
    tracer.record(TraceEvent {
        logical_time: 2,
        actor_id: "x".to_string(),
        input: Message::new("s".to_string(), MessageData::Binary(vec![0, 17, 255]), 2, 9),
        state_snapshot: String::new(),
    });
    assert_eq!(
        tracer.export_json(),
        "[{\"logical_time\":2,\"actor_id\":\"x\",\"input\":{\"sender\":\"s\",\
         \"data\":{\"Binary\":[0,17,255]},\"logical_time\":2,\"sequence_id\":9},\
         \"state_snapshot\":\"\"}]"
    );
}

#[test]
fn strings_are_escaped() {
    let mut tracer = Tracer::new();
    tracer.record(TraceEvent {
        logical_time: 3,
        actor_id: "q\"u\\o".to_string(),
        input: Message::new(
            "s".to_string(),
            MessageData::Text("line\nbreak\ttab\rret\u{1}ctl".to_string()),
            3,
            1,
        ),
        state_snapshot: String::new(),
    });
    assert_eq!(
        tracer.export_json(),
        "[{\"logical_time\":3,\"actor_id\":\"q\\\"u\\\\o\",\"input\":{\"sender\":\"s\",\
         \"data\":{\"Text\":\"line\\nbreak\\ttab\\rret\\u0001ctl\"},\
         \"logical_time\":3,\"sequence_id\":1},\"state_snapshot\":\"\"}]"
    );
}

#[test]
fn scheduler_records_the_pre_delivery_state() {
    let mut sched = Scheduler::new();
    assert!(sched.spawn(ActorCell::new(
        "B".to_string(),
        ActorBehavior::Recorder(RecorderActor { received: Vec::new() }),
    )));
    sched.send(
        "B".to_string(),
        MessageData::Signal("start".to_string()),
        "A".to_string(),
    );
    assert!(sched.step());
    assert_eq!(
        sched.tracer().export_json(),
        "[{\"logical_time\":1,\"actor_id\":\"B\",\"input\":{\"sender\":\"A\",\
         \"data\":{\"Signal\":\"start\"},\"logical_time\":1,\"sequence_id\":1},\
         \"state_snapshot\":\"{\\\"received\\\":0}\"}]"
    );
}
