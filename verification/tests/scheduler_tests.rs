use aeroflow_runtime::actor::{ActorBehavior, ActorCell, RecorderActor};
use aeroflow_runtime::message::MessageData;
use aeroflow_runtime::scheduler::Scheduler;

fn recorder_cell(id: &str) -> ActorCell {
    ActorCell::new(
        id.to_string(),
        ActorBehavior::Recorder(RecorderActor { received: Vec::new() }),
    )
}

fn received_of<'a>(sched: &'a Scheduler, id: &str) -> &'a Vec<aeroflow_runtime::message::Message> {
    let cell = sched
        .actors()
        .iter()
        .find(|c| c.id == id)
        .expect("actor should be spawned");
    match &cell.actor {
        ActorBehavior::Recorder(rec) => &rec.received,
        _ => panic!("expected a recorder"),
    }
}

#[test]
fn delivery_stamps_first_send() {
    let mut sched = Scheduler::new();
    assert!(sched.spawn(recorder_cell("A")));
    assert!(sched.spawn(recorder_cell("B")));
    sched.send(
        "B".to_string(),
        MessageData::Signal("start".to_string()),
        "A".to_string(),
    );
    assert!(sched.step());
    let received = received_of(&sched, "B");
    assert_eq!(received.len(), 1);
    assert_eq!(received[0].sender, "A");
    assert_eq!(
        received[0].data,
        MessageData::Signal("start".to_string())
    );
    assert_eq!(received[0].logical_time, 1);
    assert_eq!(received[0].sequence_id, 1);
    assert_eq!(received_of(&sched, "A").len(), 0);
}

#[test]
fn earlier_time_delivered_first() {
    let mut sched = Scheduler::new();
    assert!(sched.spawn(recorder_cell("X")));
    assert!(sched.spawn(recorder_cell("Y")));
    sched.send_with_time(
        "X".to_string(),
        MessageData::Text("m1".to_string()),
        "s".to_string(),
        5,
        1,
    );
    sched.send_with_time(
        "Y".to_string(),
        MessageData::Text("m2".to_string()),
        "s".to_string(),
        3,
        2,
    );
    assert!(sched.step());
    assert_eq!(received_of(&sched, "Y").len(), 1);
    assert_eq!(received_of(&sched, "X").len(), 0);
    assert!(sched.step());
    assert_eq!(received_of(&sched, "X").len(), 1);
}

#[test]
fn equal_time_smaller_target_first() {
    let mut sched = Scheduler::new();
    assert!(sched.spawn(recorder_cell("A")));
    assert!(sched.spawn(recorder_cell("B")));
    sched.send_with_time(
        "B".to_string(),
        MessageData::Text("m1".to_string()),
        "s".to_string(),
        5,
        1,
    );
    sched.send_with_time(
        "A".to_string(),
        MessageData::Text("m2".to_string()),
        "s".to_string(),
        5,
        2,
    );
    assert!(sched.step());
    assert_eq!(received_of(&sched, "A").len(), 1);
    assert_eq!(received_of(&sched, "B").len(), 0);
}

#[test]
fn equal_time_and_target_smaller_sequence_first() {
    let mut sched = Scheduler::new();
    assert!(sched.spawn(recorder_cell("A")));
    sched.send_with_time(
        "A".to_string(),
        MessageData::Text("later".to_string()),
        "s".to_string(),
        7,
        9,
    );
    sched.send_with_time(
        "A".to_string(),
        MessageData::Text("sooner".to_string()),
        "s".to_string(),
        7,
        2,
    );
    assert!(sched.step());
    let received = received_of(&sched, "A");
    assert_eq!(received[0].data, MessageData::Text("sooner".to_string()));
}

#[test]
fn replay_order_does_not_matter() {
    let stamps: Vec<(u64, &str, u64, &str)> = vec![
        (5, "B", 3, "five-b"),
        (2, "A", 7, "two-a"),
        (5, "A", 9, "five-a"),
        (2, "A", 1, "two-a-first"),
        (9, "C", 4, "nine-c"),
    ];
    let mut forward = Scheduler::new();
    let mut backward = Scheduler::new();
    for sched in [&mut forward, &mut backward] {
        assert!(sched.spawn(recorder_cell("A")));
        assert!(sched.spawn(recorder_cell("B")));
        assert!(sched.spawn(recorder_cell("C")));
    }
    for (time, target, seq, text) in stamps.iter() {
        forward.send_with_time(
            target.to_string(),
            MessageData::Text(text.to_string()),
            "s".to_string(),
            *time,
            *seq,
        );
    }
    for (time, target, seq, text) in stamps.iter().rev() {
        backward.send_with_time(
            target.to_string(),
            MessageData::Text(text.to_string()),
            "s".to_string(),
            *time,
            *seq,
        );
    }
    for _ in 0..stamps.len() {
        assert!(forward.step());
        assert!(backward.step());
    }
    assert!(!forward.step());
    assert!(!backward.step());
    assert_eq!(
        forward.tracer().export_json(),
        backward.tracer().export_json()
    );
    for id in ["A", "B", "C"] {
        assert_eq!(received_of(&forward, id), received_of(&backward, id));
    }
}

#[test]
fn clock_never_decreases() {
    let mut sched = Scheduler::new();
    let mut last = sched.clock_value();
    sched.send(
        "x".to_string(),
        MessageData::Text("a".to_string()),
        "s".to_string(),
    );
    assert!(sched.clock_value() >= last);
    last = sched.clock_value();
    sched.send_with_time(
        "x".to_string(),
        MessageData::Text("b".to_string()),
        "s".to_string(),
        0,
        77,
    );
    assert!(sched.clock_value() >= last);
    last = sched.clock_value();
    sched.send_with_time(
        "x".to_string(),
        MessageData::Text("c".to_string()),
        "s".to_string(),
        40,
        78,
    );
    assert!(sched.clock_value() >= last);
    assert_eq!(sched.clock_value(), 40);
    last = sched.clock_value();
    sched.send(
        "x".to_string(),
        MessageData::Text("d".to_string()),
        "s".to_string(),
    );
    assert!(sched.clock_value() >= last);
    assert_eq!(sched.clock_value(), 41);
}

#[test]
fn missing_target_goes_to_dead_letters() {
    let mut sched = Scheduler::new();
    sched.send(
        "nobody".to_string(),
        MessageData::Text("lost".to_string()),
        "s".to_string(),
    );
    assert!(!sched.step());
    assert_eq!(sched.queue_len(), 0);
    assert_eq!(sched.dead_letters().len(), 1);
    assert_eq!(sched.dead_letters()[0].target, "nobody");
    assert_eq!(sched.tracer().len(), 0);
}

#[test]
fn duplicate_spawn_fails() {
    let mut sched = Scheduler::new();
    assert!(sched.spawn(recorder_cell("A")));
    assert!(!sched.spawn(recorder_cell("A")));
    assert_eq!(sched.actors().len(), 1);
}

#[test]
fn empty_queue_step_is_idle() {
    let mut sched = Scheduler::new();
    assert!(!sched.step());
    assert_eq!(sched.clock_value(), 0);
    assert_eq!(sched.sequence_value(), 0);
}

#[test]
fn target_order_is_lexicographic() {
    let mut sched = Scheduler::new();
    assert!(sched.spawn(recorder_cell("AB")));
    assert!(sched.spawn(recorder_cell("B")));
    sched.send_with_time(
        "B".to_string(),
        MessageData::Text("m1".to_string()),
        "s".to_string(),
        1,
        1,
    );
    sched.send_with_time(
        "AB".to_string(),
        MessageData::Text("m2".to_string()),
        "s".to_string(),
        1,
        2,
    );
    assert!(sched.step());
    assert_eq!(received_of(&sched, "AB").len(), 1);
    assert_eq!(received_of(&sched, "B").len(), 0);
}

#[test]
fn external_stamp_is_kept_verbatim() {
    let mut sched = Scheduler::new();
    assert!(sched.spawn(recorder_cell("X")));
    sched.send_with_time(
        "X".to_string(),
        MessageData::Text("replayed".to_string()),
        "origin".to_string(),
        77,
        123456,
    );
    assert_eq!(sched.sequence_value(), 0);
    assert!(sched.step());
    let received = received_of(&sched, "X");
    assert_eq!(received[0].logical_time, 77);
    assert_eq!(received[0].sequence_id, 123456);
    assert_eq!(sched.clock_value(), 77);
}
