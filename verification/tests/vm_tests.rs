use aeroflow_runtime::capability::{Capabilities, CapabilityGuard, CAP_FS_READ};
use aeroflow_runtime::fault::{ActorFault, RuntimeFault};
use aeroflow_runtime::value::Value;
use aeroflow_runtime::vm::{effects_equal, Chunk, Effect, Instr, VMContext, VM};

fn ctx(time: u64, seed: u64) -> VMContext {
    VMContext { logical_time: time, rand_seed: seed }
}

fn run(instrs: Vec<Instr>) -> Result<Vec<Effect>, ActorFault> {
    let mut chunk = Chunk::new();
    for i in instrs {
        chunk.emit(i);
    }
    let mut vm = VM::new();
    vm.execute(&chunk, &ctx(0, 1), 10000)
}

fn run_ok(instrs: Vec<Instr>) -> Vec<Effect> {
    run(instrs).expect("run should finish")
}

#[test]
fn adds_numbers() {
    let eff = run_ok(vec![
        Instr::LoadConst(Value::Number(2)),
        Instr::LoadConst(Value::Number(3)),
        Instr::Add,
        Instr::Render,
    ]);
    assert_eq!(eff, vec![Effect::Output(Value::Number(5))]);
}

#[test]
fn concatenates_text() {
    let eff = run_ok(vec![
        Instr::LoadConst(Value::Str("ab".to_string())),
        Instr::LoadConst(Value::Str("cd".to_string())),
        Instr::Add,
        Instr::Render,
    ]);
    assert_eq!(eff, vec![Effect::Output(Value::Str("abcd".to_string()))]);
}

#[test]
fn appends_number_to_text_in_decimal() {
    let eff = run_ok(vec![
        Instr::LoadConst(Value::Str("n=".to_string())),
        Instr::LoadConst(Value::Number(-45)),
        Instr::Add,
        Instr::Render,
    ]);
    assert_eq!(eff, vec![Effect::Output(Value::Str("n=-45".to_string()))]);
}

#[test]
fn mismatched_sum_is_nil() {
    let eff = run_ok(vec![
        Instr::LoadConst(Value::Bool(true)),
        Instr::LoadConst(Value::Number(3)),
        Instr::Add,
        Instr::Render,
    ]);
    assert_eq!(eff, vec![Effect::Output(Value::Nil)]);
}

#[test]
fn subtracts_and_multiplies() {
    let eff = run_ok(vec![
        Instr::LoadConst(Value::Number(10)),
        Instr::LoadConst(Value::Number(4)),
        Instr::Sub,
        Instr::Render,
        Instr::LoadConst(Value::Number(6)),
        Instr::LoadConst(Value::Number(7)),
        Instr::Mul,
        Instr::Render,
    ]);
    assert_eq!(
        eff,
        vec![
            Effect::Output(Value::Number(6)),
            Effect::Output(Value::Number(42))
        ]
    );
}

#[test]
fn division_truncates_toward_zero() {
    let eff = run_ok(vec![
        Instr::LoadConst(Value::Number(-7)),
        Instr::LoadConst(Value::Number(2)),
        Instr::Div,
        Instr::Render,
        Instr::LoadConst(Value::Number(7)),
        Instr::LoadConst(Value::Number(-2)),
        Instr::Div,
        Instr::Render,
        Instr::LoadConst(Value::Number(9)),
        Instr::LoadConst(Value::Number(3)),
        Instr::Div,
        Instr::Render,
    ]);
    assert_eq!(
        eff,
        vec![
            Effect::Output(Value::Number(-3)),
            Effect::Output(Value::Number(-3)),
            Effect::Output(Value::Number(3))
        ]
    );
}

#[test]
fn division_by_zero_is_nil() {
    let eff = run_ok(vec![
        Instr::LoadConst(Value::Number(7)),
        Instr::LoadConst(Value::Number(0)),
        Instr::Div,
        Instr::Render,
    ]);
    assert_eq!(eff, vec![Effect::Output(Value::Nil)]);
}

#[test]
fn comparisons() {
    let eff = run_ok(vec![
        Instr::LoadConst(Value::Number(3)),
        Instr::LoadConst(Value::Number(3)),
        Instr::Eq,
        Instr::Render,
        Instr::LoadConst(Value::Number(5)),
        Instr::LoadConst(Value::Number(3)),
        Instr::Gt,
        Instr::Render,
        Instr::LoadConst(Value::Number(5)),
        Instr::LoadConst(Value::Number(3)),
        Instr::Lt,
        Instr::Render,
        Instr::LoadConst(Value::Str("a".to_string())),
        Instr::LoadConst(Value::Number(3)),
        Instr::Eq,
        Instr::Render,
    ]);
    assert_eq!(
        eff,
        vec![
            Effect::Output(Value::Bool(true)),
            Effect::Output(Value::Bool(true)),
            Effect::Output(Value::Bool(false)),
            Effect::Output(Value::Bool(false))
        ]
    );
}

#[test]
fn stores_and_loads_globals() {
    let mut chunk = Chunk::new();
    chunk.emit(Instr::LoadConst(Value::Number(5)));
    chunk.emit(Instr::StoreVar("x".to_string()));
    chunk.emit(Instr::LoadVar("x".to_string()));
    chunk.emit(Instr::Render);
    chunk.emit(Instr::LoadVar("unset".to_string()));
    chunk.emit(Instr::Render);
    let mut vm = VM::new();
    let eff = vm.execute(&chunk, &ctx(0, 1), 10000).expect("run should finish");
    assert_eq!(
        eff,
        vec![Effect::Output(Value::Number(5)), Effect::Output(Value::Nil)]
    );
    assert_eq!(vm.state_json(), "{\"x\":5}");
}

#[test]
fn state_json_lists_variables_in_insertion_order() {
    let mut chunk = Chunk::new();
    chunk.emit(Instr::LoadConst(Value::Str("hi".to_string())));
    chunk.emit(Instr::StoreVar("greeting".to_string()));
    chunk.emit(Instr::LoadConst(Value::Bool(false)));
    chunk.emit(Instr::StoreVar("done".to_string()));
    chunk.emit(Instr::LoadConst(Value::Number(7)));
    chunk.emit(Instr::StoreVar("greeting".to_string()));
    let mut vm = VM::new();
    vm.execute(&chunk, &ctx(0, 1), 10000).expect("run should finish");
    assert_eq!(vm.state_json(), "{\"greeting\":7,\"done\":false}");
}

#[test]
fn logical_time_is_the_context_time() {
    let mut chunk = Chunk::new();
    chunk.emit(Instr::LoadTime);
    chunk.emit(Instr::Render);
    let mut vm = VM::new();
    let eff = vm.execute(&chunk, &ctx(42, 1), 10000).expect("run should finish");
    assert_eq!(eff, vec![Effect::Output(Value::Number(42))]);
}

#[test]
fn randomness_is_a_function_of_the_seed() {
    let mut chunk = Chunk::new();
    chunk.emit(Instr::LoadRand);
    chunk.emit(Instr::Render);
    chunk.emit(Instr::LoadRand);
    chunk.emit(Instr::Render);
    let mut vm1 = VM::new();
    let mut vm2 = VM::new();
    let e1 = vm1.execute(&chunk, &ctx(9, 1234), 10000).expect("run should finish");
    let e2 = vm2.execute(&chunk, &ctx(9, 1234), 10000).expect("run should finish");
    assert_eq!(e1, e2);
    let mut vm3 = VM::new();
    let e3 = vm3.execute(&chunk, &ctx(9, 99), 10000).expect("run should finish");
    assert_ne!(e1, e3);
}

#[test]
fn identical_runs_agree_everywhere() {
    let mut chunk = Chunk::new();
    chunk.emit(Instr::LoadTime);
    chunk.emit(Instr::StoreVar("t".to_string()));
    chunk.emit(Instr::LoadRand);
    chunk.emit(Instr::StoreVar("r".to_string()));
    chunk.emit(Instr::LoadVar("t".to_string()));
    chunk.emit(Instr::Render);
    chunk.emit(Instr::LoadVar("r".to_string()));
    chunk.emit(Instr::Render);
    let mut vm1 = VM::new();
    let mut vm2 = VM::new();
    let e1 = vm1.execute(&chunk, &ctx(5, 0xACE1), 10000).expect("run should finish");
    let e2 = vm2.execute(&chunk, &ctx(5, 0xACE1), 10000).expect("run should finish");
    assert!(effects_equal(&e1, &e2));
    assert_eq!(vm1.state_json(), vm2.state_json());
}

#[test]
fn jumps_skip_and_loop() {
    // 0: LoadConst 0        counter = 0
    // 1: StoreVar i
    // 2: LoadVar i          loop head
    // 3: LoadConst 3
    // 4: Lt                 i < 3 ?
    // 5: JumpIfFalse 12
    // 6: LoadVar i
    // 7: LoadConst 1
    // 8: Add
    // 9: StoreVar i
    // 10: Jump 2
    // 11: (unreachable)
    // 12: LoadVar i
    // 13: Render
    let eff = run_ok(vec![
        Instr::LoadConst(Value::Number(0)),
        Instr::StoreVar("i".to_string()),
        Instr::LoadVar("i".to_string()),
        Instr::LoadConst(Value::Number(3)),
        Instr::Lt,
        Instr::JumpIfFalse(12),
        Instr::LoadVar("i".to_string()),
        Instr::LoadConst(Value::Number(1)),
        Instr::Add,
        Instr::StoreVar("i".to_string()),
        Instr::Jump(2),
        Instr::Return,
        Instr::LoadVar("i".to_string()),
        Instr::Render,
    ]);
    assert_eq!(eff, vec![Effect::Output(Value::Number(3))]);
}

#[test]
fn return_ends_the_run() {
    let eff = run_ok(vec![
        Instr::LoadConst(Value::Number(1)),
        Instr::Render,
        Instr::Return,
        Instr::LoadConst(Value::Number(2)),
        Instr::Render,
    ]);
    assert_eq!(eff, vec![Effect::Output(Value::Number(1))]);
}

#[test]
fn render_markers_and_spawn() {
    let eff = run_ok(vec![
        Instr::RenderTimeline,
        Instr::RenderState,
        Instr::RenderUI,
        Instr::LoadConst(Value::Nil),
        Instr::Spawn(0),
    ]);
    assert_eq!(
        eff,
        vec![
            Effect::TimelineGraph,
            Effect::StateSnapshot,
            Effect::UiUpdate,
            Effect::Spawned
        ]
    );
}

#[test]
fn intrinsic_len_counts_bytes() {
    let eff = run_ok(vec![
        Instr::LoadConst(Value::Str("hello".to_string())),
        Instr::Call("len".to_string(), 1),
        Instr::Render,
    ]);
    assert_eq!(eff, vec![Effect::Output(Value::Number(5))]);
    let eff2 = run_ok(vec![
        Instr::LoadConst(Value::Str("héllo".to_string())),
        Instr::Call("len".to_string(), 1),
        Instr::Render,
    ]);
    assert_eq!(eff2, vec![Effect::Output(Value::Number(6))]);
}

#[test]
fn stack_underflow_faults() {
    let r = run(vec![Instr::Add]);
    assert_eq!(r, Err(ActorFault::Runtime(RuntimeFault::StackUnderflow)));
}

#[test]
fn unknown_intrinsic_faults() {
    let r = run(vec![
        Instr::LoadConst(Value::Number(1)),
        Instr::Call("frobnicate".to_string(), 1),
    ]);
    assert_eq!(r, Err(ActorFault::Runtime(RuntimeFault::UnknownIntrinsic)));
}

#[test]
fn intrinsic_on_wrong_kind_faults() {
    let r = run(vec![
        Instr::LoadConst(Value::Number(1)),
        Instr::Call("len".to_string(), 1),
    ]);
    assert_eq!(r, Err(ActorFault::Runtime(RuntimeFault::TypeMismatch)));
}

#[test]
fn wild_jump_faults() {
    let r = run(vec![Instr::Jump(99)]);
    assert_eq!(r, Err(ActorFault::Runtime(RuntimeFault::InvalidJumpTarget)));
}

#[test]
fn step_budget_is_enforced() {
    let mut chunk = Chunk::new();
    chunk.emit(Instr::Jump(0));
    let mut vm = VM::new();
    let r = vm.execute(&chunk, &ctx(0, 1), 10);
    assert_eq!(r, Err(ActorFault::StepBudgetExhausted));
}

#[test]
fn environment_read_needs_the_capability() {
    let mut chunk = Chunk::new();
    chunk.emit(Instr::LoadEnv("MODE".to_string()));
    chunk.emit(Instr::Render);
    let mut vm = VM::new();
    let denied = vm.execute(&chunk, &ctx(0, 1), 1000);
    assert_eq!(denied, Err(ActorFault::CapabilityViolation(CAP_FS_READ)));

    let mut vm2 = VM::new();
    vm2.set_guard(CapabilityGuard::new(Capabilities::from_bits(CAP_FS_READ)));
    vm2.set_env_var("MODE".to_string(), "replay".to_string());
    let eff = vm2.execute(&chunk, &ctx(0, 1), 1000).expect("run should finish");
    assert_eq!(eff, vec![Effect::Output(Value::Str("replay".to_string()))]);

    let mut chunk2 = Chunk::new();
    chunk2.emit(Instr::LoadEnv("MISSING".to_string()));
    chunk2.emit(Instr::Render);
    let eff2 = vm2.execute(&chunk2, &ctx(0, 1), 1000).expect("run should finish");
    assert_eq!(eff2, vec![Effect::Output(Value::Str(String::new()))]);
}
