//! The bytecode virtual machine: a stack machine over a global-variable
//! table. Time and randomness come from the caller's execution context, so a
//! run is a pure function of the chunk, the environment table, the granted
//! capabilities, the logical time, the seed and the prior machine state —
//! stated here as a small-step interpreter that the executable machine is
//! proved to follow.

use crate::capability::{caps_contain, Capabilities, CapabilityGuard, CAP_FS_READ};
use crate::fault::{ActorFault, RuntimeFault};
use crate::table::{distinct_keys, table_get, table_set, table_view};
use crate::text::int_chars;
use crate::value::{view_truthy, Value, ValueView};
use vstd::prelude::*;

verus! {

/// What a run is allowed to observe of its caller: the logical time of the
/// message being handled, and the seed the generator is reset to.
#[derive(Clone, Copy)]
pub struct VMContext {
    pub logical_time: u64,
    pub rand_seed: u64,
}

/// One machine instruction.
pub enum Instr {
    /// Push a constant.
    LoadConst(Value),
    /// Push a global variable, nil when unset.
    LoadVar(String),
    /// Pop into a global variable.
    StoreVar(String),
    /// Push a host environment entry; needs the read capability.
    LoadEnv(String),
    /// Push the logical time.
    LoadTime,
    /// Advance the generator and push the drawn number.
    LoadRand,
    /// Pop two, push the sum; also concatenates text.
    Add,
    /// Pop two, push the difference.
    Sub,
    /// Pop two, push the product.
    Mul,
    /// Pop two, push the quotient.
    Div,
    /// Pop two, push whether they are equal.
    Eq,
    /// Pop two, push whether the first is the greater number.
    Gt,
    /// Pop two, push whether the first is the smaller number.
    Lt,
    /// Call a named intrinsic on the top of the stack.
    Call(String, usize),
    /// Pop a task value and emit a spawn effect.
    Spawn(usize),
    /// Continue at the given instruction index.
    Jump(usize),
    /// Pop; when falsy, continue at the given instruction index.
    JumpIfFalse(usize),
    /// End the run.
    Return,
    /// Pop and emit the value as output.
    Render,
    /// Emit the timeline-graph marker.
    RenderTimeline,
    /// Emit the state-snapshot marker.
    RenderState,
    /// Emit the interface-update marker.
    RenderUI,
}

/// Mathematical value of an [`Instr`].
pub enum InstrView {
    LoadConst(ValueView),
    LoadVar(Seq<char>),
    StoreVar(Seq<char>),
    LoadEnv(Seq<char>),
    LoadTime,
    LoadRand,
    Add,
    Sub,
    Mul,
    Div,
    Eq,
    Gt,
    Lt,
    Call(Seq<char>, usize),
    Spawn(usize),
    Jump(usize),
    JumpIfFalse(usize),
    Return,
    Render,
    RenderTimeline,
    RenderState,
    RenderUI,
}

impl View for Instr {
    type V = InstrView;

    open spec fn view(&self) -> InstrView {
        match self {
            Instr::LoadConst(v) => InstrView::LoadConst(v@),
            Instr::LoadVar(n) => InstrView::LoadVar(n@),
            Instr::StoreVar(n) => InstrView::StoreVar(n@),
            Instr::LoadEnv(n) => InstrView::LoadEnv(n@),
            Instr::LoadTime => InstrView::LoadTime,
            Instr::LoadRand => InstrView::LoadRand,
            Instr::Add => InstrView::Add,
            Instr::Sub => InstrView::Sub,
            Instr::Mul => InstrView::Mul,
            Instr::Div => InstrView::Div,
            Instr::Eq => InstrView::Eq,
            Instr::Gt => InstrView::Gt,
            Instr::Lt => InstrView::Lt,
            Instr::Call(n, c) => InstrView::Call(n@, *c),
            Instr::Spawn(c) => InstrView::Spawn(*c),
            Instr::Jump(t) => InstrView::Jump(*t),
            Instr::JumpIfFalse(t) => InstrView::JumpIfFalse(*t),
            Instr::Return => InstrView::Return,
            Instr::Render => InstrView::Render,
            Instr::RenderTimeline => InstrView::RenderTimeline,
            Instr::RenderState => InstrView::RenderState,
            Instr::RenderUI => InstrView::RenderUI,
        }
    }
}

/// A compiled, flat instruction sequence.
pub struct Chunk {
    pub instrs: Vec<Instr>,
}

impl View for Chunk {
    type V = Seq<InstrView>;

    open spec fn view(&self) -> Seq<InstrView> {
        self.instrs@.map_values(|i: Instr| i@)
    }
}

impl Chunk {
    /// An empty instruction sequence.
    pub fn new() -> (r: Self)
        ensures
            r@ == Seq::<InstrView>::empty(),
    {
        let c = Chunk { instrs: Vec::new() };
        proof {
            assert(c@ =~= Seq::<InstrView>::empty());
        }
        c
    }

    /// Appends one instruction.
    pub fn emit(&mut self, instr: Instr)
        ensures
            final(self)@ == old(self)@.push(instr@),
    {
        self.instrs.push(instr);
        proof {
            assert(self@ =~= old(self)@.push(instr@));
        }
    }
}

/// An externally observable effect of a run, in emission order.
#[derive(Debug, PartialEq)]
pub enum Effect {
    /// A rendered value.
    Output(Value),
    /// The timeline-graph marker.
    TimelineGraph,
    /// The state-snapshot marker.
    StateSnapshot,
    /// The interface-update marker.
    UiUpdate,
    /// A task was spawned.
    Spawned,
}

/// Mathematical value of an [`Effect`].
pub enum EffectView {
    Output(ValueView),
    TimelineGraph,
    StateSnapshot,
    UiUpdate,
    Spawned,
}

impl View for Effect {
    type V = EffectView;

    open spec fn view(&self) -> EffectView {
        match self {
            Effect::Output(v) => EffectView::Output(v@),
            Effect::TimelineGraph => EffectView::TimelineGraph,
            Effect::StateSnapshot => EffectView::StateSnapshot,
            Effect::UiUpdate => EffectView::UiUpdate,
            Effect::Spawned => EffectView::Spawned,
        }
    }
}

impl Effect {
    /// Structural equality of two effects.
    pub fn same_effect(&self, other: &Effect) -> (r: bool)
        ensures
            r == (self@ == other@),
    {
        match self {
            Effect::Output(a) => match other {
                Effect::Output(b) => a.same_value(b),
                _ => false,
            },
            Effect::TimelineGraph => matches!(other, Effect::TimelineGraph),
            Effect::StateSnapshot => matches!(other, Effect::StateSnapshot),
            Effect::UiUpdate => matches!(other, Effect::UiUpdate),
            Effect::Spawned => matches!(other, Effect::Spawned),
        }
    }
}

/// The views of a sequence of values.
pub open spec fn values_view(s: Seq<Value>) -> Seq<ValueView> {
    s.map_values(|v: Value| v@)
}

/// The views of a sequence of effects.
pub open spec fn effects_view(s: Seq<Effect>) -> Seq<EffectView> {
    s.map_values(|e: Effect| e@)
}

/// Whether two effect sequences carry the same effects.
pub fn effects_equal(a: &Vec<Effect>, b: &Vec<Effect>) -> (r: bool)
    ensures
        r == (effects_view(a@) == effects_view(b@)),
{
    if a.len() != b.len() {
        proof {
            assert(effects_view(a@).len() != effects_view(b@).len());
        }
        return false;
    }
    let mut i: usize = 0;
    while i < a.len()
        invariant
            a@.len() == b@.len(),
            i <= a@.len(),
            forall|j: int| 0 <= j < i ==> effects_view(a@)[j] == effects_view(b@)[j],
        decreases a@.len() - i,
    {
        if !a[i].same_effect(&b[i]) {
            proof {
                assert(effects_view(a@)[i as int] != effects_view(b@)[i as int]);
            }
            return false;
        }
        i = i + 1;
    }
    proof {
        assert(effects_view(a@) =~= effects_view(b@));
    }
    true
}

/// A snapshot of a running machine: the next instruction's index, the stack,
/// the global table, the generator state, and the effects emitted so far.
pub struct VmSnap {
    pub ip: int,
    pub stack: Seq<ValueView>,
    pub globals: Map<Seq<char>, ValueView>,
    pub rng: u64,
    pub out: Seq<EffectView>,
}

/// What one step leads to.
pub enum StepRes {
    /// The machine continues in this state.
    Next(VmSnap),
    /// The run ended normally in this state.
    Done(VmSnap),
    /// The run faulted, leaving this state behind.
    Fault(ActorFault, VmSnap),
}

/// How a run with a given step budget ends.
pub enum RunRes {
    /// Terminated normally.
    Finished(VmSnap),
    /// Faulted.
    Faulted(ActorFault, VmSnap),
    /// Still running when the budget ran out.
    Pending(VmSnap),
}

/// One round of the sixty-four-bit xorshift generator.
pub open spec fn xorshift(x: u64) -> u64 {
    let a = x ^ (x << 13);
    let b = a ^ (a >> 17);
    b ^ (b << 5)
}

/// The sum of two values: numbers add (wrapping), text concatenates, a
/// number appended to text is written in decimal, anything else is nil.
pub open spec fn value_add(a: ValueView, b: ValueView) -> ValueView {
    match a {
        ValueView::Num(x) => match b {
            ValueView::Num(y) => ValueView::Num(vstd::wrapping::i64_specs::wrapping_add(x, y)),
            _ => ValueView::Nil,
        },
        ValueView::Str(s) => match b {
            ValueView::Str(t) => ValueView::Str(s + t),
            ValueView::Num(y) => ValueView::Str(s + int_chars(y as int)),
            _ => ValueView::Nil,
        },
        _ => ValueView::Nil,
    }
}

/// The difference of two numbers (wrapping); nil otherwise.
pub open spec fn value_sub(a: ValueView, b: ValueView) -> ValueView {
    match a {
        ValueView::Num(x) => match b {
            ValueView::Num(y) => ValueView::Num(vstd::wrapping::i64_specs::wrapping_sub(x, y)),
            _ => ValueView::Nil,
        },
        _ => ValueView::Nil,
    }
}

/// The product of two numbers (wrapping); nil otherwise.
pub open spec fn value_mul(a: ValueView, b: ValueView) -> ValueView {
    match a {
        ValueView::Num(x) => match b {
            ValueView::Num(y) => ValueView::Num(vstd::wrapping::i64_specs::wrapping_mul(x, y)),
            _ => ValueView::Nil,
        },
        _ => ValueView::Nil,
    }
}

/// The quotient of two numbers, truncated toward zero. Division by zero and
/// the one overflowing case give nil; so does any non-number operand.
pub open spec fn value_div(a: ValueView, b: ValueView) -> ValueView {
    match a {
        ValueView::Num(x) => match b {
            ValueView::Num(y) => {
                if y == 0 {
                    ValueView::Nil
                } else {
                    let q = abs_int(x as int) / abs_int(y as int);
                    if (x < 0) != (y < 0) {
                        ValueView::Num((-q) as i64)
                    } else if q <= i64::MAX {
                        ValueView::Num(q as i64)
                    } else {
                        ValueView::Nil
                    }
                }
            },
            _ => ValueView::Nil,
        },
        _ => ValueView::Nil,
    }
}

/// The magnitude of an integer.
pub open spec fn abs_int(i: int) -> int {
    if i < 0 {
        -i
    } else {
        i
    }
}

/// Whether the first of two values is the greater number; false otherwise.
pub open spec fn value_gt(a: ValueView, b: ValueView) -> bool {
    match a {
        ValueView::Num(x) => match b {
            ValueView::Num(y) => x > y,
            _ => false,
        },
        _ => false,
    }
}

/// Whether the first of two values is the smaller number; false otherwise.
pub open spec fn value_lt(a: ValueView, b: ValueView) -> bool {
    match a {
        ValueView::Num(x) => match b {
            ValueView::Num(y) => x < y,
            _ => false,
        },
        _ => false,
    }
}

/// A fault outcome, with the stack that was left behind.
pub open spec fn fault_step(s: VmSnap, f: RuntimeFault) -> StepRes {
    StepRes::Fault(ActorFault::Runtime(f), s)
}

/// One step of the machine from state `s`, under program `prog`, host
/// environment `env`, granted capability bits `caps` and logical time
/// `time`. Called only with the instruction index in range; anywhere else
/// the run is already over.
pub open spec fn step(
    prog: Seq<InstrView>,
    env: Map<Seq<char>, Seq<char>>,
    caps: u32,
    time: u64,
    s: VmSnap,
) -> StepRes {
    let n = s.stack.len() as int;
    match prog[s.ip] {
        InstrView::LoadConst(v) => StepRes::Next(
            VmSnap { ip: s.ip + 1, stack: s.stack.push(v), ..s },
        ),
        InstrView::LoadVar(name) => {
            let v = if s.globals.contains_key(name) {
                s.globals[name]
            } else {
                ValueView::Nil
            };
            StepRes::Next(VmSnap { ip: s.ip + 1, stack: s.stack.push(v), ..s })
        },
        InstrView::StoreVar(name) => {
            if n < 1 {
                fault_step(s, RuntimeFault::StackUnderflow)
            } else {
                StepRes::Next(
                    VmSnap {
                        ip: s.ip + 1,
                        stack: s.stack.drop_last(),
                        globals: s.globals.insert(name, s.stack.last()),
                        ..s
                    },
                )
            }
        },
        InstrView::LoadEnv(key) => {
            if !caps_contain(caps, CAP_FS_READ) {
                StepRes::Fault(ActorFault::CapabilityViolation(CAP_FS_READ), s)
            } else {
                let v = if env.contains_key(key) {
                    ValueView::Str(env[key])
                } else {
                    ValueView::Str(Seq::empty())
                };
                StepRes::Next(VmSnap { ip: s.ip + 1, stack: s.stack.push(v), ..s })
            }
        },
        InstrView::LoadTime => {
            let v = if time <= i64::MAX as u64 {
                ValueView::Num(time as i64)
            } else {
                ValueView::Nil
            };
            StepRes::Next(VmSnap { ip: s.ip + 1, stack: s.stack.push(v), ..s })
        },
        InstrView::LoadRand => {
            let r = xorshift(s.rng);
            StepRes::Next(
                VmSnap {
                    ip: s.ip + 1,
                    stack: s.stack.push(ValueView::Num((r >> 1) as i64)),
                    rng: r,
                    ..s
                },
            )
        },
        InstrView::Add => binary_step(s, value_add(two_under(s), one_top(s))),
        InstrView::Sub => binary_step(s, value_sub(two_under(s), one_top(s))),
        InstrView::Mul => binary_step(s, value_mul(two_under(s), one_top(s))),
        InstrView::Div => binary_step(s, value_div(two_under(s), one_top(s))),
        InstrView::Eq => binary_step(s, ValueView::Bool(two_under(s) == one_top(s))),
        InstrView::Gt => binary_step(s, ValueView::Bool(value_gt(two_under(s), one_top(s)))),
        InstrView::Lt => binary_step(s, ValueView::Bool(value_lt(two_under(s), one_top(s)))),
        InstrView::Call(name, _argc) => {
            if name != "len"@ {
                fault_step(s, RuntimeFault::UnknownIntrinsic)
            } else if n < 1 {
                fault_step(s, RuntimeFault::StackUnderflow)
            } else {
                match s.stack.last() {
                    ValueView::Str(t) => {
                        let v = if vstd::utf8::encode_utf8(t).len() <= i64::MAX {
                            ValueView::Num(vstd::utf8::encode_utf8(t).len() as i64)
                        } else {
                            ValueView::Nil
                        };
                        StepRes::Next(
                            VmSnap { ip: s.ip + 1, stack: s.stack.drop_last().push(v), ..s },
                        )
                    },
                    _ => fault_step(s, RuntimeFault::TypeMismatch),
                }
            }
        },
        InstrView::Spawn(_argc) => {
            if n < 1 {
                fault_step(s, RuntimeFault::StackUnderflow)
            } else {
                StepRes::Next(
                    VmSnap {
                        ip: s.ip + 1,
                        stack: s.stack.drop_last(),
                        out: s.out.push(EffectView::Spawned),
                        ..s
                    },
                )
            }
        },
        InstrView::Jump(t) => {
            if t > prog.len() {
                fault_step(s, RuntimeFault::InvalidJumpTarget)
            } else {
                StepRes::Next(VmSnap { ip: t as int, ..s })
            }
        },
        InstrView::JumpIfFalse(t) => {
            if n < 1 {
                fault_step(s, RuntimeFault::StackUnderflow)
            } else if view_truthy(s.stack.last()) {
                StepRes::Next(VmSnap { ip: s.ip + 1, stack: s.stack.drop_last(), ..s })
            } else if t > prog.len() {
                fault_step(
                    VmSnap { stack: s.stack.drop_last(), ..s },
                    RuntimeFault::InvalidJumpTarget,
                )
            } else {
                StepRes::Next(VmSnap { ip: t as int, stack: s.stack.drop_last(), ..s })
            }
        },
        InstrView::Return => StepRes::Done(VmSnap { ip: s.ip + 1, ..s }),
        InstrView::Render => {
            if n < 1 {
                fault_step(s, RuntimeFault::StackUnderflow)
            } else {
                StepRes::Next(
                    VmSnap {
                        ip: s.ip + 1,
                        stack: s.stack.drop_last(),
                        out: s.out.push(EffectView::Output(s.stack.last())),
                        ..s
                    },
                )
            }
        },
        InstrView::RenderTimeline => StepRes::Next(
            VmSnap { ip: s.ip + 1, out: s.out.push(EffectView::TimelineGraph), ..s },
        ),
        InstrView::RenderState => StepRes::Next(
            VmSnap { ip: s.ip + 1, out: s.out.push(EffectView::StateSnapshot), ..s },
        ),
        InstrView::RenderUI => StepRes::Next(
            VmSnap { ip: s.ip + 1, out: s.out.push(EffectView::UiUpdate), ..s },
        ),
    }
}

/// The value below the top of the stack (the first operand popped second).
pub open spec fn two_under(s: VmSnap) -> ValueView {
    s.stack[s.stack.len() - 2]
}

/// The value on top of the stack (popped first).
pub open spec fn one_top(s: VmSnap) -> ValueView {
    s.stack.last()
}

/// Pops two operands and pushes `v` — or faults when fewer than two values
/// are on the stack.
pub open spec fn binary_step(s: VmSnap, v: ValueView) -> StepRes {
    if s.stack.len() < 2 {
        fault_step(s, RuntimeFault::StackUnderflow)
    } else {
        StepRes::Next(
            VmSnap {
                ip: s.ip + 1,
                stack: s.stack.take(s.stack.len() - 2).push(v),
                ..s
            },
        )
    }
}

/// Runs the machine for at most `fuel` steps. A run finishes when the
/// instruction index leaves the program, or a `Return` is reached; it is
/// pending when the budget runs out first.
pub open spec fn vm_run(
    prog: Seq<InstrView>,
    env: Map<Seq<char>, Seq<char>>,
    caps: u32,
    time: u64,
    s: VmSnap,
    fuel: nat,
) -> RunRes
    decreases fuel,
{
    if !(0 <= s.ip < prog.len()) {
        RunRes::Finished(s)
    } else if fuel == 0 {
        RunRes::Pending(s)
    } else {
        match step(prog, env, caps, time, s) {
            StepRes::Next(s2) => vm_run(prog, env, caps, time, s2, (fuel - 1) as nat),
            StepRes::Done(s2) => RunRes::Finished(s2),
            StepRes::Fault(f, s2) => RunRes::Faulted(f, s2),
        }
    }
}

/// After `n` steps the machine stands at `s2`: one more step of any kind
/// extends the run by one unit of fuel.
proof fn lemma_run_extend(
    prog: Seq<InstrView>,
    env: Map<Seq<char>, Seq<char>>,
    caps: u32,
    time: u64,
    s: VmSnap,
    s2: VmSnap,
    n: nat,
)
    requires
        vm_run(prog, env, caps, time, s, n) == RunRes::Pending(s2),
        0 <= s2.ip < prog.len(),
    ensures
        vm_run(prog, env, caps, time, s, n + 1) == (match step(prog, env, caps, time, s2) {
            StepRes::Next(s3) => if 0 <= s3.ip < prog.len() {
                RunRes::Pending(s3)
            } else {
                RunRes::Finished(s3)
            },
            StepRes::Done(s3) => RunRes::Finished(s3),
            StepRes::Fault(f, s3) => RunRes::Faulted(f, s3),
        }),
    decreases n,
{
    if n == 0 {
        assert(s2 == s);
        match step(prog, env, caps, time, s) {
            StepRes::Next(s3) => {
                assert(vm_run(prog, env, caps, time, s, 1) == vm_run(
                    prog,
                    env,
                    caps,
                    time,
                    s3,
                    0,
                ));
            },
            StepRes::Done(s3) => {
                assert(vm_run(prog, env, caps, time, s, 1) == RunRes::Finished(s3));
            },
            StepRes::Fault(f, s3) => {
                assert(vm_run(prog, env, caps, time, s, 1) == RunRes::Faulted(f, s3));
            },
        }
    } else {
        if 0 <= s.ip < prog.len() {
            match step(prog, env, caps, time, s) {
                StepRes::Next(sm) => {
                    lemma_run_extend(prog, env, caps, time, sm, s2, (n - 1) as nat);
                    assert(vm_run(prog, env, caps, time, s, n + 1) == vm_run(
                        prog,
                        env,
                        caps,
                        time,
                        sm,
                        n,
                    ));
                },
                StepRes::Done(_) => {},
                StepRes::Fault(_, _) => {},
            }
        }
    }
}

/// A run that has ended does not change with more fuel.
proof fn lemma_run_stable(
    prog: Seq<InstrView>,
    env: Map<Seq<char>, Seq<char>>,
    caps: u32,
    time: u64,
    s: VmSnap,
    n: nat,
    m: nat,
)
    requires
        n <= m,
        !(vm_run(prog, env, caps, time, s, n) is Pending),
    ensures
        vm_run(prog, env, caps, time, s, m) == vm_run(prog, env, caps, time, s, n),
    decreases n,
{
    if 0 <= s.ip < prog.len() && n > 0 {
        match step(prog, env, caps, time, s) {
            StepRes::Next(sm) => {
                lemma_run_stable(prog, env, caps, time, sm, (n - 1) as nat, (m - 1) as nat);
            },
            StepRes::Done(_) => {},
            StepRes::Fault(_, _) => {},
        }
    }
}

} // verus!

verus! {

/// Pushing a value pushes its view.
proof fn lemma_values_view_push(s: Seq<Value>, v: Value)
    ensures
        values_view(s.push(v)) == values_view(s).push(v@),
{
    assert(values_view(s.push(v)) =~= values_view(s).push(v@));
}

/// Dropping the last value drops the last view.
proof fn lemma_values_view_drop(s: Seq<Value>)
    requires
        s.len() > 0,
    ensures
        values_view(s.drop_last()) == values_view(s).drop_last(),
        values_view(s).last() == s.last()@,
{
    assert(values_view(s.drop_last()) =~= values_view(s).drop_last());
}

/// Taking a prefix of values takes the prefix of views.
proof fn lemma_values_view_take(s: Seq<Value>, k: int)
    requires
        0 <= k <= s.len(),
    ensures
        values_view(s.take(k)) == values_view(s).take(k),
{
    assert(values_view(s.take(k)) =~= values_view(s).take(k));
}

/// Pushing an effect pushes its view.
proof fn lemma_effects_view_push(s: Seq<Effect>, e: Effect)
    ensures
        effects_view(s.push(e)) == effects_view(s).push(e@),
{
    assert(effects_view(s.push(e)) =~= effects_view(s).push(e@));
}

/// Pops the two operands of a binary instruction: first the right one, then
/// the left. Fails without touching anything when fewer than two values are
/// on the stack.
fn pop2(stack: &mut Vec<Value>) -> (r: Option<(Value, Value)>)
    ensures
        old(stack)@.len() >= 2 ==> ({
            &&& r matches Some(p) && p.0@ == values_view(old(stack)@)[old(stack)@.len() - 2]
                && p.1@ == values_view(old(stack)@)[old(stack)@.len() - 1]
            &&& values_view(final(stack)@) == values_view(old(stack)@).take(
                old(stack)@.len() - 2,
            )
        }),
        old(stack)@.len() < 2 ==> r is None && final(stack)@ == old(stack)@,
{
    if stack.len() < 2 {
        return None;
    }
    proof {
        lemma_values_view_drop(stack@);
    }
    let b = stack.pop().unwrap();
    proof {
        lemma_values_view_drop(stack@);
    }
    let a = stack.pop().unwrap();
    proof {
        assert(values_view(stack@) =~= values_view(old(stack)@).take(old(stack)@.len() - 2));
    }
    Some((a, b))
}

/// Pops the one operand of a unary instruction; fails without touching
/// anything when the stack is empty.
fn pop1(stack: &mut Vec<Value>) -> (r: Option<Value>)
    ensures
        old(stack)@.len() >= 1 ==> ({
            &&& r matches Some(v) && v@ == values_view(old(stack)@).last()
            &&& values_view(final(stack)@) == values_view(old(stack)@).drop_last()
        }),
        old(stack)@.len() == 0 ==> r is None && final(stack)@ == old(stack)@,
{
    if stack.len() < 1 {
        return None;
    }
    proof {
        lemma_values_view_drop(stack@);
    }
    let v = stack.pop().unwrap();
    Some(v)
}

/// Computes the sum instruction's result.
fn value_add_exec(a: Value, b: Value) -> (r: Value)
    ensures
        r@ == value_add(a@, b@),
{
    match a {
        Value::Number(x) => match b {
            Value::Number(y) => Value::Number(x.wrapping_add(y)),
            _ => Value::Nil,
        },
        Value::Str(s) => match b {
            Value::Str(t) => {
                let mut s2 = s;
                crate::text::push_str_part(t.as_str(), &mut s2);
                Value::Str(s2)
            },
            Value::Number(y) => {
                let mut s2 = s;
                crate::text::push_int(y, &mut s2);
                Value::Str(s2)
            },
            _ => Value::Nil,
        },
        _ => Value::Nil,
    }
}

/// Computes the difference instruction's result.
fn value_sub_exec(a: Value, b: Value) -> (r: Value)
    ensures
        r@ == value_sub(a@, b@),
{
    match a {
        Value::Number(x) => match b {
            Value::Number(y) => Value::Number(x.wrapping_sub(y)),
            _ => Value::Nil,
        },
        _ => Value::Nil,
    }
}

/// Computes the product instruction's result.
fn value_mul_exec(a: Value, b: Value) -> (r: Value)
    ensures
        r@ == value_mul(a@, b@),
{
    match a {
        Value::Number(x) => match b {
            Value::Number(y) => Value::Number(x.wrapping_mul(y)),
            _ => Value::Nil,
        },
        _ => Value::Nil,
    }
}

/// The magnitude of a signed number, as an unsigned one.
fn magnitude(x: i64) -> (r: u64)
    ensures
        r == abs_int(x as int),
{
    if x >= 0 {
        x as u64
    } else {
        ((-(x + 1)) as u64) + 1
    }
}

/// Computes the quotient instruction's result.
fn value_div_exec(a: Value, b: Value) -> (r: Value)
    ensures
        r@ == value_div(a@, b@),
{
    match a {
        Value::Number(x) => match b {
            Value::Number(y) => {
                if y == 0 {
                    return Value::Nil;
                }
                let ma = magnitude(x);
                let mb = magnitude(y);
                let q = ma / mb;
                proof {
                    assert(q == abs_int(x as int) / abs_int(y as int)) by (nonlinear_arith)
                        requires
                            ma == abs_int(x as int),
                            mb == abs_int(y as int),
                            mb >= 1,
                            q == ma as nat / mb as nat,
                    ;
                    assert(q <= ma) by (nonlinear_arith)
                        requires
                            mb >= 1,
                            q == ma as nat / mb as nat,
                    ;
                }
                if (x < 0) != (y < 0) {
                    if q <= 0x7fff_ffff_ffff_ffffu64 {
                        Value::Number(-(q as i64))
                    } else {
                        Value::Number(i64::MIN)
                    }
                } else {
                    if q <= 0x7fff_ffff_ffff_ffffu64 {
                        Value::Number(q as i64)
                    } else {
                        Value::Nil
                    }
                }
            },
            _ => Value::Nil,
        },
        _ => Value::Nil,
    }
}

} // verus!


verus! {

/// Bundles one `Next` step into the running invariant.
proof fn lemma_advance(
    prog: Seq<InstrView>,
    env: Map<Seq<char>, Seq<char>>,
    caps: u32,
    time: u64,
    init: VmSnap,
    n: nat,
    cur: VmSnap,
    cur2: VmSnap,
)
    requires
        vm_run(prog, env, caps, time, init, n) == RunRes::Pending(cur),
        0 <= cur.ip < prog.len(),
        step(prog, env, caps, time, cur) == StepRes::Next(cur2),
    ensures
        vm_run(prog, env, caps, time, init, n + 1) == (if 0 <= cur2.ip < prog.len() {
            RunRes::Pending(cur2)
        } else {
            RunRes::Finished(cur2)
        }),
{
    lemma_run_extend(prog, env, caps, time, init, cur, n);
}

/// A `Return` step settles the run for every larger budget.
proof fn lemma_run_finishes(
    prog: Seq<InstrView>,
    env: Map<Seq<char>, Seq<char>>,
    caps: u32,
    time: u64,
    init: VmSnap,
    n: nat,
    m: nat,
    cur: VmSnap,
    cur2: VmSnap,
)
    requires
        vm_run(prog, env, caps, time, init, n) == RunRes::Pending(cur),
        0 <= cur.ip < prog.len(),
        step(prog, env, caps, time, cur) == StepRes::Done(cur2),
        n < m,
    ensures
        vm_run(prog, env, caps, time, init, m) == RunRes::Finished(cur2),
{
    lemma_run_extend(prog, env, caps, time, init, cur, n);
    lemma_run_stable(prog, env, caps, time, init, n + 1, m);
}

/// A faulting step settles the run for every larger budget.
proof fn lemma_run_faults(
    prog: Seq<InstrView>,
    env: Map<Seq<char>, Seq<char>>,
    caps: u32,
    time: u64,
    init: VmSnap,
    n: nat,
    m: nat,
    cur: VmSnap,
    f: ActorFault,
    s2: VmSnap,
)
    requires
        vm_run(prog, env, caps, time, init, n) == RunRes::Pending(cur),
        0 <= cur.ip < prog.len(),
        step(prog, env, caps, time, cur) == StepRes::Fault(f, s2),
        n < m,
    ensures
        vm_run(prog, env, caps, time, init, m) == RunRes::Faulted(f, s2),
{
    lemma_run_extend(prog, env, caps, time, init, cur, n);
    lemma_run_stable(prog, env, caps, time, init, n + 1, m);
}

/// Computes the greater-number comparison's result.
fn value_gt_exec(a: &Value, b: &Value) -> (r: bool)
    ensures
        r == value_gt(a@, b@),
{
    match a {
        Value::Number(x) => match b {
            Value::Number(y) => *x > *y,
            _ => false,
        },
        _ => false,
    }
}

/// Computes the smaller-number comparison's result.
fn value_lt_exec(a: &Value, b: &Value) -> (r: bool)
    ensures
        r == value_lt(a@, b@),
{
    match a {
        Value::Number(x) => match b {
            Value::Number(y) => *x < *y,
            _ => false,
        },
        _ => false,
    }
}

/// The run of a fresh invocation: instruction index zero, no output yet, the
/// generator reset to `seed`.
pub open spec fn vm_result(
    prog: Seq<InstrView>,
    env: Map<Seq<char>, Seq<char>>,
    caps: u32,
    time: u64,
    seed: u64,
    stack: Seq<ValueView>,
    globals: Map<Seq<char>, ValueView>,
    fuel: nat,
) -> RunRes {
    vm_run(
        prog,
        env,
        caps,
        time,
        VmSnap { ip: 0, stack, globals, rng: seed, out: Seq::empty() },
        fuel,
    )
}

/// The executable machine: evaluation stack, global-variable table, host
/// environment table, capability guard and generator state.
pub struct VM {
    stack: Vec<Value>,
    globals: Vec<(String, Value)>,
    env: Vec<(String, String)>,
    guard: CapabilityGuard,
    rng: u64,
}

impl VM {
    /// Both tables keep their keys distinct.
    pub closed spec fn wf(&self) -> bool {
        distinct_keys(self.globals@) && distinct_keys(self.env@)
    }

    /// The views of the values on the stack, bottom first.
    pub closed spec fn stack_view(&self) -> Seq<ValueView> {
        values_view(self.stack@)
    }

    /// The global-variable table, as a map.
    pub closed spec fn globals_view(&self) -> Map<Seq<char>, ValueView> {
        table_view(self.globals@)
    }

    /// The global-variable table, as ordered entries.
    pub closed spec fn globals_entries(&self) -> Seq<(String, Value)> {
        self.globals@
    }

    /// The host environment table, as a map.
    pub closed spec fn env_view(&self) -> Map<Seq<char>, Seq<char>> {
        table_view(self.env@)
    }

    /// The capability bits the machine's guard grants.
    pub closed spec fn caps_view(&self) -> u32 {
        self.guard.spec_allowed()
    }

    /// The generator's current state.
    pub closed spec fn rng_view(&self) -> u64 {
        self.rng
    }

    /// The machine as a snapshot, at instruction index `ip` with the effects
    /// `out` already emitted.
    pub closed spec fn cur_snap(&self, ip: usize, out: Seq<Effect>) -> VmSnap {
        VmSnap {
            ip: ip as int,
            stack: values_view(self.stack@),
            globals: table_view(self.globals@),
            rng: self.rng,
            out: effects_view(out),
        }
    }

    /// A fresh machine: empty stack and tables, no capability granted, the
    /// generator in its rest state.
    pub fn new() -> (r: Self)
        ensures
            r.wf(),
            r.stack_view() == Seq::<ValueView>::empty(),
            r.globals_view() == Map::<Seq<char>, ValueView>::empty(),
            r.globals_entries() == Seq::<(String, Value)>::empty(),
            r.env_view() == Map::<Seq<char>, Seq<char>>::empty(),
            r.caps_view() == 0,
            r.rng_view() == 0xACE1,
    {
        let r = VM {
            stack: Vec::new(),
            globals: Vec::new(),
            env: Vec::new(),
            guard: CapabilityGuard::new(Capabilities::from_bits(0)),
            rng: 0xACE1,
        };
        proof {
            assert(values_view(r.stack@) =~= Seq::<ValueView>::empty());
        }
        r
    }

    /// Sets the generator state directly.
    pub fn set_seed(&mut self, seed: u64)
        ensures
            final(self).rng_view() == seed,
            final(self).wf() == old(self).wf(),
            final(self).stack_view() == old(self).stack_view(),
            final(self).globals_view() == old(self).globals_view(),
            final(self).globals_entries() == old(self).globals_entries(),
            final(self).env_view() == old(self).env_view(),
            final(self).caps_view() == old(self).caps_view(),
    {
        self.rng = seed;
    }

    /// Replaces the capability guard.
    pub fn set_guard(&mut self, guard: CapabilityGuard)
        ensures
            final(self).caps_view() == guard.spec_allowed(),
            final(self).wf() == old(self).wf(),
            final(self).stack_view() == old(self).stack_view(),
            final(self).globals_view() == old(self).globals_view(),
            final(self).globals_entries() == old(self).globals_entries(),
            final(self).env_view() == old(self).env_view(),
            final(self).rng_view() == old(self).rng_view(),
    {
        self.guard = guard;
    }

    /// Binds one host environment entry.
    pub fn set_env_var(&mut self, key: String, value: String)
        requires
            old(self).wf(),
        ensures
            final(self).wf(),
            final(self).env_view() == old(self).env_view().insert(key@, value@),
            final(self).stack_view() == old(self).stack_view(),
            final(self).globals_view() == old(self).globals_view(),
            final(self).globals_entries() == old(self).globals_entries(),
            final(self).caps_view() == old(self).caps_view(),
            final(self).rng_view() == old(self).rng_view(),
    {
        table_set(&mut self.env, key, value);
    }

    /// The global-variable table, one entry per variable, oldest first.
    pub fn get_globals(&self) -> (r: &Vec<(String, Value)>)
        ensures
            r@ == self.globals_entries(),
            table_view(r@) == self.globals_view(),
    {
        &self.globals
    }

    /// A well-formed machine never repeats a variable name.
    pub proof fn lemma_wf_globals_distinct(&self)
        requires
            self.wf(),
        ensures
            distinct_keys(self.globals_entries()),
    {
    }

    /// Replaces the whole global-variable table, entry for entry.
    pub fn load_globals(&mut self, entries: Vec<(String, Value)>)
        requires
            old(self).wf(),
            distinct_keys(entries@),
        ensures
            final(self).wf(),
            final(self).globals_entries() == entries@,
            final(self).globals_view() == table_view(entries@),
            final(self).stack_view() == old(self).stack_view(),
            final(self).env_view() == old(self).env_view(),
            final(self).caps_view() == old(self).caps_view(),
            final(self).rng_view() == old(self).rng_view(),
    {
        self.globals = entries;
    }

    /// Runs `chunk` for at most `max_steps` instructions. The outcome — the
    /// effects emitted, any fault, and the stack, globals and generator left
    /// behind — is exactly what the small-step interpreter says for the
    /// chunk, the environment, the granted capabilities, the context's
    /// logical time and seed, and the machine's prior stack and globals.
    #[verifier::rlimit(60)]
    #[verifier::loop_isolation(false)]
    pub fn execute(&mut self, chunk: &Chunk, ctx: &VMContext, max_steps: u64) -> (r: Result<
        Vec<Effect>,
        ActorFault,
    >)
        requires
            old(self).wf(),
        ensures
            final(self).wf(),
            final(self).env_view() == old(self).env_view(),
            final(self).caps_view() == old(self).caps_view(),
            ({
                let res = vm_result(
                    chunk@,
                    old(self).env_view(),
                    old(self).caps_view(),
                    ctx.logical_time,
                    ctx.rand_seed,
                    old(self).stack_view(),
                    old(self).globals_view(),
                    max_steps as nat,
                );
                match res {
                    RunRes::Finished(s) => {
                        &&& r matches Ok(eff) && effects_view(eff@) == s.out
                        &&& final(self).stack_view() == s.stack
                        &&& final(self).globals_view() == s.globals
                        &&& final(self).rng_view() == s.rng
                    },
                    RunRes::Faulted(f, s) => {
                        &&& r matches Err(g) && g == f
                        &&& final(self).stack_view() == s.stack
                        &&& final(self).globals_view() == s.globals
                        &&& final(self).rng_view() == s.rng
                    },
                    RunRes::Pending(s) => {
                        &&& r matches Err(g) && g == ActorFault::StepBudgetExhausted
                        &&& final(self).stack_view() == s.stack
                        &&& final(self).globals_view() == s.globals
                        &&& final(self).rng_view() == s.rng
                    },
                }
            }),
    {
        self.rng = ctx.rand_seed;
        let ghost prog = chunk@;
        let ghost env0 = table_view(self.env@);
        let ghost caps0 = self.guard.spec_allowed();
        let ghost time = ctx.logical_time;
        let ghost init = VmSnap {
            ip: 0,
            stack: values_view(self.stack@),
            globals: table_view(self.globals@),
            rng: ctx.rand_seed,
            out: Seq::empty(),
        };
        let mut out: Vec<Effect> = Vec::new();
        let mut ip: usize = 0;
        let mut steps: u64 = 0;
        proof {
            assert(effects_view(out@) =~= Seq::<EffectView>::empty());
            assert(init == self.cur_snap(0, out@));
        }
        loop
            invariant
                distinct_keys(self.globals@),
                distinct_keys(self.env@),
                self.env@ == old(self).env@,
                self.guard == old(self).guard,
                steps <= max_steps,
                prog == chunk@,
                prog.len() == chunk.instrs@.len(),
                env0 == table_view(self.env@),
                caps0 == self.guard.spec_allowed(),
                time == ctx.logical_time,
                vm_run(prog, env0, caps0, time, init, steps as nat) == (if (ip as int)
                    < prog.len() {
                    RunRes::Pending(self.cur_snap(ip, out@))
                } else {
                    RunRes::Finished(self.cur_snap(ip, out@))
                }),
            decreases max_steps - steps,
        {
            let ghost cur = self.cur_snap(ip, out@);
            if ip >= chunk.instrs.len() {
                proof {
                    lemma_run_stable(prog, env0, caps0, time, init, steps as nat,
                        max_steps as nat);
                }
                return Ok(out);
            }
            if steps >= max_steps {
                return Err(ActorFault::StepBudgetExhausted);
            }
            let ghost pre_stack = self.stack@;
            let ghost pre_out = out@;
            let instr = &chunk.instrs[ip];
            proof {
                assert(prog[ip as int] == chunk.instrs@[ip as int]@);
            }
            match instr {
                Instr::LoadConst(v) => {
                    let v2 = v.clone();
                    self.stack.push(v2);
                    ip = ip + 1;
                    proof {
                        lemma_values_view_push(pre_stack, *v);
                        let cur2 = self.cur_snap(ip, out@);
                        assert(cur2.stack == cur.stack.push(v@));
                        assert(step(prog, env0, caps0, time, cur) == StepRes::Next(cur2));
                        lemma_advance(prog, env0, caps0, time, init, steps as nat, cur, cur2);
                    }
                    steps = steps + 1;
                },
                Instr::LoadVar(name) => {
                    let val = match table_get(&self.globals, name) {
                        Some(v) => v.clone(),
                        None => Value::Nil,
                    };
                    self.stack.push(val);
                    ip = ip + 1;
                    proof {
                        assert(self.stack@ == pre_stack.push(self.stack@.last()));
                        lemma_values_view_push(pre_stack, self.stack@.last());
                        let cur2 = self.cur_snap(ip, out@);
                        assert(step(prog, env0, caps0, time, cur) == StepRes::Next(cur2));
                        lemma_advance(prog, env0, caps0, time, init, steps as nat, cur, cur2);
                    }
                    steps = steps + 1;
                },
                Instr::StoreVar(name) => {
                    match pop1(&mut self.stack) {
                        None => {
                            proof {
                                let f = ActorFault::Runtime(RuntimeFault::StackUnderflow);
                                assert(step(prog, env0, caps0, time, cur) == StepRes::Fault(
                                    f,
                                    cur,
                                ));
                                lemma_run_faults(prog, env0, caps0, time, init, steps as nat,
                                    max_steps as nat, cur, f, cur);
                            }
                            return Err(ActorFault::Runtime(RuntimeFault::StackUnderflow));
                        },
                        Some(v) => {
                            let ghost vv = v@;
                            table_set(&mut self.globals, name.clone(), v);
                            ip = ip + 1;
                            proof {
                                let cur2 = self.cur_snap(ip, out@);
                                assert(cur2.globals == cur.globals.insert(name@, vv));
                                assert(vv == cur.stack.last());
                                assert(step(prog, env0, caps0, time, cur) == StepRes::Next(
                                    cur2,
                                ));
                                lemma_advance(prog, env0, caps0, time, init, steps as nat, cur,
                                    cur2);
                            }
                            steps = steps + 1;
                        },
                    }
                },
                Instr::LoadEnv(key) => {
                    if !self.guard.check(Capabilities::from_bits(CAP_FS_READ)) {
                        proof {
                            let f = ActorFault::CapabilityViolation(CAP_FS_READ);
                            assert(step(prog, env0, caps0, time, cur) == StepRes::Fault(f, cur));
                            lemma_run_faults(prog, env0, caps0, time, init, steps as nat,
                                max_steps as nat, cur, f, cur);
                        }
                        return Err(ActorFault::CapabilityViolation(CAP_FS_READ));
                    }
                    let val = match table_get(&self.env, key) {
                        Some(s) => Value::Str(s.clone()),
                        None => Value::Str(String::new()),
                    };
                    self.stack.push(val);
                    ip = ip + 1;
                    proof {
                        assert(self.stack@ == pre_stack.push(self.stack@.last()));
                        lemma_values_view_push(pre_stack, self.stack@.last());
                        let cur2 = self.cur_snap(ip, out@);
                        assert(step(prog, env0, caps0, time, cur) == StepRes::Next(cur2));
                        lemma_advance(prog, env0, caps0, time, init, steps as nat, cur, cur2);
                    }
                    steps = steps + 1;
                },
                Instr::LoadTime => {
                    let val = if ctx.logical_time <= i64::MAX as u64 {
                        Value::Number(ctx.logical_time as i64)
                    } else {
                        Value::Nil
                    };
                    self.stack.push(val);
                    ip = ip + 1;
                    proof {
                        assert(self.stack@ == pre_stack.push(self.stack@.last()));
                        lemma_values_view_push(pre_stack, self.stack@.last());
                        let cur2 = self.cur_snap(ip, out@);
                        assert(step(prog, env0, caps0, time, cur) == StepRes::Next(cur2));
                        lemma_advance(prog, env0, caps0, time, init, steps as nat, cur, cur2);
                    }
                    steps = steps + 1;
                },
                Instr::LoadRand => {
                    let x = self.rng;
                    let r1 = x ^ (x << 13u64);
                    let r2 = r1 ^ (r1 >> 17u64);
                    let r3 = r2 ^ (r2 << 5u64);
                    self.rng = r3;
                    let drawn = r3 >> 1u64;
                    proof {
                        assert(drawn <= 0x7fff_ffff_ffff_ffffu64) by (bit_vector)
                            requires
                                drawn == r3 >> 1u64,
                        ;
                    }
                    self.stack.push(Value::Number(drawn as i64));
                    ip = ip + 1;
                    proof {
                        assert(r3 == xorshift(cur.rng));
                        assert(self.stack@ == pre_stack.push(self.stack@.last()));
                        lemma_values_view_push(pre_stack, self.stack@.last());
                        let cur2 = self.cur_snap(ip, out@);
                        assert(step(prog, env0, caps0, time, cur) == StepRes::Next(cur2));
                        lemma_advance(prog, env0, caps0, time, init, steps as nat, cur, cur2);
                    }
                    steps = steps + 1;
                },
                Instr::Add => {
                    match pop2(&mut self.stack) {
                        None => {
                            proof {
                                let f = ActorFault::Runtime(RuntimeFault::StackUnderflow);
                                assert(step(prog, env0, caps0, time, cur) == StepRes::Fault(
                                    f,
                                    cur,
                                ));
                                lemma_run_faults(prog, env0, caps0, time, init, steps as nat,
                                    max_steps as nat, cur, f, cur);
                            }
                            return Err(ActorFault::Runtime(RuntimeFault::StackUnderflow));
                        },
                        Some((a, b)) => {
                            let ghost av = a@;
                            let ghost bv = b@;
                            let ghost mid_stack = self.stack@;
                            let v = value_add_exec(a, b);
                            self.stack.push(v);
                            ip = ip + 1;
                            proof {
                                lemma_values_view_push(mid_stack, self.stack@.last());
                                let cur2 = self.cur_snap(ip, out@);
                                assert(cur2.stack == cur.stack.take(cur.stack.len() - 2).push(
                                    value_add(av, bv)));
                                assert(step(prog, env0, caps0, time, cur) == StepRes::Next(
                                    cur2,
                                ));
                                lemma_advance(prog, env0, caps0, time, init, steps as nat, cur,
                                    cur2);
                            }
                            steps = steps + 1;
                        },
                    }
                },
                Instr::Sub => {
                    match pop2(&mut self.stack) {
                        None => {
                            proof {
                                let f = ActorFault::Runtime(RuntimeFault::StackUnderflow);
                                assert(step(prog, env0, caps0, time, cur) == StepRes::Fault(
                                    f,
                                    cur,
                                ));
                                lemma_run_faults(prog, env0, caps0, time, init, steps as nat,
                                    max_steps as nat, cur, f, cur);
                            }
                            return Err(ActorFault::Runtime(RuntimeFault::StackUnderflow));
                        },
                        Some((a, b)) => {
                            let ghost av = a@;
                            let ghost bv = b@;
                            let ghost mid_stack = self.stack@;
                            let v = value_sub_exec(a, b);
                            self.stack.push(v);
                            ip = ip + 1;
                            proof {
                                lemma_values_view_push(mid_stack, self.stack@.last());
                                let cur2 = self.cur_snap(ip, out@);
                                assert(step(prog, env0, caps0, time, cur) == StepRes::Next(
                                    cur2,
                                ));
                                lemma_advance(prog, env0, caps0, time, init, steps as nat, cur,
                                    cur2);
                            }
                            steps = steps + 1;
                        },
                    }
                },
                Instr::Mul => {
                    match pop2(&mut self.stack) {
                        None => {
                            proof {
                                let f = ActorFault::Runtime(RuntimeFault::StackUnderflow);
                                assert(step(prog, env0, caps0, time, cur) == StepRes::Fault(
                                    f,
                                    cur,
                                ));
                                lemma_run_faults(prog, env0, caps0, time, init, steps as nat,
                                    max_steps as nat, cur, f, cur);
                            }
                            return Err(ActorFault::Runtime(RuntimeFault::StackUnderflow));
                        },
                        Some((a, b)) => {
                            let ghost mid_stack = self.stack@;
                            let v = value_mul_exec(a, b);
                            self.stack.push(v);
                            ip = ip + 1;
                            proof {
                                lemma_values_view_push(mid_stack, self.stack@.last());
                                let cur2 = self.cur_snap(ip, out@);
                                assert(step(prog, env0, caps0, time, cur) == StepRes::Next(
                                    cur2,
                                ));
                                lemma_advance(prog, env0, caps0, time, init, steps as nat, cur,
                                    cur2);
                            }
                            steps = steps + 1;
                        },
                    }
                },
                Instr::Div => {
                    match pop2(&mut self.stack) {
                        None => {
                            proof {
                                let f = ActorFault::Runtime(RuntimeFault::StackUnderflow);
                                assert(step(prog, env0, caps0, time, cur) == StepRes::Fault(
                                    f,
                                    cur,
                                ));
                                lemma_run_faults(prog, env0, caps0, time, init, steps as nat,
                                    max_steps as nat, cur, f, cur);
                            }
                            return Err(ActorFault::Runtime(RuntimeFault::StackUnderflow));
                        },
                        Some((a, b)) => {
                            let ghost mid_stack = self.stack@;
                            let v = value_div_exec(a, b);
                            self.stack.push(v);
                            ip = ip + 1;
                            proof {
                                lemma_values_view_push(mid_stack, self.stack@.last());
                                let cur2 = self.cur_snap(ip, out@);
                                assert(step(prog, env0, caps0, time, cur) == StepRes::Next(
                                    cur2,
                                ));
                                lemma_advance(prog, env0, caps0, time, init, steps as nat, cur,
                                    cur2);
                            }
                            steps = steps + 1;
                        },
                    }
                },
                Instr::Eq => {
                    match pop2(&mut self.stack) {
                        None => {
                            proof {
                                let f = ActorFault::Runtime(RuntimeFault::StackUnderflow);
                                assert(step(prog, env0, caps0, time, cur) == StepRes::Fault(
                                    f,
                                    cur,
                                ));
                                lemma_run_faults(prog, env0, caps0, time, init, steps as nat,
                                    max_steps as nat, cur, f, cur);
                            }
                            return Err(ActorFault::Runtime(RuntimeFault::StackUnderflow));
                        },
                        Some((a, b)) => {
                            let ghost mid_stack = self.stack@;
                            let v = Value::Bool(a.same_value(&b));
                            self.stack.push(v);
                            ip = ip + 1;
                            proof {
                                lemma_values_view_push(mid_stack, self.stack@.last());
                                let cur2 = self.cur_snap(ip, out@);
                                assert(step(prog, env0, caps0, time, cur) == StepRes::Next(
                                    cur2,
                                ));
                                lemma_advance(prog, env0, caps0, time, init, steps as nat, cur,
                                    cur2);
                            }
                            steps = steps + 1;
                        },
                    }
                },
                Instr::Gt => {
                    match pop2(&mut self.stack) {
                        None => {
                            proof {
                                let f = ActorFault::Runtime(RuntimeFault::StackUnderflow);
                                assert(step(prog, env0, caps0, time, cur) == StepRes::Fault(
                                    f,
                                    cur,
                                ));
                                lemma_run_faults(prog, env0, caps0, time, init, steps as nat,
                                    max_steps as nat, cur, f, cur);
                            }
                            return Err(ActorFault::Runtime(RuntimeFault::StackUnderflow));
                        },
                        Some((a, b)) => {
                            let ghost mid_stack = self.stack@;
                            let v = Value::Bool(value_gt_exec(&a, &b));
                            self.stack.push(v);
                            ip = ip + 1;
                            proof {
                                lemma_values_view_push(mid_stack, self.stack@.last());
                                let cur2 = self.cur_snap(ip, out@);
                                assert(step(prog, env0, caps0, time, cur) == StepRes::Next(
                                    cur2,
                                ));
                                lemma_advance(prog, env0, caps0, time, init, steps as nat, cur,
                                    cur2);
                            }
                            steps = steps + 1;
                        },
                    }
                },
                Instr::Lt => {
                    match pop2(&mut self.stack) {
                        None => {
                            proof {
                                let f = ActorFault::Runtime(RuntimeFault::StackUnderflow);
                                assert(step(prog, env0, caps0, time, cur) == StepRes::Fault(
                                    f,
                                    cur,
                                ));
                                lemma_run_faults(prog, env0, caps0, time, init, steps as nat,
                                    max_steps as nat, cur, f, cur);
                            }
                            return Err(ActorFault::Runtime(RuntimeFault::StackUnderflow));
                        },
                        Some((a, b)) => {
                            let ghost mid_stack = self.stack@;
                            let v = Value::Bool(value_lt_exec(&a, &b));
                            self.stack.push(v);
                            ip = ip + 1;
                            proof {
                                lemma_values_view_push(mid_stack, self.stack@.last());
                                let cur2 = self.cur_snap(ip, out@);
                                assert(step(prog, env0, caps0, time, cur) == StepRes::Next(
                                    cur2,
                                ));
                                lemma_advance(prog, env0, caps0, time, init, steps as nat, cur,
                                    cur2);
                            }
                            steps = steps + 1;
                        },
                    }
                },
                Instr::Call(name, _argc) => {
                    let lenlit = "len".to_owned();
                    if !(*name == lenlit) {
                        proof {
                            let f = ActorFault::Runtime(RuntimeFault::UnknownIntrinsic);
                            assert(step(prog, env0, caps0, time, cur) == StepRes::Fault(f, cur));
                            lemma_run_faults(prog, env0, caps0, time, init, steps as nat,
                                max_steps as nat, cur, f, cur);
                        }
                        return Err(ActorFault::Runtime(RuntimeFault::UnknownIntrinsic));
                    }
                    if self.stack.len() < 1 {
                        proof {
                            let f = ActorFault::Runtime(RuntimeFault::StackUnderflow);
                            assert(step(prog, env0, caps0, time, cur) == StepRes::Fault(f, cur));
                            lemma_run_faults(prog, env0, caps0, time, init, steps as nat,
                                max_steps as nat, cur, f, cur);
                        }
                        return Err(ActorFault::Runtime(RuntimeFault::StackUnderflow));
                    }
                    let top_is_text = matches!(&self.stack[self.stack.len() - 1], Value::Str(_));
                    if !top_is_text {
                        proof {
                            let f = ActorFault::Runtime(RuntimeFault::TypeMismatch);
                            assert(cur.stack.last() == pre_stack.last()@);
                            assert(step(prog, env0, caps0, time, cur) == StepRes::Fault(f, cur));
                            lemma_run_faults(prog, env0, caps0, time, init, steps as nat,
                                max_steps as nat, cur, f, cur);
                        }
                        return Err(ActorFault::Runtime(RuntimeFault::TypeMismatch));
                    }
                    let popped = pop1(&mut self.stack);
                    let ghost mid_stack = self.stack@;
                    match popped {
                        Some(Value::Str(s)) => {
                            let bytes = s.as_str().as_bytes();
                            proof {
                                broadcast use vstd::slice::axiom_spec_len;

                                assert(bytes@.len() == vstd::utf8::encode_utf8(s@).len());
                            }
                            let n_bytes = bytes.len() as u64;
                            let val = if n_bytes <= i64::MAX as u64 {
                                Value::Number(n_bytes as i64)
                            } else {
                                Value::Nil
                            };
                            self.stack.push(val);
                            ip = ip + 1;
                            proof {
                                lemma_values_view_push(mid_stack, self.stack@.last());
                                let cur2 = self.cur_snap(ip, out@);
                                assert(step(prog, env0, caps0, time, cur) == StepRes::Next(
                                    cur2,
                                ));
                                lemma_advance(prog, env0, caps0, time, init, steps as nat, cur,
                                    cur2);
                            }
                            steps = steps + 1;
                        },
                        _ => {
                            proof {
                                assert(pre_stack.last()@ is Str);
                                assert(false);
                            }
                            return Err(ActorFault::Runtime(RuntimeFault::TypeMismatch));
                        },
                    }
                },
                Instr::Spawn(_argc) => {
                    match pop1(&mut self.stack) {
                        None => {
                            proof {
                                let f = ActorFault::Runtime(RuntimeFault::StackUnderflow);
                                assert(step(prog, env0, caps0, time, cur) == StepRes::Fault(
                                    f,
                                    cur,
                                ));
                                lemma_run_faults(prog, env0, caps0, time, init, steps as nat,
                                    max_steps as nat, cur, f, cur);
                            }
                            return Err(ActorFault::Runtime(RuntimeFault::StackUnderflow));
                        },
                        Some(_v) => {
                            out.push(Effect::Spawned);
                            ip = ip + 1;
                            proof {
                                lemma_effects_view_push(pre_out, Effect::Spawned);
                                let cur2 = self.cur_snap(ip, out@);
                                assert(step(prog, env0, caps0, time, cur) == StepRes::Next(
                                    cur2,
                                ));
                                lemma_advance(prog, env0, caps0, time, init, steps as nat, cur,
                                    cur2);
                            }
                            steps = steps + 1;
                        },
                    }
                },
                Instr::Jump(t) => {
                    let t = *t;
                    if t > chunk.instrs.len() {
                        proof {
                            let f = ActorFault::Runtime(RuntimeFault::InvalidJumpTarget);
                            assert(step(prog, env0, caps0, time, cur) == StepRes::Fault(f, cur));
                            lemma_run_faults(prog, env0, caps0, time, init, steps as nat,
                                max_steps as nat, cur, f, cur);
                        }
                        return Err(ActorFault::Runtime(RuntimeFault::InvalidJumpTarget));
                    }
                    ip = t;
                    proof {
                        let cur2 = self.cur_snap(ip, out@);
                        assert(step(prog, env0, caps0, time, cur) == StepRes::Next(cur2));
                        lemma_advance(prog, env0, caps0, time, init, steps as nat, cur, cur2);
                    }
                    steps = steps + 1;
                },
                Instr::JumpIfFalse(t) => {
                    let t = *t;
                    match pop1(&mut self.stack) {
                        None => {
                            proof {
                                let f = ActorFault::Runtime(RuntimeFault::StackUnderflow);
                                assert(step(prog, env0, caps0, time, cur) == StepRes::Fault(
                                    f,
                                    cur,
                                ));
                                lemma_run_faults(prog, env0, caps0, time, init, steps as nat,
                                    max_steps as nat, cur, f, cur);
                            }
                            return Err(ActorFault::Runtime(RuntimeFault::StackUnderflow));
                        },
                        Some(v) => {
                            if v.truthy() {
                                ip = ip + 1;
                                proof {
                                    let cur2 = self.cur_snap(ip, out@);
                                    assert(step(prog, env0, caps0, time, cur) == StepRes::Next(
                                        cur2,
                                    ));
                                    lemma_advance(prog, env0, caps0, time, init, steps as nat,
                                        cur, cur2);
                                }
                                steps = steps + 1;
                            } else if t > chunk.instrs.len() {
                                proof {
                                    let f = ActorFault::Runtime(RuntimeFault::InvalidJumpTarget);
                                    let s2 = self.cur_snap(ip, out@);
                                    assert(s2.stack == cur.stack.drop_last());
                                    assert(step(prog, env0, caps0, time, cur) == StepRes::Fault(
                                        f,
                                        s2,
                                    ));
                                    lemma_run_faults(prog, env0, caps0, time, init,
                                        steps as nat, max_steps as nat, cur, f, s2);
                                }
                                return Err(ActorFault::Runtime(RuntimeFault::InvalidJumpTarget));
                            } else {
                                ip = t;
                                proof {
                                    let cur2 = self.cur_snap(ip, out@);
                                    assert(step(prog, env0, caps0, time, cur) == StepRes::Next(
                                        cur2,
                                    ));
                                    lemma_advance(prog, env0, caps0, time, init, steps as nat,
                                        cur, cur2);
                                }
                                steps = steps + 1;
                            }
                        },
                    }
                },
                Instr::Return => {
                    proof {
                        let cur2 = VmSnap { ip: cur.ip + 1, ..cur };
                        assert(step(prog, env0, caps0, time, cur) == StepRes::Done(cur2));
                        lemma_run_finishes(prog, env0, caps0, time, init, steps as nat,
                            max_steps as nat, cur, cur2);
                    }
                    return Ok(out);
                },
                Instr::Render => {
                    match pop1(&mut self.stack) {
                        None => {
                            proof {
                                let f = ActorFault::Runtime(RuntimeFault::StackUnderflow);
                                assert(step(prog, env0, caps0, time, cur) == StepRes::Fault(
                                    f,
                                    cur,
                                ));
                                lemma_run_faults(prog, env0, caps0, time, init, steps as nat,
                                    max_steps as nat, cur, f, cur);
                            }
                            return Err(ActorFault::Runtime(RuntimeFault::StackUnderflow));
                        },
                        Some(v) => {
                            let ghost vv = v@;
                            out.push(Effect::Output(v));
                            ip = ip + 1;
                            proof {
                                lemma_effects_view_push(pre_out, out@.last());
                                let cur2 = self.cur_snap(ip, out@);
                                assert(vv == cur.stack.last());
                                assert(step(prog, env0, caps0, time, cur) == StepRes::Next(
                                    cur2,
                                ));
                                lemma_advance(prog, env0, caps0, time, init, steps as nat, cur,
                                    cur2);
                            }
                            steps = steps + 1;
                        },
                    }
                },
                Instr::RenderTimeline => {
                    out.push(Effect::TimelineGraph);
                    ip = ip + 1;
                    proof {
                        lemma_effects_view_push(pre_out, Effect::TimelineGraph);
                        let cur2 = self.cur_snap(ip, out@);
                        assert(step(prog, env0, caps0, time, cur) == StepRes::Next(cur2));
                        lemma_advance(prog, env0, caps0, time, init, steps as nat, cur, cur2);
                    }
                    steps = steps + 1;
                },
                Instr::RenderState => {
                    out.push(Effect::StateSnapshot);
                    ip = ip + 1;
                    proof {
                        lemma_effects_view_push(pre_out, Effect::StateSnapshot);
                        let cur2 = self.cur_snap(ip, out@);
                        assert(step(prog, env0, caps0, time, cur) == StepRes::Next(cur2));
                        lemma_advance(prog, env0, caps0, time, init, steps as nat, cur, cur2);
                    }
                    steps = steps + 1;
                },
                Instr::RenderUI => {
                    out.push(Effect::UiUpdate);
                    ip = ip + 1;
                    proof {
                        lemma_effects_view_push(pre_out, Effect::UiUpdate);
                        let cur2 = self.cur_snap(ip, out@);
                        assert(step(prog, env0, caps0, time, cur) == StepRes::Next(cur2));
                        lemma_advance(prog, env0, caps0, time, init, steps as nat, cur, cur2);
                    }
                    steps = steps + 1;
                },
            }
        }
    }
}

} // verus!

verus! {

/// One `"name":value` pair of the state rendering.
pub open spec fn json_pair(p: (String, Value)) -> Seq<char> {
    crate::text::json_string(p.0@) + seq![':'] + crate::value::json_value(p.1@)
}

/// The pairs of the state rendering, comma-separated.
pub open spec fn json_globals_body(s: Seq<(String, Value)>) -> Seq<char>
    decreases s.len(),
{
    if s.len() == 0 {
        Seq::empty()
    } else if s.len() == 1 {
        json_pair(s[0])
    } else {
        json_globals_body(s.drop_last()) + seq![','] + json_pair(s.last())
    }
}

/// The global-variable table as one JSON object, in insertion order.
pub open spec fn json_globals(s: Seq<(String, Value)>) -> Seq<char> {
    seq!['{'] + json_globals_body(s) + seq!['}']
}

impl VM {
    /// Renders the global-variable table as a JSON object.
    pub fn state_json(&self) -> (r: String)
        ensures
            r@ == json_globals(self.globals_entries()),
    {
        let mut out = String::new();
        out.push('{');
        let mut i: usize = 0;
        while i < self.globals.len()
            invariant
                i <= self.globals@.len(),
                out@ == seq!['{'] + json_globals_body(self.globals@.take(i as int)),
            decreases self.globals@.len() - i,
        {
            if i > 0 {
                out.push(',');
            }
            crate::text::push_json_string(self.globals[i].0.as_str(), &mut out);
            out.push(':');
            crate::value::push_json_value(&self.globals[i].1, &mut out);
            proof {
                let t = self.globals@.take(i + 1);
                assert(t.drop_last() =~= self.globals@.take(i as int));
                assert(t.last() == self.globals@[i as int]);
                assert(out@ =~= seq!['{'] + json_globals_body(t));
            }
            i = i + 1;
        }
        out.push('}');
        proof {
            assert(self.globals@.take(self.globals@.len() as int) =~= self.globals@);
            assert(out@ =~= json_globals(self.globals@));
        }
        out
    }
}

} // verus!
