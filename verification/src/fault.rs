//! The failure taxonomy. Faults are values, caught at the actor boundary and
//! handed to a supervisor; they never unwind across the scheduler.

use vstd::prelude::*;

verus! {

/// A fault raised inside a single virtual-machine run. It is scoped to that
/// run: the owning actor is restarted, the process is not.
#[derive(Clone, Copy, PartialEq, Eq, Structural, Debug)]
pub enum RuntimeFault {
    /// An instruction needed more operands than the stack held.
    StackUnderflow,
    /// An operand had a kind the instruction cannot accept.
    TypeMismatch,
    /// A call named an intrinsic the machine does not know.
    UnknownIntrinsic,
    /// A jump aimed past the end of the instruction sequence.
    InvalidJumpTarget,
}

/// Everything that can end an actor's turn abnormally.
#[derive(Clone, Copy, PartialEq, Eq, Structural, Debug)]
pub enum ActorFault {
    /// The virtual machine faulted; the kind says how.
    Runtime(RuntimeFault),
    /// An instruction asked for a capability its guard does not grant.
    /// The field holds the bits that were required.
    CapabilityViolation(u32),
    /// An allocation exceeded the actor's arena budget.
    ArenaOverflow,
    /// The run used up its step budget without terminating.
    StepBudgetExhausted,
}

impl RuntimeFault {
    /// A short, stable name for logs and trace output.
    pub fn name(&self) -> (r: &'static str)
        ensures
            r@ == self.spec_name(),
    {
        match self {
            RuntimeFault::StackUnderflow => "StackUnderflow",
            RuntimeFault::TypeMismatch => "TypeMismatch",
            RuntimeFault::UnknownIntrinsic => "UnknownIntrinsic",
            RuntimeFault::InvalidJumpTarget => "InvalidJumpTarget",
        }
    }

    /// The name, as a character sequence.
    pub open spec fn spec_name(&self) -> Seq<char> {
        match self {
            RuntimeFault::StackUnderflow => "StackUnderflow"@,
            RuntimeFault::TypeMismatch => "TypeMismatch"@,
            RuntimeFault::UnknownIntrinsic => "UnknownIntrinsic"@,
            RuntimeFault::InvalidJumpTarget => "InvalidJumpTarget"@,
        }
    }
}

} // verus!
