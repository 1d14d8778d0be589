//! Capability gating: a bitmask of privileges and a guard that instructions
//! must consult before touching anything outside the machine.

use crate::fault::ActorFault;
use vstd::prelude::*;

verus! {

/// A set of privileges, one bit each.
#[derive(Clone, Copy, PartialEq, Eq, Structural, Debug)]
pub struct Capabilities {
    pub bits: u32,
}

/// No privilege at all.
pub const CAP_NONE: u32 = 0;

/// Receive from the network.
pub const CAP_NET_RECV: u32 = 1;

/// Send to the network.
pub const CAP_NET_SEND: u32 = 2;

/// Read from the host (files, environment).
pub const CAP_FS_READ: u32 = 4;

/// Write to the host.
pub const CAP_FS_WRITE: u32 = 8;

/// Use hardware acceleration.
pub const CAP_GPU_ACCEL: u32 = 16;

/// Administer the host system.
pub const CAP_SYS_ADMIN: u32 = 0x8000_0000;

/// `sub` asks for nothing outside `sup`.
pub open spec fn caps_contain(sup: u32, sub: u32) -> bool {
    sup & sub == sub
}

impl Capabilities {
    /// Wraps a raw bitmask.
    pub fn from_bits(bits: u32) -> (r: Self)
        ensures
            r.bits == bits,
    {
        Capabilities { bits }
    }

    /// True when every bit of `required` is granted here.
    pub fn contains(&self, required: Capabilities) -> (r: bool)
        ensures
            r == caps_contain(self.bits, required.bits),
    {
        self.bits & required.bits == required.bits
    }
}

/// Decides, for one actor, which privileges its instructions may use.
pub struct CapabilityGuard {
    allowed: Capabilities,
}

impl CapabilityGuard {
    /// The privileges this guard grants.
    pub closed spec fn spec_allowed(&self) -> u32 {
        self.allowed.bits
    }

    /// Makes a guard granting exactly `allowed`.
    pub fn new(allowed: Capabilities) -> (r: Self)
        ensures
            r.spec_allowed() == allowed.bits,
    {
        CapabilityGuard { allowed }
    }

    /// True when every required privilege is granted.
    pub fn check(&self, required: Capabilities) -> (r: bool)
        ensures
            r == caps_contain(self.spec_allowed(), required.bits),
    {
        self.allowed.contains(required)
    }

    /// Succeeds exactly when every required privilege is granted; otherwise
    /// reports a violation naming the bits that were required.
    pub fn enforce(&self, required: Capabilities) -> (r: Result<(), ActorFault>)
        ensures
            caps_contain(self.spec_allowed(), required.bits) <==> r is Ok,
            r matches Err(f) ==> f == ActorFault::CapabilityViolation(required.bits),
    {
        if self.check(required) {
            Ok(())
        } else {
            Err(ActorFault::CapabilityViolation(required.bits))
        }
    }
}

} // verus!
