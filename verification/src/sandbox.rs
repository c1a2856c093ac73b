//! A benchmarking sandbox: the state of one contract call kept between
//! benchmark runs, from which call stacks are made.
use vstd::prelude::*;

verus! {

/// Account identifiers of the runtime.
pub type AccountId = [u8; 32];

/// Balances of the runtime.
pub type Balance = u128;

/// An amount of weight: computation time and proof size.
#[derive(Clone, Copy, Debug, PartialEq, Eq, Structural)]
pub struct Weight {
    pub ref_time: u64,
    pub proof_size: u64,
}

impl Weight {
    /// The largest weight: both parts at their maximum.
    pub open spec fn spec_max() -> Weight {
        Weight { ref_time: u64::MAX, proof_size: u64::MAX }
    }

    /// The largest weight: both parts at their maximum.
    pub fn max() -> (r: Weight)
        ensures
            r == Self::spec_max(),
    {
        Weight { ref_time: u64::MAX, proof_size: u64::MAX }
    }
}

/// Who makes a call.
#[derive(Clone, Copy, Debug, PartialEq, Eq)]
pub enum Origin {
    Root,
    Signed(AccountId),
}

/// Whether a call may use non-deterministic features.
#[derive(Clone, Copy, Debug, PartialEq, Eq, Structural)]
pub enum Determinism {
    Enforced,
    Relaxed,
}

/// Tracks the gas of a call.
#[derive(Clone, Copy, Debug, PartialEq, Eq, Structural)]
pub struct GasMeter {
    pub gas_limit: Weight,
    pub gas_left: Weight,
    pub gas_left_lowest: Weight,
}

impl GasMeter {
    /// A meter with `gas_limit` all left.
    pub open spec fn spec_new(gas_limit: Weight) -> GasMeter {
        GasMeter { gas_limit, gas_left: gas_limit, gas_left_lowest: gas_limit }
    }

    /// A meter with `gas_limit` all left.
    pub fn new(gas_limit: Weight) -> (r: GasMeter)
        ensures
            r == Self::spec_new(gas_limit),
    {
        GasMeter { gas_limit, gas_left: gas_limit, gas_left_lowest: gas_limit }
    }
}

/// Tracks the storage deposit of a call.
#[derive(Clone, Copy, Debug, PartialEq, Eq, Structural)]
pub struct StorageMeter {
    pub limit: Balance,
    pub total_deposit: Balance,
}

impl Default for StorageMeter {
    /// A meter with no limit set and nothing deposited.
    fn default() -> (r: StorageMeter)
        ensures
            r == (StorageMeter { limit: 0, total_deposit: 0 }),
    {
        StorageMeter { limit: 0, total_deposit: 0 }
    }
}

/// A call stack set up for one call: the call's parameters, with the
/// sandbox's meters, schedule and debug buffer lent to it for the call.
pub struct CallStack<'a, S> {
    pub dest: AccountId,
    pub origin: Origin,
    pub gas_meter: &'a mut GasMeter,
    pub storage_meter: &'a mut StorageMeter,
    pub schedule: &'a S,
    pub value: Balance,
    pub debug_message: Option<&'a mut Vec<u8>>,
    pub determinism: Determinism,
}

/// The state of a contract call that benchmarks run again and again: its
/// destination and origin, its meters, the schedule, the value it transfers,
/// an optional debug buffer and its determinism.
pub struct Sandbox<S> {
    pub dest: AccountId,
    pub origin: Origin,
    pub gas_meter: GasMeter,
    pub storage_meter: StorageMeter,
    pub schedule: S,
    pub value: Balance,
    pub debug_message: Option<Vec<u8>>,
    pub determinism: Determinism,
}

impl<S> Sandbox<S> {
    /// A sandbox for calls from `origin` to `dest`, with all gas available, an
    /// empty storage meter, the runtime's `schedule`, no value, no debug
    /// buffer and determinism enforced.
    pub fn new(dest: AccountId, origin: Origin, schedule: S) -> (r: Self)
        ensures
            r.dest == dest,
            r.origin == origin,
            r.gas_meter == GasMeter::spec_new(Weight::spec_max()),
            r.storage_meter == (StorageMeter { limit: 0, total_deposit: 0 }),
            r.schedule == schedule,
            r.value == 0,
            r.debug_message is None,
            r.determinism == Determinism::Enforced,
    {
        Sandbox {
            dest,
            origin,
            gas_meter: GasMeter::new(Weight::max()),
            storage_meter: StorageMeter::default(),
            schedule,
            value: 0u128,
            debug_message: None,
            determinism: Determinism::Enforced,
        }
    }

    /// A call stack for a call with the sandbox's parameters. The stack
    /// borrows the sandbox's meters and debug buffer, so what the call
    /// consumes or writes stays in the sandbox; the other fields stay as they
    /// are.
    pub fn new_call<'a>(&'a mut self) -> (r: CallStack<'a, S>)
        ensures
            r.dest == old(self).dest,
            r.origin == old(self).origin,
            *r.gas_meter == old(self).gas_meter,
            *r.storage_meter == old(self).storage_meter,
            *r.schedule == old(self).schedule,
            r.value == old(self).value,
            r.determinism == old(self).determinism,
            match old(self).debug_message {
                Some(buffer) => r.debug_message matches Some(b) && *b == buffer && final(self).debug_message == Some(*final(b)),
                None => r.debug_message is None && final(self).debug_message is None,
            },
            final(self).gas_meter == *final(r.gas_meter),
            final(self).storage_meter == *final(r.storage_meter),
            final(self).dest == old(self).dest,
            final(self).origin == old(self).origin,
            final(self).schedule == old(self).schedule,
            final(self).value == old(self).value,
            final(self).determinism == old(self).determinism,
    {
        CallStack {
            dest: self.dest,
            origin: self.origin,
            gas_meter: &mut self.gas_meter,
            storage_meter: &mut self.storage_meter,
            schedule: &self.schedule,
            value: self.value,
            debug_message: self.debug_message.as_mut(),
            determinism: self.determinism,
        }
    }
}

} // verus!
