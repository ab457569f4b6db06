//! The boundary to the guest: what the host is asked to do with it, under
//! which names the guest exports its functions, and how the host's
//! callbacks are read.

use crate::error::WitnessError;
use vstd::prelude::*;

verus! {

/// What the engine asks of the host next. All but the first and the last are
/// calls of one exported guest function, with the arguments given here.
#[derive(Clone, Copy, Debug, PartialEq, Eq, Structural)]
pub enum Action {
    /// Instantiate a fresh guest execution context from the module bytes, and
    /// link the host's callbacks into it.
    Load,
    /// `getFieldNumLen32() -> i32`: the number of 32-bit words of a field
    /// element.
    GetFieldNumLen32,
    /// `getRawPrime()`: put the prime into the shared transfer region.
    GetRawPrime,
    /// `readSharedRWMemory(i) -> i32`: the word at `index` of the region.
    ReadSharedRwMemory { index: u32 },
    /// `init(sanity_check)`: prepare the guest for a computation.
    Init { sanity_check: bool },
    /// `writeSharedRWMemory(i, v)`: store `value` at `index` of the region.
    WriteSharedRwMemory { index: u32, value: u32 },
    /// `setInputSignal(msb, lsb, pos)`: take the region as the value at
    /// position `pos` of the signal with this address.
    SetInputSignal { msb: u32, lsb: u32, pos: u32 },
    /// `getWitnessSize() -> i32`: the number of witness slots.
    GetWitnessSize,
    /// `getWitness(i)`: put witness slot `index` into the region.
    GetWitness { index: u32 },
    /// Nothing more: the computation has ended.
    Finish,
}

/// What came back from an action: the integer that the guest returned (any
/// integer, where the function returns none), or why the action failed.
pub type Reply = Result<u32, WitnessError>;

/// The name under which the guest exports the function that an action
/// calls; `None` for the two actions that call none.
pub open spec fn export_name_of(action: Action) -> Option<Seq<char>> {
    match action {
        Action::Load => None,
        Action::GetFieldNumLen32 => Some("getFieldNumLen32"@),
        Action::GetRawPrime => Some("getRawPrime"@),
        Action::ReadSharedRwMemory { .. } => Some("readSharedRWMemory"@),
        Action::Init { .. } => Some("init"@),
        Action::WriteSharedRwMemory { .. } => Some("writeSharedRWMemory"@),
        Action::SetInputSignal { .. } => Some("setInputSignal"@),
        Action::GetWitnessSize => Some("getWitnessSize"@),
        Action::GetWitness { .. } => Some("getWitness"@),
        Action::Finish => None,
    }
}

/// The arguments that an action hands to its guest function, in order. The
/// sanity-check flag travels as 1 or 0.
pub open spec fn arguments_of(action: Action) -> Seq<u32> {
    match action {
        Action::ReadSharedRwMemory { index } => seq![index],
        Action::Init { sanity_check } => seq![if sanity_check { 1u32 } else { 0u32 }],
        Action::WriteSharedRwMemory { index, value } => seq![index, value],
        Action::SetInputSignal { msb, lsb, pos } => seq![msb, lsb, pos],
        Action::GetWitness { index } => seq![index],
        _ => Seq::empty(),
    }
}

/// Whether the guest function of an action returns an integer.
pub open spec fn returns_value_of(action: Action) -> bool {
    action is GetFieldNumLen32 || action is ReadSharedRwMemory || action is GetWitnessSize
}

impl Action {
    /// The exported name of the guest function to call, if the action calls
    /// one.
    pub fn export_name(&self) -> (name: Option<&'static str>)
        ensures
            match name {
                Some(n) => export_name_of(*self) == Some(n@),
                None => export_name_of(*self) is None,
            },
    {
        match self {
            Action::Load => None,
            Action::GetFieldNumLen32 => Some("getFieldNumLen32"),
            Action::GetRawPrime => Some("getRawPrime"),
            Action::ReadSharedRwMemory { .. } => Some("readSharedRWMemory"),
            Action::Init { .. } => Some("init"),
            Action::WriteSharedRwMemory { .. } => Some("writeSharedRWMemory"),
            Action::SetInputSignal { .. } => Some("setInputSignal"),
            Action::GetWitnessSize => Some("getWitnessSize"),
            Action::GetWitness { .. } => Some("getWitness"),
            Action::Finish => None,
        }
    }

    /// The arguments of the call, in order.
    pub fn arguments(&self) -> (args: Vec<u32>)
        ensures
            args@ == arguments_of(*self),
    {
        let mut args: Vec<u32> = Vec::new();
        match self {
            Action::ReadSharedRwMemory { index } => {
                args.push(*index);
            },
            Action::Init { sanity_check } => {
                args.push(if *sanity_check { 1 } else { 0 });
            },
            Action::WriteSharedRwMemory { index, value } => {
                args.push(*index);
                args.push(*value);
            },
            Action::SetInputSignal { msb, lsb, pos } => {
                args.push(*msb);
                args.push(*lsb);
                args.push(*pos);
            },
            Action::GetWitness { index } => {
                args.push(*index);
            },
            _ => {},
        }
        assert(args@ =~= arguments_of(*self));
        args
    }

    /// Whether the call returns an integer that the engine reads.
    pub fn returns_value(&self) -> (b: bool)
        ensures
            b == returns_value_of(*self),
    {
        match self {
            Action::GetFieldNumLen32 => true,
            Action::ReadSharedRwMemory { .. } => true,
            Action::GetWitnessSize => true,
            _ => false,
        }
    }
}

/// The host's exception callback. Whatever code the guest reports through
/// it, the guest has failed: the reply to the action in flight is a trap.
pub fn exception_handler(_arg: i32) -> (reply: Reply)
    ensures
        reply == Err::<u32, WitnessError>(WitnessError::GuestTrap),
{
    Err(WitnessError::GuestTrap)
}

/// The protocol version of a guest, from the reply to its optional
/// `getVersion() -> i32`: the version it reports, and version 1 where the
/// guest has no such function. Any other failure stays a failure.
pub fn protocol_version(reply: Reply) -> (version: Reply)
    ensures
        version == match reply {
            Ok(v) => Ok::<u32, WitnessError>(v),
            Err(WitnessError::MissingExport) => Ok(1u32),
            Err(e) => Err(e),
        },
{
    match reply {
        Ok(v) => Ok(v),
        Err(WitnessError::MissingExport) => Ok(1),
        Err(e) => Err(e),
    }
}

} // verus!
