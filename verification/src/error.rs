use vstd::prelude::*;

verus! {

/// Why a witness computation ended without a witness.
///
/// Every failure aborts the computation it occurs in; nothing is retried and
/// no partial witness survives it.
#[derive(Clone, Copy, Debug, PartialEq, Eq, Structural)]
pub enum WitnessError {
    /// The module bytes could not be turned into a guest execution context.
    ModuleLoad,
    /// The guest lacks a function that the protocol needs.
    MissingExport,
    /// The guest reported a runtime error, or its execution faulted.
    GuestTrap,
    /// An input value cannot be carried by the transfer format: it is
    /// negative, or it needs more limbs than the field has.
    NegativeInput,
}

/// Why a big integer has no limb array of a given width.
#[derive(Clone, Copy, Debug, PartialEq, Eq, Structural)]
pub enum LimbError {
    /// The value is below zero; limbs carry non-negative values only.
    Negative,
    /// The value does not fit into the requested number of limbs.
    Overflow,
}

} // verus!
