//! The host side of the circuit witness exchange.
//!
//! A compiled circuit runs as a guest in a sandbox. The host hands it the
//! input signals through a shared transfer region, has it compute, and reads
//! the witness back. This library is the part of the host that decides what
//! to ask of the guest and what to make of its answers:
//!
//! - [`limbs`]: big integers as arrays of 32-bit words, the format of the
//!   transfer region;
//! - [`address`]: the address of a signal, a hash of its name;
//! - [`guest`]: the actions that the host performs, and the names under
//!   which a guest exports its functions;
//! - [`engine`]: the protocol, as a machine that takes the reply to one
//!   action and gives the next;
//! - [`script`]: the protocol written out as the list of calls that a
//!   computation makes, and the proof that the engine makes those;
//! - [`field`]: from raw witness values to canonical values of the field;
//! - [`calculator`]: the calculator of one circuit;
//! - [`bignum`]: what is taken on trust of `num_bigint`.

pub mod address;
pub mod bignum;
pub mod calculator;
pub mod engine;
pub mod error;
pub mod field;
pub mod guest;
pub mod limbs;
pub mod script;

pub use crate::address::fnv;
pub use crate::calculator::WitnessCalculator;
pub use crate::engine::{Phase, WitnessEngine};
pub use crate::error::{LimbError, WitnessError};
pub use crate::field::{field_representative, field_width_64, normalize, normalize_witness};
pub use crate::guest::{exception_handler, protocol_version, Action, Reply};
pub use crate::limbs::{from_array32, to_array32, wire_order};
