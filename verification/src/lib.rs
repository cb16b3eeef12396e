//! Structured input provisioning and interactive debug execution for a
//! STARK-based virtual machine.
//!
//! The crate models the VM's data as plain values — field elements as
//! integers below the field modulus, words as four such elements — and
//! verifies the logic that prepares program inputs (operand stack, advice
//! tape, advice map, Merkle store) and the controller that steps forward
//! and backward through an execution trace.

pub mod advice;
pub mod codec;
pub mod comparison;
pub mod debug;
pub mod envelope;
pub mod errors;
pub mod example;
pub mod fibonacci;
pub mod field;
pub mod json;
pub mod merkle;
pub mod stack;
pub mod types;
