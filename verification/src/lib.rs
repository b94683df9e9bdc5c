//! Request processor for a ledger of account buffers: a versioned wire format
//! for instructions, an order book kept inside each account, and an
//! all-or-nothing update of the buffers an instruction touches.

pub mod account;
pub mod bytes;
pub mod decefi;
pub mod error;
pub mod instructions;
pub mod order;
pub mod program_command;
pub mod transaction;

pub use transaction::process_instruction;
