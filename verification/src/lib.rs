//! PumpkinDB: an immutable ordered key-value database engine driven by
//! PumpkinScript, a small concatenative stack language.
//!
//! This crate holds the verified core: the binary form of PumpkinScript,
//! the value packings, the script environment and its interpreter.

pub mod encoding;
pub mod receivable;
pub mod binparser;
pub mod packable;
pub mod queue;
pub mod txn_stack;
pub mod envheap;
pub mod storage;
pub mod script;
pub mod env;
pub mod instructions;
pub mod bignum;
pub mod mod_stack;
pub mod mod_core;
pub mod mod_binaries;
pub mod scheduler;
pub mod messaging;
pub mod mod_msg;
pub mod mod_numbers;
pub mod dispatcher;
pub mod laws;
pub mod instruction_laws;
pub mod packet;
pub mod mod_hash;
pub mod mod_string;
pub mod mod_uuid;
pub mod mod_json;
pub mod mod_hlc;
pub mod mod_storage;
