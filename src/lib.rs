pub mod primitives;
pub mod stack;
pub mod instruction;
pub mod memory;
pub mod word;
pub mod account;
pub mod block;
pub mod log;
pub mod receipt;
pub mod transaction;
pub mod env;
pub mod substate;
pub mod machine;
pub mod storage;
pub mod engine;
