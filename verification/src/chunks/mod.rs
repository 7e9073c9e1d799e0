pub mod chunks;
pub mod opcodes;
pub mod value;
