pub mod stack;
pub mod vm;
