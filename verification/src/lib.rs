pub mod instruction;
pub mod text;
pub mod tribin;
pub mod trit;
pub mod tryte;
pub mod vm;
pub mod assembler;
