pub mod error;
pub mod text;
pub mod opcode;
pub mod operand;
pub mod symbols;
pub mod inst;
pub mod prog;
