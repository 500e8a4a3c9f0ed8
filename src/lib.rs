//! A virtual machine for the 16-bit Synacor challenge architecture, with the
//! operator commands that steer it and two search routines that solve puzzles
//! inside the guest program.
pub mod commands;
pub mod disasm;
pub mod grid;
pub mod lemmas;
pub mod machine;
pub mod operand;
pub mod routine;
