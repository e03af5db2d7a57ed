//! A small virtual machine for the eight-command Brainfuck language.
//!
//! The crate is pure: a program is decoded from text, and a machine is
//! advanced one instruction at a time. Input bytes are handed to the machine
//! and output bytes are handed back, so the caller decides where they come
//! from and where they go.

pub mod inst;
pub mod brackets;
pub mod machine;
pub mod state;
pub mod laws;
