//! A small byte-oriented virtual machine: eight instructions, a circular tape
//! of byte cells, an input sequence read in a circle and an output sequence.

pub mod decoder;
pub mod error;
pub mod jump;
pub mod machine;
pub mod tape;
