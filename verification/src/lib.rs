//! Conversion of a single unsigned 64-bit value between its textual
//! representations: binary, decimal and hexadecimal.
//!
//! The crate decodes a numeric literal (`0b`-prefixed binary, `0x`-prefixed
//! hexadecimal, plain decimal), parses the set of requested representations
//! and the bit width, and renders the value either as labelled, column-aligned
//! blocks (detailed mode) or as bare digit strings (simplified mode).

pub mod config;
pub mod decode;
pub mod digits;
pub mod error;
pub mod laws;
pub mod render;
