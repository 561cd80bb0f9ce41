//! Structural model and validation rules for CLF (Common LUT Format)
//! documents: an XML interchange format describing an ordered pipeline of
//! color-transform operators (range remaps, 1D and 3D lookup tables).
//!
//! This crate holds the document model, the per-operator validation rules,
//! and the parser for the whitespace-separated numeric arrays that CLF uses
//! for LUT shapes. Turning raw XML bytes into the model is left to a caller
//! with an XML deserializer; the model here is plain data, with 32-bit float
//! sample values carried as their IEEE-754 bit patterns.

pub mod clf;
pub mod parse;
