//! A single-pass, character-at-a-time tokenizer that segments text into a
//! tree of nested bracket groups containing leaf tokens: identifiers, string
//! literals, integer literals, fractional numeric literals and operators.
//!
//! The executable state machine lives in [`atom`]; its behaviour is stated
//! against the abstract transition function in [`model`] and the general
//! facts about that function are proved in [`laws`].

pub mod atom;
pub mod laws;
pub mod model;
