//! A verified arithmetic-expression engine.
//!
//! An expression arrives as one line of text ending in `=` and leaves as
//! a double-precision value or a precise diagnostic. The pipeline has
//! three stages, each with a full functional specification:
//!
//! - [`lexer`] turns the text into tokens, rejecting malformed or
//!   non-finite numerals and unknown characters;
//! - [`parser`] runs a five-level recursive-descent grammar — with
//!   implicit multiplication and right-associative exponents and roots —
//!   and emits the arithmetic as a stack program in evaluation order;
//! - [`machine`] executes that program over IEEE 754 binary64 bit
//!   patterns, making every policy decision (division by zero, the root
//!   domain rules, the overflow and underflow gate) itself, while each
//!   raw arithmetic operation is computed by the caller on its own
//!   doubles and handed back as a bit pattern.
//!
//! [`ieee`] classifies bit patterns; [`token`] holds the token and error
//! model; [`laws`] states the engine's input-independent properties.
pub mod ieee;
pub mod laws;
pub mod lexer;
pub mod machine;
pub mod parser;
pub mod token;
