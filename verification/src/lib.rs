//! An interactive calculator core: a verified recursive-descent parser for
//! arithmetic expressions, a verified display policy for numeric results,
//! and the verified session state machine that owns the input buffer.
//!
//! Reducing a parsed tree to a number and rendering that number's digits
//! are floating-point work and live with the caller; everything the
//! calculator decides — what parses, what each submission does to the
//! session, and which rendering a value receives — is specified and proved
//! here.

pub mod calculator;
pub mod expr;
pub mod parser;
pub mod render;
