//! What the attribute macros decide: how the annotated items are read, which mistakes are
//! reported, and how everything that is generated is called.
//!
//! The functions here work on [`token::Token`]s. A caller turns the compiler's tokens into these,
//! and a plan into generated code.
pub mod arg_laws;
pub mod args;
pub mod db;
pub mod grammar;
pub mod grammar_laws;
pub mod items;
pub mod names;
pub mod plan_laws;
pub mod token;
pub mod types;
