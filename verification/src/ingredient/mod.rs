//! Query ingredients (inputs, derived queries, and interning).
pub mod access;
pub mod access_laws;
pub mod cell_laws;
pub mod derived;
pub mod history_laws;
pub mod input;
pub mod interned;
pub mod persist_laws;
pub mod run_laws;
pub mod value_laws;
pub mod view_laws;

pub use crate::ingredient::derived::{DerivedCore, ErasedCell, ErasedReadyRecord};
pub use crate::ingredient::input::{InputEntry, InputIngredient};
pub use crate::ingredient::interned::{InternId, InternedIngredient};
