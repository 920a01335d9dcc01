//! Incremental assembly of a parameterized query: raw text fragments and
//! `$name` placeholders go into the query text, the bound values go into a
//! separate store keyed by name.

pub mod bindings;
pub mod history;
pub mod query;
pub mod select;
pub mod text;
pub mod value;

pub use crate::bindings::Bindings;
pub use crate::query::{Query, QueryState};
pub use crate::select::Select;
pub use crate::value::{Ident, Value};
