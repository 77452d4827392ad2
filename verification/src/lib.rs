mod actions;
mod json;
mod text;
mod codec;
pub mod compare;
mod error;
mod parse;
mod remove_spaces;
pub mod stringify;

pub use actions::{Action, CompareOptions, JsonAction, Panes, ParseOptions, RemoveSpacesOptions, StringifyOptions};
pub use error::Error;
pub use json::{deep_eq, Json, JsonV};
pub use parse::parse;
pub use remove_spaces::{remove_spaces_str, remove_spaces_value};
pub use stringify::sort_by_period_count;
pub use stringify::stringify_pretty;
