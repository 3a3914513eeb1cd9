//! Built-in functions over values.
pub mod render;
pub mod types;
pub mod util;
