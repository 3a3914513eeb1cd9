//! Value-and-closure core of a small Lisp-like runtime.
//!
//! Shared objects (lists, environment frames) live in a heap and are referred
//! to by handles, so that identity is the handle's index and cyclic structures
//! are ordinary data.
pub mod error;
pub mod eval;
pub mod float;
pub mod heap;
pub mod stdlib;
pub mod text;
pub mod value;
