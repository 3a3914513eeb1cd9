//! Closures and the environment frames they capture.
pub mod procedure;
