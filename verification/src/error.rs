//! The failures that built-in functions and name lookup report.
use vstd::prelude::*;
use crate::value::{Value, ValueView};

verus! {

/// Why an operation of the runtime failed.
#[derive(Debug)]
pub enum AresError {
    /// A built-in was given `found` arguments where `expected` describes what
    /// it takes.
    UnexpectedArity { found: usize, expected: String },
    /// `value` cannot be converted to the type named by `into`.
    IllegalConversion { value: Value, into: String },
    /// No frame of the chain binds the name.
    UnboundName(String),
}

/// What an error is, as plain mathematical data.
pub enum AresErrorView {
    UnexpectedArity { found: usize, expected: Seq<char> },
    IllegalConversion { value: ValueView, into: Seq<char> },
    UnboundName(Seq<char>),
}

impl View for AresError {
    type V = AresErrorView;

    open spec fn view(&self) -> AresErrorView {
        match self {
            AresError::UnexpectedArity { found, expected } => AresErrorView::UnexpectedArity {
                found: *found,
                expected: expected@,
            },
            AresError::IllegalConversion { value, into } => AresErrorView::IllegalConversion {
                value: value@,
                into: into@,
            },
            AresError::UnboundName(name) => AresErrorView::UnboundName(name@),
        }
    }
}

pub type AresResult<T> = Result<T, AresError>;

/// The view of a result that carries a value.
pub open spec fn result_view(r: AresResult<Value>) -> Result<ValueView, AresErrorView> {
    match r {
        Ok(v) => Ok(v@),
        Err(e) => Err(e@),
    }
}

} // verus!
