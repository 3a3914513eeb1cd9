//! The arity rule that the conversions share.
use vstd::prelude::*;
use crate::error::{AresError, AresErrorView};
use crate::value::Value;

verus! {

/// The error for a call with `found` arguments where exactly one is taken.
pub open spec fn arity_error(found: usize) -> AresErrorView {
    AresErrorView::UnexpectedArity { found: found, expected: "exactly 1"@ }
}

/// The single argument of a call; an arity error that reports the number of
/// arguments given where there is none or more than one.
pub fn exactly_one(values: &Vec<Value>) -> (res: Result<&Value, AresError>)
    ensures
        match res {
            Ok(v) => values@.len() == 1 && *v == values@[0],
            Err(e) => values@.len() != 1 && e@ == arity_error(values.len()),
        },
{
    if values.len() == 1 {
        Ok(&values[0])
    } else {
        Err(AresError::UnexpectedArity { found: values.len(), expected: String::from_str("exactly 1") })
    }
}

} // verus!
