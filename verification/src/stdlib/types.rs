//! Type predicates, type coercions and the rendering of values as text.
use vstd::prelude::*;
use crate::error::{AresError, AresErrorView, AresResult, result_view};
use crate::float::nearest_bits;
use crate::heap::Heap;
use crate::stdlib::render::{Piece, piece_views, render, to_string_helper};
use crate::stdlib::util::{arity_error, exactly_one};
use crate::text::{int_of_text, parse_int};
use crate::value::{Float, Kind, Value, ValueView, views};

verus! {

/// Whether every value of the sequence is of the given kind; true of the
/// empty sequence.
pub open spec fn all_of_kind(values: Seq<ValueView>, kind: Kind) -> bool {
    forall|i: int| 0 <= i < values.len() ==> (#[trigger] values[i]).kind() == kind
}

/// Whether every value of the sequence can be applied; true of the empty
/// sequence.
pub open spec fn all_executable(values: Seq<ValueView>) -> bool {
    forall|i: int| 0 <= i < values.len() ==> (#[trigger] values[i]).executable()
}

/// `Bool(true)` if every argument is of the given kind, `Bool(false)` if one
/// is not. Stops at the first argument of another kind.
pub fn is_kind(values: &Vec<Value>, kind: Kind) -> (res: AresResult<Value>)
    ensures
        result_view(res) == Ok::<ValueView, AresErrorView>(
            ValueView::Bool(all_of_kind(views(values@), kind)),
        ),
{
    let mut i: usize = 0;
    while i < values.len()
        invariant
            i <= values.len(),
            all_of_kind(views(values@).take(i as int), kind),
        decreases values.len() - i,
    {
        if values[i].kind() != kind {
            proof {
                assert(views(values@)[i as int].kind() != kind);
            }
            return Ok(Value::Bool(false));
        }
        proof {
            assert forall|j: int| 0 <= j < i + 1 implies (#[trigger] views(values@).take(
                i + 1,
            )[j]).kind() == kind by {
                if j < i {
                    assert(views(values@).take(i as int)[j].kind() == kind);
                }
            }
        }
        i = i + 1;
    }
    proof {
        assert(views(values@).take(i as int) =~= views(values@));
    }
    Ok(Value::Bool(true))
}

/// `Bool(true)` if every argument is an integer, and so for no arguments at all;
/// `Bool(false)` if one is not.
pub fn is_int(values: &Vec<Value>) -> (res: AresResult<Value>)
    ensures
        result_view(res) == Ok::<ValueView, AresErrorView>(
            ValueView::Bool(all_of_kind(views(values@), Kind::Int)),
        ),
{
    is_kind(values, Kind::Int)
}

/// `Bool(true)` if every argument is a float, and so for no arguments at all;
/// `Bool(false)` if one is not.
pub fn is_float(values: &Vec<Value>) -> (res: AresResult<Value>)
    ensures
        result_view(res) == Ok::<ValueView, AresErrorView>(
            ValueView::Bool(all_of_kind(views(values@), Kind::Float)),
        ),
{
    is_kind(values, Kind::Float)
}

/// `Bool(true)` if every argument is a boolean, and so for no arguments at all;
/// `Bool(false)` if one is not.
pub fn is_bool(values: &Vec<Value>) -> (res: AresResult<Value>)
    ensures
        result_view(res) == Ok::<ValueView, AresErrorView>(
            ValueView::Bool(all_of_kind(views(values@), Kind::Bool)),
        ),
{
    is_kind(values, Kind::Bool)
}

/// `Bool(true)` if every argument is a string, and so for no arguments at all;
/// `Bool(false)` if one is not.
pub fn is_string(values: &Vec<Value>) -> (res: AresResult<Value>)
    ensures
        result_view(res) == Ok::<ValueView, AresErrorView>(
            ValueView::Bool(all_of_kind(views(values@), Kind::String)),
        ),
{
    is_kind(values, Kind::String)
}

/// `Bool(true)` if every argument is a list, and so for no arguments at all;
/// `Bool(false)` if one is not.
pub fn is_list(values: &Vec<Value>) -> (res: AresResult<Value>)
    ensures
        result_view(res) == Ok::<ValueView, AresErrorView>(
            ValueView::Bool(all_of_kind(views(values@), Kind::List)),
        ),
{
    is_kind(values, Kind::List)
}

/// `Bool(true)` if every argument is an identifier, and so for no arguments at all;
/// `Bool(false)` if one is not.
pub fn is_ident(values: &Vec<Value>) -> (res: AresResult<Value>)
    ensures
        result_view(res) == Ok::<ValueView, AresErrorView>(
            ValueView::Bool(all_of_kind(views(values@), Kind::Ident)),
        ),
{
    is_kind(values, Kind::Ident)
}

/// `Bool(true)` if every argument is a closure, and so for no arguments at all;
/// `Bool(false)` if one is not.
pub fn is_lambda(values: &Vec<Value>) -> (res: AresResult<Value>)
    ensures
        result_view(res) == Ok::<ValueView, AresErrorView>(
            ValueView::Bool(all_of_kind(views(values@), Kind::Lambda)),
        ),
{
    is_kind(values, Kind::Lambda)
}

/// `Bool(true)` if every argument is a native function, and so for no arguments at all;
/// `Bool(false)` if one is not.
pub fn is_foreign_fn(values: &Vec<Value>) -> (res: AresResult<Value>)
    ensures
        result_view(res) == Ok::<ValueView, AresErrorView>(
            ValueView::Bool(all_of_kind(views(values@), Kind::ForeignFn)),
        ),
{
    is_kind(values, Kind::ForeignFn)
}

/// `Bool(true)` if every argument is a closure or a native function,
/// `Bool(false)` if one is not.
pub fn is_executable(values: &Vec<Value>) -> (res: AresResult<Value>)
    ensures
        result_view(res) == Ok::<ValueView, AresErrorView>(
            ValueView::Bool(all_executable(views(values@))),
        ),
{
    let mut i: usize = 0;
    while i < values.len()
        invariant
            i <= values.len(),
            all_executable(views(values@).take(i as int)),
        decreases values.len() - i,
    {
        match &values[i] {
            Value::Lambda(_) => {},
            Value::ForeignFn(_) => {},
            _ => {
                proof {
                    assert(!views(values@)[i as int].executable());
                }
                return Ok(Value::Bool(false));
            },
        }
        proof {
            assert forall|j: int| 0 <= j < i + 1 implies (#[trigger] views(values@).take(
                i + 1,
            )[j]).executable() by {
                if j < i {
                    assert(views(values@).take(i as int)[j].executable());
                }
            }
        }
        i = i + 1;
    }
    proof {
        assert(views(values@).take(i as int) =~= views(values@));
    }
    Ok(Value::Bool(true))
}

/// The error for a value that has no conversion to the type named `into`.
pub open spec fn illegal(v: ValueView, into: Seq<char>) -> Result<ValueView, AresErrorView> {
    Err(AresErrorView::IllegalConversion { value: v, into: into })
}

/// What a value is as an integer: an integer itself, a float with its
/// fractional part cut off, 1 for true and 0 for false, a string that is the
/// decimal text of an integer as that integer. Nothing else converts.
pub open spec fn int_conversion(v: ValueView) -> Result<ValueView, AresErrorView> {
    match v {
        ValueView::Int(i) => Ok(ValueView::Int(i)),
        ValueView::Float(f) => Ok(ValueView::Int(f.truncated() as i64)),
        ValueView::Bool(b) => Ok(
            ValueView::Int(
                if b {
                    1
                } else {
                    0
                },
            ),
        ),
        ValueView::String(s) => match int_of_text(s) {
            Some(i) => Ok(ValueView::Int(i)),
            None => illegal(v, "Int"@),
        },
        _ => illegal(v, "Int"@),
    }
}

/// Converts the single argument to an integer.
pub fn to_int(values: &Vec<Value>) -> (res: AresResult<Value>)
    ensures
        result_view(res) == (if values@.len() == 1 {
            int_conversion(values@[0]@)
        } else {
            Err(arity_error(values.len()))
        }),
{
    let first = match exactly_one(values) {
        Ok(v) => v,
        Err(e) => {
            return Err(e);
        },
    };
    match first {
        Value::Int(i) => Ok(Value::Int(*i)),
        Value::Float(f) => Ok(Value::Int(f.truncate())),
        Value::Bool(b) => Ok(
            Value::Int(
                if *b {
                    1
                } else {
                    0
                },
            ),
        ),
        Value::String(s) => match parse_int(s.as_str()) {
            Some(i) => Ok(Value::Int(i)),
            None => Err(
                AresError::IllegalConversion { value: first.clone(), into: String::from_str("Int") },
            ),
        },
        other => Err(
            AresError::IllegalConversion { value: other.clone(), into: String::from_str("Int") },
        ),
    }
}

/// What a value is as a float, where `parsed` is the float that the text of
/// a string denotes, if it denotes one: an integer as the nearest float, a
/// float itself, a string as `parsed`. Nothing else converts; a boolean does
/// not.
pub open spec fn float_conversion(v: ValueView, parsed: Option<Float>) -> Result<
    ValueView,
    AresErrorView,
> {
    match v {
        ValueView::Int(i) => Ok(ValueView::Float(Float { bits: nearest_bits(i as int) as u64 })),
        ValueView::Float(f) => Ok(ValueView::Float(f)),
        ValueView::String(s) => match parsed {
            Some(f) => Ok(ValueView::Float(f)),
            None => illegal(v, "Float"@),
        },
        _ => illegal(v, "Float"@),
    }
}

/// Converts the single argument to a float. Reading a float from text is
/// the caller's part: `parsed` is what the caller read from the argument
/// where that is a string, and `None` where the text denotes no number; for
/// an argument of another kind it is not looked at.
pub fn to_float(values: &Vec<Value>, parsed: Option<Float>) -> (res: AresResult<Value>)
    ensures
        result_view(res) == (if values@.len() == 1 {
            float_conversion(values@[0]@, parsed)
        } else {
            Err(arity_error(values.len()))
        }),
{
    let first = match exactly_one(values) {
        Ok(v) => v,
        Err(e) => {
            return Err(e);
        },
    };
    match first {
        Value::Int(i) => Ok(Value::Float(Float::from_int(*i))),
        Value::Float(f) => Ok(Value::Float(*f)),
        Value::String(_) => match parsed {
            Some(f) => Ok(Value::Float(f)),
            None => Err(
                AresError::IllegalConversion {
                    value: first.clone(),
                    into: String::from_str("Float"),
                },
            ),
        },
        other => Err(
            AresError::IllegalConversion { value: other.clone(), into: String::from_str("Float") },
        ),
    }
}

/// What a value is as a boolean: an integer or a float is false where it is
/// zero and true otherwise (so a float that is no number is true), a boolean
/// is itself, and of the strings only `true` and `false` convert, letter for
/// letter.
pub open spec fn bool_conversion(v: ValueView) -> Result<ValueView, AresErrorView> {
    match v {
        ValueView::Int(i) => Ok(ValueView::Bool(i != 0)),
        ValueView::Float(f) => Ok(ValueView::Bool(!f.is_zero())),
        ValueView::Bool(b) => Ok(ValueView::Bool(b)),
        ValueView::String(s) => if s == "true"@ {
            Ok(ValueView::Bool(true))
        } else if s == "false"@ {
            Ok(ValueView::Bool(false))
        } else {
            illegal(v, "Bool"@)
        },
        _ => illegal(v, "Bool"@),
    }
}

/// Converts the single argument to a boolean.
pub fn to_bool(values: &Vec<Value>) -> (res: AresResult<Value>)
    ensures
        result_view(res) == (if values@.len() == 1 {
            bool_conversion(values@[0]@)
        } else {
            Err(arity_error(values.len()))
        }),
{
    let first = match exactly_one(values) {
        Ok(v) => v,
        Err(e) => {
            return Err(e);
        },
    };
    match first {
        Value::Int(i) => Ok(Value::Bool(*i != 0)),
        Value::Float(f) => Ok(Value::Bool(!f.zero())),
        Value::Bool(b) => Ok(Value::Bool(*b)),
        Value::String(s) => {
            if *s == String::from_str("true") {
                Ok(Value::Bool(true))
            } else if *s == String::from_str("false") {
                Ok(Value::Bool(false))
            } else {
                Err(
                    AresError::IllegalConversion {
                        value: first.clone(),
                        into: String::from_str("Bool"),
                    },
                )
            }
        },
        other => Err(
            AresError::IllegalConversion { value: other.clone(), into: String::from_str("Bool") },
        ),
    }
}

/// Renders the single argument. Fails for the number of arguments only,
/// never for the kind of value.
pub fn to_string(heap: &Heap, values: &Vec<Value>) -> (res: AresResult<Vec<Piece>>)
    requires
        heap.wf(),
        heap@.holds_all(views(values@)),
    ensures
        match res {
            Ok(pieces) => values@.len() == 1 && piece_views(pieces@) == render(
                heap@,
                values@[0]@,
            ),
            Err(e) => values@.len() != 1 && e@ == arity_error(values.len()),
        },
{
    let first = match exactly_one(values) {
        Ok(v) => v,
        Err(e) => {
            return Err(e);
        },
    };
    proof {
        assert(heap@.holds(views(values@)[0]));
    }
    Ok(to_string_helper(heap, first))
}

/// A predicate on a kind holds of no arguments at all, and of a single
/// argument exactly when the argument is of that kind.
pub proof fn lemma_kind_of_none_and_one(x: ValueView, kind: Kind)
    ensures
        all_of_kind(Seq::empty(), kind),
        all_of_kind(seq![x], kind) <==> x.kind() == kind,
{
    assert(seq![x][0] == x);
}

/// Of two arguments, the test for applicable values holds exactly when both
/// are closures or native functions; of none at all it holds.
pub proof fn lemma_executable_of_two(x: ValueView, y: ValueView)
    ensures
        all_executable(Seq::empty()),
        all_executable(seq![x, y]) <==> x.executable() && y.executable(),
{
    assert(seq![x, y][0] == x);
    assert(seq![x, y][1] == y);
}

} // verus!
