//! The closed set of runtime values and their mathematical views.
use vstd::prelude::*;
use crate::eval::procedure::{Procedure, ProcedureView};

verus! {

/// A double-precision number, held as its IEEE-754 binary64 bit pattern.
///
/// Two floats are the same value when their bit patterns are equal.
#[derive(Clone, Copy, Debug, PartialEq, Eq, Structural, Hash)]
pub struct Float {
    pub bits: u64,
}

/// Handle of a shared list object: two handles denote the same object exactly
/// when their indices are equal.
#[derive(Clone, Copy, Debug, PartialEq, Eq, Structural, Hash)]
pub struct ListRef {
    pub index: usize,
}

/// Handle of a shared environment frame.
#[derive(Clone, Copy, Debug, PartialEq, Eq, Structural, Hash)]
pub struct Env {
    pub index: usize,
}

/// A native function of the host, known by its name and the slot the host
/// keeps it in.
#[derive(Debug)]
pub struct ForeignFn {
    pub name: String,
    pub slot: usize,
}

pub struct ForeignFnView {
    pub name: Seq<char>,
    pub slot: usize,
}

impl View for ForeignFn {
    type V = ForeignFnView;

    open spec fn view(&self) -> ForeignFnView {
        ForeignFnView { name: self.name@, slot: self.slot }
    }
}

impl Clone for ForeignFn {
    fn clone(&self) -> (res: ForeignFn)
        ensures
            res@ == self@,
    {
        ForeignFn { name: self.name.clone(), slot: self.slot }
    }
}

/// A runtime value. Copying one copies handles, never the objects behind them.
#[derive(Debug)]
pub enum Value {
    Int(i64),
    Float(Float),
    Bool(bool),
    String(String),
    Ident(String),
    List(ListRef),
    Lambda(Procedure),
    ForeignFn(ForeignFn),
}

/// What a value is, as plain mathematical data.
pub enum ValueView {
    Int(i64),
    Float(Float),
    Bool(bool),
    String(Seq<char>),
    Ident(Seq<char>),
    List(ListRef),
    Lambda(ProcedureView),
    ForeignFn(ForeignFnView),
}

/// The eight kinds of value.
#[derive(Clone, Copy, Debug, PartialEq, Eq, Structural)]
pub enum Kind {
    Int,
    Float,
    Bool,
    String,
    Ident,
    List,
    Lambda,
    ForeignFn,
}

impl ValueView {
    pub open spec fn kind(self) -> Kind {
        match self {
            ValueView::Int(_) => Kind::Int,
            ValueView::Float(_) => Kind::Float,
            ValueView::Bool(_) => Kind::Bool,
            ValueView::String(_) => Kind::String,
            ValueView::Ident(_) => Kind::Ident,
            ValueView::List(_) => Kind::List,
            ValueView::Lambda(_) => Kind::Lambda,
            ValueView::ForeignFn(_) => Kind::ForeignFn,
        }
    }

    /// Whether the value can be applied to arguments.
    pub open spec fn executable(self) -> bool {
        self.kind() == Kind::Lambda || self.kind() == Kind::ForeignFn
    }
}

impl View for Value {
    type V = ValueView;

    open spec fn view(&self) -> ValueView {
        match self {
            Value::Int(i) => ValueView::Int(*i),
            Value::Float(f) => ValueView::Float(*f),
            Value::Bool(b) => ValueView::Bool(*b),
            Value::String(s) => ValueView::String(s@),
            Value::Ident(s) => ValueView::Ident(s@),
            Value::List(l) => ValueView::List(*l),
            Value::Lambda(p) => ValueView::Lambda(p@),
            Value::ForeignFn(f) => ValueView::ForeignFn(f@),
        }
    }
}

impl Value {
    /// The kind of this value.
    pub fn kind(&self) -> (res: Kind)
        ensures
            res == self@.kind(),
    {
        match self {
            Value::Int(_) => Kind::Int,
            Value::Float(_) => Kind::Float,
            Value::Bool(_) => Kind::Bool,
            Value::String(_) => Kind::String,
            Value::Ident(_) => Kind::Ident,
            Value::List(_) => Kind::List,
            Value::Lambda(_) => Kind::Lambda,
            Value::ForeignFn(_) => Kind::ForeignFn,
        }
    }
}

impl Clone for Value {
    fn clone(&self) -> (res: Value)
        ensures
            res@ == self@,
    {
        match self {
            Value::Int(i) => Value::Int(*i),
            Value::Float(f) => Value::Float(*f),
            Value::Bool(b) => Value::Bool(*b),
            Value::String(s) => Value::String(s.clone()),
            Value::Ident(s) => Value::Ident(s.clone()),
            Value::List(l) => Value::List(*l),
            Value::Lambda(p) => Value::Lambda(p.clone()),
            Value::ForeignFn(f) => Value::ForeignFn(f.clone()),
        }
    }
}

/// The views of a sequence of values.
pub open spec fn views(values: Seq<Value>) -> Seq<ValueView> {
    values.map_values(|v: Value| v@)
}

} // verus!
