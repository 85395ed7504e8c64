//! Runtime values.
use vstd::prelude::*;
use crate::number::{number_equal, numbers_equal};

verus! {

/// A value: objects are named by their place in the heap that holds them,
/// numbers are the bits of doubles.
#[derive(Debug, Clone, Copy, PartialEq, Eq, Structural)]
pub enum Value {
    Bool(bool),
    Nil,
    Number(u64),
    Obj(usize),
}

/// Equality in the language: numbers by value, objects by identity.
pub open spec fn equal_values(a: Value, b: Value) -> bool {
    match (a, b) {
        (Value::Bool(x), Value::Bool(y)) => x == y,
        (Value::Nil, Value::Nil) => true,
        (Value::Number(x), Value::Number(y)) => number_equal(x, y),
        (Value::Obj(x), Value::Obj(y)) => x == y,
        _ => false,
    }
}

impl Value {
    pub open spec fn falsy(self) -> bool {
        self == Value::Nil || self == Value::Bool(false)
    }

    pub fn is_bool(&self) -> (yes: bool)
        ensures
            yes == (*self is Bool),
    {
        matches!(self, Value::Bool(_))
    }

    pub fn is_nil(&self) -> (yes: bool)
        ensures
            yes == (*self is Nil),
    {
        matches!(self, Value::Nil)
    }

    pub fn is_number(&self) -> (yes: bool)
        ensures
            yes == (*self is Number),
    {
        matches!(self, Value::Number(_))
    }

    /// `nil` and `false` are false, every other value is true.
    pub fn is_falsy(&self) -> (yes: bool)
        ensures
            yes == self.falsy(),
    {
        matches!(self, Value::Nil) || matches!(self, Value::Bool(false))
    }

    pub fn as_bool(&self) -> (value: bool)
        requires
            *self is Bool,
        ensures
            *self == Value::Bool(value),
    {
        match self {
            Value::Bool(b) => *b,
            _ => false,
        }
    }

    pub fn as_number(&self) -> (bits: u64)
        requires
            *self is Number,
        ensures
            *self == Value::Number(bits),
    {
        match self {
            Value::Number(bits) => *bits,
            _ => 0,
        }
    }

    pub fn as_obj(&self) -> (object: usize)
        requires
            *self is Obj,
        ensures
            *self == Value::Obj(object),
    {
        match self {
            Value::Obj(object) => *object,
            _ => 0,
        }
    }
}

pub fn obj_val(object: usize) -> (value: Value)
    ensures
        value == Value::Obj(object),
{
    Value::Obj(object)
}

pub fn number_val(bits: u64) -> (value: Value)
    ensures
        value == Value::Number(bits),
{
    Value::Number(bits)
}

pub fn bool_val(b: bool) -> (value: Value)
    ensures
        value == Value::Bool(b),
{
    Value::Bool(b)
}

pub fn nil_val() -> (value: Value)
    ensures
        value == Value::Nil,
{
    Value::Nil
}

pub fn values_equal(a: Value, b: Value) -> (equal: bool)
    ensures
        equal == equal_values(a, b),
{
    match (a, b) {
        (Value::Bool(x), Value::Bool(y)) => x == y,
        (Value::Nil, Value::Nil) => true,
        (Value::Number(x), Value::Number(y)) => numbers_equal(x, y),
        (Value::Obj(x), Value::Obj(y)) => x == y,
        _ => false,
    }
}

} // verus!
