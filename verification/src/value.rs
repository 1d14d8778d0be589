//! Runtime values of the virtual machine: numbers, text, booleans and nil.

use crate::text::{int_chars, json_string, push_int, push_json_string, push_str_part};
use vstd::prelude::*;

verus! {

/// Mathematical value of a [`Value`].
pub enum ValueView {
    Num(i64),
    Str(Seq<char>),
    Bool(bool),
    Nil,
}

/// A machine value. Numbers are sixty-four-bit signed integers, so that
/// arithmetic stays exact and replayable.
#[derive(Debug, PartialEq)]
pub enum Value {
    Number(i64),
    Str(String),
    Bool(bool),
    Nil,
}

impl View for Value {
    type V = ValueView;

    open spec fn view(&self) -> ValueView {
        match self {
            Value::Number(n) => ValueView::Num(*n),
            Value::Str(s) => ValueView::Str(s@),
            Value::Bool(b) => ValueView::Bool(*b),
            Value::Nil => ValueView::Nil,
        }
    }
}

impl Clone for Value {
    /// A clone carries the same value.
    fn clone(&self) -> (r: Self)
        ensures
            r@ == self@,
    {
        match self {
            Value::Number(n) => Value::Number(*n),
            Value::Str(s) => Value::Str(s.clone()),
            Value::Bool(b) => Value::Bool(*b),
            Value::Nil => Value::Nil,
        }
    }
}

impl Value {
    /// Structural equality of two values.
    pub fn same_value(&self, other: &Value) -> (r: bool)
        ensures
            r == (self@ == other@),
    {
        match self {
            Value::Number(a) => match other {
                Value::Number(b) => *a == *b,
                _ => false,
            },
            Value::Str(a) => match other {
                Value::Str(b) => *a == *b,
                _ => false,
            },
            Value::Bool(a) => match other {
                Value::Bool(b) => *a == *b,
                _ => false,
            },
            Value::Nil => match other {
                Value::Nil => true,
                _ => false,
            },
        }
    }

    /// A value is falsy when it is `false`, nil, or the number zero;
    /// everything else counts as true.
    pub fn truthy(&self) -> (r: bool)
        ensures
            r == view_truthy(self@),
    {
        match self {
            Value::Bool(b) => *b,
            Value::Nil => false,
            Value::Number(n) => *n != 0,
            Value::Str(_) => true,
        }
    }
}

/// Truthiness over mathematical values.
pub open spec fn view_truthy(v: ValueView) -> bool {
    match v {
        ValueView::Bool(b) => b,
        ValueView::Nil => false,
        ValueView::Num(n) => n != 0,
        ValueView::Str(_) => true,
    }
}

/// The JSON rendering of one value: a decimal number, a quoted string,
/// `true`, `false`, or `null`.
pub open spec fn json_value(v: ValueView) -> Seq<char> {
    match v {
        ValueView::Num(n) => int_chars(n as int),
        ValueView::Str(s) => json_string(s),
        ValueView::Bool(b) => if b {
            "true"@
        } else {
            "false"@
        },
        ValueView::Nil => "null"@,
    }
}

/// Appends the JSON rendering of `v` to `out`.
pub fn push_json_value(v: &Value, out: &mut String)
    ensures
        final(out)@ == old(out)@ + json_value(v@),
{
    match v {
        Value::Number(n) => push_int(*n, out),
        Value::Str(s) => push_json_string(s.as_str(), out),
        Value::Bool(b) => {
            if *b {
                push_str_part("true", out)
            } else {
                push_str_part("false", out)
            }
        },
        Value::Nil => push_str_part("null", out),
    }
}

} // verus!

