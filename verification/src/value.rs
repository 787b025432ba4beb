use crate::lox_callable::NativeClock;
use crate::number::f64_eq;
use vstd::prelude::*;

verus! {

/// A runtime value. Numbers are binary64 bit patterns; the only callable
/// is the native clock bound at interpreter construction.
#[derive(Debug, Clone, PartialEq)]
pub enum Value {
    Number(u64),
    Str(String),
    Boolean(bool),
    Nil,
    Callable(NativeClock),
}

/// The mathematical value of a `Value`.
pub enum SpecValue {
    Number(u64),
    Str(Seq<char>),
    Boolean(bool),
    Nil,
    Callable,
}

impl View for Value {
    type V = SpecValue;

    open spec fn view(&self) -> SpecValue {
        match self {
            Value::Number(b) => SpecValue::Number(*b),
            Value::Str(s) => SpecValue::Str(s@),
            Value::Boolean(b) => SpecValue::Boolean(*b),
            Value::Nil => SpecValue::Nil,
            Value::Callable(_) => SpecValue::Callable,
        }
    }
}

/// Nil and false are falsy; every other value, zero and the empty string
/// included, is truthy.
pub open spec fn spec_truthy(v: SpecValue) -> bool {
    match v {
        SpecValue::Nil => false,
        SpecValue::Boolean(b) => b,
        _ => true,
    }
}

/// The language's equality relation: values of different kinds are simply
/// unequal, numbers compare by IEEE equality, and the sole native callable
/// equals itself. It is total: comparing never fails. Callables compare by
/// instance identity; with the clock the single capability there is only
/// one instance, so the callable case is simply true.
pub open spec fn spec_lox_eq(a: SpecValue, b: SpecValue) -> bool {
    match (a, b) {
        (SpecValue::Number(x), SpecValue::Number(y)) => f64_eq(x, y),
        (SpecValue::Str(x), SpecValue::Str(y)) => x == y,
        (SpecValue::Boolean(x), SpecValue::Boolean(y)) => x == y,
        (SpecValue::Nil, SpecValue::Nil) => true,
        (SpecValue::Callable, SpecValue::Callable) => true,
        _ => false,
    }
}

/// The display form of a value, except a number's: `Str` shows its raw
/// contents, booleans as `true`/`false`, nil as `nil`, the callable as an
/// opaque placeholder. A number's display form is the host float
/// formatting, which stays with the driver.
pub open spec fn spec_display(v: SpecValue) -> Option<Seq<char>> {
    match v {
        SpecValue::Number(_) => Option::None,
        SpecValue::Str(s) => Option::Some(s),
        SpecValue::Boolean(b) => if b {
            Option::Some("true"@)
        } else {
            Option::Some("false"@)
        },
        SpecValue::Nil => Option::Some("nil"@),
        SpecValue::Callable => Option::Some("<callable>"@),
    }
}

impl Value {
    pub fn is_truthy(&self) -> (r: bool)
        ensures
            r == spec_truthy(self@),
    {
        match self {
            Value::Nil => false,
            Value::Boolean(v) => *v,
            _ => true,
        }
    }

    /// An explicit copy whose mathematical value is the same.
    pub fn duplicate(&self) -> (v: Value)
        ensures
            v@ == self@,
    {
        match self {
            Value::Number(b) => Value::Number(*b),
            Value::Str(s) => Value::Str(s.clone()),
            Value::Boolean(b) => Value::Boolean(*b),
            Value::Nil => Value::Nil,
            Value::Callable(_) => Value::Callable(NativeClock),
        }
    }

    /// The display form, except a number's; see `spec_display`.
    pub fn display_text(&self) -> (r: Option<String>)
        ensures
            match r {
                Option::Some(s) => spec_display(self@) == Option::Some(s@),
                Option::None => spec_display(self@) is None,
            },
    {
        match self {
            Value::Number(_) => Option::None,
            Value::Str(s) => Option::Some(s.clone()),
            Value::Boolean(b) => if *b {
                Option::Some(String::from_str("true"))
            } else {
                Option::Some(String::from_str("false"))
            },
            Value::Nil => Option::Some(String::from_str("nil")),
            Value::Callable(_) => Option::Some(String::from_str("<callable>")),
        }
    }

    /// The language's equality test; see `spec_lox_eq`.
    pub fn lox_eq(&self, other: &Value) -> (r: bool)
        ensures
            r == spec_lox_eq(self@, other@),
    {
        match (self, other) {
            (Value::Number(x), Value::Number(y)) => crate::number::eq_bits(*x, *y),
            (Value::Str(x), Value::Str(y)) => x.eq(y),
            (Value::Boolean(x), Value::Boolean(y)) => *x == *y,
            (Value::Nil, Value::Nil) => true,
            (Value::Callable(_), Value::Callable(_)) => true,
            _ => false,
        }
    }
}

} // verus!
