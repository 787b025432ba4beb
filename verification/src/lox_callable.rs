//! The native capability bound into the global scope at interpreter
//! construction. A capability exposes an arity and an invocation; the clock
//! is the only one, but the interpreter's call handling depends on nothing
//! beyond these two operations.

use crate::interpreter::RuntimeError;
use crate::number::{
    float_div, float_of_u64, div_bits, u64_to_double_bits, F64_SIGN_BIT,
};
use crate::value::Value;
use vstd::prelude::*;

verus! {

/// The host clock: a zero-argument capability returning the wall-clock
/// time in fractional seconds.
#[derive(Debug, Clone, PartialEq)]
pub struct NativeClock;

/// The bit pattern of a reading of `micros` whole microseconds converted
/// to fractional seconds.
pub open spec fn spec_seconds_of_micros(micros: u64) -> u64 {
    div_bits(u64_to_double_bits(micros), u64_to_double_bits(1_000_000))
}

/// A bit pattern the clock capability may hand back: the seconds
/// conversion of some whole-microsecond reading, never negative.
pub open spec fn valid_clock_reading(b: u64) -> bool {
    &&& exists|micros: u64| b == spec_seconds_of_micros(micros)
    &&& b & F64_SIGN_BIT == 0
}

/// Relies on `std::time::SystemTime::now` and
/// `SystemTime::duration_since(UNIX_EPOCH)`: the wall-clock time in whole
/// microseconds (a pre-epoch clock reads as zero). The result depends on
/// the moment of the call, so nothing is promised of it.
#[verifier::external_body]
fn clock_micros() -> u64 {
    let d = std::time::SystemTime::now()
        .duration_since(std::time::UNIX_EPOCH)
        .unwrap_or_default();
    d.as_micros() as u64
}

/// The seconds conversion applied to a given microsecond reading: what the
/// capability computes once the host has supplied the reading, exact for
/// every value of it.
pub fn seconds_bits_of_micros(micros: u64) -> (r: u64)
    ensures
        r == spec_seconds_of_micros(micros),
        valid_clock_reading(r),
{
    let a = float_of_u64(micros);
    let b = float_of_u64(1_000_000);
    let r = float_div(a, b);
    proof {
        assert(r == spec_seconds_of_micros(micros));
    }
    r
}

impl NativeClock {
    pub fn arity(&self) -> (r: usize)
        ensures
            r == 0,
    {
        0
    }

    /// The current wall-clock time in fractional seconds, as a binary64
    /// bit pattern. The reading is the moment's; the conversion from
    /// microseconds to seconds is `seconds_bits_of_micros`, exact.
    pub fn now_seconds_bits(&self) -> (r: u64)
        ensures
            valid_clock_reading(r),
    {
        let micros = clock_micros();
        seconds_bits_of_micros(micros)
    }

    /// The capability's invocation: any arguments are ignored, the clock
    /// is read, and the result is always a nonnegative number; it never
    /// fails.
    pub fn call(&self, arguments: &Vec<Value>) -> (r: Result<Value, RuntimeError>)
        ensures
            r matches Result::Ok(v) && (v@ matches crate::value::SpecValue::Number(b)
                && valid_clock_reading(b)),
    {
        let _ = arguments;
        Result::Ok(Value::Number(self.now_seconds_bits()))
    }
}

} // verus!
