//! Tagged values on the operand stack.
use crate::number::{
    greater_than, is_finite, is_finite_bits, is_nan, is_nan_bits, is_zero, is_zero_bits, number_gt,
    TEN_BITS, THOUSAND_BITS,
};
use vstd::prelude::*;

verus! {

/// A value of the machine. `Number` holds the bit pattern of a binary64
/// value; `Object` holds an opaque handle.
#[derive(Debug, Clone)]
pub enum UVal {
    Nil,
    Bool(bool),
    Number(u64),
    String(String),
    Object(u64),
}

/// Truthiness: `Nil` is false, a number is true when it is finite and not
/// zero, a string when it is not empty, an object always.
pub open spec fn truthy(v: UVal) -> bool {
    match v {
        UVal::Nil => false,
        UVal::Bool(b) => b,
        UVal::Number(n) => !is_zero_bits(n) && is_finite_bits(n),
        UVal::String(s) => s@.len() > 0,
        UVal::Object(_) => true,
    }
}

/// Equality of values: numbers by their bits, NaN equal to nothing; strings
/// by content; the other tags by tag and payload.
pub open spec fn value_eq(a: UVal, b: UVal) -> bool {
    match (a, b) {
        (UVal::Nil, UVal::Nil) => true,
        (UVal::Bool(x), UVal::Bool(y)) => x == y,
        (UVal::Number(x), UVal::Number(y)) => x == y && !is_nan_bits(x),
        (UVal::String(x), UVal::String(y)) => x@ == y@,
        (UVal::Object(x), UVal::Object(y)) => x == y,
        _ => false,
    }
}

impl UVal {
    pub fn is_truthy(&self) -> (r: bool)
        ensures
            r == truthy(*self),
    {
        match self {
            UVal::Nil => false,
            UVal::Bool(b) => *b,
            UVal::Number(n) => !is_zero(*n) && is_finite(*n),
            UVal::String(s) => !s.as_str().is_empty(),
            UVal::Object(_) => true,
        }
    }

    pub fn equals(&self, other: &UVal) -> (r: bool)
        ensures
            r == value_eq(*self, *other),
    {
        match (self, other) {
            (UVal::Nil, UVal::Nil) => true,
            (UVal::Bool(x), UVal::Bool(y)) => *x == *y,
            (UVal::Number(x), UVal::Number(y)) => *x == *y && !is_nan(*x),
            (UVal::String(x), UVal::String(y)) => x.eq(y),
            (UVal::Object(x), UVal::Object(y)) => *x == *y,
            _ => false,
        }
    }

    /// A copy of the value.
    pub fn duplicate(&self) -> (r: UVal)
        ensures
            r == *self,
    {
        match self {
            UVal::Nil => UVal::Nil,
            UVal::Bool(b) => UVal::Bool(*b),
            UVal::Number(n) => UVal::Number(*n),
            UVal::String(s) => UVal::String(s.clone()),
            UVal::Object(h) => UVal::Object(*h),
        }
    }
}

impl PartialEq for UVal {
    fn eq(&self, other: &UVal) -> (r: bool) {
        self.equals(other)
    }
}

impl vstd::std_specs::cmp::PartialEqSpecImpl for UVal {
    open spec fn obeys_eq_spec() -> bool {
        false
    }

    open spec fn eq_spec(&self, other: &UVal) -> bool {
        value_eq(*self, *other)
    }
}

/// The tag of a value.
#[derive(Clone, Copy, Debug, PartialEq, Eq, Hash, Structural)]
pub enum ValueKind {
    Nil,
    Bool,
    Number,
    String,
    Object,
}

pub open spec fn kind_of(v: UVal) -> ValueKind {
    match v {
        UVal::Nil => ValueKind::Nil,
        UVal::Bool(_) => ValueKind::Bool,
        UVal::Number(_) => ValueKind::Number,
        UVal::String(_) => ValueKind::String,
        UVal::Object(_) => ValueKind::Object,
    }
}

pub fn value_kind(v: &UVal) -> (r: ValueKind)
    ensures
        r == kind_of(*v),
{
    match v {
        UVal::Nil => ValueKind::Nil,
        UVal::Bool(_) => ValueKind::Bool,
        UVal::Number(_) => ValueKind::Number,
        UVal::String(_) => ValueKind::String,
        UVal::Object(_) => ValueKind::Object,
    }
}

/// Coarse magnitude class of a number.
#[derive(Clone, Copy, Debug, PartialEq, Eq, Hash, Structural)]
pub enum NumberBand {
    Neg,
    Zero,
    Small,
    Medium,
    Large,
}

/// Negative numbers, zero, below ten, below a thousand, and the rest (NaN
/// among them).
pub open spec fn band_of(n: u64) -> NumberBand {
    if number_gt(0u64, n) {
        NumberBand::Neg
    } else if !is_nan_bits(n) && is_zero_bits(n) {
        NumberBand::Zero
    } else if number_gt(TEN_BITS, n) {
        NumberBand::Small
    } else if number_gt(THOUSAND_BITS, n) {
        NumberBand::Medium
    } else {
        NumberBand::Large
    }
}

pub fn number_band(v: &UVal) -> (r: Option<NumberBand>)
    ensures
        r == (match *v {
            UVal::Number(n) => Some(band_of(n)),
            _ => None,
        }),
{
    match v {
        UVal::Number(n) => {
            let n = *n;
            if greater_than(0u64, n) {
                Some(NumberBand::Neg)
            } else if !is_nan(n) && is_zero(n) {
                Some(NumberBand::Zero)
            } else if greater_than(TEN_BITS, n) {
                Some(NumberBand::Small)
            } else if greater_than(THOUSAND_BITS, n) {
                Some(NumberBand::Medium)
            } else {
                Some(NumberBand::Large)
            }
        },
        _ => None,
    }
}

} // verus!
