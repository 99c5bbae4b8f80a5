//! The comparison operators of a condition.

use crate::extras::{get_int_value, get_str_value, Scalar, Value};
use crate::text::{lowercase, same_text};
use vstd::prelude::*;
use vstd::string::*;

verus! {

broadcast use vstd::string::group_string_axioms;

/// Whether two values are equal: two integers by their number, two texts
/// without regard to case, an integer and a text never.
pub open spec fn equal_values(a: Scalar, b: Scalar) -> bool {
    match (a, b) {
        (Scalar::Int(x), Scalar::Int(y)) => x == y,
        (Scalar::Str(s), Scalar::Str(t)) => lowercase(s) == lowercase(t),
        _ => false,
    }
}

/// Whether the first value is the greater: only an integer is greater than
/// an integer.
pub open spec fn greater_value(a: Scalar, b: Scalar) -> bool {
    match (a, b) {
        (Scalar::Int(x), Scalar::Int(y)) => x > y,
        _ => false,
    }
}

/// Whether `a op b` holds. An operator other than `=`, `>` and `<` holds of
/// no values.
pub open spec fn compares(a: Scalar, b: Scalar, operator: Seq<char>) -> bool {
    if operator == "="@ {
        equal_values(a, b)
    } else if operator == ">"@ {
        greater_value(a, b)
    } else if operator == "<"@ {
        greater_value(b, a)
    } else {
        false
    }
}

/// A comparison of two values.
pub trait Operations {
    /// What the comparison decides.
    spec fn holds(&self, a: Scalar, b: Scalar) -> bool;

    /// Decides the comparison of two values.
    fn apply_operation(&self, value1: Value, value2: Value) -> (r: bool)
        ensures
            r == self.holds(value1@, value2@),
    ;
}

/// `=`.
pub struct EqualOperator;

/// `>`.
pub struct GreaterThanOperator;

/// `<`.
pub struct LessThanOperator;

impl Operations for EqualOperator {
    open spec fn holds(&self, a: Scalar, b: Scalar) -> bool {
        equal_values(a, b)
    }

    fn apply_operation(&self, value1: Value, value2: Value) -> (r: bool) {
        let int_value1 = get_int_value(&value1);
        let int_value2 = get_int_value(&value2);
        let str_value1 = get_str_value(&value1);
        let str_value2 = get_str_value(&value2);
        match (int_value1, int_value2, str_value1, str_value2) {
            (Some(i1), Some(i2), _, _) => i1 == i2,
            (_, _, Some(s1), Some(s2)) => same_text(s1.as_str(), s2.as_str()),
            _ => false,
        }
    }
}

impl Operations for GreaterThanOperator {
    open spec fn holds(&self, a: Scalar, b: Scalar) -> bool {
        greater_value(a, b)
    }

    fn apply_operation(&self, value1: Value, value2: Value) -> (r: bool) {
        match (get_int_value(&value1), get_int_value(&value2)) {
            (Some(i1), Some(i2)) => i1 > i2,
            _ => false,
        }
    }
}

impl Operations for LessThanOperator {
    open spec fn holds(&self, a: Scalar, b: Scalar) -> bool {
        greater_value(b, a)
    }

    fn apply_operation(&self, value1: Value, value2: Value) -> (r: bool) {
        match (get_int_value(&value1), get_int_value(&value2)) {
            (Some(i1), Some(i2)) => i1 < i2,
            _ => false,
        }
    }
}

/// Decides `value1 operator value2`.
pub fn filter(value1: Value, value2: Value, operator: &str) -> (r: bool)
    ensures
        r == compares(value1@, value2@, operator@),
{
    if same_text(operator, "=") {
        EqualOperator.apply_operation(value1, value2)
    } else if same_text(operator, ">") {
        GreaterThanOperator.apply_operation(value1, value2)
    } else if same_text(operator, "<") {
        LessThanOperator.apply_operation(value1, value2)
    } else {
        false
    }
}

} // verus!
