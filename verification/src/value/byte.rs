//! The one-byte scalar, which remembers where it came from.

use std::cmp::Ordering;
use vstd::prelude::*;

verus! {

/// A one-byte scalar. It remembers whether it was made from a boolean or from
/// a signed integer; on the wire both are the same byte, and two bytes are
/// equal when their numeric values are.
#[derive(Debug, Clone, Copy)]
pub enum Byte {
    /// A byte that was made from a boolean.
    Boolean(bool),
    /// A byte that was made from an integer.
    Integer(i8),
}

impl Byte {
    /// The numeric value: `0` and `1` for the booleans.
    pub open spec fn value(self) -> i8 {
        match self {
            Byte::Boolean(b) => if b {
                1i8
            } else {
                0i8
            },
            Byte::Integer(n) => n,
        }
    }

    /// The byte as a boolean: an integer is true when it is not zero.
    pub fn to_bool(self) -> (b: bool)
        ensures
            b == (self.value() != 0),
    {
        match self {
            Byte::Boolean(b) => b,
            Byte::Integer(n) => n != 0,
        }
    }

    /// The byte as an integer: `false` is `0` and `true` is `1`.
    pub fn to_i8(self) -> (n: i8)
        ensures
            n == self.value(),
    {
        match self {
            Byte::Boolean(false) => 0,
            Byte::Boolean(true) => 1,
            Byte::Integer(n) => n,
        }
    }

    /// The boolean that the byte was made from, if it was made from one.
    pub fn get_bool(self) -> (b: Option<bool>)
        ensures
            b == (match self {
                Byte::Boolean(b) => Some(b),
                Byte::Integer(_) => None,
            }),
    {
        match self {
            Byte::Boolean(b) => Some(b),
            Byte::Integer(_) => None,
        }
    }

    /// The integer that the byte was made from, if it was made from one.
    pub fn get_i8(self) -> (n: Option<i8>)
        ensures
            n == (match self {
                Byte::Boolean(_) => None,
                Byte::Integer(n) => Some(n),
            }),
    {
        match self {
            Byte::Boolean(_) => None,
            Byte::Integer(n) => Some(n),
        }
    }
}

impl View for Byte {
    type V = i8;

    open spec fn view(&self) -> i8 {
        self.value()
    }
}

impl PartialEq for Byte {
    fn eq(&self, other: &Self) -> (equal: bool) {
        self.to_i8() == other.to_i8()
    }
}

impl vstd::std_specs::cmp::PartialEqSpecImpl for Byte {
    open spec fn obeys_eq_spec() -> bool {
        true
    }

    open spec fn eq_spec(&self, other: &Self) -> bool {
        self.value() == other.value()
    }
}

impl Eq for Byte {

}

impl PartialOrd for Byte {
    fn partial_cmp(&self, other: &Self) -> (order: Option<Ordering>) {
        let a = self.to_i8();
        let b = other.to_i8();
        if a < b {
            Some(Ordering::Less)
        } else if a > b {
            Some(Ordering::Greater)
        } else {
            Some(Ordering::Equal)
        }
    }
}

impl vstd::std_specs::cmp::PartialOrdSpecImpl for Byte {
    open spec fn obeys_partial_cmp_spec() -> bool {
        true
    }

    open spec fn partial_cmp_spec(&self, other: &Self) -> Option<Ordering> {
        if self.value() < other.value() {
            Some(Ordering::Less)
        } else if self.value() > other.value() {
            Some(Ordering::Greater)
        } else {
            Some(Ordering::Equal)
        }
    }
}

impl Default for Byte {
    fn default() -> (byte: Byte)
        ensures
            byte == Byte::Integer(0),
    {
        Byte::Integer(0)
    }
}

impl From<bool> for Byte {
    fn from(value: bool) -> (byte: Byte) {
        Byte::Boolean(value)
    }
}

impl vstd::std_specs::convert::FromSpecImpl<bool> for Byte {
    open spec fn obeys_from_spec() -> bool {
        true
    }

    open spec fn from_spec(value: bool) -> Byte {
        Byte::Boolean(value)
    }
}

impl From<i8> for Byte {
    fn from(value: i8) -> (byte: Byte) {
        Byte::Integer(value)
    }
}

impl vstd::std_specs::convert::FromSpecImpl<i8> for Byte {
    open spec fn obeys_from_spec() -> bool {
        true
    }

    open spec fn from_spec(value: i8) -> Byte {
        Byte::Integer(value)
    }
}

} // verus!
