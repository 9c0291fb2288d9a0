//! Making values from what they hold.

use super::{Byte, ByteArray, Compound, IntArray, List, LongArray, Value};
use vstd::prelude::*;
use vstd::std_specs::convert::FromSpecImpl;

verus! {

impl From<i16> for Value {
    fn from(value: i16) -> (result: Value) {
        Value::Short(value)
    }
}

impl FromSpecImpl<i16> for Value {
    open spec fn obeys_from_spec() -> bool {
        true
    }

    open spec fn from_spec(value: i16) -> Value {
        Value::Short(value)
    }
}

impl From<i32> for Value {
    fn from(value: i32) -> (result: Value) {
        Value::Int(value)
    }
}

impl FromSpecImpl<i32> for Value {
    open spec fn obeys_from_spec() -> bool {
        true
    }

    open spec fn from_spec(value: i32) -> Value {
        Value::Int(value)
    }
}

impl From<i64> for Value {
    fn from(value: i64) -> (result: Value) {
        Value::Long(value)
    }
}

impl FromSpecImpl<i64> for Value {
    open spec fn obeys_from_spec() -> bool {
        true
    }

    open spec fn from_spec(value: i64) -> Value {
        Value::Long(value)
    }
}

impl From<bool> for Value {
    fn from(value: bool) -> (result: Value) {
        Value::Byte(Byte::Boolean(value))
    }
}

impl FromSpecImpl<bool> for Value {
    open spec fn obeys_from_spec() -> bool {
        true
    }

    open spec fn from_spec(value: bool) -> Value {
        Value::Byte(Byte::Boolean(value))
    }
}

impl From<i8> for Value {
    fn from(value: i8) -> (result: Value) {
        Value::Byte(Byte::Integer(value))
    }
}

impl FromSpecImpl<i8> for Value {
    open spec fn obeys_from_spec() -> bool {
        true
    }

    open spec fn from_spec(value: i8) -> Value {
        Value::Byte(Byte::Integer(value))
    }
}

impl From<Byte> for Value {
    fn from(value: Byte) -> (result: Value) {
        Value::Byte(value)
    }
}

impl FromSpecImpl<Byte> for Value {
    open spec fn obeys_from_spec() -> bool {
        true
    }

    open spec fn from_spec(value: Byte) -> Value {
        Value::Byte(value)
    }
}

impl From<String> for Value {
    fn from(value: String) -> (result: Value) {
        Value::String(value)
    }
}

impl FromSpecImpl<String> for Value {
    open spec fn obeys_from_spec() -> bool {
        true
    }

    open spec fn from_spec(value: String) -> Value {
        Value::String(value)
    }
}

impl From<List> for Value {
    fn from(value: List) -> (result: Value) {
        Value::List(value)
    }
}

impl FromSpecImpl<List> for Value {
    open spec fn obeys_from_spec() -> bool {
        true
    }

    open spec fn from_spec(value: List) -> Value {
        Value::List(value)
    }
}

impl From<Compound> for Value {
    fn from(value: Compound) -> (result: Value) {
        Value::Compound(value)
    }
}

impl FromSpecImpl<Compound> for Value {
    open spec fn obeys_from_spec() -> bool {
        true
    }

    open spec fn from_spec(value: Compound) -> Value {
        Value::Compound(value)
    }
}

impl From<ByteArray> for Value {
    fn from(value: ByteArray) -> (result: Value) {
        Value::ByteArray(value)
    }
}

impl FromSpecImpl<ByteArray> for Value {
    open spec fn obeys_from_spec() -> bool {
        true
    }

    open spec fn from_spec(value: ByteArray) -> Value {
        Value::ByteArray(value)
    }
}

impl From<IntArray> for Value {
    fn from(value: IntArray) -> (result: Value) {
        Value::IntArray(value)
    }
}

impl FromSpecImpl<IntArray> for Value {
    open spec fn obeys_from_spec() -> bool {
        true
    }

    open spec fn from_spec(value: IntArray) -> Value {
        Value::IntArray(value)
    }
}

impl From<LongArray> for Value {
    fn from(value: LongArray) -> (result: Value) {
        Value::LongArray(value)
    }
}

impl FromSpecImpl<LongArray> for Value {
    open spec fn obeys_from_spec() -> bool {
        true
    }

    open spec fn from_spec(value: LongArray) -> Value {
        Value::LongArray(value)
    }
}

} // verus!
