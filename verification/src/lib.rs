//! A codec for NBT, a tag-based, self-describing binary tree format.

pub mod binary;
pub mod char;
pub mod error;
pub mod ser;
pub mod snbt;
pub mod str;
pub mod text;
pub mod util;
pub mod value;

pub use crate::error::{Error, Result};
pub use crate::value::{
    Byte, ByteArray, Compound, IntArray, List, LongArray, Type, TypeId, Value,
};
