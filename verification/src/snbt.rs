//! The text form of value trees, as far as its pieces are formatted here.

pub mod ser;
