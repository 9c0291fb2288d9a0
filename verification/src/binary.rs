//! The binary wire dialects and the text codec they share.

pub mod de;
pub mod dialect;
pub mod format;
pub mod laws;
pub mod mutf8;
pub mod ser;
pub mod wire;
