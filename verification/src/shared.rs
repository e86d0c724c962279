//! What both ends of the radio link agree on.

pub mod codec;
pub mod compress;
pub mod json;
pub mod protocol;
