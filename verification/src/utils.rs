//! The pieces the encoders and decoders share.

pub mod iter;
pub mod jpeg;
