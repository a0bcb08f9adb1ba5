//! Steganographic codec: hides a byte payload in the low bits of an image's
//! samples (PNG channel bytes, JPEG quantized DCT coefficients) along a keyed
//! pseudo-random walk, and reads it back bit for bit.
//!
//! A carrier is seen as a sequence of sample bytes. Its first 32 samples hold
//! the payload's length, one bit each; the samples after them hold the
//! payload, `bits` bits each from bit `depth` up, at places that a ChaCha20
//! stream seeded from the key spaces out.
//!
//! * [`bitqueue`] reads and writes a byte buffer bit by bit.
//! * [`sample`] stores and reads the window of one sample.
//! * [`stepper`] draws the steps of the walk.
//! * [`plan`] decides whether a payload fits and at which stride it goes.
//! * [`walk`] is the walk itself, over a carrier of bytes.
//! * [`encode`] and [`decode`] put these together for PNG images and for
//!   JPEG coefficients; [`raster`] and [`utils::jpeg`] hold the two kinds of
//!   carrier.
//! * [`laws`] states what holds of embedding and extraction together.

pub mod bitqueue;
pub mod decode;
pub mod encode;
pub mod error;
pub mod laws;
pub mod options;
pub mod plan;
pub mod raster;
pub mod sample;
pub mod stepper;
pub mod utils;
pub mod walk;
