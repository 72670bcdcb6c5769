//! LSB image steganography with optional encryption.
//!
//! A byte payload is framed with a 32-bit length prefix, expanded to bits,
//! and written into the least-significant bits of a pixel grid's channel
//! bytes, either in row-major pixel order or in a seeded pseudo-random
//! permutation of it.  Extraction walks the same order, reads every
//! least-significant bit, and recovers the payload from the length prefix.
//! A cipher layer (XOR, Caesar, ROT13, AES-256-CBC) can transform the
//! payload before embedding, and a capacity model predicts whether a
//! payload fits before any pixel is touched.

pub mod algorithm;
pub mod analyze;
pub mod bits;
pub mod cli;
pub mod crypto;
pub mod decrypt;
pub mod embed;
pub mod encrypt;
pub mod extract;
pub mod grid;
pub mod order;
pub mod text;
