//! SPARX family of ARX block ciphers.
//!
//! Two instantiations share one architecture: SPARX-64/128 (64-bit block,
//! 128-bit key) and SPARX-128/128 (128-bit block, 128-bit key), each with a
//! counter-mode stream construction on top of the block primitive.
//!
//! Every public operation carries a contract relating it to a mathematical
//! model of the cipher, and the inverse relations (block round trip, counter
//! mode involution) are proved from those models.

mod arx;
pub mod sparx128;
pub mod sparx64;
