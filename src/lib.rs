//! Coverage data decoding, classification, aggregation and report bookkeeping.
pub mod decode;
pub mod aggregate;
pub mod classify;
pub mod symbols;
pub mod index;
pub mod cache;
