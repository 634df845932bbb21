//! Two-party GMW evaluation of Boolean circuits given in Bristol fashion.
pub mod circuit;
pub mod mul_triple;
pub mod network;
pub mod party;
pub mod text;
