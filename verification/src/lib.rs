//! Schema-driven decoding of binary on-chain account and instruction data.
//!
//! An interface-description document (IDL) is compiled into a program index
//! that maps discriminators to schemas; raw byte buffers are then decoded
//! against those schemas into typed values, and both the schemas and the
//! index itself round-trip through a self-describing binary form.
pub mod errors;
pub mod json;
pub mod on_chain_idl;
pub mod parse_idl;
pub mod schema;
pub mod solana;
pub mod text;
pub mod value;
