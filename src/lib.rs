//! DER codec for the version and serial number fields of an X.509 certificate.
//!
//! `integer` turns 64-bit signed integers into minimal big-endian two's-complement
//! content octets and back; `block` reads a byte stream into tag-length-value blocks;
//! `x509` builds the two certificate fields on top of both, and `error` names
//! what can go wrong while decoding.
pub mod block;
pub mod error;
pub mod integer;
pub mod x509;
