//! A decoder for BER/DER tag-length-value structures, such as X.509
//! certificates, into a tree of elements.

pub mod element;
pub mod error;
pub mod header;
pub mod tag;
pub mod value;
