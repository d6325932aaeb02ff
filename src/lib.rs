//! Byte-level codecs for the Named Binary Tag format in its three wire variants.
pub mod encoding;
pub mod err;
pub mod reader;
pub mod roundtrip;
pub mod source;
pub mod wire;
pub mod writer;
