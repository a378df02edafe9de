//! A content-addressable object store in the manner of a version-control
//! system's object database: framing, hashing, compression, the fan-out
//! layout of the store and the decoding of directory listings.

pub mod blob;
pub mod bytes;
pub mod cli;
pub mod codec;
pub mod digest;
pub mod error;
pub mod frame;
pub mod hex;
pub mod store;
pub mod tree;
