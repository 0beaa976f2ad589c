//! Locates the XMP packet embedded in a host file and turns its XML into a
//! simplified owned tree.

pub mod error;
pub mod packet;
pub mod tree;
