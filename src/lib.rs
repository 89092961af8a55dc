//! Streaming writer for the FlatGeobuf container format, and the pure logic of
//! its remote range reader: multipart demultiplexing and the sliding byte window.

pub mod wire;
pub mod builder;
pub mod property;
pub mod writer;
pub mod multipart;
pub mod fetch;
pub mod window;
