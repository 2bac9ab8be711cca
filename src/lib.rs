//! A static, light-weight wire format: typed values to bytes and back, a
//! checksum envelope over that codec, and a circular buffer for speculative
//! parsing of inbound bytes.
pub mod arrays;
pub mod codec;
pub mod command_buffer;
pub mod command_processor;
pub mod crc;
pub mod encoding;
pub mod error;
pub mod layout;
pub mod medium;
pub mod tuples;
pub mod vanilla;
