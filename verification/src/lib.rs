//! An append-only store of length-framed byte payloads and typed records,
//! read back newest first.
pub mod bench;
pub mod codec;
pub mod custom_db;
pub mod filedb;
