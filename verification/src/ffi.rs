//! The surface for callers that hold plain buffers.
//!
//! What these callers hand in and take back are numbers and byte strings: results go into buffers
//! of theirs, with the length returned, and truth values are numbers.
pub mod extensions;
pub mod pack;
pub mod receive;
pub mod replies;
pub mod send;
pub mod tracker;

