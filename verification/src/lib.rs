//! Decoder for DNS messages: the fixed header, the questions and the
//! preambles of the answer records, with name decompression.

pub mod error;
pub mod header;
pub mod message;
pub mod name;
pub mod query;
pub mod question;
pub mod reader;
pub mod round_trip;
