//! The `.rpart` columnar file: encodings, on-disk format, reading and writing.

pub mod encoding;
pub mod format;
pub mod reader;
pub mod writer;
