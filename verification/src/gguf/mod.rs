//! The GGUF file format: metadata values, the header, tensor descriptions
//! and the reader that parses a whole file.

pub mod ggml;
pub mod header;
pub mod reader;
