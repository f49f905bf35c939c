//! Reading GGUF model files and byte-level BPE tokenization of text with the
//! vocabulary stored in their metadata.

pub mod binary_reader;
pub mod error;
pub mod gguf;
pub mod index;
pub mod str_map;
pub mod text;
pub mod token;
