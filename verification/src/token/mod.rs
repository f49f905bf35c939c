//! Tokenization: pre-tokenizers that split text into chunks and the
//! byte-level BPE tokenizer.

pub mod bpe;
pub mod laws;
pub mod pre_tokenizer;
pub mod tokenizer;
