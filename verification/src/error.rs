//! The errors of the library.

use vstd::prelude::*;

verus! {

/// Everything that can go wrong while reading a GGUF file or building and
/// using a tokenizer.
#[derive(Debug, Clone, Copy, PartialEq, Eq, Structural)]
pub enum Error {
    /// A read of `length` bytes at byte offset `position` runs past the end
    /// of the buffer.
    UnexpectedEnd { position: usize, length: usize },
    /// Bytes that should hold a string are not valid UTF-8.
    InvalidUtf8,
    /// The file does not start with the GGUF magic number.
    InvalidMagic { found: u32 },
    /// The file declares a format version other than the supported one.
    UnsupportedVersion { found: u32 },
    /// A metadata value carries an unknown type id.
    UnknownValueType { type_id: u32 },
    /// `general.architecture` is absent or not a string.
    MissingArchitecture,
    /// `general.architecture` holds a character other than a lowercase
    /// ASCII letter or an ASCII digit.
    InvalidArchitecture,
    /// `general.quantization_version` is present but not a `U32`.
    InvalidQuantizationVersion,
    /// `general.alignment` is a `U32` that is not a multiple of 8.
    InvalidAlignment { alignment: u32 },
    /// `general.alignment` is present but not a `U32`.
    InvalidAlignmentType,
    /// A tensor declares a ggml type id that is not known.
    UnsupportedGgmlType { value: u32 },
    /// A tensor is quantized but `general.quantization_version` is absent.
    MissingQuantizationVersion,
    /// `tokenizer.ggml.tokens` is absent or not an array.
    MissingTokens,
    /// The element at `index` of `tokenizer.ggml.tokens` is not a string.
    InvalidToken { index: usize },
    /// `tokenizer.ggml.merges` is absent or not an array.
    MissingMerges,
    /// The element at `index` of `tokenizer.ggml.merges` is not a string.
    InvalidMerge { index: usize },
    /// `tokenizer.ggml.eos_token_id` is absent or not a `U32`.
    MissingEosTokenId,
    /// `tokenizer.ggml.bos_token_id` is absent or not a `U32`.
    MissingBosTokenId,
    /// `tokenizer.ggml.pre` is absent or not a string.
    MissingPreTokenizer,
    /// `tokenizer.ggml.pre` names no known pre-tokenizer.
    UnsupportedPreTokenizer,
    /// A pre-tokenizer pattern does not compile.
    InvalidPattern,
    /// The pattern matcher gave up on a text.
    PreTokenizeFailed,
}

} // verus!
