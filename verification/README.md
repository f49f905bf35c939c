# gguf_tokenizer

Reads GGUF model files and tokenizes text with the byte-level BPE vocabulary
stored in their metadata, with the parsing and tokenization logic verified
by Verus.

- `src/binary_reader.rs`: a little-endian cursor over a byte buffer, each read
  specified by a spec parser.
- `src/gguf/`: metadata values, the header, tensor descriptions and the file
  reader; `sp_file` specifies what a read gives, and where it leaves the
  cursor, for every buffer that `read` accepts (`padding_would_fail` tells
  the ones it does not).
- `src/index.rs`: a hash-bucket index (positions by hash, in increasing
  order) that the tokenizer's token and merge-rule lookups scan, proved to
  find the last position of what is looked up.
- `src/str_map.rs`: the string-keyed map that holds metadata and tensor
  descriptions.
- `src/token/`: the pre-tokenizers (regular expressions through
  `fancy_regex`), the BPE tokenizer, and the laws that tie encoding and
  decoding together (`laws.rs`).
- `src/text.rs`: UTF-8 conversions from the standard library, specified over
  vstd's UTF-8 model, and a verified encoder of one character.
- `app/`: the program that maps a file into memory, reads it, and encodes and
  decodes a sample text.
