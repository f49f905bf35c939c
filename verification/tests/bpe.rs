use gguf_tokenizer::error::Error;
use gguf_tokenizer::gguf::header::{GgufMetadata, GgufMetadataValue};
use gguf_tokenizer::token::bpe::{BpeTokenizer, byte_to_char, char_to_byte, merges_lack_space};
use gguf_tokenizer::token::pre_tokenizer::{PreTokenizer, create_pre_tokenizer};
use gguf_tokenizer::token::tokenizer::Tokenizer;

fn create_test_metadata() -> GgufMetadata {
    let mut metadata = GgufMetadata::new();

    // 0: <bos>
    // 1: <eos>
    // 2: h
    // 3: e
    // 4: l
    // 5: o
    // 6: he
    // 7: ll
    // 8: hell
    // 9: hello
    // 10: Ġ (space, which is \u{0120})
    // 11: Ġh
    // 12: あ
    let tokens = vec![
        GgufMetadataValue::String("<bos>".to_string()),
        GgufMetadataValue::String("<eos>".to_string()),
        GgufMetadataValue::String("h".to_string()),
        GgufMetadataValue::String("e".to_string()),
        GgufMetadataValue::String("l".to_string()),
        GgufMetadataValue::String("o".to_string()),
        GgufMetadataValue::String("he".to_string()),
        GgufMetadataValue::String("ll".to_string()),
        GgufMetadataValue::String("hell".to_string()),
        GgufMetadataValue::String("hello".to_string()),
        GgufMetadataValue::String("\u{0120}".to_string()),
        GgufMetadataValue::String("\u{0120}h".to_string()),
        GgufMetadataValue::String("あ".to_string()),
    ];
    metadata.insert(
        "tokenizer.ggml.tokens".to_string(),
        GgufMetadataValue::Array(tokens),
    );

    let merges = vec![
        GgufMetadataValue::String("h e".to_string()),
        GgufMetadataValue::String("l l".to_string()),
        GgufMetadataValue::String("he ll".to_string()),
        GgufMetadataValue::String("hell o".to_string()),
        GgufMetadataValue::String("\u{0120} h".to_string()),
    ];
    metadata.insert(
        "tokenizer.ggml.merges".to_string(),
        GgufMetadataValue::Array(merges),
    );

    metadata.insert(
        "tokenizer.ggml.bos_token_id".to_string(),
        GgufMetadataValue::U32(0),
    );
    metadata.insert(
        "tokenizer.ggml.eos_token_id".to_string(),
        GgufMetadataValue::U32(1),
    );
    metadata.insert(
        "tokenizer.ggml.pre".to_string(),
        GgufMetadataValue::String("gpt-2".to_string()),
    );

    metadata
}

#[test]
fn test_byte_char_roundtrip() {
    for b in 0..=255 {
        let c = byte_to_char(b);
        let b_back = char_to_byte(c);
        assert_eq!(b_back, Some(b), "Failed roundtrip for byte {}", b);
    }
}

#[test]
fn test_bpe_tokenizer_creation_success() {
    let metadata = create_test_metadata();
    let tokenizer = BpeTokenizer::new(&metadata).unwrap();
    assert_eq!(tokenizer.bos_token_id(), 0);
    assert_eq!(tokenizer.eos_token_id(), 1);
}

#[test]
fn test_bpe_tokenizer_creation_missing_or_invalid_keys() {
    // Missing tokens
    {
        let mut metadata = create_test_metadata();
        metadata.remove("tokenizer.ggml.tokens");
        assert!(BpeTokenizer::new(&metadata).is_err());
    }

    // Invalid tokens type
    {
        let mut metadata = create_test_metadata();
        metadata.insert(
            "tokenizer.ggml.tokens".to_string(),
            GgufMetadataValue::U32(42),
        );
        assert!(BpeTokenizer::new(&metadata).is_err());
    }

    // Invalid token value type (e.g. non-string array elements)
    {
        let mut metadata = create_test_metadata();
        metadata.insert(
            "tokenizer.ggml.tokens".to_string(),
            GgufMetadataValue::Array(vec![GgufMetadataValue::U32(1)]),
        );
        assert!(BpeTokenizer::new(&metadata).is_err());
    }

    // Missing merges
    {
        let mut metadata = create_test_metadata();
        metadata.remove("tokenizer.ggml.merges");
        assert!(BpeTokenizer::new(&metadata).is_err());
    }

    // Invalid merges type
    {
        let mut metadata = create_test_metadata();
        metadata.insert(
            "tokenizer.ggml.merges".to_string(),
            GgufMetadataValue::U32(42),
        );
        assert!(BpeTokenizer::new(&metadata).is_err());
    }

    // Invalid merge value type
    {
        let mut metadata = create_test_metadata();
        metadata.insert(
            "tokenizer.ggml.merges".to_string(),
            GgufMetadataValue::Array(vec![GgufMetadataValue::U32(1)]),
        );
        assert!(BpeTokenizer::new(&metadata).is_err());
    }

    // Missing bos_token_id
    {
        let mut metadata = create_test_metadata();
        metadata.remove("tokenizer.ggml.bos_token_id");
        assert!(BpeTokenizer::new(&metadata).is_err());
    }

    // Missing eos_token_id
    {
        let mut metadata = create_test_metadata();
        metadata.remove("tokenizer.ggml.eos_token_id");
        assert!(BpeTokenizer::new(&metadata).is_err());
    }

    // Missing pre
    {
        let mut metadata = create_test_metadata();
        metadata.remove("tokenizer.ggml.pre");
        assert!(BpeTokenizer::new(&metadata).is_err());
    }

    // Unsupported pre-tokenizer
    {
        let mut metadata = create_test_metadata();
        metadata.insert(
            "tokenizer.ggml.pre".to_string(),
            GgufMetadataValue::String("invalid-pretokenizer".to_string()),
        );
        assert!(BpeTokenizer::new(&metadata).is_err());
    }
}

#[test]
fn test_bpe_tokenizer_encode_decode_basic() {
    let metadata = create_test_metadata();
    let tokenizer = BpeTokenizer::new(&metadata).unwrap();

    // Test basic encoding
    let encoded = tokenizer.encode("hello").unwrap();
    assert_eq!(encoded, vec![9]); // "hello" -> ID 9

    // Test decode
    let decoded = tokenizer.decode(&encoded).unwrap();
    assert_eq!(decoded, "hello");

    // Test partial encode
    let encoded_partial = tokenizer.encode("he").unwrap();
    assert_eq!(encoded_partial, vec![6]); // "he" -> ID 6
    assert_eq!(tokenizer.decode(&encoded_partial).unwrap(), "he");
}

#[test]
fn test_bpe_tokenizer_encode_decode_with_spaces() {
    let metadata = create_test_metadata();
    let tokenizer = BpeTokenizer::new(&metadata).unwrap();

    // Test encode with space
    // " hello" has a leading space.
    let encoded = tokenizer.encode(" hello").unwrap();
    assert_eq!(encoded, vec![10, 9]);

    let decoded = tokenizer.decode(&encoded).unwrap();
    assert_eq!(decoded, " hello");

    // Test encode with space followed by h, but no e (so no "h e" merge)
    let encoded_h = tokenizer.encode(" h").unwrap();
    assert_eq!(encoded_h, vec![11]); // " h" -> ID 11
    assert_eq!(tokenizer.decode(&encoded_h).unwrap(), " h");
}

#[test]
fn test_bpe_tokenizer_decode_unmapped_char() {
    let metadata = create_test_metadata();
    let tokenizer = BpeTokenizer::new(&metadata).unwrap();

    // "あ" is ID 12.
    // It cannot be directly encoded because BPE encodes inputs via byte_to_char mappings.
    // However, decoding ID 12 should correctly fallback to its UTF-8 representation
    // since char_to_byte('あ') returns None.
    let decoded = tokenizer.decode(&[12]).unwrap();
    assert_eq!(decoded, "あ");
}

#[test]
fn test_bpe_tokenizer_unknown_token() {
    let metadata = create_test_metadata();
    let tokenizer = BpeTokenizer::new(&metadata).unwrap();

    // "x" is not in the vocabulary.
    // It should warning log but skip it.
    let encoded = tokenizer.encode("x").unwrap();
    assert!(encoded.is_empty());
}

#[test]
fn creation_errors_name_the_problem() {
    let mut metadata = create_test_metadata();
    metadata.remove("tokenizer.ggml.tokens");
    assert_eq!(BpeTokenizer::new(&metadata).err(), Some(Error::MissingTokens));

    let mut metadata = create_test_metadata();
    metadata.insert(
        "tokenizer.ggml.tokens".to_string(),
        GgufMetadataValue::Array(vec![
            GgufMetadataValue::String("a".to_string()),
            GgufMetadataValue::U8(1),
        ]),
    );
    assert_eq!(BpeTokenizer::new(&metadata).err(), Some(Error::InvalidToken { index: 1 }));

    let mut metadata = create_test_metadata();
    metadata.insert(
        "tokenizer.ggml.merges".to_string(),
        GgufMetadataValue::Array(vec![
            GgufMetadataValue::String("a b".to_string()),
            GgufMetadataValue::Boolean(true),
        ]),
    );
    assert_eq!(BpeTokenizer::new(&metadata).err(), Some(Error::InvalidMerge { index: 1 }));

    let mut metadata = create_test_metadata();
    metadata.insert("tokenizer.ggml.eos_token_id".to_string(), GgufMetadataValue::U64(1));
    assert_eq!(BpeTokenizer::new(&metadata).err(), Some(Error::MissingEosTokenId));

    let mut metadata = create_test_metadata();
    metadata.remove("tokenizer.ggml.bos_token_id");
    assert_eq!(BpeTokenizer::new(&metadata).err(), Some(Error::MissingBosTokenId));

    let mut metadata = create_test_metadata();
    metadata.insert("tokenizer.ggml.pre".to_string(), GgufMetadataValue::U32(0));
    assert_eq!(BpeTokenizer::new(&metadata).err(), Some(Error::MissingPreTokenizer));

    let mut metadata = create_test_metadata();
    metadata.insert(
        "tokenizer.ggml.pre".to_string(),
        GgufMetadataValue::String("invalid-pretokenizer".to_string()),
    );
    assert_eq!(BpeTokenizer::new(&metadata).err(), Some(Error::UnsupportedPreTokenizer));
}

#[test]
fn llama_pre_tokenizer_is_supported() {
    let mut metadata = create_test_metadata();
    metadata.insert(
        "tokenizer.ggml.pre".to_string(),
        GgufMetadataValue::String("llama-bpe".to_string()),
    );
    let tokenizer = BpeTokenizer::new(&metadata).unwrap();
    assert_eq!(tokenizer.encode(" hello").unwrap(), vec![10, 9]);
}

#[test]
fn pre_tokenizers_split_words_and_spaces() {
    let gpt2 = create_pre_tokenizer("gpt2").unwrap();
    let chunks = gpt2.pre_tokenize("hi there, 42!").unwrap();
    let chunks: Vec<&[u8]> = chunks;
    assert_eq!(
        chunks,
        vec![&b"hi"[..], &b" there"[..], &b","[..], &b" 42"[..], &b"!"[..]]
    );
    assert!(create_pre_tokenizer("gpt-3").is_err());
}

#[test]
fn merges_pick_the_lowest_rank_first() {
    let mut metadata = create_test_metadata();
    // "l l" now comes before "h e"; "hello" still ends as one token.
    metadata.insert(
        "tokenizer.ggml.merges".to_string(),
        GgufMetadataValue::Array(vec![
            GgufMetadataValue::String("l l".to_string()),
            GgufMetadataValue::String("h e".to_string()),
            GgufMetadataValue::String("he ll".to_string()),
        ]),
    );
    let tokenizer = BpeTokenizer::new(&metadata).unwrap();
    // "hello" -> he ll o -> hell o; "hell o" is no longer a rule.
    assert_eq!(tokenizer.encode("hello").unwrap(), vec![8, 5]);
    assert_eq!(tokenizer.pre_encode("hello").unwrap(), vec![&b"hello"[..]]);
}

#[test]
fn later_tokens_win_the_id() {
    let mut metadata = create_test_metadata();
    metadata.insert(
        "tokenizer.ggml.tokens".to_string(),
        GgufMetadataValue::Array(vec![
            GgufMetadataValue::String("h".to_string()),
            GgufMetadataValue::String("x".to_string()),
            GgufMetadataValue::String("h".to_string()),
        ]),
    );
    let tokenizer = BpeTokenizer::new(&metadata).unwrap();
    assert_eq!(tokenizer.vocab_size(), 3);
    assert_eq!(tokenizer.encode("h").unwrap(), vec![2]);
    assert_eq!(tokenizer.decode(&[1, 0]).unwrap(), "xh");
}

#[test]
fn encode_then_decode_gives_the_text_back() {
    let metadata = create_test_metadata();
    let tokenizer = BpeTokenizer::new(&metadata).unwrap();
    let ids = tokenizer.encode("hello hello").unwrap();
    assert_eq!(ids, vec![9, 10, 9]);
    assert_eq!(tokenizer.decode(&ids).unwrap(), "hello hello");
}

#[test]
fn decoded_bytes_that_are_not_utf8_are_replaced() {
    let mut metadata = create_test_metadata();
    metadata.insert(
        "tokenizer.ggml.tokens".to_string(),
        GgufMetadataValue::Array(vec![GgufMetadataValue::String("\u{00e9}".to_string())]),
    );
    let tokenizer = BpeTokenizer::new(&metadata).unwrap();
    // U+00E9 stands for byte 0xE9, a lone UTF-8 lead byte: replaced on output.
    assert_eq!(tokenizer.decode(&[0]).unwrap(), "\u{fffd}");
}

#[test]
fn encoding_pre_tokenized_chunks() {
    let metadata = create_test_metadata();
    let tokenizer = BpeTokenizer::new(&metadata).unwrap();
    let chunks: Vec<&[u8]> = vec![&b"hello"[..], &b" h"[..], &b"x"[..], &b"ll"[..]];
    assert_eq!(tokenizer.encode_pre_tokenized(&chunks), vec![9, 11, 7]);
}

#[test]
fn unknown_symbols_are_reported() {
    let metadata = create_test_metadata();
    let tokenizer = BpeTokenizer::new(&metadata).unwrap();
    let (ids, unknown) = tokenizer.encode_reporting_unknown("hex").unwrap();
    assert_eq!(ids, vec![6]);
    assert_eq!(unknown, vec![b"x".to_vec()]);
    assert_eq!(tokenizer.encode("hex").unwrap(), ids);

    let (ids, unknown) = tokenizer.encode_reporting_unknown("hello").unwrap();
    assert_eq!(ids, vec![9]);
    assert!(unknown.is_empty());

    // A space before an unknown letter merges into nothing known either.
    let (ids, unknown) = tokenizer.encode_reporting_unknown("h zz").unwrap();
    assert_eq!(ids, vec![2, 10]);
    assert_eq!(unknown, vec![b"z".to_vec(), b"z".to_vec()]);
}

#[test]
fn merges_without_a_space_are_detected() {
    let metadata = create_test_metadata();
    assert!(!merges_lack_space(&metadata));

    let mut metadata = create_test_metadata();
    metadata.insert(
        "tokenizer.ggml.merges".to_string(),
        GgufMetadataValue::Array(vec![
            GgufMetadataValue::String("a b".to_string()),
            GgufMetadataValue::String("ab".to_string()),
        ]),
    );
    assert!(merges_lack_space(&metadata));

    // A value that is not a string comes first: `new` fails on it instead.
    let mut metadata = create_test_metadata();
    metadata.insert(
        "tokenizer.ggml.merges".to_string(),
        GgufMetadataValue::Array(vec![
            GgufMetadataValue::U8(0),
            GgufMetadataValue::String("ab".to_string()),
        ]),
    );
    assert!(!merges_lack_space(&metadata));
    assert_eq!(BpeTokenizer::new(&metadata).err(), Some(Error::InvalidMerge { index: 0 }));

    // Tokens that are not all strings stop `new` before the merges.
    let mut metadata = create_test_metadata();
    metadata.insert(
        "tokenizer.ggml.tokens".to_string(),
        GgufMetadataValue::Array(vec![GgufMetadataValue::U8(0)]),
    );
    metadata.insert(
        "tokenizer.ggml.merges".to_string(),
        GgufMetadataValue::Array(vec![GgufMetadataValue::String("ab".to_string())]),
    );
    assert!(!merges_lack_space(&metadata));
}

#[test]
fn merge_rules_keep_their_first_two_fields() {
    let mut metadata = create_test_metadata();
    metadata.insert(
        "tokenizer.ggml.merges".to_string(),
        GgufMetadataValue::Array(vec![GgufMetadataValue::String("h e x".to_string())]),
    );
    let tokenizer = BpeTokenizer::new(&metadata).unwrap();
    assert_eq!(tokenizer.encode("he").unwrap(), vec![6]);
}

#[test]
fn characters_of_every_utf8_width_decode() {
    let mut metadata = create_test_metadata();
    metadata.insert(
        "tokenizer.ggml.tokens".to_string(),
        GgufMetadataValue::Array(vec![
            GgufMetadataValue::String("a".to_string()),
            GgufMetadataValue::String("\u{00e9}".to_string()),
            GgufMetadataValue::String("\u{3042}".to_string()),
            GgufMetadataValue::String("\u{1f600}".to_string()),
        ]),
    );
    metadata.insert(
        "tokenizer.ggml.merges".to_string(),
        GgufMetadataValue::Array(vec![]),
    );
    let tokenizer = BpeTokenizer::new(&metadata).unwrap();
    // U+00E9 stands for the byte 0xE9; the others have no byte of their own
    // and are encoded as UTF-8.
    let decoded = tokenizer.decode(&[0, 2, 3]).unwrap();
    assert_eq!(decoded, "a\u{3042}\u{1f600}");
    assert_eq!(tokenizer.decode(&[1]).unwrap(), "\u{fffd}");
}

#[test]
fn there_are_no_more_ids_than_bytes() {
    let metadata = create_test_metadata();
    let tokenizer = BpeTokenizer::new(&metadata).unwrap();
    for text in ["hello", "he", " hello", " h", "hex", "h zz", "あ"] {
        let ids = tokenizer.encode(text).unwrap();
        assert!(ids.len() <= text.len(), "{:?} gives {:?}", text, ids);
    }
    assert_eq!(tokenizer.encode("hello hello").unwrap().len(), 3);
}
