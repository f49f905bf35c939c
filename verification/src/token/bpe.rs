//! Byte-level BPE tokenizer.

use vstd::prelude::*;
use vstd::utf8::{decode_utf8, encode_utf8, encode_utf8_valid_utf8, valid_utf8, valid_utf8_concat};
use vstd::arithmetic::div_mod::lemma_fundamental_div_mod;
use vstd::std_specs::iter::IteratorSpec;
use vstd::slice::slice_to_vec;
use crate::error::Error;
use crate::index::{
    bucket,
    bytes_hash,
    hash_bytes,
    hash_pair,
    index_hashes,
    indexes,
    last_index_of,
    lemma_bucket_hit,
    lemma_bucket_miss,
    pair_hash,
    lemma_positions_with,
    positions_with,
};
use std::collections::HashMap;
use crate::gguf::header::{
    GgufMetadata,
    GgufMetadataValue,
    MetaValue,
    lemma_values_view,
    lookup,
    values_view,
};
use crate::text::{char_from_u32, char_utf8_bytes, lossy_decode, string_from_utf8, string_from_utf8_lossy};
use crate::token::pre_tokenizer::{
    PreTokenizer,
    RegexPreTokenizer,
    chunk_views,
    create_pre_tokenizer,
    pattern_for,
    regex_compiles,
    regex_find_all,
};
use crate::token::tokenizer::Tokenizer;

verus! {

/// The code point that stands for byte `b` in the byte-level alphabet:
/// printable Latin-1 bytes stand for themselves, the other bytes are moved
/// to the code points from 256 on, in increasing order.
pub open spec fn byte_char_code(b: u8) -> u32 {
    if (33 <= b && b <= 126) || (161 <= b && b <= 172) || 174 <= b {
        b as u32
    } else if b <= 32 {
        (256 + b) as u32
    } else if 127 <= b && b <= 160 {
        (289 + (b - 127)) as u32
    } else {
        323
    }
}

/// The byte that code point `code` stands for in the byte-level alphabet,
/// if it stands for one: the inverse of `byte_char_code`.
pub open spec fn code_byte(code: u32) -> Option<u8> {
    if exists|b: u8| byte_char_code(b) == code {
        Some(choose|b: u8| byte_char_code(b) == code)
    } else {
        None
    }
}

/// No two bytes share a code point.
proof fn lemma_byte_char_code_injective()
    ensures
        forall|a: u8, b: u8| #[trigger] byte_char_code(a) == #[trigger] byte_char_code(b) ==> a == b,
{
}

/// Maps a byte to the character that stands for it in the byte-level alphabet.
pub fn byte_to_char(b: u8) -> (c: char)
    ensures
        c as u32 == byte_char_code(b),
        code_byte(c as u32) == Some(b),
{
    let code: u32 = if (33 <= b && b <= 126) || (161 <= b && b <= 172) || 174 <= b {
        b as u32
    } else if b <= 32 {
        256 + b as u32
    } else if 127 <= b && b <= 160 {
        289 + (b - 127) as u32
    } else {
        323
    };
    proof {
        lemma_byte_char_code_injective();
        assert(byte_char_code(b) == code);
        let b2 = choose|x: u8| byte_char_code(x) == code;
        assert(byte_char_code(b2) == byte_char_code(b));
    }
    match char_from_u32(code) {
        Some(c) => c,
        None => {
            proof {
                assert(false);
            }
            ' '
        },
    }
}

/// Maps a character of the byte-level alphabet back to its byte; `None` for
/// characters outside it.
pub fn char_to_byte(c: char) -> (res: Option<u8>)
    ensures
        res == code_byte(c as u32),
{
    proof {
        lemma_byte_char_code_injective();
    }
    let code: u32 = c as u32;
    let res = if (33 <= code && code <= 126) || (161 <= code && code <= 172) || (174 <= code
        && code <= 255) {
        Some(code as u8)
    } else if 256 <= code && code <= 288 {
        Some((code - 256) as u8)
    } else if 289 <= code && code <= 322 {
        Some((127 + (code - 289)) as u8)
    } else if code == 323 {
        Some(173)
    } else {
        None
    };
    proof {
        match res {
            Some(b) => {
                assert(byte_char_code(b) == code);
            },
            None => {
                assert forall|b: u8| byte_char_code(b) != code by {}
            },
        }
    }
    res
}


/// The UTF-8 bytes of the character that stands for byte `b`: the symbol
/// that BPE starts from for that byte.
pub open spec fn byte_symbol(b: u8) -> Seq<u8> {
    encode_utf8(seq![byte_char_code(b) as char])
}

/// The symbols that BPE starts from for a chunk: one per byte.
pub open spec fn initial_symbols(chunk: Seq<u8>) -> Seq<Seq<u8>> {
    Seq::new(chunk.len(), |i: int| byte_symbol(chunk[i]))
}


/// The rank of the merge of `a` followed by `b`: the index of the last
/// merge rule for that pair. Lower ranks merge first.
pub open spec fn merge_rank(merges: Seq<(Seq<u8>, Seq<u8>)>, a: Seq<u8>, b: Seq<u8>) -> Option<int> {
    last_index_of(merges, (a, b))
}

/// Among the adjacent pairs `(syms[i], syms[i + 1])` with `i < n`, the
/// leftmost one of lowest rank, with its rank.
pub open spec fn best_pair(merges: Seq<(Seq<u8>, Seq<u8>)>, syms: Seq<Seq<u8>>, n: int) -> Option<
    (int, int),
>
    decreases n,
{
    if n <= 0 {
        None
    } else {
        let prev = best_pair(merges, syms, n - 1);
        match merge_rank(merges, syms[n - 1], syms[n]) {
            Some(r) => match prev {
                Some((_, pr)) => if r < pr {
                    Some((n - 1, r))
                } else {
                    prev
                },
                None => Some((n - 1, r)),
            },
            None => prev,
        }
    }
}

/// `syms` with `syms[i]` and `syms[i + 1]` joined into one symbol.
pub open spec fn merge_at(syms: Seq<Seq<u8>>, i: int) -> Seq<Seq<u8>> {
    syms.subrange(0, i).push(syms[i] + syms[i + 1]) + syms.subrange(i + 2, syms.len() as int)
}

/// Byte-pair encoding: merges the leftmost pair of lowest rank until no
/// adjacent pair has a merge rule.
pub open spec fn bpe(merges: Seq<(Seq<u8>, Seq<u8>)>, syms: Seq<Seq<u8>>) -> Seq<Seq<u8>>
    decreases syms.len(),
{
    match best_pair(merges, syms, syms.len() - 1) {
        Some((i, _)) => if 0 <= i < syms.len() - 1 {
            bpe(merges, merge_at(syms, i))
        } else {
            syms
        },
        None => syms,
    }
}

/// The id of a symbol: the index, truncated to `u32`, of the last vocabulary
/// entry equal to it.
pub open spec fn token_id(vocab: Seq<Seq<u8>>, sym: Seq<u8>) -> Option<u32> {
    match last_index_of(vocab, sym) {
        Some(i) => Some(i as u32),
        None => None,
    }
}

/// The ids of the symbols that are in the vocabulary, in order; symbols that
/// are not are skipped.
pub open spec fn ids_of(vocab: Seq<Seq<u8>>, syms: Seq<Seq<u8>>) -> Seq<u32>
    decreases syms.len(),
{
    if syms.len() == 0 {
        Seq::empty()
    } else {
        let prev = ids_of(vocab, syms.drop_last());
        match token_id(vocab, syms.last()) {
            Some(id) => prev.push(id),
            None => prev,
        }
    }
}

/// The ids of one chunk.
pub open spec fn encode_chunk(
    vocab: Seq<Seq<u8>>,
    merges: Seq<(Seq<u8>, Seq<u8>)>,
    chunk: Seq<u8>,
) -> Seq<u32> {
    ids_of(vocab, bpe(merges, initial_symbols(chunk)))
}

/// The ids of a sequence of chunks, one chunk after the other.
pub open spec fn encode_chunks(
    vocab: Seq<Seq<u8>>,
    merges: Seq<(Seq<u8>, Seq<u8>)>,
    chunks: Seq<Seq<u8>>,
) -> Seq<u32>
    decreases chunks.len(),
{
    if chunks.len() == 0 {
        Seq::empty()
    } else {
        encode_chunks(vocab, merges, chunks.drop_last()) + encode_chunk(
            vocab,
            merges,
            chunks.last(),
        )
    }
}

/// The symbols of `syms` that are not in the vocabulary, in order: the
/// ones that `ids_of` skips.
pub open spec fn unknown_of(vocab: Seq<Seq<u8>>, syms: Seq<Seq<u8>>) -> Seq<Seq<u8>>
    decreases syms.len(),
{
    if syms.len() == 0 {
        Seq::empty()
    } else {
        let prev = unknown_of(vocab, syms.drop_last());
        match token_id(vocab, syms.last()) {
            Some(_) => prev,
            None => prev.push(syms.last()),
        }
    }
}

/// The symbols that BPE leaves in `chunk` and that are not in the
/// vocabulary.
pub open spec fn unknown_in_chunk(
    vocab: Seq<Seq<u8>>,
    merges: Seq<(Seq<u8>, Seq<u8>)>,
    chunk: Seq<u8>,
) -> Seq<Seq<u8>> {
    unknown_of(vocab, bpe(merges, initial_symbols(chunk)))
}

/// The unknown symbols of each chunk, one chunk after the other.
pub open spec fn unknown_in_chunks(
    vocab: Seq<Seq<u8>>,
    merges: Seq<(Seq<u8>, Seq<u8>)>,
    chunks: Seq<Seq<u8>>,
) -> Seq<Seq<u8>>
    decreases chunks.len(),
{
    if chunks.len() == 0 {
        Seq::empty()
    } else {
        unknown_in_chunks(vocab, merges, chunks.drop_last()) + unknown_in_chunk(
            vocab,
            merges,
            chunks.last(),
        )
    }
}

/// Whether `a` and `b` hold the same bytes.
fn bytes_equal(a: &[u8], b: &[u8]) -> (res: bool)
    ensures
        res == (a@ == b@),
{
    if a.len() != b.len() {
        return false;
    }
    let mut i: usize = 0;
    while i < a.len()
        invariant
            a.len() == b.len(),
            i <= a.len(),
            forall|j: int| 0 <= j < i ==> a@[j] == b@[j],
        decreases a.len() - i,
    {
        if a[i] != b[i] {
            return false;
        }
        i += 1;
    }
    assert(a@ =~= b@);
    true
}

/// The symbols that BPE starts from for `chunk`.
fn initial_symbols_of(chunk: &[u8]) -> (res: Vec<Vec<u8>>)
    ensures
        symbols_view(res@) == initial_symbols(chunk@),
{
    let mut syms: Vec<Vec<u8>> = Vec::new();
    let mut i: usize = 0;
    while i < chunk.len()
        invariant
            i <= chunk.len(),
            symbols_view(syms@) == initial_symbols(chunk@).take(i as int),
        decreases chunk.len() - i,
    {
        let c = byte_to_char(chunk[i]);
        proof {
            let code = c as u32;
            vstd::utf8::char_u32_cast(c, code);
            assert(byte_symbol(chunk@[i as int]) == encode_utf8(seq![c]));
        }
        let sym = char_utf8_bytes(c);
        let ghost old_syms = syms@;
        let ghost sv = sym@;
        syms.push(sym);
        proof {
            assert(symbols_view(syms@) =~= symbols_view(old_syms).push(sv));
            assert(initial_symbols(chunk@).take(i + 1) =~= initial_symbols(chunk@).take(i as int).push(
                byte_symbol(chunk@[i as int]),
            ));
        }
        i += 1;
    }
    assert(initial_symbols(chunk@).take(chunk.len() as int) =~= initial_symbols(chunk@));
    syms
}

/// The largest index below `n` that is congruent to `id` modulo 2^32 (see
/// `lemma_index_for_id`): the index whose token id `id` names when ids are
/// vocabulary indices truncated to `u32` and a later index overrides an
/// earlier one with the same id.
pub open spec fn index_for_id(n: int, id: int) -> int {
    id + 0x1_0000_0000 * ((n - 1 - id) / 0x1_0000_0000)
}

/// The bytes of the token with id `id`.
pub open spec fn token_for_id(vocab: Seq<Seq<u8>>, id: u32) -> Seq<u8> {
    vocab[index_for_id(vocab.len() as int, id as int)]
}

/// The bytes of the tokens with ids `ids`, one after the other.
pub open spec fn ids_bytes(vocab: Seq<Seq<u8>>, ids: Seq<u32>) -> Seq<u8>
    decreases ids.len(),
{
    if ids.len() == 0 {
        Seq::empty()
    } else {
        ids_bytes(vocab, ids.drop_last()) + token_for_id(vocab, ids.last())
    }
}

/// The bytes a decoded character gives: the byte it stands for in the
/// byte-level alphabet, or else its own UTF-8 encoding.
pub open spec fn char_bytes(c: char) -> Seq<u8> {
    match code_byte(c as u32) {
        Some(b) => seq![b],
        None => encode_utf8(seq![c]),
    }
}

/// The bytes of a sequence of decoded characters.
pub open spec fn chars_bytes(cs: Seq<char>) -> Seq<u8>
    decreases cs.len(),
{
    if cs.len() == 0 {
        Seq::empty()
    } else {
        chars_bytes(cs.drop_last()) + char_bytes(cs.last())
    }
}

/// Decoding: the tokens' bytes must be UTF-8; their characters are mapped
/// back to bytes, which are then read as UTF-8 with invalid sequences
/// replaced (see `lossy_decode`).
pub open spec fn decode_ids(vocab: Seq<Seq<u8>>, ids: Seq<u32>) -> Result<Seq<char>, Error> {
    let bytes = ids_bytes(vocab, ids);
    if valid_utf8(bytes) {
        Ok(lossy_decode(chars_bytes(decode_utf8(bytes))))
    } else {
        Err(Error::InvalidUtf8)
    }
}

/// The UTF-8 bytes of a sequence of string values, or the index of the
/// first value that is not a string.
pub open spec fn token_strings(vs: Seq<MetaValue>) -> Result<Seq<Seq<u8>>, int>
    decreases vs.len(),
{
    if vs.len() == 0 {
        Ok(Seq::empty())
    } else {
        match token_strings(vs.drop_last()) {
            Err(i) => Err(i),
            Ok(ts) => match vs.last() {
                MetaValue::Str(s) => Ok(ts.push(encode_utf8(s))),
                _ => Err(vs.len() - 1),
            },
        }
    }
}

/// The index of the first space byte of `b` at or after `from`, or the
/// length of `b` when there is none.
pub open spec fn first_space_from(b: Seq<u8>, from: int) -> int
    decreases b.len() - from,
{
    if from >= b.len() {
        b.len() as int
    } else if b[from] == 0x20 {
        from
    } else {
        first_space_from(b, from + 1)
    }
}

/// The first two space-separated fields of a merge rule's bytes; `None`
/// when there is no space.
pub open spec fn split_merge(b: Seq<u8>) -> Option<(Seq<u8>, Seq<u8>)> {
    let i = first_space_from(b, 0);
    if i >= b.len() {
        None
    } else {
        Some((b.subrange(0, i), b.subrange(i + 1, first_space_from(b, i + 1))))
    }
}

/// The outcome of reading the merge rules.
pub enum MergeScan {
    /// Every rule is a string with a space: the pairs.
    Rules(Seq<(Seq<u8>, Seq<u8>)>),
    /// The value at this index, the first bad one, is not a string.
    NotString(int),
    /// The value at this index, the first bad one, is a string without a
    /// space.
    NoSpace(int),
}

/// Reads the merge rules from the metadata values.
pub open spec fn merge_rules(vs: Seq<MetaValue>) -> MergeScan
    decreases vs.len(),
{
    if vs.len() == 0 {
        MergeScan::Rules(Seq::empty())
    } else {
        match merge_rules(vs.drop_last()) {
            MergeScan::Rules(rs) => match vs.last() {
                MetaValue::Str(s) => match split_merge(encode_utf8(s)) {
                    Some(p) => MergeScan::Rules(rs.push(p)),
                    None => MergeScan::NoSpace(vs.len() - 1),
                },
                _ => MergeScan::NotString(vs.len() - 1),
            },
            other => other,
        }
    }
}

/// The parts of a tokenizer that its metadata determines.
pub struct TokenizerModel {
    pub vocab: Seq<Seq<u8>>,
    pub merges: Seq<(Seq<u8>, Seq<u8>)>,
    pub eos_token_id: u32,
    pub bos_token_id: u32,
    pub pattern: Seq<char>,
}

/// Whether building a tokenizer from `md` stops on a merge rule without a
/// space (the rule is split at its first space and the second field is
/// taken, which does not exist then).
pub open spec fn merge_without_space(md: Map<Seq<char>, MetaValue>) -> bool {
    &&& lookup(md, "tokenizer.ggml.tokens"@) matches Some(MetaValue::Array(ts))
    &&& token_strings(ts) is Ok
    &&& lookup(md, "tokenizer.ggml.merges"@) matches Some(MetaValue::Array(ms))
    &&& merge_rules(ms) is NoSpace
}

/// The tokenizer that `md` describes, or the error building it fails with.
pub open spec fn tokenizer_from(md: Map<Seq<char>, MetaValue>) -> Result<TokenizerModel, Error> {
    match lookup(md, "tokenizer.ggml.tokens"@) {
        Some(MetaValue::Array(ts)) => match token_strings(ts) {
            Err(i) => Err(Error::InvalidToken { index: i as usize }),
            Ok(vocab) => match lookup(md, "tokenizer.ggml.merges"@) {
                Some(MetaValue::Array(ms)) => match merge_rules(ms) {
                    MergeScan::NotString(i) => Err(Error::InvalidMerge { index: i as usize }),
                    // `new` does not accept this case (see `merge_without_space`).
                    MergeScan::NoSpace(i) => Err(Error::InvalidMerge { index: i as usize }),
                    MergeScan::Rules(merges) => match lookup(md, "tokenizer.ggml.eos_token_id"@) {
                        Some(MetaValue::U32(eos)) => match lookup(
                            md,
                            "tokenizer.ggml.bos_token_id"@,
                        ) {
                            Some(MetaValue::U32(bos)) => match lookup(md, "tokenizer.ggml.pre"@) {
                                Some(MetaValue::Str(name)) => match pattern_for(name) {
                                    None => Err(Error::UnsupportedPreTokenizer),
                                    Some(p) => if regex_compiles(p) {
                                        Ok(
                                            TokenizerModel {
                                                vocab,
                                                merges,
                                                eos_token_id: eos,
                                                bos_token_id: bos,
                                                pattern: p,
                                            },
                                        )
                                    } else {
                                        Err(Error::InvalidPattern)
                                    },
                                },
                                _ => Err(Error::MissingPreTokenizer),
                            },
                            _ => Err(Error::MissingBosTokenId),
                        },
                        _ => Err(Error::MissingEosTokenId),
                    },
                },
                _ => Err(Error::MissingMerges),
            },
        },
        _ => Err(Error::MissingTokens),
    }
}

/// The index of the first space byte of `b` at or after `from`.
fn first_space(b: &[u8], from: usize) -> (res: usize)
    requires
        from <= b.len(),
    ensures
        res == first_space_from(b@, from as int),
        from <= res <= b.len(),
{
    let mut i = from;
    while i < b.len()
        invariant
            from <= i <= b.len(),
            first_space_from(b@, from as int) == first_space_from(b@, i as int),
        decreases b.len() - i,
    {
        if b[i] == 0x20 {
            return i;
        }
        i += 1;
    }
    i
}

/// The first two space-separated fields of `b`.
fn split_merge_bytes(b: &[u8]) -> (res: Option<(Vec<u8>, Vec<u8>)>)
    ensures
        match res {
            Some((x, y)) => split_merge(b@) == Some((x@, y@)),
            None => split_merge(b@) is None,
        },
{
    let i = first_space(b, 0);
    if i == b.len() {
        return None;
    }
    let j = first_space(b, i + 1);
    let first = slice_to_vec(vstd::slice::slice_subrange(b, 0, i));
    let second = slice_to_vec(vstd::slice::slice_subrange(b, i + 1, j));
    Some((first, second))
}

/// The byte contents of a sequence of byte vectors.
pub open spec fn symbols_view(v: Seq<Vec<u8>>) -> Seq<Seq<u8>> {
    Seq::new(v.len(), |i: int| v[i]@)
}

/// The hash of each token.
pub open spec fn token_hashes(vocab: Seq<Seq<u8>>) -> Seq<u64> {
    Seq::new(vocab.len(), |i: int| bytes_hash(vocab[i]))
}

/// The hash of each merge rule's pair.
pub open spec fn merge_hashes(merges: Seq<(Seq<u8>, Seq<u8>)>) -> Seq<u64> {
    Seq::new(merges.len(), |i: int| pair_hash(bytes_hash(merges[i].0), bytes_hash(merges[i].1)))
}

/// The models of merge pairs of byte vectors.
pub open spec fn pairs_view(v: Seq<(Vec<u8>, Vec<u8>)>) -> Seq<(Seq<u8>, Seq<u8>)> {
    Seq::new(v.len(), |i: int| (v[i].0@, v[i].1@))
}

/// A byte-level BPE tokenizer. The tokens and the merge rules are each
/// indexed by hash, so that a lookup scans one bucket.
pub struct BpeTokenizer {
    tokens: Vec<Vec<u8>>,
    merges: Vec<(Vec<u8>, Vec<u8>)>,
    token_index: HashMap<u64, Vec<usize>>,
    merge_index: HashMap<u64, Vec<usize>>,
    eos_token_id: u32,
    bos_token_id: u32,
    pre_tokenizer: RegexPreTokenizer,
}

/// The hashes of `tokens`.
fn hash_tokens(tokens: &Vec<Vec<u8>>) -> (hs: Vec<u64>)
    ensures
        hs@ == token_hashes(symbols_view(tokens@)),
{
    let mut hs: Vec<u64> = Vec::new();
    let mut i: usize = 0;
    while i < tokens.len()
        invariant
            i <= tokens.len(),
            hs@ =~= token_hashes(symbols_view(tokens@)).take(i as int),
        decreases tokens.len() - i,
    {
        hs.push(hash_bytes(tokens[i].as_slice()));
        i += 1;
    }
    hs
}

/// The hashes of the pairs of `merges`.
fn hash_merges(merges: &Vec<(Vec<u8>, Vec<u8>)>) -> (hs: Vec<u64>)
    ensures
        hs@ == merge_hashes(pairs_view(merges@)),
{
    let mut hs: Vec<u64> = Vec::new();
    let mut i: usize = 0;
    while i < merges.len()
        invariant
            i <= merges.len(),
            hs@ =~= merge_hashes(pairs_view(merges@)).take(i as int),
        decreases merges.len() - i,
    {
        let ha = hash_bytes(merges[i].0.as_slice());
        let hb = hash_bytes(merges[i].1.as_slice());
        hs.push(hash_pair(ha, hb));
        i += 1;
    }
    hs
}

/// The index that a token id `id` below `n` names lies below `n`, is
/// congruent to `id` modulo 2^32, and is the largest such index.
pub proof fn lemma_index_for_id(n: int, id: int)
    requires
        0 <= id < n,
    ensures
        id <= index_for_id(n, id) < n,
        index_for_id(n, id) % 0x1_0000_0000 == id % 0x1_0000_0000,
        index_for_id(n, id) + 0x1_0000_0000 >= n,
{
    let d = n - 1 - id;
    let q = d / 0x1_0000_0000;
    lemma_fundamental_div_mod(d, 0x1_0000_0000);
    assert(0x1_0000_0000 * q <= d);
    assert(q >= 0);
    assert(d < 0x1_0000_0000 * q + 0x1_0000_0000);
    vstd::arithmetic::div_mod::lemma_mod_multiples_vanish(q, id, 0x1_0000_0000);
}

/// The bytes of tokens that are each valid UTF-8 are valid UTF-8.
proof fn lemma_ids_bytes_valid(vocab: Seq<Seq<u8>>, ids: Seq<u32>)
    requires
        forall|i: int| 0 <= i < vocab.len() ==> valid_utf8(#[trigger] vocab[i]),
        forall|i: int| 0 <= i < ids.len() ==> (#[trigger] ids[i] as int) < vocab.len(),
    ensures
        valid_utf8(ids_bytes(vocab, ids)),
    decreases ids.len(),
{
    if ids.len() == 0 {
        assert(valid_utf8(Seq::<u8>::empty()));
    } else {
        let p = ids.drop_last();
        assert forall|i: int| 0 <= i < p.len() implies (#[trigger] p[i] as int) < vocab.len() by {
            assert(p[i] == ids[i]);
        }
        lemma_ids_bytes_valid(vocab, p);
        let id = ids.last();
        assert((ids[ids.len() - 1] as int) < vocab.len());
        lemma_index_for_id(vocab.len() as int, id as int);
        let k = index_for_id(vocab.len() as int, id as int);
        assert(valid_utf8(vocab[k]));
        valid_utf8_concat(ids_bytes(vocab, p), token_for_id(vocab, id));
    }
}

impl BpeTokenizer {
    /// Every token's bytes are valid UTF-8 (they come from strings), and
    /// the indexes hold the positions of the tokens and of the merge rules
    /// by hash.
    #[verifier::type_invariant]
    closed spec fn well_formed(&self) -> bool {
        &&& forall|i: int| 0 <= i < self.tokens.len() ==> valid_utf8(#[trigger] self.tokens@[i]@)
        &&& indexes(self.token_index@, token_hashes(symbols_view(self.tokens@)))
        &&& indexes(self.merge_index@, merge_hashes(pairs_view(self.merges@)))
    }

    /// What the tokenizer is made of: the bytes of the token with each
    /// index, the merge rules in order, the special ids and the
    /// pre-tokenizer's pattern.
    pub closed spec fn model(&self) -> TokenizerModel {
        TokenizerModel {
            vocab: symbols_view(self.tokens@),
            merges: pairs_view(self.merges@),
            eos_token_id: self.eos_token_id,
            bos_token_id: self.bos_token_id,
            pattern: self.pre_tokenizer.pattern(),
        }
    }

    /// The vocabulary: the bytes of the token with each index.
    pub open spec fn vocab(&self) -> Seq<Seq<u8>> {
        self.model().vocab
    }

    /// The merge rules, in order.
    pub open spec fn merge_list(&self) -> Seq<(Seq<u8>, Seq<u8>)> {
        self.model().merges
    }

    /// The number of tokens in the vocabulary; `decode` accepts the ids
    /// below it.
    pub fn vocab_size(&self) -> (n: usize)
        ensures
            n == self.vocab().len(),
    {
        self.tokens.len()
    }

    /// The id of the end-of-sequence token.
    pub fn eos_token_id(&self) -> (id: u32)
        ensures
            id == self.model().eos_token_id,
    {
        self.eos_token_id
    }

    /// The id of the beginning-of-sequence token.
    pub fn bos_token_id(&self) -> (id: u32)
        ensures
            id == self.model().bos_token_id,
    {
        self.bos_token_id
    }

    /// The rank of merging `a` followed by `b`.
    fn rank_of(&self, a: &Vec<u8>, b: &Vec<u8>) -> (res: Option<usize>)
        ensures
            match res {
                Some(r) => r < self.merges.len() && merge_rank(self.merge_list(), a@, b@) == Some(
                    r as int,
                ),
                None => merge_rank(self.merge_list(), a@, b@) is None,
            },
    {
        proof {
            use_type_invariant(self);
        }
        let ghost ms = self.merge_list();
        let ghost hs = merge_hashes(ms);
        let ghost x = (a@, b@);
        let h = hash_pair(hash_bytes(a.as_slice()), hash_bytes(b.as_slice()));
        let ghost bk = positions_with(hs, h);
        proof {
            assert(ms.len() == self.merges.len());
            lemma_positions_with(hs, h);
            assert(bucket(self.merge_index@, h) == bk);
        }
        match self.merge_index.get(&h) {
            None => {
                proof {
                    lemma_bucket_miss(ms, hs, x, h);
                }
                None
            },
            Some(list) => {
                let mut k = list.len();
                while k > 0
                    invariant
                        k <= list.len(),
                        list@ == bk,
                        bk == positions_with(hs, h),
                        ms == self.merge_list(),
                        ms.len() == self.merges.len(),
                        hs == merge_hashes(ms),
                        x == (a@, b@),
                        h == pair_hash(bytes_hash(a@), bytes_hash(b@)),
                        forall|j: int| 0 <= j < bk.len() ==> (#[trigger] bk[j] as int) < hs.len(),
                        forall|j: int| k <= j < bk.len() ==> ms[#[trigger] bk[j] as int] != x,
                    decreases k,
                {
                    k -= 1;
                    let i = list[k];
                    if bytes_equal(self.merges[i].0.as_slice(), a.as_slice()) && bytes_equal(
                        self.merges[i].1.as_slice(),
                        b.as_slice(),
                    ) {
                        proof {
                            lemma_bucket_hit(ms, hs, x, h, k as int);
                        }
                        return Some(i);
                    }
                }
                proof {
                    lemma_bucket_miss(ms, hs, x, h);
                }
                None
            },
        }
    }

    /// The index of the leftmost adjacent pair of lowest rank.
    fn best_pair_of(&self, syms: &Vec<Vec<u8>>) -> (res: Option<usize>)
        ensures
            match best_pair(self.merge_list(), symbols_view(syms@), syms.len() - 1) {
                Some((i, _)) => res == Some(i as usize) && 0 <= i < syms.len() - 1,
                None => res is None,
            },
    {
        let ghost ss = symbols_view(syms@);
        let n: usize = if syms.len() == 0 {
            0
        } else {
            syms.len() - 1
        };
        let mut best: Option<usize> = None;
        let mut best_rank: usize = usize::MAX;
        let mut i: usize = 0;
        while i < n
            invariant
                i <= n,
                n == if syms.len() == 0 { 0 } else { syms.len() - 1 },
                ss == symbols_view(syms@),
                match best_pair(self.merge_list(), ss, i as int) {
                    Some((j, r)) => best == Some(j as usize) && best_rank == r && 0 <= j < i && r
                        < self.merges.len(),
                    None => best is None && best_rank == usize::MAX,
                },
            decreases n - i,
        {
            match self.rank_of(&syms[i], &syms[i + 1]) {
                Some(r) => {
                    if r < best_rank {
                        best = Some(i);
                        best_rank = r;
                    }
                },
                None => {},
            }
            i += 1;
        }
        proof {
            if syms.len() == 0 {
                assert(best_pair(self.merge_list(), ss, -1) is None);
            }
        }
        best
    }

    /// Runs BPE on `syms`.
    fn merge_symbols(&self, start: Vec<Vec<u8>>) -> (res: Vec<Vec<u8>>)
        ensures
            symbols_view(res@) == bpe(self.merge_list(), symbols_view(start@)),
    {
        let ghost ms = self.merge_list();
        let ghost target = bpe(ms, symbols_view(start@));
        let mut syms = start;
        loop
            invariant
                ms == self.merge_list(),
                target == bpe(ms, symbols_view(start@)),
                bpe(ms, symbols_view(syms@)) == target,
            decreases syms.len(),
        {
            match self.best_pair_of(&syms) {
                Some(i) => {
                    let ghost before = symbols_view(syms@);
                    let mut right = syms.remove(i + 1);
                    let mut left = syms.remove(i);
                    left.append(&mut right);
                    syms.insert(i, left);
                    proof {
                        assert(symbols_view(syms@) =~= merge_at(before, i as int));
                    }
                },
                None => {
                    proof {
                        let v = symbols_view(syms@);
                        assert(v.len() == syms.len());
                        assert(bpe(ms, v) == v);
                        assert(v == target);
                    }
                    return syms;
                },
            }
        }
    }

    /// The id of `sym`, if it is in the vocabulary.
    fn token_id_of(&self, sym: &Vec<u8>) -> (res: Option<u32>)
        ensures
            res == token_id(self.vocab(), sym@),
    {
        proof {
            use_type_invariant(self);
        }
        let ghost vs = self.vocab();
        let ghost hs = token_hashes(vs);
        let h = hash_bytes(sym.as_slice());
        let ghost b = positions_with(hs, h);
        proof {
            assert(vs.len() == self.tokens.len());
            lemma_positions_with(hs, h);
            assert(bucket(self.token_index@, h) == b);
        }
        match self.token_index.get(&h) {
            None => {
                proof {
                    lemma_bucket_miss(vs, hs, sym@, h);
                }
                None
            },
            Some(list) => {
                let mut k = list.len();
                while k > 0
                    invariant
                        k <= list.len(),
                        list@ == b,
                        b == positions_with(hs, h),
                        vs == self.vocab(),
                        vs.len() == self.tokens.len(),
                        hs == token_hashes(vs),
                        h == bytes_hash(sym@),
                        forall|j: int| 0 <= j < b.len() ==> (#[trigger] b[j] as int) < hs.len(),
                        forall|j: int| k <= j < b.len() ==> vs[#[trigger] b[j] as int] != sym@,
                    decreases k,
                {
                    k -= 1;
                    let i = list[k];
                    if bytes_equal(self.tokens[i].as_slice(), sym.as_slice()) {
                        proof {
                            lemma_bucket_hit(vs, hs, sym@, h, k as int);
                        }
                        return Some(i as u32);
                    }
                }
                proof {
                    lemma_bucket_miss(vs, hs, sym@, h);
                }
                None
            },
        }
    }

    /// Appends the ids of one chunk to `ids`, and the symbols of the chunk
    /// that are not in the vocabulary to `unknown`.
    fn encode_chunk_into(&self, chunk: &[u8], ids: &mut Vec<u32>, unknown: &mut Vec<Vec<u8>>)
        ensures
            final(ids)@ == old(ids)@ + encode_chunk(self.vocab(), self.merge_list(), chunk@),
            symbols_view(final(unknown)@) == symbols_view(old(unknown)@) + unknown_in_chunk(
                self.vocab(),
                self.merge_list(),
                chunk@,
            ),
    {
        let syms = self.merge_symbols(initial_symbols_of(chunk));
        let ghost sv = symbols_view(syms@);
        let ghost start = ids@;
        let ghost unknown_start = symbols_view(unknown@);
        let mut i: usize = 0;
        while i < syms.len()
            invariant
                i <= syms.len(),
                sv == symbols_view(syms@),
                sv == bpe(self.merge_list(), initial_symbols(chunk@)),
                ids@ == start + ids_of(self.vocab(), sv.take(i as int)),
                symbols_view(unknown@) == unknown_start + unknown_of(
                    self.vocab(),
                    sv.take(i as int),
                ),
            decreases syms.len() - i,
        {
            assert(sv.take(i + 1).drop_last() =~= sv.take(i as int));
            match self.token_id_of(&syms[i]) {
                Some(id) => {
                    ids.push(id);
                    assert(ids@ =~= start + ids_of(self.vocab(), sv.take(i + 1)));
                },
                None => {
                    let ghost before = unknown@;
                    unknown.push(slice_to_vec(syms[i].as_slice()));
                    assert(symbols_view(unknown@) =~= symbols_view(before).push(sv[i as int]));
                    assert(symbols_view(unknown@) =~= unknown_start + unknown_of(
                        self.vocab(),
                        sv.take(i + 1),
                    ));
                },
            }
            i += 1;
        }
        assert(sv.take(syms.len() as int) =~= sv);
    }

    /// The ids of pre-tokenized chunks, BPE on each chunk one after the
    /// other, and the symbols that are skipped because they are not in the
    /// vocabulary.
    fn encode_chunks_reporting(&self, chunks: &Vec<&[u8]>) -> (res: (Vec<u32>, Vec<Vec<u8>>))
        ensures
            res.0@ == encode_chunks(self.vocab(), self.merge_list(), chunk_views(chunks@)),
            symbols_view(res.1@) == unknown_in_chunks(
                self.vocab(),
                self.merge_list(),
                chunk_views(chunks@),
            ),
    {
        let ghost cs = chunk_views(chunks@);
        let mut ids: Vec<u32> = Vec::new();
        let mut unknown: Vec<Vec<u8>> = Vec::new();
        let mut i: usize = 0;
        assert(symbols_view(unknown@) =~= Seq::<Seq<u8>>::empty());
        while i < chunks.len()
            invariant
                i <= chunks.len(),
                cs == chunk_views(chunks@),
                ids@ == encode_chunks(self.vocab(), self.merge_list(), cs.take(i as int)),
                symbols_view(unknown@) == unknown_in_chunks(
                    self.vocab(),
                    self.merge_list(),
                    cs.take(i as int),
                ),
            decreases chunks.len() - i,
        {
            assert(cs.take(i + 1).drop_last() =~= cs.take(i as int));
            self.encode_chunk_into(chunks[i], &mut ids, &mut unknown);
            i += 1;
        }
        assert(cs.take(chunks.len() as int) =~= cs);
        (ids, unknown)
    }

    /// The ids of pre-tokenized chunks: BPE on each chunk, one after the
    /// other; symbols that are not in the vocabulary are skipped.
    pub fn encode_pre_tokenized(&self, chunks: &Vec<&[u8]>) -> (ids: Vec<u32>)
        ensures
            ids@ == encode_chunks(self.vocab(), self.merge_list(), chunk_views(chunks@)),
    {
        self.encode_chunks_reporting(chunks).0
    }

    /// Encodes `text` as `encode` does and also gives the symbols that were
    /// skipped because they are not in the vocabulary, in the order in
    /// which they occur, so that a caller can warn of each.
    pub fn encode_reporting_unknown(&self, text: &str) -> (res: Result<
        (Vec<u32>, Vec<Vec<u8>>),
        Error,
    >)
        ensures
            match res {
                Ok((ids, unknown)) => {
                    &&& self.spec_encode(text@) == Ok::<Seq<u32>, Error>(ids@)
                    &&& self.spec_pre_encode(text@) matches Ok(cs) && symbols_view(unknown@)
                        == unknown_in_chunks(self.vocab(), self.merge_list(), cs)
                },
                Err(e) => self.spec_encode(text@) == Err::<Seq<u32>, Error>(e),
            },
    {
        let chunks = self.pre_tokenizer.pre_tokenize(text)?;
        Ok(self.encode_chunks_reporting(&chunks))
    }

    /// The vocabulary index that token id `id` names.
    fn token_index(&self, id: u32) -> (idx: usize)
        requires
            (id as int) < self.tokens.len(),
        ensures
            idx == index_for_id(self.tokens.len() as int, id as int),
            idx < self.tokens.len(),
    {
        let n = self.tokens.len() as u64;
        let k: u64 = 0x1_0000_0000;
        let d: u64 = n - 1 - id as u64;
        let q: u64 = d / k;
        assert(q * k <= d) by (nonlinear_arith)
            requires
                q == d / k,
                k > 0,
        ;
        let idx: u64 = id as u64 + q * k;
        idx as usize
    }

    /// Appends the bytes of the tokens with ids `ids` to `out`.
    fn token_bytes(&self, ids: &[u32]) -> (out: Vec<u8>)
        requires
            forall|i: int| 0 <= i < ids.len() ==> (ids@[i] as int) < self.tokens.len(),
        ensures
            out@ == ids_bytes(self.vocab(), ids@),
    {
        let mut out: Vec<u8> = Vec::new();
        let mut i: usize = 0;
        while i < ids.len()
            invariant
                i <= ids.len(),
                forall|j: int| 0 <= j < ids.len() ==> (ids@[j] as int) < self.tokens.len(),
                out@ == ids_bytes(self.vocab(), ids@.take(i as int)),
            decreases ids.len() - i,
        {
            assert(ids@.take(i + 1).drop_last() =~= ids@.take(i as int));
            let idx = self.token_index(ids[i]);
            let mut tok = slice_to_vec(self.tokens[idx].as_slice());
            out.append(&mut tok);
            i += 1;
        }
        assert(ids@.take(ids.len() as int) =~= ids@);
        out
    }

    /// The bytes that the characters of `s` give back.
    fn chars_to_bytes(s: &String) -> (out: Vec<u8>)
        ensures
            out@ == chars_bytes(s@),
    {
        broadcast use vstd::string::group_string_axioms;

        let mut out: Vec<u8> = Vec::new();
        let chars = s.as_str().chars();
        for c in it: chars
            invariant
                it.seq() == s@,
                out@ == chars_bytes(s@.take(it.index())),
        {
            assert(s@.take(it.index() + 1).drop_last() =~= s@.take(it.index()));
            match char_to_byte(c) {
                Some(b) => {
                    out.push(b);
                },
                None => {
                    let mut enc = char_utf8_bytes(c);
                    out.append(&mut enc);
                },
            }
        }
        assert(s@.take(s@.len() as int) =~= s@);
        out
    }
}

impl BpeTokenizer {
    /// Builds a tokenizer from the `tokenizer.ggml.*` entries of GGUF
    /// metadata.
    #[verifier::loop_isolation(false)]
    pub fn new(metadata_kv: &GgufMetadata) -> (res: Result<Self, Error>)
        requires
            !merge_without_space(metadata_kv@),
        ensures
            match res {
                Ok(t) => tokenizer_from(metadata_kv@) == Ok::<TokenizerModel, Error>(t.model()),
                Err(e) => tokenizer_from(metadata_kv@) == Err::<TokenizerModel, Error>(e),
            },
    {
        let ghost md = metadata_kv@;
        let tokens = match metadata_kv.get("tokenizer.ggml.tokens") {
            Some(GgufMetadataValue::Array(tokens)) => tokens,
            _ => {
                return Err(Error::MissingTokens);
            },
        };
        let ghost tvs = values_view(tokens@);
        proof {
            lemma_values_view(tokens@);
        }
        let mut token_list: Vec<Vec<u8>> = Vec::new();
        let mut i: usize = 0;
        assert(tvs.take(0) =~= Seq::<MetaValue>::empty());
        assert(symbols_view(token_list@) =~= Seq::<Seq<u8>>::empty());
        while i < tokens.len()
            invariant
                i <= tokens.len(),
                tvs == values_view(tokens@),
                tvs.len() == tokens.len(),
                forall|j: int| 0 <= j < tokens.len() ==> #[trigger] tvs[j] == tokens@[j]@,
                token_strings(tvs.take(i as int)) == Ok::<Seq<Seq<u8>>, int>(
                    symbols_view(token_list@),
                ),
                forall|j: int| 0 <= j < token_list.len() ==> valid_utf8(#[trigger] token_list@[j]@),
            decreases tokens.len() - i,
        {
            assert(tvs.take(i + 1).drop_last() =~= tvs.take(i as int));
            match &tokens[i] {
                GgufMetadataValue::String(token) => {
                    let bytes = slice_to_vec(token.as_str().as_bytes());
                    proof {
                        encode_utf8_valid_utf8(token@);
                    }
                    let ghost old_list = token_list@;
                    token_list.push(bytes);
                    assert(symbols_view(token_list@) =~= symbols_view(old_list).push(bytes@));
                },
                _ => {
                    proof {
                        let pre = tvs.take(i as int + 1);
                        assert(pre.last() == tvs[i as int]);
                        assert(tvs[i as int] == tokens@[i as int]@);
                        assert(token_strings(pre) == Err::<Seq<Seq<u8>>, int>(i as int));
                        lemma_token_strings_prefix(tvs, i as int + 1);
                    }
                    return Err(Error::InvalidToken { index: i });
                },
            }
            i += 1;
        }
        assert(tvs.take(tokens.len() as int) =~= tvs);
        let raw_merges = match metadata_kv.get("tokenizer.ggml.merges") {
            Some(GgufMetadataValue::Array(merges)) => merges,
            _ => {
                return Err(Error::MissingMerges);
            },
        };
        let ghost mvs = values_view(raw_merges@);
        proof {
            lemma_values_view(raw_merges@);
            if merge_rules(mvs) is NoSpace {
                assert(merge_without_space(md));
            }
        }
        let mut merges: Vec<(Vec<u8>, Vec<u8>)> = Vec::new();
        let mut i: usize = 0;
        assert(mvs.take(0) =~= Seq::<MetaValue>::empty());
        assert(Seq::new(merges@.len(), |k: int| (merges@[k].0@, merges@[k].1@)) =~= Seq::<
            (Seq<u8>, Seq<u8>),
        >::empty());
        while i < raw_merges.len()
            invariant
                i <= raw_merges.len(),
                mvs == values_view(raw_merges@),
                mvs.len() == raw_merges.len(),
                forall|j: int| 0 <= j < raw_merges.len() ==> #[trigger] mvs[j] == raw_merges@[j]@,
                !(merge_rules(mvs) is NoSpace),
                merge_rules(mvs.take(i as int)) == MergeScan::Rules(
                    Seq::new(merges@.len(), |k: int| (merges@[k].0@, merges@[k].1@)),
                ),
            decreases raw_merges.len() - i,
        {
            assert(mvs.take(i + 1).drop_last() =~= mvs.take(i as int));
            match &raw_merges[i] {
                GgufMetadataValue::String(merge) => {
                    match split_merge_bytes(merge.as_str().as_bytes()) {
                        Some(pair) => {
                            let ghost old_merges = merges@;
                            let ghost pv = (pair.0@, pair.1@);
                            merges.push(pair);
                            assert(Seq::new(merges@.len(), |k: int| (merges@[k].0@, merges@[k].1@))
                                =~= Seq::new(
                                old_merges.len(),
                                |k: int| (old_merges[k].0@, old_merges[k].1@),
                            ).push(pv));
                        },
                        None => {
                            proof {
                                lemma_merge_rules_prefix(mvs, i as int + 1);
                            }
                            return Err(Error::InvalidMerge { index: i });
                        },
                    }
                },
                _ => {
                    proof {
                        let pre = mvs.take(i as int + 1);
                        assert(pre.last() == mvs[i as int]);
                        assert(mvs[i as int] == raw_merges@[i as int]@);
                        assert(merge_rules(pre) == MergeScan::NotString(i as int));
                        lemma_merge_rules_prefix(mvs, i as int + 1);
                    }
                    return Err(Error::InvalidMerge { index: i });
                },
            }
            i += 1;
        }
        assert(mvs.take(raw_merges.len() as int) =~= mvs);
        let eos_token_id = match metadata_kv.get("tokenizer.ggml.eos_token_id") {
            Some(GgufMetadataValue::U32(id)) => *id,
            _ => {
                return Err(Error::MissingEosTokenId);
            },
        };
        let bos_token_id = match metadata_kv.get("tokenizer.ggml.bos_token_id") {
            Some(GgufMetadataValue::U32(id)) => *id,
            _ => {
                return Err(Error::MissingBosTokenId);
            },
        };
        let pre_encode = match metadata_kv.get("tokenizer.ggml.pre") {
            Some(GgufMetadataValue::String(pre)) => pre,
            _ => {
                return Err(Error::MissingPreTokenizer);
            },
        };
        let pre_tokenizer = create_pre_tokenizer(pre_encode.as_str())?;
        let token_index = index_hashes(&hash_tokens(&token_list));
        let merge_index = index_hashes(&hash_merges(&merges));
        let t = BpeTokenizer {
            tokens: token_list,
            merges,
            token_index,
            merge_index,
            eos_token_id,
            bos_token_id,
            pre_tokenizer,
        };
        Ok(t)
    }
}

/// Whether `metadata_kv` holds a merge rule without a space that
/// `BpeTokenizer::new` would reach, the one input it does not accept.
#[verifier::loop_isolation(false)]
pub fn merges_lack_space(metadata_kv: &GgufMetadata) -> (res: bool)
    ensures
        res == merge_without_space(metadata_kv@),
{
    let tokens = match metadata_kv.get("tokenizer.ggml.tokens") {
        Some(GgufMetadataValue::Array(tokens)) => tokens,
        _ => {
            return false;
        },
    };
    let ghost tvs = values_view(tokens@);
    proof {
        lemma_values_view(tokens@);
    }
    let mut i: usize = 0;
    assert(tvs.take(0) =~= Seq::<MetaValue>::empty());
    while i < tokens.len()
        invariant
            i <= tokens.len(),
            tvs == values_view(tokens@),
            tvs.len() == tokens.len(),
            forall|j: int| 0 <= j < tokens.len() ==> #[trigger] tvs[j] == tokens@[j]@,
            token_strings(tvs.take(i as int)) is Ok,
        decreases tokens.len() - i,
    {
        assert(tvs.take(i + 1).drop_last() =~= tvs.take(i as int));
        assert(tvs[i as int] == tokens@[i as int]@);
        match &tokens[i] {
            GgufMetadataValue::String(_) => {},
            _ => {
                proof {
                    lemma_token_strings_prefix(tvs, i as int + 1);
                }
                return false;
            },
        }
        i += 1;
    }
    assert(tvs.take(tokens.len() as int) =~= tvs);
    let raw_merges = match metadata_kv.get("tokenizer.ggml.merges") {
        Some(GgufMetadataValue::Array(merges)) => merges,
        _ => {
            return false;
        },
    };
    let ghost mvs = values_view(raw_merges@);
    proof {
        lemma_values_view(raw_merges@);
    }
    let mut i: usize = 0;
    assert(mvs.take(0) =~= Seq::<MetaValue>::empty());
    while i < raw_merges.len()
        invariant
            i <= raw_merges.len(),
            mvs == values_view(raw_merges@),
            mvs.len() == raw_merges.len(),
            forall|j: int| 0 <= j < raw_merges.len() ==> #[trigger] mvs[j] == raw_merges@[j]@,
            merge_rules(mvs.take(i as int)) is Rules,
        decreases raw_merges.len() - i,
    {
        assert(mvs.take(i + 1).drop_last() =~= mvs.take(i as int));
        assert(mvs[i as int] == raw_merges@[i as int]@);
        match &raw_merges[i] {
            GgufMetadataValue::String(merge) => {
                let b = merge.as_str().as_bytes();
                if first_space(b, 0) == b.len() {
                    proof {
                        lemma_merge_rules_prefix(mvs, i as int + 1);
                    }
                    return true;
                }
            },
            _ => {
                proof {
                    lemma_merge_rules_prefix(mvs, i as int + 1);
                }
                return false;
            },
        }
        i += 1;
    }
    assert(mvs.take(raw_merges.len() as int) =~= mvs);
    false
}

/// Once reading the tokens stops on a prefix, it stops the same way on the
/// whole sequence.
proof fn lemma_token_strings_prefix(vs: Seq<MetaValue>, n: int)
    requires
        0 <= n <= vs.len(),
        token_strings(vs.take(n)) is Err,
    ensures
        token_strings(vs) == token_strings(vs.take(n)),
    decreases vs.len() - n,
{
    if n < vs.len() {
        assert(vs.take(n + 1).drop_last() =~= vs.take(n));
        lemma_token_strings_prefix(vs, n + 1);
    } else {
        assert(vs.take(n) =~= vs);
    }
}

/// Once reading the merge rules stops on a prefix, it stops the same way on
/// the whole sequence.
proof fn lemma_merge_rules_prefix(vs: Seq<MetaValue>, n: int)
    requires
        0 <= n <= vs.len(),
        !(merge_rules(vs.take(n)) is Rules),
    ensures
        merge_rules(vs) == merge_rules(vs.take(n)),
    decreases vs.len() - n,
{
    if n < vs.len() {
        assert(vs.take(n + 1).drop_last() =~= vs.take(n));
        lemma_merge_rules_prefix(vs, n + 1);
    } else {
        assert(vs.take(n) =~= vs);
    }
}

impl<'a> Tokenizer<'a, u8> for BpeTokenizer {
    open spec fn spec_pre_encode(&self, text: Seq<char>) -> Result<Seq<Seq<u8>>, Error> {
        match regex_find_all(self.model().pattern, text) {
            Some(c) => Ok(c),
            None => Err(Error::PreTokenizeFailed),
        }
    }

    open spec fn spec_encode(&self, text: Seq<char>) -> Result<Seq<u32>, Error> {
        match self.spec_pre_encode(text) {
            Ok(cs) => Ok(encode_chunks(self.vocab(), self.merge_list(), cs)),
            Err(e) => Err(e),
        }
    }

    open spec fn decodable(&self, ids: Seq<u32>) -> bool {
        forall|i: int| 0 <= i < ids.len() ==> (ids[i] as int) < self.vocab().len()
    }

    open spec fn spec_decode(&self, ids: Seq<u32>) -> Result<Seq<char>, Error> {
        decode_ids(self.vocab(), ids)
    }

    /// Splits `text` into chunks with the pre-tokenizer.
    fn pre_encode(&self, text: &'a str) -> (res: Result<Vec<&'a [u8]>, Error>) {
        self.pre_tokenizer.pre_tokenize(text)
    }

    /// Splits `text` into chunks and runs BPE on each; symbols that are not
    /// in the vocabulary are skipped.
    fn encode(&self, text: &'a str) -> (res: Result<Vec<u32>, Error>) {
        let (ids, _) = self.encode_reporting_unknown(text)?;
        Ok(ids)
    }

    /// Joins the tokens' bytes, reads them as UTF-8, maps each character
    /// back to its byte (characters outside the byte-level alphabet give
    /// their own UTF-8), and reads the result as UTF-8 with invalid
    /// sequences replaced.
    fn decode(&self, ids: &[u32]) -> (res: Result<String, Error>)
        ensures
            res is Ok,
    {
        proof {
            use_type_invariant(self);
            lemma_ids_bytes_valid(self.vocab(), ids@);
        }
        let bytes = self.token_bytes(ids);
        let s = match string_from_utf8(bytes) {
            Some(s) => s,
            None => {
                return Err(Error::InvalidUtf8);
            },
        };
        let out = Self::chars_to_bytes(&s);
        Ok(string_from_utf8_lossy(out.as_slice()))
    }
}

} // verus!
