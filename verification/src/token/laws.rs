//! Properties of byte-level BPE that hold across the tokenizer's functions.

use vstd::prelude::*;
use vstd::utf8::{encode_utf8, encode_utf8_decode_utf8, encode_utf8_valid_utf8};
use crate::token::bpe::{
    BpeTokenizer,
    best_pair,
    bpe,
    byte_char_code,
    byte_symbol,
    char_bytes,
    chars_bytes,
    code_byte,
    encode_chunk,
    encode_chunks,
    ids_bytes,
    ids_of,
    index_for_id,
    initial_symbols,
    merge_at,
    merge_rank,
    token_for_id,
    token_id,
    MergeScan,
    TokenizerModel,
    first_space_from,
    merge_rules,
    merge_without_space,
    split_merge,
    token_strings,
    tokenizer_from,
    unknown_of,
};
use crate::error::Error;
use crate::index::{last_index_of, lemma_last_index_of};
use crate::gguf::header::{MetaValue, lookup};
use crate::token::pre_tokenizer::{pattern_for, regex_compiles};
use crate::token::pre_tokenizer::regex_find_all;
use crate::token::tokenizer::Tokenizer;

verus! {

/// The concatenation of a sequence of byte strings.
pub open spec fn join(ss: Seq<Seq<u8>>) -> Seq<u8>
    decreases ss.len(),
{
    if ss.len() == 0 {
        Seq::empty()
    } else {
        join(ss.drop_last()) + ss.last()
    }
}

/// The characters that stand for the bytes `bs`, one for one.
pub open spec fn byte_chars(bs: Seq<u8>) -> Seq<char> {
    Seq::new(bs.len(), |i: int| byte_char_code(bs[i]) as char)
}

/// Every symbol is in the vocabulary.
pub open spec fn in_vocab(vocab: Seq<Seq<u8>>, syms: Seq<Seq<u8>>) -> bool {
    forall|k: int| 0 <= k < syms.len() ==> vocab.contains(#[trigger] syms[k])
}

/// Every byte has a character of its own: mapping a byte to its character
/// and back gives the byte.
pub proof fn law_byte_char_roundtrip(b: u8)
    ensures
        code_byte(byte_char_code(b)) == Some(b),
{
}

/// The byte-level alphabet is a bijection: a code point stands for a byte
/// exactly when it is that byte's code point.
pub proof fn law_byte_char_bijection(code: u32, b: u8)
    ensures
        code_byte(code) == Some(b) <==> byte_char_code(b) == code,
{
}

proof fn lemma_join_concat(a: Seq<Seq<u8>>, b: Seq<Seq<u8>>)
    ensures
        join(a + b) == join(a) + join(b),
    decreases b.len(),
{
    if b.len() == 0 {
        assert(a + b =~= a);
        assert(join(a) + Seq::<u8>::empty() =~= join(a));
    } else {
        assert((a + b).drop_last() =~= a + b.drop_last());
        lemma_join_concat(a, b.drop_last());
        assert(join(a) + join(b.drop_last()) + b.last() =~= join(a) + (join(b.drop_last())
            + b.last()));
    }
}

proof fn lemma_merge_at_join(s: Seq<Seq<u8>>, i: int)
    requires
        0 <= i < s.len() - 1,
    ensures
        join(merge_at(s, i)) == join(s),
        merge_at(s, i).len() == s.len() - 1,
{
    let l = s.subrange(0, i);
    let r = s.subrange(i + 2, s.len() as int);
    let two = l.push(s[i]).push(s[i + 1]);
    let one = l.push(s[i] + s[i + 1]);
    assert(s =~= two + r);
    assert(merge_at(s, i) =~= one + r);
    lemma_join_concat(two, r);
    lemma_join_concat(one, r);
    assert(two.drop_last() =~= l.push(s[i]));
    assert(l.push(s[i]).drop_last() =~= l);
    assert(one.drop_last() =~= l);
    assert(join(two) == join(l.push(s[i])) + s[i + 1]);
    assert(join(l.push(s[i])) == join(l) + s[i]);
    assert(join(one) == join(l) + (s[i] + s[i + 1]));
    assert(join(l) + s[i] + s[i + 1] =~= join(l) + (s[i] + s[i + 1]));
}

/// The pair that BPE merges next lies inside the sequence and has a merge
/// rule of the reported rank.
pub proof fn lemma_best_pair_range(
    merges: Seq<(Seq<u8>, Seq<u8>)>,
    syms: Seq<Seq<u8>>,
    n: int,
)
    ensures
        best_pair(merges, syms, n) matches Some((i, r)) ==> 0 <= i < n && merge_rank(
            merges,
            syms[i],
            syms[i + 1],
        ) == Some(r),
    decreases n,
{
    if n > 0 {
        lemma_best_pair_range(merges, syms, n - 1);
    }
}

/// The pair that BPE merges next is of the lowest rank among all adjacent
/// pairs with a merge rule, and the leftmost among those of that rank.
pub proof fn law_best_pair_is_leftmost_lowest(
    merges: Seq<(Seq<u8>, Seq<u8>)>,
    syms: Seq<Seq<u8>>,
    n: int,
)
    ensures
        best_pair(merges, syms, n) matches Some((i, r)) ==> {
            &&& forall|j: int|
                0 <= j < n && #[trigger] merge_rank(merges, syms[j], syms[j + 1]) is Some
                    ==> merge_rank(merges, syms[j], syms[j + 1])->0 >= r
            &&& forall|j: int|
                0 <= j < i && #[trigger] merge_rank(merges, syms[j], syms[j + 1]) is Some
                    ==> merge_rank(merges, syms[j], syms[j + 1])->0 > r
        },
        best_pair(merges, syms, n) is None ==> forall|j: int|
            0 <= j < n ==> #[trigger] merge_rank(merges, syms[j], syms[j + 1]) is None,
    decreases n,
{
    if n > 0 {
        law_best_pair_is_leftmost_lowest(merges, syms, n - 1);
        lemma_best_pair_range(merges, syms, n - 1);
    }
}

/// BPE only regroups bytes: the concatenation of the symbols is unchanged.
pub proof fn law_bpe_keeps_bytes(merges: Seq<(Seq<u8>, Seq<u8>)>, syms: Seq<Seq<u8>>)
    ensures
        join(bpe(merges, syms)) == join(syms),
    decreases syms.len(),
{
    match best_pair(merges, syms, syms.len() - 1) {
        Some((i, _)) => {
            if 0 <= i < syms.len() - 1 {
                lemma_merge_at_join(syms, i);
                law_bpe_keeps_bytes(merges, merge_at(syms, i));
            }
        },
        None => {},
    }
}

/// BPE stops only when no adjacent pair of the result has a merge rule.
pub proof fn law_bpe_result_has_no_merge(merges: Seq<(Seq<u8>, Seq<u8>)>, syms: Seq<Seq<u8>>)
    ensures
        ({
            let out = bpe(merges, syms);
            forall|j: int|
                0 <= j < out.len() - 1 ==> #[trigger] merge_rank(merges, out[j], out[j + 1]) is None
        }),
    decreases syms.len(),
{
    lemma_best_pair_range(merges, syms, syms.len() - 1);
    match best_pair(merges, syms, syms.len() - 1) {
        Some((i, _)) => {
            lemma_merge_at_join(syms, i);
            law_bpe_result_has_no_merge(merges, merge_at(syms, i));
        },
        None => {
            law_best_pair_is_leftmost_lowest(merges, syms, syms.len() - 1);
        },
    }
}

proof fn lemma_encode_utf8_concat(a: Seq<char>, b: Seq<char>)
    ensures
        encode_utf8(a + b) == encode_utf8(a) + encode_utf8(b),
    decreases a.len(),
{
    if a.len() == 0 {
        assert(a + b =~= b);
        assert(encode_utf8(a) =~= Seq::<u8>::empty());
        assert(Seq::<u8>::empty() + encode_utf8(b) =~= encode_utf8(b));
    } else {
        assert((a + b).drop_first() =~= a.drop_first() + b);
        assert((a + b)[0] == a[0]);
        lemma_encode_utf8_concat(a.drop_first(), b);
        let e0 = vstd::utf8::encode_scalar(a[0] as u32);
        assert(e0 + (encode_utf8(a.drop_first()) + encode_utf8(b)) =~= (e0 + encode_utf8(
            a.drop_first(),
        )) + encode_utf8(b));
    }
}

proof fn lemma_initial_symbols_join(chunk: Seq<u8>)
    ensures
        join(initial_symbols(chunk)) == encode_utf8(byte_chars(chunk)),
    decreases chunk.len(),
{
    if chunk.len() == 0 {
        assert(byte_chars(chunk) =~= Seq::<char>::empty());
    } else {
        let c0 = chunk.drop_last();
        let ch = byte_char_code(chunk.last()) as char;
        assert(initial_symbols(chunk).drop_last() =~= initial_symbols(c0));
        assert(byte_chars(chunk) =~= byte_chars(c0) + seq![ch]);
        lemma_initial_symbols_join(c0);
        lemma_encode_utf8_concat(byte_chars(c0), seq![ch]);
        assert(initial_symbols(chunk).last() == byte_symbol(chunk.last()));
    }
}

proof fn lemma_byte_chars_concat(a: Seq<u8>, b: Seq<u8>)
    ensures
        byte_chars(a + b) == byte_chars(a) + byte_chars(b),
{
    assert(byte_chars(a + b) =~= byte_chars(a) + byte_chars(b));
}

proof fn lemma_ids_bytes_concat(vocab: Seq<Seq<u8>>, a: Seq<u32>, b: Seq<u32>)
    ensures
        ids_bytes(vocab, a + b) == ids_bytes(vocab, a) + ids_bytes(vocab, b),
    decreases b.len(),
{
    if b.len() == 0 {
        assert(a + b =~= a);
        assert(ids_bytes(vocab, a) + Seq::<u8>::empty() =~= ids_bytes(vocab, a));
    } else {
        assert((a + b).drop_last() =~= a + b.drop_last());
        lemma_ids_bytes_concat(vocab, a, b.drop_last());
        let t = token_for_id(vocab, b.last());
        assert(ids_bytes(vocab, a) + ids_bytes(vocab, b.drop_last()) + t =~= ids_bytes(vocab, a)
            + (ids_bytes(vocab, b.drop_last()) + t));
    }
}

/// The id of a symbol in a vocabulary of at most 2^32 entries names that
/// symbol again.
proof fn lemma_token_id_roundtrip(vocab: Seq<Seq<u8>>, sym: Seq<u8>)
    requires
        vocab.len() <= 0x1_0000_0000,
        vocab.contains(sym),
    ensures
        token_id(vocab, sym) matches Some(id) && (id as int) < vocab.len() && token_for_id(vocab, id)
            == sym,
{
    lemma_last_index_of(vocab, sym);
    let i = last_index_of(vocab, sym)->0;
    assert((i as u32) as int == i);
    assert((vocab.len() - 1 - i) / 0x1_0000_0000 == 0);
    assert(index_for_id(vocab.len() as int, i) == i);
}

proof fn lemma_ids_of_bytes(vocab: Seq<Seq<u8>>, syms: Seq<Seq<u8>>)
    requires
        vocab.len() <= 0x1_0000_0000,
        in_vocab(vocab, syms),
    ensures
        ids_bytes(vocab, ids_of(vocab, syms)) == join(syms),
    decreases syms.len(),
{
    if syms.len() > 0 {
        let p = syms.drop_last();
        assert forall|k: int| 0 <= k < p.len() implies vocab.contains(#[trigger] p[k]) by {
            assert(p[k] == syms[k]);
        }
        lemma_ids_of_bytes(vocab, p);
        assert(vocab.contains(syms[syms.len() - 1]));
        lemma_token_id_roundtrip(vocab, syms.last());
        let id = token_id(vocab, syms.last())->0;
        assert(ids_of(vocab, syms) == ids_of(vocab, p).push(id));
        assert(ids_of(vocab, p).push(id).drop_last() =~= ids_of(vocab, p));
    }
}

/// The ids that encoding gives are all below the vocabulary size.
proof fn lemma_ids_of_in_range(vocab: Seq<Seq<u8>>, syms: Seq<Seq<u8>>)
    ensures
        forall|k: int|
            0 <= k < ids_of(vocab, syms).len() ==> (#[trigger] ids_of(vocab, syms)[k] as int)
                < vocab.len(),
    decreases syms.len(),
{
    if syms.len() > 0 {
        let p = syms.drop_last();
        lemma_ids_of_in_range(vocab, p);
        lemma_last_index_of(vocab, syms.last());
        match last_index_of(vocab, syms.last()) {
            Some(i) => {
                if i < 0x1_0000_0000 {
                    assert((i as u32) as int == i);
                }
                let ids = ids_of(vocab, syms);
                assert forall|k: int| 0 <= k < ids.len() implies (#[trigger] ids[k] as int)
                    < vocab.len() by {
                    if k < ids.len() - 1 {
                        assert(ids[k] == ids_of(vocab, p)[k]);
                    }
                }
            },
            None => {},
        }
    }
}

proof fn lemma_encode_chunks_facts(
    vocab: Seq<Seq<u8>>,
    merges: Seq<(Seq<u8>, Seq<u8>)>,
    chunks: Seq<Seq<u8>>,
)
    ensures
        forall|k: int|
            0 <= k < encode_chunks(vocab, merges, chunks).len() ==> (#[trigger] encode_chunks(
                vocab,
                merges,
                chunks,
            )[k] as int) < vocab.len(),
        vocab.len() <= 0x1_0000_0000 && (forall|k: int|
            0 <= k < chunks.len() ==> in_vocab(vocab, #[trigger] bpe(merges, initial_symbols(chunks[k]))))
            ==> ids_bytes(vocab, encode_chunks(vocab, merges, chunks)) == encode_utf8(
            byte_chars(join(chunks)),
        ),
    decreases chunks.len(),
{
    if chunks.len() == 0 {
        assert(byte_chars(join(chunks)) =~= Seq::<char>::empty());
    } else {
        let p = chunks.drop_last();
        let c = chunks.last();
        lemma_encode_chunks_facts(vocab, merges, p);
        let syms = bpe(merges, initial_symbols(c));
        lemma_ids_of_in_range(vocab, syms);
        let a = encode_chunks(vocab, merges, p);
        let b = encode_chunk(vocab, merges, c);
        let all = encode_chunks(vocab, merges, chunks);
        assert forall|k: int| 0 <= k < all.len() implies (#[trigger] all[k] as int) < vocab.len() by {
            if k < a.len() {
                assert(all[k] == a[k]);
            } else {
                assert(all[k] == b[k - a.len()]);
            }
        }
        if vocab.len() <= 0x1_0000_0000 && (forall|k: int|
            0 <= k < chunks.len() ==> in_vocab(vocab, #[trigger] bpe(merges, initial_symbols(chunks[k])))) {
            assert forall|k: int| 0 <= k < p.len() implies in_vocab(
                vocab,
                #[trigger] bpe(merges, initial_symbols(p[k])),
            ) by {
                assert(p[k] == chunks[k]);
            }
            assert(in_vocab(vocab, bpe(merges, initial_symbols(chunks[chunks.len() - 1]))));
            lemma_ids_bytes_concat(vocab, a, b);
            lemma_ids_of_bytes(vocab, syms);
            law_bpe_keeps_bytes(merges, initial_symbols(c));
            lemma_initial_symbols_join(c);
            lemma_byte_chars_concat(join(p), c);
            lemma_encode_utf8_concat(byte_chars(join(p)), byte_chars(c));
        }
    }
}

proof fn lemma_chars_bytes_byte_chars(bs: Seq<u8>)
    ensures
        chars_bytes(byte_chars(bs)) == bs,
    decreases bs.len(),
{
    if bs.len() > 0 {
        let p = bs.drop_last();
        assert(byte_chars(bs).drop_last() =~= byte_chars(p));
        lemma_chars_bytes_byte_chars(p);
        let code = byte_char_code(bs.last());
        assert((code as char) as u32 == code);
        assert(char_bytes(byte_chars(bs).last()) == seq![bs.last()]);
        assert(p + seq![bs.last()] =~= bs);
    }
}

/// Every id that encoding gives is accepted by decoding.
pub proof fn law_encode_gives_decodable_ids(t: &BpeTokenizer, text: Seq<char>)
    ensures
        t.spec_encode(text) matches Ok(ids) ==> t.decodable(ids),
{
    match regex_find_all(t.model().pattern, text) {
        Some(chunks) => {
            lemma_encode_chunks_facts(t.vocab(), t.merge_list(), chunks);
        },
        None => {},
    }
}

/// Decoding what encoding gives returns the text, when the pre-tokenizer's
/// chunks cover the text's bytes exactly, every symbol that BPE leaves is in
/// the vocabulary, and the vocabulary has at most 2^32 entries (so that
/// token ids, which are indices truncated to `u32`, name tokens uniquely).
pub proof fn law_decode_inverts_encode(t: &BpeTokenizer, text: Seq<char>)
    requires
        t.vocab().len() <= 0x1_0000_0000,
        regex_find_all(t.model().pattern, text) matches Some(chunks) && join(chunks)
            == encode_utf8(text) && forall|k: int|
            0 <= k < chunks.len() ==> in_vocab(
                t.vocab(),
                #[trigger] bpe(t.merge_list(), initial_symbols(chunks[k])),
            ),
    ensures
        t.spec_encode(text) matches Ok(ids) && t.decodable(ids) && t.spec_decode(ids) == Ok::<
            Seq<char>,
            crate::error::Error,
        >(text),
{
    let chunks = regex_find_all(t.model().pattern, text)->0;
    let vocab = t.vocab();
    let merges = t.merge_list();
    lemma_encode_chunks_facts(vocab, merges, chunks);
    let ids = encode_chunks(vocab, merges, chunks);
    let bytes = ids_bytes(vocab, ids);
    let tb = encode_utf8(text);
    assert(bytes == encode_utf8(byte_chars(tb)));
    encode_utf8_valid_utf8(byte_chars(tb));
    encode_utf8_decode_utf8(byte_chars(tb));
    lemma_chars_bytes_byte_chars(tb);
    encode_utf8_valid_utf8(text);
    encode_utf8_decode_utf8(text);
}

/// The token strings of `ts` are read exactly when every value is a
/// string, and then they are the strings' UTF-8 bytes, one for one.
proof fn lemma_token_strings_shape(ts: Seq<MetaValue>)
    ensures
        token_strings(ts) is Ok <==> forall|i: int| 0 <= i < ts.len() ==> (#[trigger] ts[i]) is Str,
        token_strings(ts) matches Ok(v) ==> v.len() == ts.len() && forall|i: int|
            0 <= i < ts.len() ==> #[trigger] v[i] == encode_utf8(ts[i]->Str_0),
    decreases ts.len(),
{
    if ts.len() > 0 {
        let init = ts.drop_last();
        lemma_token_strings_shape(init);
        assert forall|i: int| 0 <= i < init.len() implies #[trigger] init[i] == ts[i] by {}
        if token_strings(ts) is Ok {
            assert forall|i: int| 0 <= i < ts.len() implies (#[trigger] ts[i]) is Str by {
                if i < init.len() {
                    assert(init[i] == ts[i]);
                }
            }
        }
        if !(token_strings(init) is Ok) {
            assert(!(init[choose|i: int| 0 <= i < init.len() && !(init[i] is Str)] is Str));
        }
    }
}

/// The merge rules of `ms` are read exactly when every value is a string
/// with a space, and then rule `j` is the split of the `j`-th string; when
/// they stop on a value that is not a string, some value is not one.
proof fn lemma_merge_rules_shape(ms: Seq<MetaValue>)
    ensures
        merge_rules(ms) is Rules <==> forall|j: int|
            0 <= j < ms.len() ==> (#[trigger] ms[j]) is Str && split_merge(
                encode_utf8(ms[j]->Str_0),
            ) is Some,
        merge_rules(ms) matches MergeScan::Rules(rs) ==> rs.len() == ms.len() && forall|j: int|
            0 <= j < ms.len() ==> Some(#[trigger] rs[j]) == split_merge(encode_utf8(ms[j]->Str_0)),
        merge_rules(ms) is NotString ==> exists|j: int| 0 <= j < ms.len() && !((#[trigger] ms[j]) is Str),
    decreases ms.len(),
{
    if ms.len() > 0 {
        let init = ms.drop_last();
        lemma_merge_rules_shape(init);
        assert forall|i: int| 0 <= i < init.len() implies #[trigger] init[i] == ms[i] by {}
        if merge_rules(ms) is Rules {
            assert forall|j: int| 0 <= j < ms.len() implies (#[trigger] ms[j]) is Str && split_merge(
                encode_utf8(ms[j]->Str_0),
            ) is Some by {
                if j < init.len() {
                    assert(init[j] == ms[j]);
                }
            }
        }
        if !(merge_rules(init) is Rules) {
            let j = choose|j: int|
                0 <= j < init.len() && !(init[j] is Str && split_merge(encode_utf8(init[j]->Str_0)) is Some);
            assert(init[j] == ms[j]);
        }
        if merge_rules(ms) is NotString {
            if merge_rules(init) is NotString {
                let j = choose|j: int| 0 <= j < init.len() && !(init[j] is Str);
                assert(init[j] == ms[j]);
            } else {
                assert(!(ms[ms.len() - 1] is Str));
            }
        }
    }
}

/// What a tokenizer built from metadata holds, when the metadata has the
/// tokens `ts`, all strings; the merge rules `ms`, all strings with a
/// space; `U32` end and start ids; and a pre-tokenizer name that is one of
/// the supported ones. Building it then succeeds exactly when that name's
/// pattern compiles (otherwise it fails with `InvalidPattern`), and the
/// tokenizer has: as token `i` the UTF-8 bytes of `ts[i]`; as the id of a
/// byte string the last index where it occurs among the tokens, and no id
/// when it does not occur; as merge rule `j` the first two space-separated
/// fields of `ms[j]`, ranked by the last rule with that pair; and the given
/// end and start ids. (Ids are `u32`, so the law is stated for at most
/// 2^32 tokens.)
pub proof fn law_tokenizer_from_metadata(
    md: Map<Seq<char>, MetaValue>,
    ts: Seq<MetaValue>,
    ms: Seq<MetaValue>,
    eos: u32,
    bos: u32,
    name: Seq<char>,
)
    requires
        lookup(md, "tokenizer.ggml.tokens"@) == Some(MetaValue::Array(ts)),
        forall|i: int| 0 <= i < ts.len() ==> (#[trigger] ts[i]) is Str,
        ts.len() <= 0x1_0000_0000,
        lookup(md, "tokenizer.ggml.merges"@) == Some(MetaValue::Array(ms)),
        forall|j: int|
            0 <= j < ms.len() ==> (#[trigger] ms[j]) is Str && split_merge(
                encode_utf8(ms[j]->Str_0),
            ) is Some,
        lookup(md, "tokenizer.ggml.eos_token_id"@) == Some(MetaValue::U32(eos)),
        lookup(md, "tokenizer.ggml.bos_token_id"@) == Some(MetaValue::U32(bos)),
        lookup(md, "tokenizer.ggml.pre"@) == Some(MetaValue::Str(name)),
        pattern_for(name) is Some,
    ensures
        tokenizer_from(md) is Ok <==> regex_compiles(pattern_for(name)->0),
        tokenizer_from(md) is Err ==> tokenizer_from(md) == Err::<TokenizerModel, Error>(
            Error::InvalidPattern,
        ),
        tokenizer_from(md) matches Ok(m) ==> {
            &&& m.vocab.len() == ts.len()
            &&& forall|i: int| 0 <= i < ts.len() ==> #[trigger] m.vocab[i] == encode_utf8(ts[i]->Str_0)
            &&& forall|s: Seq<u8>|
                #[trigger] token_id(m.vocab, s) matches Some(id) ==> {
                    &&& (id as int) < m.vocab.len()
                    &&& m.vocab[id as int] == s
                    &&& forall|k: int| id < k < m.vocab.len() ==> m.vocab[k] != s
                }
            &&& forall|s: Seq<u8>| #[trigger] token_id(m.vocab, s) is None <==> !m.vocab.contains(s)
            &&& m.merges.len() == ms.len()
            &&& forall|j: int|
                0 <= j < ms.len() ==> Some(#[trigger] m.merges[j]) == split_merge(
                    encode_utf8(ms[j]->Str_0),
                )
            &&& forall|a: Seq<u8>, b: Seq<u8>|
                #[trigger] merge_rank(m.merges, a, b) matches Some(r) ==> {
                    &&& 0 <= r < m.merges.len()
                    &&& m.merges[r] == (a, b)
                    &&& forall|k: int| r < k < m.merges.len() ==> m.merges[k] != (a, b)
                }
            &&& m.eos_token_id == eos
            &&& m.bos_token_id == bos
            &&& m.pattern == pattern_for(name)->0
        },
{
    lemma_token_strings_shape(ts);
    lemma_merge_rules_shape(ms);
    if let Ok(m) = tokenizer_from(md) {
        assert forall|s: Seq<u8>|
            #[trigger] token_id(m.vocab, s) matches Some(id) ==> {
                &&& (id as int) < m.vocab.len()
                &&& m.vocab[id as int] == s
                &&& forall|k: int| id < k < m.vocab.len() ==> m.vocab[k] != s
            } by {
            lemma_last_index_of(m.vocab, s);
        }
        assert forall|s: Seq<u8>| #[trigger] token_id(m.vocab, s) is None <==> !m.vocab.contains(
            s,
        ) by {
            lemma_last_index_of(m.vocab, s);
        }
        assert forall|a: Seq<u8>, b: Seq<u8>|
            #[trigger] merge_rank(m.merges, a, b) matches Some(r) ==> {
                &&& 0 <= r < m.merges.len()
                &&& m.merges[r] == (a, b)
                &&& forall|k: int| r < k < m.merges.len() ==> m.merges[k] != (a, b)
            } by {
            lemma_last_index_of(m.merges, (a, b));
        }
    }
}

/// Building a tokenizer from metadata whose merge rules do not stop on a
/// string without a space fails exactly when: the tokens are missing, not
/// an array, or hold a value that is not a string; or the merge rules are
/// missing, not an array, or hold a value that is not a string; or the end
/// id or the start id is missing or not a `U32`; or the pre-tokenizer name
/// is missing, not a string, or not a supported one; or its pattern does
/// not compile.
pub proof fn law_tokenizer_from_fails_exactly(md: Map<Seq<char>, MetaValue>)
    requires
        !merge_without_space(md),
    ensures
        tokenizer_from(md) is Err <==> {
            ||| !(lookup(md, "tokenizer.ggml.tokens"@) matches Some(MetaValue::Array(ts)) && forall|
                i: int,
            | 0 <= i < ts.len() ==> (#[trigger] ts[i]) is Str)
            ||| !(lookup(md, "tokenizer.ggml.merges"@) matches Some(MetaValue::Array(ms)) && forall|
                j: int,
            | 0 <= j < ms.len() ==> (#[trigger] ms[j]) is Str)
            ||| !(lookup(md, "tokenizer.ggml.eos_token_id"@) matches Some(MetaValue::U32(_)))
            ||| !(lookup(md, "tokenizer.ggml.bos_token_id"@) matches Some(MetaValue::U32(_)))
            ||| !(lookup(md, "tokenizer.ggml.pre"@) matches Some(MetaValue::Str(name)) && pattern_for(
                name,
            ) is Some)
            ||| (lookup(md, "tokenizer.ggml.pre"@) matches Some(MetaValue::Str(name)) && pattern_for(
                name,
            ) matches Some(p) && !regex_compiles(p))
        },
{
    if let Some(MetaValue::Array(ts)) = lookup(md, "tokenizer.ggml.tokens"@) {
        lemma_token_strings_shape(ts);
        if let Some(MetaValue::Array(ms)) = lookup(md, "tokenizer.ggml.merges"@) {
            lemma_merge_rules_shape(ms);
        }
    }
}

/// A merge rule is split at its first space: the first field is what comes
/// before it and the second runs up to the next space or the end, so
/// fields after the second are ignored; a rule without a space has no
/// split.
pub proof fn law_split_merge_fields(x: Seq<u8>, y: Seq<u8>, rest: Seq<u8>)
    requires
        !x.contains(0x20),
        !y.contains(0x20),
    ensures
        split_merge(x + seq![0x20u8] + y) == Some((x, y)),
        split_merge(x + seq![0x20u8] + y + seq![0x20u8] + rest) == Some((x, y)),
        split_merge(x) is None,
{
    let b1 = x + seq![0x20u8] + y;
    let b2 = x + seq![0x20u8] + y + seq![0x20u8] + rest;
    let n: int = x.len() as int;
    let m: int = y.len() as int;
    lemma_first_space_from(b1, 0, n);
    lemma_first_space_from(b1, n + 1, n + 1 + m);
    assert(b1.subrange(0, n) =~= x);
    assert(b1.subrange(n + 1, n + 1 + m) =~= y);
    lemma_first_space_from(b2, 0, n);
    lemma_first_space_from(b2, n + 1, n + 1 + m);
    assert(b2.subrange(0, n) =~= x);
    assert(b2.subrange(n + 1, n + 1 + m) =~= y);
    lemma_first_space_from(x, 0, n);
}

/// With no space in `b[from..k]` and a space at `k` (or `k` the end), the
/// first space from `from` is at `k`.
proof fn lemma_first_space_from(b: Seq<u8>, from: int, k: int)
    requires
        0 <= from <= k <= b.len(),
        forall|j: int| from <= j < k ==> b[j] != 0x20,
        k == b.len() || b[k] == 0x20,
    ensures
        first_space_from(b, from) == k,
    decreases k - from,
{
    if from < k {
        lemma_first_space_from(b, from + 1, k);
    }
}

/// Every symbol that BPE leaves is either given an id or reported as
/// unknown: the two together account for all of them.
pub proof fn law_ids_and_unknown_cover_symbols(vocab: Seq<Seq<u8>>, syms: Seq<Seq<u8>>)
    ensures
        ids_of(vocab, syms).len() + unknown_of(vocab, syms).len() == syms.len(),
        forall|i: int| 0 <= i < unknown_of(vocab, syms).len() ==> !vocab.contains(
            #[trigger] unknown_of(vocab, syms)[i],
        ),
    decreases syms.len(),
{
    if syms.len() > 0 {
        law_ids_and_unknown_cover_symbols(vocab, syms.drop_last());
        lemma_last_index_of(vocab, syms.last());
    }
}

/// BPE never makes more symbols than it starts with.
proof fn lemma_bpe_len(merges: Seq<(Seq<u8>, Seq<u8>)>, syms: Seq<Seq<u8>>)
    ensures
        bpe(merges, syms).len() <= syms.len(),
    decreases syms.len(),
{
    match best_pair(merges, syms, syms.len() - 1) {
        Some((i, _)) => {
            if 0 <= i < syms.len() - 1 {
                lemma_bpe_len(merges, merge_at(syms, i));
            }
        },
        None => {},
    }
}

/// The ids of chunks are no more than the chunks' bytes.
proof fn lemma_encode_chunks_len(
    vocab: Seq<Seq<u8>>,
    merges: Seq<(Seq<u8>, Seq<u8>)>,
    chunks: Seq<Seq<u8>>,
)
    ensures
        encode_chunks(vocab, merges, chunks).len() <= join(chunks).len(),
    decreases chunks.len(),
{
    if chunks.len() > 0 {
        let c = chunks.last();
        lemma_encode_chunks_len(vocab, merges, chunks.drop_last());
        lemma_bpe_len(merges, initial_symbols(c));
        law_ids_and_unknown_cover_symbols(vocab, bpe(merges, initial_symbols(c)));
    }
}

/// Encoding gives at most one id per byte of the chunks that the
/// pre-tokenizer cuts the text into; so, when the chunks join to the
/// text's UTF-8 bytes, at most one id per byte of the text.
pub proof fn law_encode_ids_bounded_by_bytes(t: &BpeTokenizer, text: Seq<char>)
    ensures
        t.spec_pre_encode(text) matches Ok(chunks) ==> (t.spec_encode(text) matches Ok(ids)
            && ids.len() <= join(chunks).len()),
        regex_find_all(t.model().pattern, text) matches Some(chunks) && join(chunks)
            == encode_utf8(text) ==> (t.spec_encode(text) matches Ok(ids) && ids.len()
            <= encode_utf8(text).len()),
{
    if let Some(chunks) = regex_find_all(t.model().pattern, text) {
        lemma_encode_chunks_len(t.vocab(), t.merge_list(), chunks);
    }
}

/// Whether byte `b` is printable in the GPT-2 byte-level alphabet: `!`
/// to `~`, `¡` to `¬`, and `®` to `ÿ`.
pub open spec fn printable_byte(b: int) -> bool {
    (33 <= b <= 126) || (161 <= b <= 172) || (174 <= b <= 255)
}

/// The number of bytes below `b` that are not printable.
pub open spec fn unprintable_below(b: int) -> int
    decreases b,
{
    if b <= 0 {
        0
    } else {
        unprintable_below(b - 1) + if printable_byte(b - 1) {
            0int
        } else {
            1int
        }
    }
}

proof fn lemma_unprintable_below(b: int)
    requires
        0 <= b <= 256,
    ensures
        unprintable_below(b) == if b <= 33 {
            b
        } else if b <= 127 {
            33
        } else if b <= 161 {
            b - 94
        } else if b <= 173 {
            67
        } else {
            68
        },
    decreases b,
{
    if b > 0 {
        lemma_unprintable_below(b - 1);
    }
}

/// The byte-level alphabet is GPT-2's: a printable byte stands for the
/// character with its own value, and the bytes that are not printable
/// stand, in increasing order, for the characters from U+0100 on.
pub proof fn law_byte_alphabet_is_gpt2(b: u8)
    ensures
        printable_byte(b as int) ==> byte_char_code(b) == b as u32,
        !printable_byte(b as int) ==> byte_char_code(b) == 256 + unprintable_below(b as int),
{
    lemma_unprintable_below(b as int);
}

} // verus!
