//! Metadata values and the GGUF header.

use vstd::prelude::*;
use crate::error::Error;
use crate::str_map::StrMap;

verus! {

/// The magic number at the start of every GGUF file ("GGUF" read as a
/// little-endian `u32`).
pub const GGUF_MAGIC: u32 = 0x46554747;

/// The one GGUF format version that is read.
pub const GGUF_CURRENT_VERSION: u32 = 3;

/// The key-value metadata of a GGUF file.
pub type GgufMetadata = StrMap<GgufMetadataValue>;

/// A metadata value. Floating-point values are held as their IEEE 754 bit
/// patterns.
#[derive(Debug)]
pub enum GgufMetadataValue {
    U8(u8),
    I8(i8),
    U16(u16),
    I16(i16),
    U32(u32),
    I32(i32),
    F32(u32),
    Boolean(bool),
    String(String),
    Array(Vec<GgufMetadataValue>),
    U64(u64),
    I64(i64),
    F64(u64),
}

/// The mathematical model of a metadata value: strings are character
/// sequences and arrays are sequences of models.
pub enum MetaValue {
    U8(u8),
    I8(i8),
    U16(u16),
    I16(i16),
    U32(u32),
    I32(i32),
    F32(u32),
    Boolean(bool),
    Str(Seq<char>),
    Array(Seq<MetaValue>),
    U64(u64),
    I64(i64),
    F64(u64),
}

/// The models of a sequence of metadata values.
pub open spec fn values_view(vs: Seq<GgufMetadataValue>) -> Seq<MetaValue>
    decreases vs,
{
    if vs.len() == 0 {
        Seq::empty()
    } else {
        values_view(vs.drop_last()).push(value_view(vs.last()))
    }
}

/// The model of a metadata value.
pub open spec fn value_view(v: GgufMetadataValue) -> MetaValue
    decreases v,
{
    match v {
        GgufMetadataValue::U8(x) => MetaValue::U8(x),
        GgufMetadataValue::I8(x) => MetaValue::I8(x),
        GgufMetadataValue::U16(x) => MetaValue::U16(x),
        GgufMetadataValue::I16(x) => MetaValue::I16(x),
        GgufMetadataValue::U32(x) => MetaValue::U32(x),
        GgufMetadataValue::I32(x) => MetaValue::I32(x),
        GgufMetadataValue::F32(x) => MetaValue::F32(x),
        GgufMetadataValue::Boolean(x) => MetaValue::Boolean(x),
        GgufMetadataValue::String(s) => MetaValue::Str(s@),
        GgufMetadataValue::Array(vs) => MetaValue::Array(values_view(vs@)),
        GgufMetadataValue::U64(x) => MetaValue::U64(x),
        GgufMetadataValue::I64(x) => MetaValue::I64(x),
        GgufMetadataValue::F64(x) => MetaValue::F64(x),
    }
}

/// The models of a sequence of values are the values' models, one for one.
pub proof fn lemma_values_view(vs: Seq<GgufMetadataValue>)
    ensures
        values_view(vs).len() == vs.len(),
        forall|i: int| 0 <= i < vs.len() ==> #[trigger] values_view(vs)[i] == value_view(vs[i]),
    decreases vs.len(),
{
    if vs.len() > 0 {
        lemma_values_view(vs.drop_last());
        assert forall|i: int| 0 <= i < vs.len() implies #[trigger] values_view(vs)[i] == value_view(
            vs[i],
        ) by {
            if i < vs.len() - 1 {
                assert(vs.drop_last()[i] == vs[i]);
            }
        }
    }
}

impl View for GgufMetadataValue {
    type V = MetaValue;

    open spec fn view(&self) -> MetaValue {
        value_view(*self)
    }
}

/// The value under `key`, if there is one.
pub open spec fn lookup(md: Map<Seq<char>, MetaValue>, key: Seq<char>) -> Option<MetaValue> {
    if md.contains_key(key) {
        Some(md[key])
    } else {
        None
    }
}

/// The map that a sequence of key-value pairs builds when each pair is
/// inserted in turn, so that a later pair overrides an earlier one with the
/// same key.
pub open spec fn pairs_map<V>(pairs: Seq<(Seq<char>, V)>) -> Map<Seq<char>, V>
    decreases pairs.len(),
{
    if pairs.len() == 0 {
        Map::empty()
    } else {
        pairs_map(pairs.drop_last()).insert(pairs.last().0, pairs.last().1)
    }
}

/// The map built from `pairs` holds exactly the keys of the pairs; under
/// each key it holds the value of the last pair with that key; and it has
/// no more keys than there are pairs; so each of its values is the value
/// of some pair with that key.
pub proof fn law_pairs_map_last_wins<V>(pairs: Seq<(Seq<char>, V)>)
    ensures
        forall|k: Seq<char>|
            #[trigger] pairs_map(pairs).contains_key(k) ==> exists|i: int|
                0 <= i < pairs.len() && (#[trigger] pairs[i]).0 == k && pairs[i].1 == pairs_map(
                    pairs,
                )[k],
        pairs_map(pairs).dom().finite(),
        pairs_map(pairs).dom().len() <= pairs.len(),
        forall|k: Seq<char>|
            #[trigger] pairs_map(pairs).contains_key(k) <==> exists|i: int|
                0 <= i < pairs.len() && (#[trigger] pairs[i]).0 == k,
        forall|i: int|
            0 <= i < pairs.len() && (forall|j: int| i < j < pairs.len() ==> (#[trigger] pairs[j]).0
                != pairs[i].0) ==> pairs_map(pairs)[(#[trigger] pairs[i]).0] == pairs[i].1,
    decreases pairs.len(),
{
    if pairs.len() > 0 {
        let init = pairs.drop_last();
        let last = pairs.last();
        law_pairs_map_last_wins(init);
        assert forall|k: Seq<char>|
            #[trigger] pairs_map(pairs).contains_key(k) implies exists|i: int|
                0 <= i < pairs.len() && (#[trigger] pairs[i]).0 == k && pairs[i].1 == pairs_map(
                    pairs,
                )[k] by {
            if k == last.0 {
                assert(pairs[pairs.len() - 1] == last);
            } else {
                let i = choose|i: int|
                    0 <= i < init.len() && (#[trigger] init[i]).0 == k && init[i].1 == pairs_map(
                        init,
                    )[k];
                assert(pairs[i] == init[i]);
            }
        }
        assert forall|k: Seq<char>|
            #[trigger] pairs_map(pairs).contains_key(k) <==> exists|i: int|
                0 <= i < pairs.len() && (#[trigger] pairs[i]).0 == k by {
            if pairs_map(pairs).contains_key(k) && k != last.0 {
                let i = choose|i: int| 0 <= i < init.len() && (#[trigger] init[i]).0 == k;
                assert(pairs[i] == init[i]);
            }
            if exists|i: int| 0 <= i < pairs.len() && (#[trigger] pairs[i]).0 == k {
                let i = choose|i: int| 0 <= i < pairs.len() && (#[trigger] pairs[i]).0 == k;
                if i < pairs.len() - 1 {
                    assert(pairs[i] == init[i]);
                }
            }
        }
        assert forall|i: int|
            0 <= i < pairs.len() && (forall|j: int| i < j < pairs.len() ==> (#[trigger] pairs[j]).0
                != pairs[i].0) implies pairs_map(pairs)[(#[trigger] pairs[i]).0] == pairs[i].1 by {
            if i < pairs.len() - 1 {
                assert(pairs[i] == init[i]);
                assert(pairs[pairs.len() - 1].0 != pairs[i].0);
                assert forall|j: int| i < j < init.len() implies (#[trigger] init[j]).0
                    != init[i].0 by {
                    assert(init[j] == pairs[j]);
                }
            }
        }
    }
}

/// Whether `c` may appear in an architecture name: a lowercase ASCII letter
/// or an ASCII digit.
pub open spec fn arch_char_ok(c: char) -> bool {
    (0x61 <= (c as u32) && (c as u32) <= 0x7a) || (0x30 <= (c as u32) && (c as u32) <= 0x39)
}

/// Whether every character of `s` may appear in an architecture name.
pub open spec fn arch_name_ok(s: Seq<char>) -> bool {
    forall|i: int| 0 <= i < s.len() ==> arch_char_ok(#[trigger] s[i])
}

/// The model of a GGUF header.
pub struct HeaderView {
    pub magic: u32,
    pub version: u32,
    pub tensor_count: u64,
    pub metadata_kv_count: u64,
    pub metadata: Map<Seq<char>, MetaValue>,
    pub architecture: Seq<char>,
    pub quantization_version: Option<u32>,
    pub alignment: u32,
}

/// The header with the given fields and metadata `md`, after the rules on
/// `general.architecture` (a string of lowercase letters and digits),
/// `general.quantization_version` (a `U32` when present) and
/// `general.alignment` (a `U32` multiple of 8 when present, 32 when absent).
pub open spec fn header_from(
    magic: u32,
    version: u32,
    tensor_count: u64,
    metadata_kv_count: u64,
    md: Map<Seq<char>, MetaValue>,
) -> Result<HeaderView, Error> {
    match lookup(md, "general.architecture"@) {
        Some(MetaValue::Str(arch)) => if !arch_name_ok(arch) {
            Err(Error::InvalidArchitecture)
        } else {
            let qv = lookup(md, "general.quantization_version"@);
            if qv is Some && !(qv matches Some(MetaValue::U32(_))) {
                Err(Error::InvalidQuantizationVersion)
            } else {
                let quantization_version = match qv {
                    Some(MetaValue::U32(v)) => Some(v),
                    _ => None,
                };
                match lookup(md, "general.alignment"@) {
                    Some(MetaValue::U32(a)) => if a % 8 != 0 {
                        Err(Error::InvalidAlignment { alignment: a })
                    } else {
                        Ok(
                            HeaderView {
                                magic,
                                version,
                                tensor_count,
                                metadata_kv_count,
                                metadata: md,
                                architecture: arch,
                                quantization_version,
                                alignment: a,
                            },
                        )
                    },
                    Some(_) => Err(Error::InvalidAlignmentType),
                    None => Ok(
                        HeaderView {
                            magic,
                            version,
                            tensor_count,
                            metadata_kv_count,
                            metadata: md,
                            architecture: arch,
                            quantization_version,
                            alignment: 32,
                        },
                    ),
                }
            }
        },
        _ => Err(Error::MissingArchitecture),
    }
}

/// A GGUF header.
#[derive(Debug)]
pub struct GgufHeader {
    pub magic: u32,
    pub version: u32,
    pub tensor_count: u64,
    pub metadata_kv_count: u64,
    pub metadata_kv: GgufMetadata,
    pub architecture: String,
    pub quantization_version: Option<u32>,
    pub alignment: u32,
}

impl View for GgufHeader {
    type V = HeaderView;

    open spec fn view(&self) -> HeaderView {
        HeaderView {
            magic: self.magic,
            version: self.version,
            tensor_count: self.tensor_count,
            metadata_kv_count: self.metadata_kv_count,
            metadata: self.metadata_kv@,
            architecture: self.architecture@,
            quantization_version: self.quantization_version,
            alignment: self.alignment,
        }
    }
}

} // verus!
