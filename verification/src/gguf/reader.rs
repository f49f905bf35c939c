//! Parsing a whole GGUF file: header, metadata, tensor descriptions,
//! alignment padding and tensor data.

use vstd::prelude::*;
use vstd::utf8::{decode_utf8_encode_utf8, encode_utf8};
use crate::binary_reader::{
    BReader,
    agrees,
    short,
    sp_bool,
    sp_bytes,
    sp_i16,
    sp_i32,
    sp_i64,
    sp_i8,
    sp_string,
    sp_u16,
    sp_u32,
    sp_u64,
    sp_u8,
    string_error_position,
    string_len,
};
use crate::error::Error;
use crate::gguf::ggml::{GgmlType, ggml_type_of, is_quantized};
use crate::str_map::StrMap;
use vstd::arithmetic::div_mod::{lemma_fundamental_div_mod, lemma_fundamental_div_mod_converse_mod};
use crate::gguf::header::{
    GGUF_CURRENT_VERSION,
    GGUF_MAGIC,
    GgufHeader,
    GgufMetadata,
    GgufMetadataValue,
    HeaderView,
    MetaValue,
    lookup,
    arch_char_ok,
    arch_name_ok,
    header_from,
    lemma_values_view,
    law_pairs_map_last_wins,
    pairs_map,
    values_view,
};

verus! {

/// What a parser gives: the value read and the offset after it, or the
/// error and the offset where the cursor stopped.
pub type Parsed<T> = Result<(T, int), (Error, int)>;

/// A string read at `pos`.
pub open spec fn string_at(buf: Seq<u8>, pos: int) -> Parsed<Seq<char>> {
    match sp_string(buf, pos) {
        Ok(x) => Ok(x),
        Err(e) => Err((e, string_error_position(buf, pos))),
    }
}

/// Reads a metadata value of type `ty` at `pos`. An unknown type id fails
/// without moving the cursor.
pub open spec fn sp_value(buf: Seq<u8>, pos: int, ty: u32) -> Parsed<MetaValue>
    decreases buf.len() - pos, 0int,
{
    if ty == 0 {
        match sp_u8(buf, pos) {
            Ok((v, p)) => Ok((MetaValue::U8(v), p)),
            Err(e) => Err((e, pos)),
        }
    } else if ty == 1 {
        match sp_i8(buf, pos) {
            Ok((v, p)) => Ok((MetaValue::I8(v), p)),
            Err(e) => Err((e, pos)),
        }
    } else if ty == 2 {
        match sp_u16(buf, pos) {
            Ok((v, p)) => Ok((MetaValue::U16(v), p)),
            Err(e) => Err((e, pos)),
        }
    } else if ty == 3 {
        match sp_i16(buf, pos) {
            Ok((v, p)) => Ok((MetaValue::I16(v), p)),
            Err(e) => Err((e, pos)),
        }
    } else if ty == 4 {
        match sp_u32(buf, pos) {
            Ok((v, p)) => Ok((MetaValue::U32(v), p)),
            Err(e) => Err((e, pos)),
        }
    } else if ty == 5 {
        match sp_i32(buf, pos) {
            Ok((v, p)) => Ok((MetaValue::I32(v), p)),
            Err(e) => Err((e, pos)),
        }
    } else if ty == 6 {
        match sp_u32(buf, pos) {
            Ok((v, p)) => Ok((MetaValue::F32(v), p)),
            Err(e) => Err((e, pos)),
        }
    } else if ty == 7 {
        match sp_bool(buf, pos) {
            Ok((v, p)) => Ok((MetaValue::Boolean(v), p)),
            Err(e) => Err((e, pos)),
        }
    } else if ty == 8 {
        match string_at(buf, pos) {
            Ok((v, p)) => Ok((MetaValue::Str(v), p)),
            Err(e) => Err(e),
        }
    } else if ty == 9 {
        match sp_u32(buf, pos) {
            Err(e) => Err((e, pos)),
            Ok((elem_ty, p1)) => match sp_u64(buf, p1) {
                Err(e) => Err((e, p1)),
                Ok((n, p2)) => match sp_array(buf, p2, elem_ty, n as nat) {
                    Ok((vs, p3)) => Ok((MetaValue::Array(vs), p3)),
                    Err(e) => Err(e),
                },
            },
        }
    } else if ty == 10 {
        match sp_u64(buf, pos) {
            Ok((v, p)) => Ok((MetaValue::U64(v), p)),
            Err(e) => Err((e, pos)),
        }
    } else if ty == 11 {
        match sp_i64(buf, pos) {
            Ok((v, p)) => Ok((MetaValue::I64(v), p)),
            Err(e) => Err((e, pos)),
        }
    } else if ty == 12 {
        match sp_u64(buf, pos) {
            Ok((v, p)) => Ok((MetaValue::F64(v), p)),
            Err(e) => Err((e, pos)),
        }
    } else {
        Err((Error::UnknownValueType { type_id: ty }, pos))
    }
}

/// Reads `n` metadata values of type `ty`, one after the other, at `pos`.
/// (Every value takes at least one byte, so the guard on the offsets never
/// fails.)
pub open spec fn sp_array(buf: Seq<u8>, pos: int, ty: u32, n: nat) -> Parsed<Seq<MetaValue>>
    decreases buf.len() - pos, 1int,
{
    if n == 0 {
        Ok((Seq::empty(), pos))
    } else {
        match sp_value(buf, pos, ty) {
            Err(e) => Err(e),
            Ok((v, p)) => if pos < p <= buf.len() {
                match sp_array(buf, p, ty, (n - 1) as nat) {
                    Ok((vs, q)) => Ok((seq![v] + vs, q)),
                    Err(e) => Err(e),
                }
            } else {
                Err((short(pos, 0), pos))
            },
        }
    }
}

/// Reads a metadata entry: a string key, a `u32` type id and a value of
/// that type.
pub open spec fn sp_kv(buf: Seq<u8>, pos: int) -> Parsed<(Seq<char>, MetaValue)> {
    match string_at(buf, pos) {
        Err(e) => Err(e),
        Ok((key, p1)) => match sp_u32(buf, p1) {
            Err(e) => Err((e, p1)),
            Ok((ty, p2)) => match sp_value(buf, p2, ty) {
                Err(e) => Err(e),
                Ok((v, p3)) => Ok(((key, v), p3)),
            },
        },
    }
}

/// Reads `n` metadata entries, one after the other.
pub open spec fn sp_kvs(buf: Seq<u8>, pos: int, n: nat) -> Parsed<Seq<(Seq<char>, MetaValue)>>
    decreases n,
{
    if n == 0 {
        Ok((Seq::empty(), pos))
    } else {
        match sp_kv(buf, pos) {
            Err(e) => Err(e),
            Ok((kv, p)) => match sp_kvs(buf, p, (n - 1) as nat) {
                Err(e) => Err(e),
                Ok((rest, q)) => Ok((seq![kv] + rest, q)),
            },
        }
    }
}

/// Reads a header: magic number, version, tensor count, metadata count
/// and the metadata entries, then validates the metadata (see `header_from`).
pub open spec fn sp_header(buf: Seq<u8>, pos: int) -> Parsed<HeaderView> {
    match sp_u32(buf, pos) {
        Err(e) => Err((e, pos)),
        Ok((magic, p1)) => if magic != GGUF_MAGIC {
            Err((Error::InvalidMagic { found: magic }, p1))
        } else {
            match sp_u32(buf, p1) {
                Err(e) => Err((e, p1)),
                Ok((version, p2)) => if version != GGUF_CURRENT_VERSION {
                    Err((Error::UnsupportedVersion { found: version }, p2))
                } else {
                    match sp_u64(buf, p2) {
                        Err(e) => Err((e, p2)),
                        Ok((tensor_count, p3)) => match sp_u64(buf, p3) {
                            Err(e) => Err((e, p3)),
                            Ok((kv_count, p4)) => match sp_kvs(buf, p4, kv_count as nat) {
                                Err(e) => Err(e),
                                Ok((pairs, p5)) => match header_from(
                                    magic,
                                    version,
                                    tensor_count,
                                    kv_count,
                                    pairs_map(pairs),
                                ) {
                                    Err(e) => Err((e, p5)),
                                    Ok(h) => Ok((h, p5)),
                                },
                            },
                        },
                    }
                },
            }
        },
    }
}

/// Whether every character of `s` is a lowercase ASCII letter or an ASCII
/// digit.
fn valid_architecture(s: &String) -> (res: bool)
    ensures
        res == arch_name_ok(s@),
{
    broadcast use vstd::string::group_string_axioms;

    let chars = s.as_str().chars();
    for c in it: chars
        invariant
            it.seq() == s@,
            forall|j: int| 0 <= j < it.index() ==> arch_char_ok(#[trigger] s@[j]),
    {
        let u = c as u32;
        if !((0x61 <= u && u <= 0x7a) || (0x30 <= u && u <= 0x39)) {
            return false;
        }
    }
    true
}

/// The model of a tensor description.
pub struct TensorInfoView {
    pub n_dimensions: u32,
    pub dimensions: Seq<u64>,
    pub ggml_type: GgmlType,
    pub offset: u64,
}

/// A tensor description: its shape, element type and the offset of its
/// data within the tensor data.
pub struct GgufTensorInfo {
    pub n_dimensions: u32,
    pub dimensions: Vec<u64>,
    pub ggml_type: GgmlType,
    pub offset: u64,
}

impl View for GgufTensorInfo {
    type V = TensorInfoView;

    open spec fn view(&self) -> TensorInfoView {
        TensorInfoView {
            n_dimensions: self.n_dimensions,
            dimensions: self.dimensions@,
            ggml_type: self.ggml_type,
            offset: self.offset,
        }
    }
}

/// Reads `n` `u64`s, one after the other.
pub open spec fn sp_u64s(buf: Seq<u8>, pos: int, n: nat) -> Parsed<Seq<u64>>
    decreases n,
{
    if n == 0 {
        Ok((Seq::empty(), pos))
    } else {
        match sp_u64(buf, pos) {
            Err(e) => Err((e, pos)),
            Ok((v, p)) => match sp_u64s(buf, p, (n - 1) as nat) {
                Err(e) => Err(e),
                Ok((vs, q)) => Ok((seq![v] + vs, q)),
            },
        }
    }
}

/// Reads a tensor description: name, number of dimensions, the dimensions,
/// ggml type id and data offset.
pub open spec fn sp_tensor_info(buf: Seq<u8>, pos: int) -> Parsed<(Seq<char>, TensorInfoView)> {
    match string_at(buf, pos) {
        Err(e) => Err(e),
        Ok((name, p1)) => match sp_u32(buf, p1) {
            Err(e) => Err((e, p1)),
            Ok((nd, p2)) => match sp_u64s(buf, p2, nd as nat) {
                Err(e) => Err(e),
                Ok((dims, p3)) => match sp_u32(buf, p3) {
                    Err(e) => Err((e, p3)),
                    Ok((raw, p4)) => match ggml_type_of(raw) {
                        None => Err((Error::UnsupportedGgmlType { value: raw }, p4)),
                        Some(t) => match sp_u64(buf, p4) {
                            Err(e) => Err((e, p4)),
                            Ok((offset, p5)) => Ok(
                                (
                                    (
                                        name,
                                        TensorInfoView {
                                            n_dimensions: nd,
                                            dimensions: dims,
                                            ggml_type: t,
                                            offset,
                                        },
                                    ),
                                    p5,
                                ),
                            ),
                        },
                    },
                },
            },
        },
    }
}

/// Reads `n` tensor descriptions, one after the other.
pub open spec fn sp_tensor_infos(buf: Seq<u8>, pos: int, n: nat) -> Parsed<
    Seq<(Seq<char>, TensorInfoView)>,
>
    decreases n,
{
    if n == 0 {
        Ok((Seq::empty(), pos))
    } else {
        match sp_tensor_info(buf, pos) {
            Err(e) => Err(e),
            Ok((t, p)) => match sp_tensor_infos(buf, p, (n - 1) as nat) {
                Err(e) => Err(e),
                Ok((ts, q)) => Ok((seq![t] + ts, q)),
            },
        }
    }
}

/// The tensor descriptions by name (a later one overrides an earlier one
/// with the same name).
pub open spec fn sp_tensor_map(buf: Seq<u8>, pos: int, n: nat) -> Parsed<
    Map<Seq<char>, TensorInfoView>,
> {
    match sp_tensor_infos(buf, pos, n) {
        Err(e) => Err(e),
        Ok((ts, q)) => Ok((pairs_map(ts), q)),
    }
}

/// Whether some tensor holds quantized data.
pub open spec fn has_quantized(m: Map<Seq<char>, TensorInfoView>) -> bool {
    exists|k: Seq<char>| m.contains_key(k) && is_quantized(#[trigger] m[k].ggml_type)
}

/// The number of padding bytes that bring offset `pos` to a multiple of
/// `alignment`.
pub open spec fn padding_len(pos: int, alignment: int) -> int {
    (alignment - pos % alignment) % alignment
}

/// The model of a parsed GGUF file.
pub struct FileView {
    pub header: HeaderView,
    pub tensor_infos: Map<Seq<char>, TensorInfoView>,
    pub padding: Seq<u8>,
    pub tensor_data: Seq<u8>,
}

/// Reads a whole file from `pos`: the header, the tensor descriptions (and
/// the rule that quantized tensors come with `general.quantization_version`),
/// the padding up to the alignment, and the rest of the buffer as tensor
/// data, which leaves the cursor at the end of the buffer.
pub open spec fn sp_file(buf: Seq<u8>, pos: int) -> Parsed<FileView> {
    match sp_header(buf, pos) {
        Err(e) => Err(e),
        Ok((h, p1)) => match sp_tensor_map(buf, p1, h.tensor_count as nat) {
            Err(e) => Err(e),
            Ok((m, p2)) => if has_quantized(m) && h.quantization_version is None {
                Err((Error::MissingQuantizationVersion, p2))
            } else {
                match sp_bytes(buf, p2, padding_len(p2, h.alignment as int)) {
                    Err(e) => Err((e, p2)),
                    Ok((padding, p3)) => Ok(
                        (
                            FileView {
                                header: h,
                                tensor_infos: m,
                                padding,
                                tensor_data: buf.subrange(p3, buf.len() as int),
                            },
                            buf.len() as int,
                        ),
                    ),
                }
            },
        },
    }
}

/// Whether reading the file from `pos` gets to the padding with an
/// alignment of 0, or with an end of padding beyond `usize::MAX`: the
/// padding computation divides by the alignment and adds to the offset
/// there.
pub open spec fn padding_fails(buf: Seq<u8>, pos: int) -> bool {
    &&& sp_header(buf, pos) matches Ok((h, p1))
    &&& sp_tensor_map(buf, p1, h.tensor_count as nat) matches Ok((m, p2))
    &&& !(has_quantized(m) && h.quantization_version is None)
    &&& (h.alignment == 0 || p2 + padding_len(p2, h.alignment as int) > usize::MAX)
}

/// A parsed GGUF file.
pub struct GgufFile {
    pub header: GgufHeader,
    pub tensor_infos: StrMap<GgufTensorInfo>,
    pub _padding: Vec<u8>,
    pub tensor_data: Vec<u8>,
}

impl View for GgufFile {
    type V = FileView;

    open spec fn view(&self) -> FileView {
        FileView {
            header: self.header@,
            tensor_infos: self.tensor_infos@,
            padding: self._padding@,
            tensor_data: self.tensor_data@,
        }
    }
}

/// Whether some tensor in `infos` holds quantized data.
#[verifier::loop_isolation(false)]
pub fn has_quantized_tensor(infos: &StrMap<GgufTensorInfo>) -> (res: bool)
    ensures
        res == has_quantized(infos@),
{
    proof {
        use_type_invariant(infos);
        infos.lemma_entries();
    }
    let mut i: usize = 0;
    while i < infos.entries.len()
        invariant
            i <= infos.entries.len(),
            forall|j: int| 0 <= j < i ==> !is_quantized(#[trigger] infos.entries@[j].1.ggml_type),
        decreases infos.entries.len() - i,
    {
        if infos.entries[i].1.ggml_type.is_quantized() {
            proof {
                let k = infos.entries@[i as int].0@;
                assert(infos@.contains_key(k));
                assert(infos@[k] == infos.entries@[i as int].1@);
                assert(is_quantized(infos@[k].ggml_type));
            }
            return true;
        }
        i += 1;
    }
    proof {
        assert forall|k: Seq<char>| infos@.contains_key(k) implies !is_quantized(
            #[trigger] infos@[k].ggml_type,
        ) by {
            let j = choose|j: int| 0 <= j < infos.entries.len() && infos.entries@[j].0@ == k;
            assert(infos@[infos.entries@[j].0@] == infos.entries@[j].1@);
        }
    }
    false
}

/// Padding takes fewer bytes than the alignment and ends on a multiple of
/// it.
proof fn lemma_padding_aligns(p: int, a: int)
    requires
        p >= 0,
        a > 0,
    ensures
        0 <= padding_len(p, a) < a,
        (p + padding_len(p, a)) % a == 0,
{
    let r = p % a;
    let q = p / a;
    lemma_fundamental_div_mod(p, a);
    if r == 0 {
        lemma_fundamental_div_mod_converse_mod(a, a, 1, 0);
        assert(padding_len(p, a) == 0);
    } else {
        lemma_fundamental_div_mod_converse_mod(a - r, a, 0, a - r);
        assert(padding_len(p, a) == a - r);
        assert(p + (a - r) == (q + 1) * a + 0) by (nonlinear_arith)
            requires
                p == a * q + r,
        ;
        lemma_fundamental_div_mod_converse_mod(p + (a - r), a, q + 1, 0);
    }
}

/// What every successfully read file satisfies: the magic number and the
/// version are the supported ones; the architecture, which is the string
/// under `general.architecture`, holds only lowercase ASCII letters and
/// digits; the alignment is a multiple of 8; a quantization version is
/// present whenever some tensor is quantized; and the tensor data is the
/// rest of the buffer from an offset that is a multiple of the alignment,
/// reached by fewer padding bytes than the alignment.
pub proof fn law_read_file_is_well_formed(buf: Seq<u8>, pos: int)
    requires
        0 <= pos,
    ensures
        sp_file(buf, pos) matches Ok((f, _)) ==> {
            &&& f.header.magic == GGUF_MAGIC
            &&& f.header.version == GGUF_CURRENT_VERSION
            &&& arch_name_ok(f.header.architecture)
            &&& lookup(f.header.metadata, "general.architecture"@) == Some(
                MetaValue::Str(f.header.architecture),
            )
            &&& f.header.alignment % 8 == 0
            &&& has_quantized(f.tensor_infos) ==> f.header.quantization_version is Some
            &&& f.header.alignment > 0 ==> {
                &&& f.padding.len() < f.header.alignment
                &&& exists|p: int|
                    0 <= p <= buf.len() && p % (f.header.alignment as int) == 0 && f.tensor_data
                        == buf.subrange(p, buf.len() as int)
            }
        },
{
    match sp_header(buf, pos) {
        Ok((h, p1)) => {
            match sp_tensor_map(buf, p1, h.tensor_count as nat) {
                Ok((m, p2)) => {
                    lemma_tensor_infos_pos(buf, p1, h.tensor_count as nat);
                    lemma_sp_header_pos(buf, pos);
                    if h.alignment > 0 {
                        lemma_padding_aligns(p2, h.alignment as int);
                        let pad = padding_len(p2, h.alignment as int);
                        if p2 + pad <= buf.len() {
                            assert((p2 + pad) % (h.alignment as int) == 0);
                        }
                    }
                },
                Err(_) => {},
            }
        },
        Err(_) => {},
    }
}

/// Where a parse leaves the cursor, whether it succeeds or fails.
pub open spec fn stop<T>(r: Parsed<T>) -> int {
    match r {
        Ok((_, p)) => p,
        Err((_, p)) => p,
    }
}

/// The cursor stays between `pos` and the end of the buffer.
pub open spec fn within<T>(buf: Seq<u8>, pos: int, r: Parsed<T>) -> bool {
    &&& pos <= stop(r)
    &&& pos <= buf.len() ==> stop(r) <= buf.len()
}

proof fn lemma_string_within(buf: Seq<u8>, pos: int)
    ensures
        within(buf, pos, string_at(buf, pos)),
{
}

/// Reading a value never moves backwards, nor past the end of the buffer.
proof fn lemma_value_pos(buf: Seq<u8>, pos: int, ty: u32)
    ensures
        within(buf, pos, sp_value(buf, pos, ty)),
    decreases buf.len() - pos, 0int,
{
    lemma_string_within(buf, pos);
    if ty == 9 {
        match sp_u32(buf, pos) {
            Ok((elem_ty, p1)) => match sp_u64(buf, p1) {
                Ok((n, p2)) => {
                    lemma_array_pos(buf, p2, elem_ty, n as nat);
                },
                Err(_) => {},
            },
            Err(_) => {},
        }
    }
}

proof fn lemma_array_pos(buf: Seq<u8>, pos: int, ty: u32, n: nat)
    ensures
        within(buf, pos, sp_array(buf, pos, ty, n)),
    decreases buf.len() - pos, 1int,
{
    if n > 0 {
        lemma_value_pos(buf, pos, ty);
        match sp_value(buf, pos, ty) {
            Ok((v, p)) => {
                if pos < p <= buf.len() {
                    lemma_array_pos(buf, p, ty, (n - 1) as nat);
                }
            },
            Err(_) => {},
        }
    }
}

proof fn lemma_kv_pos(buf: Seq<u8>, pos: int)
    ensures
        within(buf, pos, sp_kv(buf, pos)),
{
    lemma_string_within(buf, pos);
    match string_at(buf, pos) {
        Ok((key, p1)) => match sp_u32(buf, p1) {
            Ok((ty, p2)) => {
                lemma_value_pos(buf, p2, ty);
            },
            Err(_) => {},
        },
        Err(_) => {},
    }
}

proof fn lemma_kvs_pos(buf: Seq<u8>, pos: int, n: nat)
    ensures
        within(buf, pos, sp_kvs(buf, pos, n)),
    decreases n,
{
    if n > 0 {
        lemma_kv_pos(buf, pos);
        match sp_kv(buf, pos) {
            Ok((kv, p)) => {
                lemma_kvs_pos(buf, p, (n - 1) as nat);
            },
            Err(_) => {},
        }
    }
}

proof fn lemma_sp_header_pos(buf: Seq<u8>, pos: int)
    ensures
        within(buf, pos, sp_header(buf, pos)),
{
    match sp_u32(buf, pos) {
        Ok((magic, p1)) => match sp_u32(buf, p1) {
            Ok((version, p2)) => match sp_u64(buf, p2) {
                Ok((tc, p3)) => match sp_u64(buf, p3) {
                    Ok((kvc, p4)) => {
                        lemma_kvs_pos(buf, p4, kvc as nat);
                    },
                    Err(_) => {},
                },
                Err(_) => {},
            },
            Err(_) => {},
        },
        Err(_) => {},
    }
}

proof fn lemma_u64s_pos(buf: Seq<u8>, pos: int, n: nat)
    ensures
        within(buf, pos, sp_u64s(buf, pos, n)),
    decreases n,
{
    if n > 0 {
        match sp_u64(buf, pos) {
            Ok((v, p)) => {
                lemma_u64s_pos(buf, p, (n - 1) as nat);
            },
            Err(_) => {},
        }
    }
}

proof fn lemma_tensor_info_pos(buf: Seq<u8>, pos: int)
    ensures
        within(buf, pos, sp_tensor_info(buf, pos)),
{
    lemma_string_within(buf, pos);
    match string_at(buf, pos) {
        Ok((name, p1)) => match sp_u32(buf, p1) {
            Ok((nd, p2)) => {
                lemma_u64s_pos(buf, p2, nd as nat);
            },
            Err(_) => {},
        },
        Err(_) => {},
    }
}

proof fn lemma_tensor_infos_pos(buf: Seq<u8>, pos: int, n: nat)
    ensures
        within(buf, pos, sp_tensor_infos(buf, pos, n)),
    decreases n,
{
    if n > 0 {
        lemma_tensor_info_pos(buf, pos);
        match sp_tensor_info(buf, pos) {
            Ok((t, p)) => {
                lemma_tensor_infos_pos(buf, p, (n - 1) as nat);
            },
            Err(_) => {},
        }
    }
}

/// Reading a file from a position within the buffer leaves the cursor
/// between that position and the end of the buffer, whether the read
/// succeeds or fails; a successful read leaves it at the end.
pub proof fn law_read_stays_in_buffer(buf: Seq<u8>, pos: int)
    requires
        0 <= pos <= buf.len(),
    ensures
        pos <= stop(sp_file(buf, pos)) <= buf.len(),
        sp_file(buf, pos) is Ok ==> stop(sp_file(buf, pos)) == buf.len(),
{
    lemma_sp_header_pos(buf, pos);
    match sp_header(buf, pos) {
        Ok((h, p1)) => {
            lemma_tensor_infos_pos(buf, p1, h.tensor_count as nat);
        },
        Err(_) => {},
    }
}

/// Reading `n` entries that succeeds gives `n` entries.
proof fn lemma_kvs_len(buf: Seq<u8>, pos: int, n: nat)
    ensures
        sp_kvs(buf, pos, n) matches Ok((kvs, p)) ==> kvs.len() == n,
    decreases n,
{
    if n > 0 {
        match sp_kv(buf, pos) {
            Ok((kv, p)) => {
                lemma_kvs_len(buf, p, (n - 1) as nat);
            },
            Err(_) => {},
        }
    }
}

/// A header read at `pos` carries the tensor count and the metadata count
/// stored after the magic number and the version; its metadata is the map
/// of exactly `metadata_kv_count` entries read one after the other from
/// `pos + 24` up to where the header ends, so (see
/// `law_pairs_map_last_wins`) it holds exactly their keys, each with the
/// value of its last entry, and no more keys than `metadata_kv_count`.
pub proof fn law_header_counts_and_metadata(buf: Seq<u8>, pos: int)
    ensures
        sp_header(buf, pos) matches Ok((h, p)) ==> {
            &&& sp_u64(buf, pos + 8) == Ok::<(u64, int), Error>((h.tensor_count, pos + 16))
            &&& sp_u64(buf, pos + 16) == Ok::<(u64, int), Error>((h.metadata_kv_count, pos + 24))
            &&& sp_kvs(buf, pos + 24, h.metadata_kv_count as nat) matches Ok((pairs, q)) && {
                &&& q == p
                &&& pairs.len() == h.metadata_kv_count
                &&& h.metadata == pairs_map(pairs)
            }
            &&& h.metadata.dom().len() <= h.metadata_kv_count
        },
{
    match sp_header(buf, pos) {
        Ok((h, p)) => {
            lemma_kvs_len(buf, pos + 24, h.metadata_kv_count as nat);
            match sp_kvs(buf, pos + 24, h.metadata_kv_count as nat) {
                Ok((pairs, q)) => {
                    assert(pairs_map(pairs).dom().len() <= pairs.len()) by {
                        law_pairs_map_last_wins(pairs);
                    }
                },
                Err(_) => {},
            }
        },
        Err(_) => {},
    }
}

/// When the header and the tensor descriptions read, some tensor is
/// quantized and the header has no quantization version, reading the file
/// fails with `MissingQuantizationVersion`, with the cursor after the
/// tensor descriptions; a file that reads has a quantization version
/// whenever some tensor is quantized.
pub proof fn law_quantized_needs_version(buf: Seq<u8>, pos: int)
    ensures
        sp_header(buf, pos) matches Ok((h, p1)) ==> (sp_tensor_map(
            buf,
            p1,
            h.tensor_count as nat,
        ) matches Ok((m, p2)) ==> (has_quantized(m) && h.quantization_version is None
            ==> sp_file(buf, pos) == Err::<(FileView, int), (Error, int)>(
            (Error::MissingQuantizationVersion, p2),
        ))),
        sp_file(buf, pos) matches Ok((f, _)) ==> (has_quantized(f.tensor_infos)
            ==> f.header.quantization_version is Some),
{
}

/// The type id of a metadata value's variant.
pub open spec fn type_id_of(v: MetaValue) -> u32 {
    match v {
        MetaValue::U8(_) => 0,
        MetaValue::I8(_) => 1,
        MetaValue::U16(_) => 2,
        MetaValue::I16(_) => 3,
        MetaValue::U32(_) => 4,
        MetaValue::I32(_) => 5,
        MetaValue::F32(_) => 6,
        MetaValue::Boolean(_) => 7,
        MetaValue::Str(_) => 8,
        MetaValue::Array(_) => 9,
        MetaValue::U64(_) => 10,
        MetaValue::I64(_) => 11,
        MetaValue::F64(_) => 12,
    }
}

proof fn lemma_value_type(buf: Seq<u8>, pos: int, ty: u32)
    ensures
        sp_value(buf, pos, ty) matches Ok((v, _)) ==> type_id_of(v) == ty,
    decreases buf.len() - pos, 0int,
{
}

proof fn lemma_array_values(buf: Seq<u8>, pos: int, ty: u32, n: nat)
    ensures
        sp_array(buf, pos, ty, n) matches Ok((vs, _)) ==> vs.len() == n && forall|i: int|
            0 <= i < vs.len() ==> type_id_of(#[trigger] vs[i]) == ty,
    decreases buf.len() - pos, 1int,
{
    if n > 0 {
        lemma_value_type(buf, pos, ty);
        match sp_value(buf, pos, ty) {
            Ok((v, p)) => {
                if pos < p <= buf.len() {
                    lemma_array_values(buf, p, ty, (n - 1) as nat);
                    match sp_array(buf, p, ty, (n - 1) as nat) {
                        Ok((vs, q)) => {
                            let all = seq![v] + vs;
                            assert forall|i: int| 0 <= i < all.len() implies type_id_of(
                                #[trigger] all[i],
                            ) == ty by {
                                if i > 0 {
                                    assert(all[i] == vs[i - 1]);
                                }
                            }
                        },
                        Err(_) => {},
                    }
                }
            },
            Err(_) => {},
        }
    }
}

/// A value read with type id `ty` is of that type. An array (type id 9)
/// is read as a `u32` element type `e` at `pos`, a `u64` count `n` at
/// `pos + 4` and then its elements from `pos + 12`; when it reads, it holds
/// exactly `n` values, each of type `e`.
pub proof fn law_value_has_its_type(buf: Seq<u8>, pos: int, ty: u32)
    ensures
        sp_value(buf, pos, ty) matches Ok((v, _)) ==> type_id_of(v) == ty,
        sp_value(buf, pos, ty) matches Ok((MetaValue::Array(vs), _)) ==> {
            &&& sp_u32(buf, pos) is Ok
            &&& sp_u64(buf, pos + 4) is Ok
            &&& vs.len() == sp_u64(buf, pos + 4)->Ok_0.0
            &&& forall|i: int|
                0 <= i < vs.len() ==> type_id_of(#[trigger] vs[i]) == sp_u32(buf, pos)->Ok_0.0
        },
{
    lemma_value_type(buf, pos, ty);
    if ty == 9 {
        match sp_u32(buf, pos) {
            Ok((e, p1)) => match sp_u64(buf, p1) {
                Ok((n, p2)) => {
                    lemma_array_values(buf, p2, e, n as nat);
                },
                Err(_) => {},
            },
            Err(_) => {},
        }
    }
}

/// The bytes a tensor description takes: the name's length (8), the
/// name's UTF-8 bytes, the number of dimensions (4), 8 per dimension, the
/// type id (4) and the data offset (8).
pub open spec fn tensor_record_size(t: (Seq<char>, TensorInfoView)) -> int {
    (24 + encode_utf8(t.0).len() + 8 * t.1.dimensions.len()) as int
}

/// The bytes that the tensor descriptions `ts` take, one after the other.
pub open spec fn records_size(ts: Seq<(Seq<char>, TensorInfoView)>) -> int
    decreases ts.len(),
{
    if ts.len() == 0 {
        0
    } else {
        tensor_record_size(ts[0]) + records_size(ts.drop_first())
    }
}

proof fn lemma_u64s_layout(buf: Seq<u8>, pos: int, n: nat)
    ensures
        sp_u64s(buf, pos, n) matches Ok((vs, q)) ==> vs.len() == n && q == pos + 8 * n,
    decreases n,
{
    if n > 0 {
        match sp_u64(buf, pos) {
            Ok((v, p)) => {
                lemma_u64s_layout(buf, p, (n - 1) as nat);
            },
            Err(_) => {},
        }
    }
}

proof fn lemma_tensor_info_layout(buf: Seq<u8>, pos: int)
    requires
        0 <= pos,
    ensures
        sp_tensor_info(buf, pos) matches Ok((t, p)) ==> {
            &&& t.1.dimensions.len() == t.1.n_dimensions
            &&& p == pos + tensor_record_size(t)
        },
{
    match string_at(buf, pos) {
        Ok((name, p1)) => {
            let n = sp_u64(buf, pos)->Ok_0.0;
            let len = string_len(n);
            let bytes = buf.subrange(pos + 8, pos + 8 + len);
            assert(sp_bytes(buf, pos + 8, len) == Ok::<(Seq<u8>, int), Error>((bytes, pos + 8 + len)));
            assert(bytes.len() == len);
            decode_utf8_encode_utf8(bytes);
            assert(p1 == pos + 8 + encode_utf8(name).len());
            match sp_u32(buf, p1) {
                Ok((nd, p2)) => {
                    lemma_u64s_layout(buf, p2, nd as nat);
                },
                Err(_) => {},
            }
        },
        Err(_) => {},
    }
}

/// Tensor descriptions that read are `n` records laid out one after the
/// other: each has as many dimensions as its `n_dimensions`, and the cursor
/// ends at `pos` plus the records' sizes (see `tensor_record_size`). Their
/// map by name holds at most `n` entries, each the value of some record
/// with that name (the last one, by `law_pairs_map_last_wins`).
pub proof fn law_tensor_infos_layout(buf: Seq<u8>, pos: int, n: nat)
    requires
        0 <= pos,
    ensures
        sp_tensor_infos(buf, pos, n) matches Ok((ts, q)) ==> {
            &&& ts.len() == n
            &&& forall|i: int|
                0 <= i < ts.len() ==> (#[trigger] ts[i]).1.dimensions.len() == ts[i].1.n_dimensions
            &&& q == pos + records_size(ts)
        },
        sp_tensor_map(buf, pos, n) matches Ok((m, q)) ==> {
            &&& m.dom().len() <= n
            &&& forall|k: Seq<char>|
                #[trigger] m.contains_key(k) ==> m[k].dimensions.len() == m[k].n_dimensions
        },
    decreases n,
{
    if n > 0 {
        lemma_tensor_info_layout(buf, pos);
        match sp_tensor_info(buf, pos) {
            Ok((t, p)) => {
                law_tensor_infos_layout(buf, p, (n - 1) as nat);
                match sp_tensor_infos(buf, p, (n - 1) as nat) {
                    Ok((ts, q)) => {
                        let all = seq![t] + ts;
                        assert(all.drop_first() =~= ts);
                        assert forall|i: int| 0 <= i < all.len() implies (
                        #[trigger] all[i]).1.dimensions.len() == all[i].1.n_dimensions by {
                            if i > 0 {
                                assert(all[i] == ts[i - 1]);
                            }
                        }
                    },
                    Err(_) => {},
                }
            },
            Err(_) => {},
        }
    }
    if let Ok((ts, q)) = sp_tensor_infos(buf, pos, n) {
        law_pairs_map_last_wins(ts);
        assert forall|k: Seq<char>| #[trigger] pairs_map(ts).contains_key(k) implies pairs_map(
            ts,
        )[k].dimensions.len() == pairs_map(ts)[k].n_dimensions by {
            let i = choose|i: int|
                0 <= i < ts.len() && (#[trigger] ts[i]).0 == k && ts[i].1 == pairs_map(ts)[k];
        }
    }
}

/// The unsigned little-endian value of the `n` bytes of `buf` at `pos`:
/// the first byte is the least significant.
pub open spec fn le_bytes(buf: Seq<u8>, pos: int, n: nat) -> int
    decreases n,
{
    if n == 0 {
        0
    } else {
        buf[pos] + 256 * le_bytes(buf, pos + 1, (n - 1) as nat)
    }
}

/// The two's complement reading of the unsigned value `u` of a field whose
/// values number `m`.
pub open spec fn signed(u: int, m: int) -> int {
    if u < m / 2 {
        u
    } else {
        u - m
    }
}

/// The scalar metadata values are the little-endian readings of their
/// bytes at `pos`: type 0 is one byte, 1 that byte signed, 2 and 3 two
/// bytes unsigned and signed, 4 and 5 four bytes, 6 the four bytes of an
/// `f32`, 7 a byte that is `true` exactly when it is 1, 10 and 11 eight
/// bytes, 12 the eight bytes of an `f64`. Each reads exactly when its
/// bytes are in the buffer, and the cursor ends after them. A string (8) is
/// a little-endian 8-byte length followed by that many bytes, which are the
/// UTF-8 encoding of the characters read.
pub proof fn law_scalar_values_are_little_endian(buf: Seq<u8>, pos: int)
    requires
        0 <= pos,
    ensures
        sp_value(buf, pos, 0) is Ok <==> pos + 1 <= buf.len(),
        sp_value(buf, pos, 1) is Ok <==> pos + 1 <= buf.len(),
        sp_value(buf, pos, 2) is Ok <==> pos + 2 <= buf.len(),
        sp_value(buf, pos, 3) is Ok <==> pos + 2 <= buf.len(),
        sp_value(buf, pos, 4) is Ok <==> pos + 4 <= buf.len(),
        sp_value(buf, pos, 5) is Ok <==> pos + 4 <= buf.len(),
        sp_value(buf, pos, 6) is Ok <==> pos + 4 <= buf.len(),
        sp_value(buf, pos, 7) is Ok <==> pos + 1 <= buf.len(),
        sp_value(buf, pos, 10) is Ok <==> pos + 8 <= buf.len(),
        sp_value(buf, pos, 11) is Ok <==> pos + 8 <= buf.len(),
        sp_value(buf, pos, 12) is Ok <==> pos + 8 <= buf.len(),
        sp_value(buf, pos, 0) is Ok ==> sp_value(buf, pos, 0) == Ok::<(MetaValue, int), (Error, int)>(
            (MetaValue::U8(le_bytes(buf, pos, 1) as u8), pos + 1),
        ),
        sp_value(buf, pos, 1) is Ok ==> sp_value(buf, pos, 1) == Ok::<(MetaValue, int), (Error, int)>(
            (MetaValue::I8(signed(le_bytes(buf, pos, 1), 0x100) as i8), pos + 1),
        ),
        sp_value(buf, pos, 2) is Ok ==> sp_value(buf, pos, 2) == Ok::<(MetaValue, int), (Error, int)>(
            (MetaValue::U16(le_bytes(buf, pos, 2) as u16), pos + 2),
        ),
        sp_value(buf, pos, 3) is Ok ==> sp_value(buf, pos, 3) == Ok::<(MetaValue, int), (Error, int)>(
            (MetaValue::I16(signed(le_bytes(buf, pos, 2), 0x1_0000) as i16), pos + 2),
        ),
        sp_value(buf, pos, 4) is Ok ==> sp_value(buf, pos, 4) == Ok::<(MetaValue, int), (Error, int)>(
            (MetaValue::U32(le_bytes(buf, pos, 4) as u32), pos + 4),
        ),
        sp_value(buf, pos, 5) is Ok ==> sp_value(buf, pos, 5) == Ok::<(MetaValue, int), (Error, int)>(
            (MetaValue::I32(signed(le_bytes(buf, pos, 4), 0x1_0000_0000) as i32), pos + 4),
        ),
        sp_value(buf, pos, 6) is Ok ==> sp_value(buf, pos, 6) == Ok::<(MetaValue, int), (Error, int)>(
            (MetaValue::F32(le_bytes(buf, pos, 4) as u32), pos + 4),
        ),
        sp_value(buf, pos, 7) is Ok ==> sp_value(buf, pos, 7) == Ok::<(MetaValue, int), (Error, int)>(
            (MetaValue::Boolean(le_bytes(buf, pos, 1) == 1), pos + 1),
        ),
        sp_value(buf, pos, 10) is Ok ==> sp_value(buf, pos, 10) == Ok::<
            (MetaValue, int),
            (Error, int),
        >((MetaValue::U64(le_bytes(buf, pos, 8) as u64), pos + 8)),
        sp_value(buf, pos, 11) is Ok ==> sp_value(buf, pos, 11) == Ok::<
            (MetaValue, int),
            (Error, int),
        >((MetaValue::I64(signed(le_bytes(buf, pos, 8), 0x1_0000_0000_0000_0000) as i64), pos + 8)),
        sp_value(buf, pos, 12) is Ok ==> sp_value(buf, pos, 12) == Ok::<
            (MetaValue, int),
            (Error, int),
        >((MetaValue::F64(le_bytes(buf, pos, 8) as u64), pos + 8)),
        sp_value(buf, pos, 8) matches Ok((MetaValue::Str(s), p)) ==> {
            &&& p == pos + 8 + ((le_bytes(buf, pos, 8) as u64) as usize)
            &&& encode_utf8(s) == buf.subrange(pos + 8, p)
        },
{
    reveal_with_fuel(le_bytes, 9);
    if let Ok((MetaValue::Str(s), p)) = sp_value(buf, pos, 8) {
        let n = sp_u64(buf, pos)->Ok_0.0;
        let len = string_len(n);
        let bytes = buf.subrange(pos + 8, pos + 8 + len);
        decode_utf8_encode_utf8(bytes);
    }
}

/// Tensors of the types F32, F16, F64, I8, I16, I32, I64 and BF16 need no
/// quantization version: when the header and the tensor descriptions read
/// and every tensor is of one of these types, reading the file does not
/// fail for want of one. When some tensor is of another type and the header
/// has no quantization version, reading fails for want of one, with the
/// cursor after the tensor descriptions.
pub proof fn law_plain_tensors_need_no_version(buf: Seq<u8>, pos: int)
    ensures
        sp_header(buf, pos) matches Ok((h, p1)) ==> (sp_tensor_map(
            buf,
            p1,
            h.tensor_count as nat,
        ) matches Ok((m, p2)) ==> {
            &&& (forall|k: Seq<char>|
                #[trigger] m.contains_key(k) ==> {
                    let t = m[k].ggml_type;
                    t == GgmlType::F32 || t == GgmlType::F16 || t == GgmlType::F64 || t
                        == GgmlType::I8 || t == GgmlType::I16 || t == GgmlType::I32 || t
                        == GgmlType::I64 || t == GgmlType::Bf16
                }) ==> !(sp_file(buf, pos) matches Err((Error::MissingQuantizationVersion, _)))
            &&& ((exists|k: Seq<char>|
                #[trigger] m.contains_key(k) && {
                    let t = m[k].ggml_type;
                    !(t == GgmlType::F32 || t == GgmlType::F16 || t == GgmlType::F64 || t
                        == GgmlType::I8 || t == GgmlType::I16 || t == GgmlType::I32 || t
                        == GgmlType::I64 || t == GgmlType::Bf16)
                }) && h.quantization_version is None) ==> sp_file(buf, pos) == Err::<
                (FileView, int),
                (Error, int),
            >((Error::MissingQuantizationVersion, p2))
        }),
{
    if let Ok((h, p1)) = sp_header(buf, pos) {
        if let Ok((m, p2)) = sp_tensor_map(buf, p1, h.tensor_count as nat) {
            if forall|k: Seq<char>|
                #[trigger] m.contains_key(k) ==> {
                    let t = m[k].ggml_type;
                    t == GgmlType::F32 || t == GgmlType::F16 || t == GgmlType::F64 || t
                        == GgmlType::I8 || t == GgmlType::I16 || t == GgmlType::I32 || t
                        == GgmlType::I64 || t == GgmlType::Bf16
                } {
                assert(!has_quantized(m));
            }
        }
    }
}

/// Reads a GGUF file from a cursor over its bytes.
pub struct GgufReader {
    pub b_reader: BReader,
}

impl GgufReader {
    /// Reads `tensor_count` tensor descriptions.
    #[verifier::loop_isolation(false)]
    pub fn read_tensor_infos(&mut self, tensor_count: u64) -> (res: Result<
        StrMap<GgufTensorInfo>,
        Error,
    >)
        ensures
            final(self).b_reader.buffer@ == old(self).b_reader.buffer@,
            match res {
                Ok(m) => sp_tensor_map(
                    old(self).b_reader.buffer@,
                    old(self).b_reader.position as int,
                    tensor_count as nat,
                ) == Ok::<(Map<Seq<char>, TensorInfoView>, int), (Error, int)>(
                    (m@, final(self).b_reader.position as int),
                ),
                Err(e) => sp_tensor_map(
                    old(self).b_reader.buffer@,
                    old(self).b_reader.position as int,
                    tensor_count as nat,
                ) == Err::<(Map<Seq<char>, TensorInfoView>, int), (Error, int)>(
                    (e, final(self).b_reader.position as int),
                ),
            },
    {
        let ghost buf = self.b_reader.buffer@;
        let ghost start = self.b_reader.position as int;
        let mut tensor_infos: StrMap<GgufTensorInfo> = StrMap::new();
        let ghost mut done: Seq<(Seq<char>, TensorInfoView)> = Seq::empty();
        let mut i: u64 = 0;
        assert(pairs_map(done) =~= Map::<Seq<char>, TensorInfoView>::empty());
        while i < tensor_count
            invariant
                self.b_reader.buffer@ == buf,
                i <= tensor_count,
                tensor_infos@ == pairs_map(done),
                sp_tensor_infos(buf, start, tensor_count as nat) == match sp_tensor_infos(
                    buf,
                    self.b_reader.position as int,
                    (tensor_count - i) as nat,
                ) {
                    Ok((rest, q)) => Ok::<(Seq<(Seq<char>, TensorInfoView)>, int), (Error, int)>(
                        (done + rest, q),
                    ),
                    Err(e) => Err(e),
                },
            decreases tensor_count - i,
        {
            let ghost before = self.b_reader.position as int;
            let ghost rest_n = (tensor_count - i - 1) as nat;
            let name = match self.b_reader.read_string() {
                Ok(v) => v,
                Err(e) => {
                    assert(sp_tensor_infos(buf, before, (rest_n + 1) as nat) == Err::<
                        (Seq<(Seq<char>, TensorInfoView)>, int),
                        (Error, int),
                    >((e, self.b_reader.position as int)));
                    return Err(e);
                },
            };
            let n_dimensions = match self.b_reader.read_u32() {
                Ok(v) => v,
                Err(e) => {
                    assert(sp_tensor_infos(buf, before, (rest_n + 1) as nat) == Err::<
                        (Seq<(Seq<char>, TensorInfoView)>, int),
                        (Error, int),
                    >((e, self.b_reader.position as int)));
                    return Err(e);
                },
            };
            let ghost dims_start = self.b_reader.position as int;
            let mut dimensions: Vec<u64> = Vec::new();
            let mut j: u32 = 0;
            while j < n_dimensions
                invariant
                    self.b_reader.buffer@ == buf,
                    j <= n_dimensions,
                    sp_u64s(buf, dims_start, n_dimensions as nat) == match sp_u64s(
                        buf,
                        self.b_reader.position as int,
                        (n_dimensions - j) as nat,
                    ) {
                        Ok((rest, q)) => Ok::<(Seq<u64>, int), (Error, int)>((dimensions@ + rest, q)),
                        Err(e) => Err(e),
                    },
                decreases n_dimensions - j,
            {
                let ghost before_dim = self.b_reader.position as int;
                let d = match self.b_reader.read_u64() {
                    Ok(v) => v,
                    Err(e) => {
                        assert(sp_u64s(buf, before_dim, (n_dimensions - j) as nat) == Err::<
                            (Seq<u64>, int),
                            (Error, int),
                        >((e, self.b_reader.position as int)));
                        assert(sp_tensor_infos(buf, before, (rest_n + 1) as nat) == Err::<
                            (Seq<(Seq<char>, TensorInfoView)>, int),
                            (Error, int),
                        >((e, self.b_reader.position as int)));
                        return Err(e);
                    },
                };
                let ghost old_dims = dimensions@;
                dimensions.push(d);
                proof {
                    match sp_u64s(buf, self.b_reader.position as int, (n_dimensions - j - 1) as nat) {
                        Ok((rest, q)) => {
                            assert(old_dims + (seq![d] + rest) =~= dimensions@ + rest);
                        },
                        Err(e) => {},
                    }
                }
                j += 1;
            }
            assert(dimensions@ + Seq::<u64>::empty() =~= dimensions@);
            let raw_type = match self.b_reader.read_u32() {
                Ok(v) => v,
                Err(e) => {
                    assert(sp_tensor_infos(buf, before, (rest_n + 1) as nat) == Err::<
                        (Seq<(Seq<char>, TensorInfoView)>, int),
                        (Error, int),
                    >((e, self.b_reader.position as int)));
                    return Err(e);
                },
            };
            let ggml_type = match GgmlType::try_from(raw_type) {
                Ok(t) => t,
                Err(e) => {
                    assert(sp_tensor_infos(buf, before, (rest_n + 1) as nat) == Err::<
                        (Seq<(Seq<char>, TensorInfoView)>, int),
                        (Error, int),
                    >((e, self.b_reader.position as int)));
                    return Err(e);
                },
            };
            let offset = match self.b_reader.read_u64() {
                Ok(v) => v,
                Err(e) => {
                    assert(sp_tensor_infos(buf, before, (rest_n + 1) as nat) == Err::<
                        (Seq<(Seq<char>, TensorInfoView)>, int),
                        (Error, int),
                    >((e, self.b_reader.position as int)));
                    return Err(e);
                },
            };
            let info = GgufTensorInfo { n_dimensions, dimensions, ggml_type, offset };
            let ghost entry = (name@, info@);
            proof {
                let old_done = done;
                done = done.push(entry);
                assert(done.drop_last() =~= old_done);
                match sp_tensor_infos(buf, self.b_reader.position as int, rest_n) {
                    Ok((rest, q)) => {
                        assert(old_done + (seq![entry] + rest) =~= done + rest);
                    },
                    Err(e) => {},
                }
            }
            tensor_infos.insert(name, info);
            i += 1;
        }
        assert(done + Seq::<(Seq<char>, TensorInfoView)>::empty() =~= done);
        Ok(tensor_infos)
    }

    /// Reads the padding bytes that bring the position to a multiple of
    /// `alignment`.
    fn read_padding(&mut self, alignment: usize) -> (res: Result<Vec<u8>, Error>)
        requires
            alignment > 0,
        ensures
            final(self).b_reader.buffer@ == old(self).b_reader.buffer@,
            match res {
                Ok(v) => sp_bytes(
                    old(self).b_reader.buffer@,
                    old(self).b_reader.position as int,
                    padding_len(old(self).b_reader.position as int, alignment as int),
                ) == Ok::<(Seq<u8>, int), Error>((v@, final(self).b_reader.position as int)),
                Err(e) => sp_bytes(
                    old(self).b_reader.buffer@,
                    old(self).b_reader.position as int,
                    padding_len(old(self).b_reader.position as int, alignment as int),
                ) == Err::<(Seq<u8>, int), Error>(e) && final(self).b_reader.position == old(
                    self,
                ).b_reader.position,
            },
    {
        let offset = self.b_reader.position;
        let padding = (alignment - (offset % alignment)) % alignment;
        self.b_reader.read_bytes(padding)
    }

    /// Reads the rest of the buffer.
    fn read_tensor_data(&mut self) -> (res: Result<Vec<u8>, Error>)
        requires
            old(self).b_reader.position <= old(self).b_reader.buffer.len(),
        ensures
            final(self).b_reader.buffer@ == old(self).b_reader.buffer@,
            final(self).b_reader.position == old(self).b_reader.buffer.len(),
            res matches Ok(v) && v@ == old(self).b_reader.buffer@.subrange(
                old(self).b_reader.position as int,
                old(self).b_reader.buffer.len() as int,
            ),
    {
        let remaining_bytes = self.b_reader.buffer.len() - self.b_reader.position;
        self.b_reader.read_bytes(remaining_bytes)
    }

    /// Whether reading the file from the current position would reach the
    /// padding with an alignment of 0 or with an end of padding beyond
    /// `usize::MAX`, the inputs that `read` does not accept. The cursor is
    /// put back where it was.
    pub fn padding_would_fail(&mut self) -> (res: bool)
        ensures
            res == padding_fails(old(self).b_reader.buffer@, old(self).b_reader.position as int),
            final(self).b_reader.buffer@ == old(self).b_reader.buffer@,
            final(self).b_reader.position == old(self).b_reader.position,
    {
        let start = self.b_reader.position;
        let res = match self.read_header() {
            Err(_) => false,
            Ok(header) => match self.read_tensor_infos(header.tensor_count) {
                Err(_) => false,
                Ok(tensor_infos) => {
                    if has_quantized_tensor(&tensor_infos) && header.quantization_version.is_none() {
                        false
                    } else if header.alignment == 0 {
                        true
                    } else {
                        let alignment = header.alignment as usize;
                        let offset = self.b_reader.position;
                        let padding = (alignment - (offset % alignment)) % alignment;
                        offset > usize::MAX - padding
                    }
                },
            },
        };
        self.b_reader.position = start;
        res
    }

    /// Reads the whole file from the current position.
    pub fn read(&mut self) -> (res: Result<GgufFile, Error>)
        requires
            !padding_fails(old(self).b_reader.buffer@, old(self).b_reader.position as int),
        ensures
            final(self).b_reader.buffer@ == old(self).b_reader.buffer@,
            match res {
                Ok(f) => sp_file(old(self).b_reader.buffer@, old(self).b_reader.position as int)
                    == Ok::<(FileView, int), (Error, int)>((f@, final(self).b_reader.position as int)),
                Err(e) => sp_file(old(self).b_reader.buffer@, old(self).b_reader.position as int)
                    == Err::<(FileView, int), (Error, int)>((e, final(self).b_reader.position as int)),
            },
    {
        let header = self.read_header()?;
        let tensor_infos = self.read_tensor_infos(header.tensor_count)?;
        let is_quantized = has_quantized_tensor(&tensor_infos);
        if is_quantized && header.quantization_version.is_none() {
            return Err(Error::MissingQuantizationVersion);
        }
        let _padding = self.read_padding(header.alignment as usize)?;
        let tensor_data = self.read_tensor_data()?;
        Ok(GgufFile { header, tensor_infos, _padding, tensor_data })
    }

    /// Reads the header.
    #[verifier::loop_isolation(false)]
    pub fn read_header(&mut self) -> (res: Result<GgufHeader, Error>)
        ensures
            final(self).b_reader.buffer@ == old(self).b_reader.buffer@,
            match res {
                Ok(h) => sp_header(old(self).b_reader.buffer@, old(self).b_reader.position as int)
                    == Ok::<(HeaderView, int), (Error, int)>((h@, final(self).b_reader.position as int)),
                Err(e) => sp_header(old(self).b_reader.buffer@, old(self).b_reader.position as int)
                    == Err::<(HeaderView, int), (Error, int)>((e, final(self).b_reader.position as int)),
            },
    {
        let ghost buf = self.b_reader.buffer@;
        let magic = self.b_reader.read_u32()?;
        if magic != GGUF_MAGIC {
            return Err(Error::InvalidMagic { found: magic });
        }
        let version = self.b_reader.read_u32()?;
        if version != GGUF_CURRENT_VERSION {
            return Err(Error::UnsupportedVersion { found: version });
        }
        let tensor_count = self.b_reader.read_u64()?;
        let metadata_kv_count = self.b_reader.read_u64()?;
        let ghost start = self.b_reader.position as int;
        let mut metadata_kv = GgufMetadata::new();
        let ghost mut done: Seq<(Seq<char>, MetaValue)> = Seq::empty();
        let mut i: u64 = 0;
        assert(pairs_map(done) =~= Map::<Seq<char>, MetaValue>::empty());
        while i < metadata_kv_count
            invariant
                self.b_reader.buffer@ == buf,
                i <= metadata_kv_count,
                metadata_kv@ == pairs_map(done),
                sp_kvs(buf, start, metadata_kv_count as nat) == match sp_kvs(
                    buf,
                    self.b_reader.position as int,
                    (metadata_kv_count - i) as nat,
                ) {
                    Ok((rest, q)) => Ok::<(Seq<(Seq<char>, MetaValue)>, int), (Error, int)>(
                        (done + rest, q),
                    ),
                    Err(e) => Err(e),
                },
            decreases metadata_kv_count - i,
        {
            let ghost before = self.b_reader.position as int;
            let ghost rest_n = (metadata_kv_count - i - 1) as nat;
            let key = match self.b_reader.read_string() {
                Ok(k) => k,
                Err(e) => {
                    assert(sp_kvs(buf, before, (rest_n + 1) as nat) == Err::<
                        (Seq<(Seq<char>, MetaValue)>, int),
                        (Error, int),
                    >((e, self.b_reader.position as int)));
                    return Err(e);
                },
            };
            let value_type = match self.b_reader.read_u32() {
                Ok(t) => t,
                Err(e) => {
                    assert(sp_kvs(buf, before, (rest_n + 1) as nat) == Err::<
                        (Seq<(Seq<char>, MetaValue)>, int),
                        (Error, int),
                    >((e, self.b_reader.position as int)));
                    return Err(e);
                },
            };
            let value = match self.read_metadata_value(value_type) {
                Ok(v) => v,
                Err(e) => {
                    assert(sp_kvs(buf, before, (rest_n + 1) as nat) == Err::<
                        (Seq<(Seq<char>, MetaValue)>, int),
                        (Error, int),
                    >((e, self.b_reader.position as int)));
                    return Err(e);
                },
            };
            let ghost kv = (key@, value@);
            proof {
                let old_done = done;
                done = done.push(kv);
                assert(done.drop_last() =~= old_done);
                match sp_kvs(buf, self.b_reader.position as int, rest_n) {
                    Ok((rest, q)) => {
                        assert(old_done + (seq![kv] + rest) =~= done + rest);
                    },
                    Err(e) => {},
                }
            }
            metadata_kv.insert(key, value);
            i += 1;
        }
        assert(done + Seq::<(Seq<char>, MetaValue)>::empty() =~= done);
        let architecture = match metadata_kv.get("general.architecture") {
            Some(GgufMetadataValue::String(arch)) => {
                if !valid_architecture(arch) {
                    return Err(Error::InvalidArchitecture);
                }
                arch.clone()
            },
            _ => {
                return Err(Error::MissingArchitecture);
            },
        };
        let quantization_version = match metadata_kv.get("general.quantization_version") {
            Some(GgufMetadataValue::U32(version)) => Some(*version),
            None => None,
            _ => {
                return Err(Error::InvalidQuantizationVersion);
            },
        };
        let alignment = match metadata_kv.get("general.alignment") {
            Some(GgufMetadataValue::U32(alignment)) => {
                if alignment % 8 != 0 {
                    return Err(Error::InvalidAlignment { alignment: *alignment });
                }
                *alignment
            },
            Some(_) => {
                return Err(Error::InvalidAlignmentType);
            },
            None => 32,
        };
        Ok(
            GgufHeader {
                magic,
                version,
                tensor_count,
                metadata_kv_count,
                metadata_kv,
                architecture,
                quantization_version,
                alignment,
            },
        )
    }

    /// Reads a metadata value of type `value_type`.
    fn read_metadata_value(&mut self, value_type: u32) -> (res: Result<GgufMetadataValue, Error>)
        ensures
            final(self).b_reader.buffer@ == old(self).b_reader.buffer@,
            match res {
                Ok(v) => sp_value(
                    old(self).b_reader.buffer@,
                    old(self).b_reader.position as int,
                    value_type,
                ) == Ok::<(MetaValue, int), (Error, int)>((v@, final(self).b_reader.position as int))
                    && old(self).b_reader.position < final(self).b_reader.position
                    <= old(self).b_reader.buffer.len(),
                Err(e) => sp_value(
                    old(self).b_reader.buffer@,
                    old(self).b_reader.position as int,
                    value_type,
                ) == Err::<(MetaValue, int), (Error, int)>((e, final(self).b_reader.position as int)),
            },
        decreases old(self).b_reader.buffer.len() - old(self).b_reader.position,
    {
        let ghost buf = self.b_reader.buffer@;
        let ghost pos = self.b_reader.position as int;
        if value_type == 0 {
            Ok(GgufMetadataValue::U8(self.b_reader.read_u8()?))
        } else if value_type == 1 {
            Ok(GgufMetadataValue::I8(self.b_reader.read_i8()?))
        } else if value_type == 2 {
            Ok(GgufMetadataValue::U16(self.b_reader.read_u16()?))
        } else if value_type == 3 {
            Ok(GgufMetadataValue::I16(self.b_reader.read_i16()?))
        } else if value_type == 4 {
            Ok(GgufMetadataValue::U32(self.b_reader.read_u32()?))
        } else if value_type == 5 {
            Ok(GgufMetadataValue::I32(self.b_reader.read_i32()?))
        } else if value_type == 6 {
            Ok(GgufMetadataValue::F32(self.b_reader.read_f32()?))
        } else if value_type == 7 {
            Ok(GgufMetadataValue::Boolean(self.b_reader.read_boolean()?))
        } else if value_type == 8 {
            Ok(GgufMetadataValue::String(self.b_reader.read_string()?))
        } else if value_type == 9 {
            let array_type = self.b_reader.read_u32()?;
            let array_length = self.b_reader.read_u64()?;
            let ghost start = self.b_reader.position as int;
            let mut values: Vec<GgufMetadataValue> = Vec::new();
            let mut i: u64 = 0;
            proof {
                lemma_values_view(values@);
            }
            while i < array_length
                invariant
                    self.b_reader.buffer@ == buf,
                    buf == old(self).b_reader.buffer@,
                    pos == old(self).b_reader.position as int,
                    value_type == 9,
                    sp_u32(buf, pos) == Ok::<(u32, int), Error>((array_type, pos + 4)),
                    sp_u64(buf, pos + 4) == Ok::<(u64, int), Error>((array_length, start)),
                    pos + 12 <= start <= self.b_reader.position <= buf.len(),
                    i <= array_length,
                    sp_array(buf, start, array_type, array_length as nat) == match sp_array(
                        buf,
                        self.b_reader.position as int,
                        array_type,
                        (array_length - i) as nat,
                    ) {
                        Ok((rest, q)) => Ok::<(Seq<MetaValue>, int), (Error, int)>(
                            (values_view(values@) + rest, q),
                        ),
                        Err(e) => Err(e),
                    },
                decreases array_length - i,
            {
                let ghost before = self.b_reader.position as int;
                let ghost old_values = values@;
                let v = match self.read_metadata_value(array_type) {
                    Ok(v) => v,
                    Err(e) => {
                        proof {
                            assert(sp_array(
                                buf,
                                before,
                                array_type,
                                (array_length - i) as nat,
                            ) == Err::<(Seq<MetaValue>, int), (Error, int)>((e, self.b_reader.position as int)));
                        }
                        return Err(e);
                    },
                };
                let ghost vv = v@;
                values.push(v);
                proof {
                    assert(values@.drop_last() =~= old_values);
                    assert(values_view(values@) == values_view(old_values).push(vv));
                    let rest_n = (array_length - i - 1) as nat;
                    match sp_array(buf, self.b_reader.position as int, array_type, rest_n) {
                        Ok((rest, q)) => {
                            assert(values_view(old_values) + (seq![vv] + rest) =~= values_view(
                                values@,
                            ) + rest);
                        },
                        Err(e) => {},
                    }
                }
                i += 1;
            }
            proof {
                assert(values_view(values@) + Seq::<MetaValue>::empty() =~= values_view(values@));
            }
            Ok(GgufMetadataValue::Array(values))
        } else if value_type == 10 {
            Ok(GgufMetadataValue::U64(self.b_reader.read_u64()?))
        } else if value_type == 11 {
            Ok(GgufMetadataValue::I64(self.b_reader.read_i64()?))
        } else if value_type == 12 {
            Ok(GgufMetadataValue::F64(self.b_reader.read_f64()?))
        } else {
            Err(Error::UnknownValueType { type_id: value_type })
        }
    }
}

} // verus!
