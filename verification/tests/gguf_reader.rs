use gguf_tokenizer::binary_reader::BReader;
use gguf_tokenizer::error::Error;
use gguf_tokenizer::gguf::ggml::GgmlType;
use gguf_tokenizer::gguf::header::GgufMetadataValue;
use gguf_tokenizer::gguf::reader::GgufReader;

fn push_string(bytes: &mut Vec<u8>, s: &str) {
    bytes.extend_from_slice(&(s.len() as u64).to_le_bytes());
    bytes.extend_from_slice(s.as_bytes());
}

/// A file start: magic, version, tensor count and metadata count.
fn start(tensor_count: u64, kv_count: u64) -> Vec<u8> {
    let mut bytes = Vec::new();
    bytes.extend_from_slice(&0x46554747u32.to_le_bytes());
    bytes.extend_from_slice(&3u32.to_le_bytes());
    bytes.extend_from_slice(&tensor_count.to_le_bytes());
    bytes.extend_from_slice(&kv_count.to_le_bytes());
    bytes
}

fn push_architecture(bytes: &mut Vec<u8>, arch: &str) {
    push_string(bytes, "general.architecture");
    bytes.extend_from_slice(&8u32.to_le_bytes());
    push_string(bytes, arch);
}

/// Pads to the default alignment of 32 bytes.
fn pad32(mut bytes: Vec<u8>) -> Vec<u8> {
    while bytes.len() % 32 != 0 {
        bytes.push(0);
    }
    bytes
}

fn read(bytes: Vec<u8>) -> Result<gguf_tokenizer::gguf::reader::GgufFile, Error> {
    let mut reader = GgufReader { b_reader: BReader::new(bytes) };
    reader.read()
}

#[test]
fn test_read_minimal_gguf() {
    let mut bytes = Vec::new();
    bytes.extend_from_slice(&0x46554747u32.to_le_bytes()); // magic
    bytes.extend_from_slice(&3u32.to_le_bytes()); // version
    bytes.extend_from_slice(&0u64.to_le_bytes()); // tensor count
    bytes.extend_from_slice(&1u64.to_le_bytes()); // metadata KV count

    // Metadata KV: "general.architecture" = "llama"
    let key = "general.architecture";
    bytes.extend_from_slice(&(key.len() as u64).to_le_bytes());
    bytes.extend_from_slice(key.as_bytes());

    bytes.extend_from_slice(&8u32.to_le_bytes()); // Type ID 8: String

    let val = "llama";
    bytes.extend_from_slice(&(val.len() as u64).to_le_bytes());
    bytes.extend_from_slice(val.as_bytes());

    // Pad the file bytes to align with 32-byte boundary, and add dummy tensor data
    let alignment = 32;
    let padding_needed = (alignment - (bytes.len() % alignment)) % alignment;
    bytes.extend(std::iter::repeat(0).take(padding_needed));
    bytes.extend_from_slice(b"tensor-payload");

    let mut reader = GgufReader { b_reader: BReader::new(bytes) };
    let gguf_file = reader.read().unwrap();

    assert_eq!(gguf_file.header.magic, 0x46554747);
    assert_eq!(gguf_file.header.version, 3);
    assert_eq!(gguf_file.header.architecture, "llama");
    assert_eq!(gguf_file.header.alignment, 32);
    assert_eq!(gguf_file.tensor_infos.len(), 0);
    assert_eq!(gguf_file.tensor_data, b"tensor-payload");
}

#[test]
fn wrong_magic_is_rejected() {
    let mut bytes = start(0, 0);
    bytes[0] = b'X';
    let found = u32::from_le_bytes([b'X', b'G', b'U', b'F']);
    assert_eq!(read(bytes).err(), Some(Error::InvalidMagic { found }));
}

#[test]
fn other_versions_are_rejected() {
    let mut bytes = start(0, 0);
    bytes[4] = 2;
    assert_eq!(read(bytes).err(), Some(Error::UnsupportedVersion { found: 2 }));
}

#[test]
fn architecture_is_required() {
    assert_eq!(read(start(0, 0)).err(), Some(Error::MissingArchitecture));
}

#[test]
fn architecture_must_be_lowercase_alphanumeric() {
    let mut bytes = start(0, 1);
    push_architecture(&mut bytes, "Llama");
    assert_eq!(read(bytes).err(), Some(Error::InvalidArchitecture));
    let mut bytes = start(0, 1);
    push_architecture(&mut bytes, "qwen2");
    assert_eq!(read(pad32(bytes)).unwrap().header.architecture, "qwen2");
}

#[test]
fn alignment_must_be_a_multiple_of_eight() {
    let mut bytes = start(0, 2);
    push_architecture(&mut bytes, "llama");
    push_string(&mut bytes, "general.alignment");
    bytes.extend_from_slice(&4u32.to_le_bytes());
    bytes.extend_from_slice(&12u32.to_le_bytes());
    assert_eq!(read(bytes).err(), Some(Error::InvalidAlignment { alignment: 12 }));
}

#[test]
fn alignment_must_be_u32() {
    let mut bytes = start(0, 2);
    push_architecture(&mut bytes, "llama");
    push_string(&mut bytes, "general.alignment");
    bytes.extend_from_slice(&10u32.to_le_bytes());
    bytes.extend_from_slice(&16u64.to_le_bytes());
    assert_eq!(read(bytes).err(), Some(Error::InvalidAlignmentType));
}

#[test]
fn quantization_version_must_be_u32() {
    let mut bytes = start(0, 2);
    push_architecture(&mut bytes, "llama");
    push_string(&mut bytes, "general.quantization_version");
    bytes.extend_from_slice(&0u32.to_le_bytes());
    bytes.push(2);
    assert_eq!(read(bytes).err(), Some(Error::InvalidQuantizationVersion));
}

#[test]
fn unknown_value_types_are_rejected() {
    let mut bytes = start(0, 1);
    push_string(&mut bytes, "x");
    bytes.extend_from_slice(&13u32.to_le_bytes());
    assert_eq!(read(bytes).err(), Some(Error::UnknownValueType { type_id: 13 }));
}

/// A file with one tensor of type `ty` and an 8-byte alignment.
fn one_tensor(ty: u32, with_quantization_version: bool) -> Vec<u8> {
    let mut bytes = start(1, if with_quantization_version { 3 } else { 2 });
    push_architecture(&mut bytes, "llama");
    push_string(&mut bytes, "general.alignment");
    bytes.extend_from_slice(&4u32.to_le_bytes());
    bytes.extend_from_slice(&8u32.to_le_bytes());
    if with_quantization_version {
        push_string(&mut bytes, "general.quantization_version");
        bytes.extend_from_slice(&4u32.to_le_bytes());
        bytes.extend_from_slice(&2u32.to_le_bytes());
    }
    push_string(&mut bytes, "w");
    bytes.extend_from_slice(&2u32.to_le_bytes());
    bytes.extend_from_slice(&3u64.to_le_bytes());
    bytes.extend_from_slice(&4u64.to_le_bytes());
    bytes.extend_from_slice(&ty.to_le_bytes());
    bytes.extend_from_slice(&64u64.to_le_bytes());
    while bytes.len() % 8 != 0 {
        bytes.push(0);
    }
    bytes.extend_from_slice(&[1, 2, 3]);
    bytes
}

#[test]
fn tensor_infos_are_read() {
    let file = read(one_tensor(0, false)).unwrap();
    assert_eq!(file.header.alignment, 8);
    assert_eq!(file.header.quantization_version, None);
    assert_eq!(file.tensor_infos.len(), 1);
    let info = file.tensor_infos.get("w").unwrap();
    assert_eq!(info.n_dimensions, 2);
    assert_eq!(info.dimensions, vec![3, 4]);
    assert_eq!(info.ggml_type, GgmlType::F32);
    assert_eq!(info.offset, 64);
    assert_eq!(file.tensor_data, vec![1, 2, 3]);
}

#[test]
fn quantized_tensors_need_a_quantization_version() {
    assert_eq!(
        read(one_tensor(8, false)).err(),
        Some(Error::MissingQuantizationVersion)
    );
    let file = read(one_tensor(8, true)).unwrap();
    assert_eq!(file.header.quantization_version, Some(2));
    assert_eq!(file.tensor_infos.get("w").unwrap().ggml_type, GgmlType::Q8_0);
}

#[test]
fn unknown_ggml_types_are_rejected() {
    assert_eq!(
        read(one_tensor(4, true)).err(),
        Some(Error::UnsupportedGgmlType { value: 4 })
    );
}

#[test]
fn ggml_type_ids() {
    assert_eq!(GgmlType::try_from(0), Ok(GgmlType::F32));
    assert_eq!(GgmlType::try_from(30), Ok(GgmlType::Bf16));
    assert_eq!(GgmlType::try_from(39), Ok(GgmlType::Mxfp4));
    assert_eq!(GgmlType::try_from(5), Err(Error::UnsupportedGgmlType { value: 5 }));
    assert_eq!(GgmlType::try_from(41), Err(Error::UnsupportedGgmlType { value: 41 }));
}

#[test]
fn metadata_values_of_every_type() {
    let mut bytes = start(0, 4);
    push_architecture(&mut bytes, "llama");
    push_string(&mut bytes, "nums");
    bytes.extend_from_slice(&9u32.to_le_bytes());
    bytes.extend_from_slice(&5u32.to_le_bytes()); // i32 elements
    bytes.extend_from_slice(&2u64.to_le_bytes());
    bytes.extend_from_slice(&(-7i32).to_le_bytes());
    bytes.extend_from_slice(&9i32.to_le_bytes());
    push_string(&mut bytes, "ratio");
    bytes.extend_from_slice(&6u32.to_le_bytes());
    bytes.extend_from_slice(&0.5f32.to_le_bytes());
    push_string(&mut bytes, "ratio");
    bytes.extend_from_slice(&12u32.to_le_bytes());
    bytes.extend_from_slice(&0.25f64.to_le_bytes());
    let file = read(pad32(bytes)).unwrap();
    assert!(file.tensor_data.is_empty());
    let md = &file.header.metadata_kv;
    assert_eq!(md.len(), 3);
    match md.get("nums") {
        Some(GgufMetadataValue::Array(vs)) => {
            assert_eq!(vs.len(), 2);
            assert!(matches!(vs[0], GgufMetadataValue::I32(-7)));
            assert!(matches!(vs[1], GgufMetadataValue::I32(9)));
        }
        other => panic!("unexpected {:?}", other),
    }
    // The later entry with the same key wins.
    match md.get("ratio") {
        Some(GgufMetadataValue::F64(bits)) => assert_eq!(f64::from_bits(*bits), 0.25),
        other => panic!("unexpected {:?}", other),
    }
}

#[test]
fn padding_past_the_end_fails() {
    let mut bytes = start(0, 1);
    push_architecture(&mut bytes, "llama");
    let n = bytes.len();
    assert_eq!(
        read(bytes).err(),
        Some(Error::UnexpectedEnd { position: n, length: (32 - n % 32) % 32 })
    );
}

#[test]
fn truncated_files_fail() {
    let mut bytes = start(0, 1);
    push_architecture(&mut bytes, "llama");
    let n = bytes.len();
    bytes.truncate(n - 2);
    assert!(matches!(read(bytes).err(), Some(Error::UnexpectedEnd { .. })));
}

fn reader(bytes: Vec<u8>) -> GgufReader {
    GgufReader { b_reader: BReader::new(bytes) }
}

#[test]
fn a_successful_read_ends_at_the_end_of_the_buffer() {
    let bytes = one_tensor(0, false);
    let n = bytes.len();
    let mut r = reader(bytes);
    assert!(r.read().is_ok());
    assert_eq!(r.b_reader.position, n);
}

#[test]
fn an_unknown_value_type_leaves_the_cursor_after_the_type_id() {
    let mut bytes = start(0, 1);
    push_string(&mut bytes, "x");
    bytes.extend_from_slice(&13u32.to_le_bytes());
    let n = bytes.len();
    let mut r = reader(bytes);
    assert_eq!(r.read_header().err(), Some(Error::UnknownValueType { type_id: 13 }));
    assert_eq!(r.b_reader.position, n);
}

#[test]
fn failed_reads_leave_the_cursor_where_they_stopped() {
    // A wrong magic number is read before it is refused.
    let mut bytes = start(0, 0);
    bytes[0] = b'X';
    let mut r = reader(bytes);
    assert!(r.read_header().is_err());
    assert_eq!(r.b_reader.position, 4);

    // Padding past the end leaves the cursor after the tensor descriptions.
    let mut bytes = start(0, 1);
    push_architecture(&mut bytes, "llama");
    let n = bytes.len();
    let mut r = reader(bytes);
    assert!(r.read().is_err());
    assert_eq!(r.b_reader.position, n);

    // A missing quantization version is found after the tensor descriptions.
    let bytes = one_tensor(8, false);
    let mut r = reader(bytes.clone());
    let header = r.read_header().unwrap();
    let infos_start = r.b_reader.position;
    r.read_tensor_infos(header.tensor_count).unwrap();
    let infos_end = r.b_reader.position;
    assert!(infos_start < infos_end);
    let mut r = reader(bytes);
    assert_eq!(r.read().err(), Some(Error::MissingQuantizationVersion));
    assert_eq!(r.b_reader.position, infos_end);

    // A string whose bytes run past the end leaves the cursor after its length.
    let mut bytes = start(0, 1);
    bytes.extend_from_slice(&100u64.to_le_bytes());
    bytes.extend_from_slice(b"abc");
    let mut r = reader(bytes);
    assert_eq!(
        r.read_header().err(),
        Some(Error::UnexpectedEnd { position: 32, length: 100 })
    );
    assert_eq!(r.b_reader.position, 32);
}

#[test]
fn tensor_info_errors_leave_the_cursor_after_the_type_id() {
    let mut bytes = Vec::new();
    push_string(&mut bytes, "w");
    bytes.extend_from_slice(&0u32.to_le_bytes());
    bytes.extend_from_slice(&4u32.to_le_bytes());
    let n = bytes.len();
    bytes.extend_from_slice(&0u64.to_le_bytes());
    let mut r = reader(bytes);
    assert_eq!(
        r.read_tensor_infos(1).err(),
        Some(Error::UnsupportedGgmlType { value: 4 })
    );
    assert_eq!(r.b_reader.position, n);
}

#[test]
fn padding_with_an_alignment_of_zero_is_detected() {
    let mut bytes = start(0, 2);
    push_architecture(&mut bytes, "llama");
    push_string(&mut bytes, "general.alignment");
    bytes.extend_from_slice(&4u32.to_le_bytes());
    bytes.extend_from_slice(&0u32.to_le_bytes());
    let mut r = reader(bytes);
    assert!(r.padding_would_fail());
    assert_eq!(r.b_reader.position, 0);

    let mut r = reader(one_tensor(0, false));
    assert!(!r.padding_would_fail());
    assert_eq!(r.b_reader.position, 0);
    assert!(r.read().is_ok());

    // A file that fails before the padding is not one the padding refuses.
    let mut r = reader(one_tensor(8, false));
    assert!(!r.padding_would_fail());
}

#[test]
fn tensor_descriptions_take_their_record_size() {
    let mut bytes = Vec::new();
    push_string(&mut bytes, "weights");
    bytes.extend_from_slice(&3u32.to_le_bytes());
    for d in [2u64, 3, 4] {
        bytes.extend_from_slice(&d.to_le_bytes());
    }
    bytes.extend_from_slice(&0u32.to_le_bytes());
    bytes.extend_from_slice(&0u64.to_le_bytes());
    push_string(&mut bytes, "b");
    bytes.extend_from_slice(&0u32.to_le_bytes());
    bytes.extend_from_slice(&1u32.to_le_bytes());
    bytes.extend_from_slice(&8u64.to_le_bytes());
    let mut r = reader(bytes);
    let infos = r.read_tensor_infos(2).unwrap();
    assert_eq!(r.b_reader.position, (24 + 7 + 8 * 3) + (24 + 1));
    assert_eq!(infos.len(), 2);
    let w = infos.get("weights").unwrap();
    assert_eq!(w.dimensions.len(), w.n_dimensions as usize);
    assert_eq!(infos.get("b").unwrap().dimensions.len(), 0);
}

#[test]
fn arrays_hold_their_declared_count_or_fail() {
    let mut bytes = start(0, 2);
    push_architecture(&mut bytes, "llama");
    push_string(&mut bytes, "xs");
    bytes.extend_from_slice(&9u32.to_le_bytes());
    bytes.extend_from_slice(&0u32.to_le_bytes()); // u8 elements
    bytes.extend_from_slice(&3u64.to_le_bytes());
    bytes.extend_from_slice(&[7, 8]);
    let n = bytes.len();
    let mut r = reader(bytes);
    assert_eq!(
        r.read_header().err(),
        Some(Error::UnexpectedEnd { position: n, length: 1 })
    );
    assert_eq!(r.b_reader.position, n);
}
