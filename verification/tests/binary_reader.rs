use gguf_tokenizer::binary_reader::BReader;
use gguf_tokenizer::error::Error;
use memmap2::MmapMut;

#[test]
fn test_read_numeric_and_string() {
    let mut mmap = MmapMut::map_anon(100).unwrap();
    mmap[0] = 42;
    mmap[1] = -10i8 as u8;
    mmap[2..4].copy_from_slice(&1000u16.to_le_bytes());
    mmap[4..8].copy_from_slice(&0x12345678u32.to_le_bytes());
    mmap[8..12].copy_from_slice(&1.5f32.to_le_bytes());
    mmap[12..20].copy_from_slice(&5u64.to_le_bytes());
    mmap[20..25].copy_from_slice(b"hello");

    let readonly_mmap = mmap.make_read_only().unwrap();
    let mut reader = BReader::new(readonly_mmap.to_vec());

    assert_eq!(reader.read_u8().unwrap(), 42);
    assert_eq!(reader.read_i8().unwrap(), -10);
    assert_eq!(reader.read_u16().unwrap(), 1000);
    assert_eq!(reader.read_u32().unwrap(), 0x12345678);
    assert_eq!(f32::from_bits(reader.read_f32().unwrap()), 1.5);
    assert_eq!(reader.read_string().unwrap(), "hello");
    assert_eq!(reader.position, 25);

    // Test out of bounds
    assert!(reader.read_bytes(100).is_err());
}

#[test]
fn signed_values_use_twos_complement() {
    let mut bytes = Vec::new();
    bytes.extend_from_slice(&(-2i16).to_le_bytes());
    bytes.extend_from_slice(&(-70000i32).to_le_bytes());
    bytes.extend_from_slice(&i64::MIN.to_le_bytes());
    bytes.extend_from_slice(&(-1i64).to_le_bytes());
    bytes.push(0x80);
    let mut reader = BReader::new(bytes);
    assert_eq!(reader.read_i16().unwrap(), -2);
    assert_eq!(reader.read_i32().unwrap(), -70000);
    assert_eq!(reader.read_i64().unwrap(), i64::MIN);
    assert_eq!(reader.read_i64().unwrap(), -1);
    assert_eq!(reader.read_i8().unwrap(), -128);
    assert_eq!(reader.position, 23);
}

#[test]
fn wide_values_are_little_endian() {
    let mut bytes = Vec::new();
    bytes.extend_from_slice(&0x0102_0304_0506_0708u64.to_le_bytes());
    bytes.extend_from_slice(&2.25f64.to_le_bytes());
    let mut reader = BReader::new(bytes);
    assert_eq!(reader.read_u64().unwrap(), 0x0102_0304_0506_0708);
    assert_eq!(f64::from_bits(reader.read_f64().unwrap()), 2.25);
}

#[test]
fn booleans_are_one_byte_and_only_one_is_true() {
    let mut reader = BReader::new(vec![1, 0, 2]);
    assert!(reader.read_boolean().unwrap());
    assert!(!reader.read_boolean().unwrap());
    assert!(!reader.read_boolean().unwrap());
    assert_eq!(reader.position, 3);
}

#[test]
fn short_reads_fail_and_leave_the_position() {
    let mut reader = BReader::new(vec![1, 2, 3]);
    assert_eq!(reader.read_u8().unwrap(), 1);
    assert_eq!(
        reader.read_u32(),
        Err(Error::UnexpectedEnd { position: 1, length: 4 })
    );
    assert_eq!(reader.position, 1);
    assert_eq!(reader.read_u16().unwrap(), 0x0302);
    assert_eq!(reader.position, 3);
    assert_eq!(
        reader.read_u8(),
        Err(Error::UnexpectedEnd { position: 3, length: 1 })
    );
}

#[test]
fn strings_must_be_utf8() {
    let mut bytes = Vec::new();
    bytes.extend_from_slice(&2u64.to_le_bytes());
    bytes.extend_from_slice(&[0xff, 0xfe]);
    let mut reader = BReader::new(bytes);
    assert_eq!(reader.read_string(), Err(Error::InvalidUtf8));
    assert_eq!(reader.position, 10);
}

#[test]
fn string_longer_than_buffer_fails_after_the_length() {
    let mut bytes = Vec::new();
    bytes.extend_from_slice(&9u64.to_le_bytes());
    bytes.extend_from_slice(b"abc");
    let mut reader = BReader::new(bytes);
    assert_eq!(
        reader.read_string(),
        Err(Error::UnexpectedEnd { position: 8, length: 9 })
    );
    assert_eq!(reader.position, 8);
}

#[test]
fn read_bytes_takes_exactly_the_count() {
    let mut reader = BReader::new(vec![9, 8, 7, 6]);
    assert_eq!(reader.read_bytes(3).unwrap(), vec![9, 8, 7]);
    assert_eq!(reader.read_bytes(0).unwrap(), Vec::<u8>::new());
    assert_eq!(reader.position, 3);
}
