//! Every reason for which an input is refused, and its text.
use gguf_rs::{
    get_gguf_container_array_size_with_limit, ByteOrder, FileRequest, GGMLType, GGUFContainer,
    GGUFError, GGUFModel, Helper, MetadataValueType, ReadError, StringContext, TensorFault,
};

fn string(out: &mut Vec<u8>, s: &[u8]) {
    out.extend_from_slice(&(s.len() as u64).to_le_bytes());
    out.extend_from_slice(s);
}

fn start(tensors: u64, kvs: u64) -> Vec<u8> {
    let mut b = 3u32.to_le_bytes().to_vec();
    b.extend_from_slice(&tensors.to_le_bytes());
    b.extend_from_slice(&kvs.to_le_bytes());
    b
}

fn kv(out: &mut Vec<u8>, key: &str, kind: u32, value: &[u8]) {
    string(out, key.as_bytes());
    out.extend_from_slice(&kind.to_le_bytes());
    out.extend_from_slice(value);
}

fn tensor(out: &mut Vec<u8>, name: &str, dims: &[u64], kind: u32, offset: u64) {
    string(out, name.as_bytes());
    out.extend_from_slice(&(dims.len() as u32).to_le_bytes());
    for dim in dims {
        out.extend_from_slice(&dim.to_le_bytes());
    }
    out.extend_from_slice(&kind.to_le_bytes());
    out.extend_from_slice(&offset.to_le_bytes());
}

fn decode_unbounded(bytes: Vec<u8>) -> Result<GGUFModel, GGUFError> {
    GGUFContainer::new_after_magic(ByteOrder::LE, bytes, 3).allow_unbounded_input().decode()
}

fn refused(bytes: Vec<u8>) -> GGUFError {
    decode_unbounded(bytes).err().expect("the input is refused")
}

fn refused_kv(kind: u32, value: &[u8]) -> GGUFError {
    let mut b = start(0, 1);
    kv(&mut b, "key", kind, value);
    refused(b)
}

fn refused_tensor(dims: &[u64], kind: u32, offset: u64) -> TensorFault {
    let mut b = start(1, 0);
    tensor(&mut b, "t", dims, kind, offset);
    match refused(b) {
        GGUFError::Tensor(name, fault) => {
            assert_eq!(name, "t");
            fault
        }
        other => panic!("{other:?}"),
    }
}

#[test]
fn input_ends_too_early() {
    let err = refused(Vec::new());
    assert_eq!(err, GGUFError::Read(ReadError::UnexpectedEof));
    assert!(err.is_eof());
    assert_eq!(err.message(), "failed to fill whole buffer");
    let mut b = start(0, 1);
    kv(&mut b, "key", 10, &[0; 7]);
    assert!(refused(b).is_eof());
    let short = GGUFContainer::new(vec![0x47, 0x47, 0x55], 3).err().unwrap();
    assert_eq!(short, GGUFError::Read(ReadError::UnexpectedEof));
}

#[test]
fn unknown_value_type() {
    let err = refused_kv(13, &[0; 8]);
    assert_eq!(err, GGUFError::Read(ReadError::UnsupportedValueType));
    assert_eq!(err.message(), "unsupport metadata value type");
    assert_eq!(
        MetadataValueType::try_from(13).unwrap_err().message(),
        "unsupport metadata value type"
    );
}

#[test]
fn bool_that_is_none() {
    let err = refused_kv(7, &[2]);
    assert_eq!(err, GGUFError::Read(ReadError::InvalidBool(2)));
    assert_eq!(err.message(), "invalid bool value 2; expected 0 or 1");
}

#[test]
fn empty_names() {
    let mut b = start(0, 1);
    kv(&mut b, "", 7, &[1]);
    let err = refused(b);
    assert_eq!(err, GGUFError::Read(ReadError::EmptyString(StringContext::MetadataKey)));
    assert_eq!(err.message(), "metadata key has zero length");
    let mut b = start(1, 0);
    tensor(&mut b, "", &[1], 0, 0);
    assert_eq!(refused(b).message(), "tensor name has zero length");
}

#[test]
fn long_strings() {
    let mut b = start(1, 0);
    tensor(&mut b, &"t".repeat(65), &[1], 0, 0);
    let err = refused(b);
    assert_eq!(
        err,
        GGUFError::Read(ReadError::StringTooLong { context: StringContext::TensorName, len: 65 })
    );
    assert_eq!(err.message(), "tensor name length 65 exceeds cap 64");
    let mut b = start(0, 1);
    kv(&mut b, &"k".repeat(65536), 7, &[1]);
    assert_eq!(refused(b).message(), "metadata key length 65536 exceeds cap 65535");
    let err = refused_kv(8, &(16u64 * 1024 * 1024 + 1).to_le_bytes());
    assert_eq!(err.message(), "metadata string value length 16777217 exceeds cap 16777216");
    let mut array = 8u32.to_le_bytes().to_vec();
    array.extend_from_slice(&1u64.to_le_bytes());
    array.extend_from_slice(&u64::MAX.to_le_bytes());
    let err = refused_kv(9, &array);
    assert_eq!(
        err.message(),
        "array string value length 18446744073709551615 exceeds cap 16777216"
    );
}

#[test]
fn strings_of_the_largest_length() {
    let mut b = start(1, 1);
    kv(&mut b, &"k".repeat(65535), 7, &[1]);
    tensor(&mut b, &"t".repeat(64), &[1], 0, 0);
    let model = decode_unbounded(b).unwrap();
    assert_eq!(model.tensors()[0].name.len(), 64);
    assert!(model.metadata().contains_key(&"k".repeat(65535)));
}

#[test]
fn bytes_that_are_not_utf8() {
    let mut b = start(0, 1);
    string(&mut b, &[b'a', 0xff]);
    let err = refused(b);
    assert_eq!(
        err,
        GGUFError::Read(ReadError::InvalidUtf8(
            StringContext::MetadataKey,
            "invalid utf-8 sequence of 1 bytes from index 1".to_string()
        ))
    );
    assert_eq!(
        err.message(),
        "metadata key is not valid UTF-8: invalid utf-8 sequence of 1 bytes from index 1"
    );
    let mut b = start(0, 1);
    string(&mut b, &[0xe2, 0x82]);
    assert_eq!(
        refused(b).message(),
        "metadata key is not valid UTF-8: incomplete utf-8 byte sequence from index 0"
    );
}

#[test]
fn arrays_in_arrays() {
    let mut array = 9u32.to_le_bytes().to_vec();
    array.extend_from_slice(&1u64.to_le_bytes());
    let err = refused_kv(9, &array);
    assert_eq!(err, GGUFError::Read(ReadError::NestedArray));
    assert_eq!(err.message(), "unsupported item value type: Array");
    let mut empty = 9u32.to_le_bytes().to_vec();
    empty.extend_from_slice(&0u64.to_le_bytes());
    let mut b = start(0, 1);
    kv(&mut b, "key", 9, &empty);
    assert!(decode_unbounded(b).is_ok());
}

#[test]
fn long_arrays() {
    let mut array = 0u32.to_le_bytes().to_vec();
    array.extend_from_slice(&1_000_001u64.to_le_bytes());
    let err = refused_kv(9, &array);
    assert_eq!(err, GGUFError::Read(ReadError::ArrayTooLong(1_000_001)));
    assert_eq!(err.message(), "array length 1000001 exceeds cap 1000000");
    let mut array = 0u32.to_le_bytes().to_vec();
    array.extend_from_slice(&1_000_000u64.to_le_bytes());
    array.extend_from_slice(&vec![7; 1_000_000]);
    let mut b = start(0, 1);
    kv(&mut b, "key", 9, &array);
    assert!(decode_unbounded(b).is_ok());
}

#[test]
fn large_metadata() {
    let text = vec![b'x'; 16 * 1024 * 1024];
    let mut value = Vec::new();
    string(&mut value, &text);
    let mut b = start(0, 4);
    for key in ["a", "b", "c", "d"] {
        kv(&mut b, key, 8, &value);
    }
    let err = refused(b);
    assert_eq!(err, GGUFError::Read(ReadError::MetadataTooLarge));
    assert_eq!(err.message(), "metadata section exceeds cap 67108864 bytes");
    let mut array = 8u32.to_le_bytes().to_vec();
    array.extend_from_slice(&5u64.to_le_bytes());
    for _ in 0..4 {
        array.extend_from_slice(&value);
    }
    assert_eq!(refused_kv(9, &array), GGUFError::Read(ReadError::MetadataTooLarge));
}

#[test]
fn skipped_items() {
    let mut array = 7u32.to_le_bytes().to_vec();
    array.extend_from_slice(&5u64.to_le_bytes());
    array.extend_from_slice(&[0, 1, 0, 1, 9]);
    let err = refused_kv(9, &array);
    assert_eq!(
        err,
        GGUFError::Read(ReadError::SkippedArrayItem(4, Box::new(ReadError::InvalidBool(9))))
    );
    assert_eq!(
        err.message(),
        "failed to skip array item 4: invalid bool value 9; expected 0 or 1"
    );
    let mut array = 4u32.to_le_bytes().to_vec();
    array.extend_from_slice(&4u64.to_le_bytes());
    array.extend_from_slice(&[0; 14]);
    let err = refused_kv(9, &array);
    assert!(err.is_eof());
    assert_eq!(err.message(), "failed to skip array item 3: failed to fill whole buffer");
}

#[test]
fn wrong_magic() {
    let err = GGUFContainer::new(b"GGML".to_vec(), 3).err().unwrap();
    assert_eq!(err, GGUFError::InvalidMagic);
    assert_eq!(err.message(), "invalid file magic: not a GGUF file");
}

#[test]
fn input_lengths() {
    let mut container = GGUFContainer::new_after_magic(ByteOrder::LE, start(0, 0), 3);
    let err = container.decode().err().unwrap();
    assert_eq!(err, GGUFError::InputLengthRequired);
    assert_eq!(
        err.message(),
        "input length is required for checked decoding; use with_input_len(...) or explicitly opt into allow_unbounded_input()"
    );
    let mut container = container.with_input_len(3);
    let err = container.decode().err().unwrap();
    assert_eq!(err, GGUFError::InputTooShort(3));
    assert_eq!(err.message(), "input length 3 is smaller than GGUF magic");
    let mut container =
        GGUFContainer::new_after_magic(ByteOrder::LE, start(0, 0), 3).with_input_len(23);
    assert!(container.decode().err().unwrap().is_eof());
}

#[test]
fn versions() {
    let err = refused(4i32.to_le_bytes().to_vec());
    assert_eq!(err, GGUFError::InvalidVersion(4));
    assert_eq!(err.message(), "invalid version 4, only support version: 1 | 2 | 3");
    let err = refused((-2147483648i32).to_le_bytes().to_vec());
    assert_eq!(err.message(), "invalid version -2147483648, only support version: 1 | 2 | 3");
    assert_eq!(
        refused(0i32.to_le_bytes().to_vec()).message(),
        "invalid version 0, only support version: 1 | 2 | 3"
    );
}

#[test]
fn counts() {
    let err = refused(start(100_001, 100_001));
    assert_eq!(err, GGUFError::TooManyTensors(100_001));
    assert_eq!(err.message(), "tensor count 100001 exceeds cap 100000");
    let err = refused(start(100_000, 100_001));
    assert_eq!(err, GGUFError::TooManyKv(100_001));
    assert_eq!(err.message(), "kv count 100001 exceeds cap 100000");
    assert!(refused(start(100_000, 100_000)).is_eof());
}

#[test]
fn duplicates() {
    let mut b = start(0, 2);
    kv(&mut b, "say \"hi\"", 7, &[1]);
    kv(&mut b, "say \"hi\"", 7, &[1]);
    let err = refused(b);
    assert_eq!(err, GGUFError::DuplicateKey("say \"hi\"".to_string()));
    assert_eq!(err.message(), r#"duplicate metadata key "say \"hi\"""#);
    assert_eq!(err.describe(), r#"duplicate metadata key say "hi""#);
    let mut b = start(2, 0);
    tensor(&mut b, "t", &[1], 0, 0);
    tensor(&mut b, "t", &[1], 0, 32);
    let err = refused(b);
    assert_eq!(err, GGUFError::DuplicateTensor("t".to_string()));
    assert_eq!(err.message(), r#"duplicate tensor name "t""#);
}

#[test]
fn alignments() {
    let asked = |kind: u32, value: &[u8]| {
        let mut b = start(0, 1);
        kv(&mut b, "general.alignment", kind, value);
        decode_unbounded(b)
    };
    let err = asked(11, &16i64.to_le_bytes()).err().unwrap();
    assert_eq!(err, GGUFError::AlignmentType);
    assert_eq!(err.message(), "general.alignment is missing or has invalid type");
    let err = asked(10, &0u64.to_le_bytes()).err().unwrap();
    assert_eq!(err, GGUFError::AlignmentZero);
    assert_eq!(err.message(), "general.alignment is 0");
    let err = asked(0, &[12]).err().unwrap();
    assert_eq!(err, GGUFError::AlignmentNotMultipleOfEight(12));
    assert_eq!(err.message(), "general.alignment 12 is not a multiple of 8");
    let err = asked(4, &65544u32.to_le_bytes()).err().unwrap();
    assert_eq!(err, GGUFError::AlignmentTooLarge(65544));
    assert_eq!(err.message(), "general.alignment 65544 exceeds cap 65536");
    assert!(asked(4, &65536u32.to_le_bytes()).is_ok());
    assert!(asked(0, &[8]).is_ok());
    assert!(asked(2, &64u16.to_le_bytes()).is_ok());
}

#[test]
fn tensor_dimensions() {
    assert_eq!(refused_tensor(&[], 0, 0), TensorFault::DimensionCount(0));
    assert_eq!(refused_tensor(&[1; 5], 0, 0), TensorFault::DimensionCount(5));
    assert_eq!(refused_tensor(&[1, 0], 0, 0), TensorFault::ZeroDimension);
    let large = (1u64 << 30) + 1;
    assert_eq!(refused_tensor(&[large], 0, 0), TensorFault::DimensionTooLarge(large));
    assert_eq!(refused_tensor(&[1 << 30, 1 << 30, 16], 0, 0), TensorFault::ElementOverflow);
    assert_eq!(
        refused_tensor(&[1 << 30, 1 << 11], 0, 0),
        TensorFault::TooManyElements(1 << 41)
    );
    let mut b = start(1, 0);
    tensor(&mut b, "t", &[1 << 30, 1 << 10], 0, 0);
    let model = decode_unbounded(b).unwrap();
    assert_eq!(model.tensors()[0].size, 1 << 42);
}

#[test]
fn tensor_rows_and_offsets() {
    assert_eq!(refused_tensor(&[33], 2, 0), TensorFault::RowWidth { row: 33, block: 32 });
    assert_eq!(
        refused_tensor(&[32], 2, 8),
        TensorFault::Unaligned { offset: 8, alignment: 32 }
    );
    assert_eq!(refused_tensor(&[1], 0, u64::MAX - 31), TensorFault::OffsetOverflow);
    assert_eq!(refused_tensor(&[8], 0, u64::MAX - 95), TensorFault::RangeOverflow);
    let mut b = start(1, 0);
    tensor(&mut b, "t", &[7], 0, u64::MAX - 95);
    assert!(decode_unbounded(b).is_ok());
}

#[test]
fn tensor_faults_in_words() {
    let says = |fault: TensorFault, text: &str| {
        let err = GGUFError::Tensor("t".to_string(), fault);
        assert_eq!(err.message(), format!("tensor \"t\" {text}"));
    };
    says(TensorFault::DimensionCount(5), "declares 5 dimensions (must be 1..=4)");
    says(TensorFault::ZeroDimension, "has a zero-length dimension");
    says(TensorFault::DimensionTooLarge(1 << 31), "dimension 2147483648 exceeds 1073741824");
    says(TensorFault::ElementOverflow, "dimension product overflows u64");
    says(
        TensorFault::TooManyElements(1 << 41),
        "element count 2199023255552 exceeds 1099511627776",
    );
    says(
        TensorFault::RowWidth { row: 33, block: 32 },
        "row width 33 is not divisible by block size 32",
    );
    says(TensorFault::Unaligned { offset: 8, alignment: 32 }, "offset 8 is not aligned to 32");
    says(TensorFault::OffsetOverflow, "absolute offset overflows u64");
    says(TensorFault::RangeOverflow, "byte range overflows u64");
    says(
        TensorFault::PastEof { end: 68, file_size: 57 },
        "extends past EOF: end=68 file_size=57",
    );
}

#[test]
fn tensor_data_behind_the_end() {
    let mut b = start(1, 0);
    tensor(&mut b, "t", &[1], 0, 0);
    assert_eq!(b.len() + 4, 57);
    let mut short =
        GGUFContainer::new_after_magic(ByteOrder::LE, b.clone(), 3).with_input_len(67);
    assert_eq!(
        short.decode().err().unwrap(),
        GGUFError::Tensor("t".to_string(), TensorFault::PastEof { end: 68, file_size: 67 })
    );
    let mut exact = GGUFContainer::new_after_magic(ByteOrder::LE, b, 3).with_input_len(68);
    assert!(exact.decode().is_ok());
}

#[test]
fn tensor_types() {
    for kind in [4u32, 5, 40, 41, u32::MAX] {
        let mut b = start(1, 0);
        tensor(&mut b, "t", &[256], kind, 0);
        let err = refused(b);
        assert_eq!(err, GGUFError::InvalidTensorType);
        assert_eq!(err.message(), "invalid GGML type");
        assert_eq!(GGMLType::try_from(kind).err().unwrap(), GGUFError::InvalidTensorType);
    }
    for kind in [31u32, 32, 33, 36, 37, 38] {
        let mut b = start(1, 0);
        tensor(&mut b, "t", &[256], kind, 0);
        let err = refused(b);
        assert_eq!(err, GGUFError::UnsupportedTensorType);
        assert_eq!(err.message(), "unsupported or removed GGML tensor type");
    }
}

#[test]
fn overlapping_data() {
    let mut b = start(3, 0);
    tensor(&mut b, "last", &[1], 0, 64);
    tensor(&mut b, "long", &[9], 0, 0);
    tensor(&mut b, "in between", &[1], 0, 32);
    let err = refused(b);
    assert_eq!(
        err,
        GGUFError::OverlappingTensors("long".to_string(), "in between".to_string())
    );
    assert_eq!(
        err.message(),
        "tensors \"long\" and \"in between\" have overlapping data ranges"
    );
    let mut b = start(2, 0);
    tensor(&mut b, "second", &[8], 0, 0);
    tensor(&mut b, "first", &[8], 0, 0);
    assert_eq!(
        refused(b),
        GGUFError::OverlappingTensors("second".to_string(), "first".to_string())
    );
    let mut b = start(2, 0);
    tensor(&mut b, "back", &[8], 0, 32);
    tensor(&mut b, "front", &[8], 0, 0);
    assert!(decode_unbounded(b).is_ok());
}

#[test]
fn header_cap_in_words() {
    let err: GGUFError = GGUFError::HeaderTooLarge;
    assert_eq!(err.message(), "GGUF header exceeds cap 134217728 bytes");
    let err: GGUFError = GGUFError::SnapshotTooLarge;
    assert_eq!(err.message(), "file too large to snapshot into memory on this platform");
}

#[test]
fn missing_files() {
    let err = get_gguf_container_array_size_with_limit("a", 3, 9).found(None).err().unwrap();
    assert_eq!(err, GGUFError::FileNotFound(None));
    assert_eq!(err.message(), "file not found");
    let err = FileRequest::mmap("some \"path\"", 3, 9).found(None).err().unwrap();
    assert_eq!(err, GGUFError::FileNotFound(Some("some \"path\"".to_string())));
    assert_eq!(err.message(), "file not found: some \"path\"");
    let err = FileRequest::asynchronous("p", None).found(None).err().unwrap();
    assert_eq!(err.message(), "file not found: p");
}

#[test]
fn large_files() {
    let err = get_gguf_container_array_size_with_limit("a", 3, 9).found(Some(10)).err().unwrap();
    assert_eq!(err, GGUFError::FileTooLarge { helper: Helper::File, len: 10, cap: 9 });
    assert_eq!(err.message(), "file size 10 exceeds helper input cap 9 bytes");
    let err = FileRequest::mmap("a", 3, 9).found(Some(10)).err().unwrap();
    assert_eq!(err.message(), "file size 10 exceeds snapshot cap 9 bytes");
    let err = FileRequest::asynchronous("a", Some(9)).found(Some(10)).err().unwrap();
    assert_eq!(err.message(), "file size 10 exceeds async input cap 9 bytes");
    assert!(FileRequest::asynchronous("a", None).found(Some(u64::MAX)).is_ok());
    assert!(FileRequest::mmap("a", 3, 9).found(Some(9)).is_ok());
}

#[test]
fn small_files() {
    let err = FileRequest::mmap("a", 3, 9).found(Some(3)).err().unwrap();
    assert_eq!(err, GGUFError::FileTooSmall);
    assert_eq!(err.message(), "file too small to be a valid GGUF file");
    assert!(FileRequest::asynchronous("a", None).found(Some(3)).is_err());
    assert!(FileRequest::asynchronous("a", Some(9)).found(Some(3)).is_err());
    let again = FileRequest::asynchronous("a", None).expecting(ByteOrder::LE);
    assert!(again.found(Some(3)).is_err());
    let again = FileRequest::asynchronous("a", Some(9)).expecting(ByteOrder::LE);
    assert!(again.found(Some(3)).is_ok());
    assert!(get_gguf_container_array_size_with_limit("a", 3, 9).found(Some(3)).is_ok());
}

#[test]
fn changed_files() {
    let request = || FileRequest::asynchronous("a", Some(99)).expecting(ByteOrder::BE);
    let err = request().found(Some(24)).unwrap().magic(*b"GGUF").err().unwrap();
    assert_eq!(err, GGUFError::ByteOrderChanged);
    assert_eq!(err.message(), "GGUF byte order changed between open() and decode()");
    let err = request().found(Some(24)).unwrap().magic(*b"GGML").err().unwrap();
    assert_eq!(err, GGUFError::InvalidMagic);
    let checked = || request().found(Some(24)).unwrap().magic(*b"FUGG").unwrap();
    assert_eq!(checked().snapshot(vec![0; 3]).err().unwrap(), GGUFError::FileTooSmall);
    assert_eq!(checked().snapshot(vec![0; 24]).err().unwrap(), GGUFError::InvalidMagic);
    let mut bytes = b"GGUF".to_vec();
    bytes.resize(24, 0);
    assert_eq!(checked().snapshot(bytes).err().unwrap(), GGUFError::ByteOrderChanged);
    let plain = || {
        let request = get_gguf_container_array_size_with_limit("a", 3, 99);
        request.found(Some(24)).unwrap().magic(*b"GGUF").unwrap()
    };
    assert_eq!(
        plain().snapshot(vec![0; 3]).err().unwrap(),
        GGUFError::Read(ReadError::UnexpectedEof)
    );
    assert_eq!(plain().snapshot(vec![0; 24]).err().unwrap(), GGUFError::InvalidMagic);
    let mut bytes = b"FUGG".to_vec();
    bytes.resize(24, 0);
    assert!(plain().snapshot(bytes).is_ok());
}
