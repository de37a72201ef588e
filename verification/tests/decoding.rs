//! Decoding of whole headers.
use gguf_rs::constants::{
    MAX_ARRAY_LEN, MAX_KV, MAX_METADATA_KEY_LEN, MAX_STORED_ARRAY_ITEMS, MAX_STRING_VALUE_LEN,
    MAX_TENSORS, MAX_TENSOR_NAME_LEN,
};
use gguf_rs::{
    get_gguf_container, get_gguf_container_array_size, ByteOrder, FileRequest, GGUFContainer,
    GGUFError, GGUFModel, MetadataScalar, MetadataValue, DEFAULT_MAX_HELPER_INPUT_BYTES,
    FILE_MAGIC_GGUF_LE, GGUF_VERSION_V3,
};

fn push_string(out: &mut Vec<u8>, s: &str) {
    out.extend_from_slice(&(s.len() as u64).to_le_bytes());
    out.extend_from_slice(s.as_bytes());
}

fn decode_bytes(bytes: Vec<u8>) -> Result<GGUFModel, GGUFError> {
    let len = bytes.len() as u64;
    let mut container =
        GGUFContainer::new_after_magic(ByteOrder::LE, bytes, 3).with_input_len(len + 4);
    container.decode()
}

fn empty_v3(num_tensors: u64, num_kv: u64) -> Vec<u8> {
    let mut b = Vec::new();
    b.extend_from_slice(&GGUF_VERSION_V3.to_le_bytes());
    b.extend_from_slice(&num_tensors.to_le_bytes());
    b.extend_from_slice(&num_kv.to_le_bytes());
    b
}

fn one_tensor_v3(name: &str, dims: &[u64], kind: u32, offset: u64) -> Vec<u8> {
    let mut b = empty_v3(1, 0);
    push_string(&mut b, name);
    b.extend_from_slice(&(dims.len() as u32).to_le_bytes());
    for &dim in dims {
        b.extend_from_slice(&dim.to_le_bytes());
    }
    b.extend_from_slice(&kind.to_le_bytes());
    b.extend_from_slice(&offset.to_le_bytes());
    b
}

fn one_kv_v3(key: &str, value_type: u32, value_bytes: &[u8]) -> Vec<u8> {
    let mut b = empty_v3(0, 1);
    push_string(&mut b, key);
    b.extend_from_slice(&value_type.to_le_bytes());
    b.extend_from_slice(value_bytes);
    b
}

enum TestKv<'a> {
    U64(&'a str, u64),
    I64(&'a str, i64),
    StrLen(&'a str, u64),
    Bool(&'a str, u8),
}

struct TestTensor<'a> {
    name: &'a str,
    dims: &'a [u64],
    kind: u32,
    offset: u64,
}

fn build_v3(kvs: &[TestKv<'_>], tensors: &[TestTensor<'_>]) -> Vec<u8> {
    let mut b = empty_v3(tensors.len() as u64, kvs.len() as u64);
    for kv in kvs {
        match kv {
            TestKv::U64(key, value) => {
                push_string(&mut b, key);
                b.extend_from_slice(&10u32.to_le_bytes());
                b.extend_from_slice(&value.to_le_bytes());
            }
            TestKv::I64(key, value) => {
                push_string(&mut b, key);
                b.extend_from_slice(&11u32.to_le_bytes());
                b.extend_from_slice(&value.to_le_bytes());
            }
            TestKv::StrLen(key, len) => {
                push_string(&mut b, key);
                b.extend_from_slice(&8u32.to_le_bytes());
                b.extend_from_slice(&len.to_le_bytes());
            }
            TestKv::Bool(key, value) => {
                push_string(&mut b, key);
                b.extend_from_slice(&7u32.to_le_bytes());
                b.push(*value);
            }
        }
    }
    for tensor in tensors {
        push_string(&mut b, tensor.name);
        b.extend_from_slice(&(tensor.dims.len() as u32).to_le_bytes());
        for &dim in tensor.dims {
            b.extend_from_slice(&dim.to_le_bytes());
        }
        b.extend_from_slice(&tensor.kind.to_le_bytes());
        b.extend_from_slice(&tensor.offset.to_le_bytes());
    }
    b
}

/// A little-endian file of version 3 with six pairs and three tensors.
fn le_v3_file() -> Vec<u8> {
    let mut b = FILE_MAGIC_GGUF_LE.to_le_bytes().to_vec();
    b.extend_from_slice(&empty_v3(3, 6));
    push_string(&mut b, "general.architecture");
    b.extend_from_slice(&8u32.to_le_bytes());
    push_string(&mut b, "llama");
    push_string(&mut b, "llama.block_count");
    b.extend_from_slice(&4u32.to_le_bytes());
    b.extend_from_slice(&12u32.to_le_bytes());
    push_string(&mut b, "answer");
    b.extend_from_slice(&4u32.to_le_bytes());
    b.extend_from_slice(&42u32.to_le_bytes());
    push_string(&mut b, "answer_in_float");
    b.extend_from_slice(&6u32.to_le_bytes());
    b.extend_from_slice(&42.0f32.to_le_bytes());
    push_string(&mut b, "general.alignment");
    b.extend_from_slice(&4u32.to_le_bytes());
    b.extend_from_slice(&64u32.to_le_bytes());
    push_string(&mut b, "tokenizer.ggml.tokens");
    b.extend_from_slice(&9u32.to_le_bytes());
    b.extend_from_slice(&8u32.to_le_bytes());
    b.extend_from_slice(&5u64.to_le_bytes());
    for token in ["a", "b", "c", "d", "e"] {
        push_string(&mut b, token);
    }
    let tensors = [("tensor1", 32u64, 0u64), ("tensor2", 64, 128), ("tensor3", 96, 384)];
    for (name, elements, offset) in tensors {
        push_string(&mut b, name);
        b.extend_from_slice(&1u32.to_le_bytes());
        b.extend_from_slice(&elements.to_le_bytes());
        b.extend_from_slice(&0u32.to_le_bytes());
        b.extend_from_slice(&offset.to_le_bytes());
    }
    let start = b.len().div_ceil(64) * 64;
    b.resize(start + 384 + 384, 0);
    b
}

/// Opens a file that holds `bytes`.
fn open(request: FileRequest, bytes: Vec<u8>) -> Result<GGUFContainer, GGUFError> {
    let sized = request.found(Some(bytes.len() as u64))?;
    let checked = sized.magic([bytes[0], bytes[1], bytes[2], bytes[3]])?;
    assert_eq!(checked.snapshot_len()?, bytes.len());
    checked.snapshot(bytes)
}

/// Decodes an opened file that holds `bytes` piece by piece.
fn stream(request: FileRequest, bytes: &[u8], step: usize) -> Result<GGUFModel, GGUFError> {
    let sized = request.found(Some(bytes.len() as u64))?;
    let mut container = sized.magic([bytes[0], bytes[1], bytes[2], bytes[3]])?.stream();
    let mut pos = 4;
    loop {
        if let Some(result) = container.try_decode() {
            return result;
        }
        let end = bytes.len().min(pos + step);
        if pos == end {
            return container.decode();
        }
        container.extend_input(&bytes[pos..end]);
        pos = end;
    }
}

fn text(s: &str) -> MetadataScalar {
    MetadataScalar::String(s.to_string())
}

#[test]
fn test_read_le_v3_gguf() {
    let mut container = open(get_gguf_container("tests/test-le-v3.gguf"), le_v3_file()).unwrap();
    let model = container.decode().unwrap();
    assert_eq!(model.get_version(), "v3");
    assert_eq!(model.model_family(), "llama");
    assert_eq!(model.file_type(), "unknown");
    assert_eq!(model.model_parameters(), "192");
    let metadata = model.metadata();
    assert_eq!(metadata.len(), 6);
    assert_eq!(
        metadata.get("general.architecture"),
        Some(&MetadataValue::Scalar(text("llama")))
    );
    assert_eq!(
        metadata.get("llama.block_count"),
        Some(&MetadataValue::Scalar(MetadataScalar::Uint32(12)))
    );
    assert_eq!(
        metadata.get("general.alignment"),
        Some(&MetadataValue::Scalar(MetadataScalar::Uint32(64)))
    );
    assert_eq!(
        metadata.get("answer"),
        Some(&MetadataValue::Scalar(MetadataScalar::Uint32(42)))
    );
    assert_eq!(
        metadata.get("answer_in_float"),
        Some(&MetadataValue::Scalar(MetadataScalar::Float32(42.0f32.to_bits())))
    );
    assert_eq!(
        metadata.get("tokenizer.ggml.tokens"),
        Some(&MetadataValue::Array(vec![text("a"), text("b"), text("c")]))
    );
}

#[test]
fn test_read_le_v3_gguf_with_tokens() {
    let request = get_gguf_container_array_size("tests/test-le-v3.gguf", u64::MAX);
    let mut container = open(request, le_v3_file()).unwrap();
    let model = container.decode().unwrap();
    assert_eq!(model.get_version(), "v3");
    assert_eq!(model.model_family(), "llama");
    assert_eq!(model.file_type(), "unknown");
    assert_eq!(model.model_parameters(), "192");
    let metadata = model.metadata();
    assert_eq!(metadata.len(), 6);
    assert_eq!(
        metadata.get("tokenizer.ggml.tokens"),
        Some(&MetadataValue::Array(vec![
            text("a"),
            text("b"),
            text("c"),
            text("d"),
            text("e")
        ]))
    );
    assert_eq!(
        metadata.get("general.architecture"),
        Some(&MetadataValue::Scalar(text("llama")))
    );
    assert_eq!(
        metadata.get("llama.block_count"),
        Some(&MetadataValue::Scalar(MetadataScalar::Uint32(12)))
    );
    assert_eq!(
        metadata.get("general.alignment"),
        Some(&MetadataValue::Scalar(MetadataScalar::Uint32(64)))
    );
    assert_eq!(
        metadata.get("answer"),
        Some(&MetadataValue::Scalar(MetadataScalar::Uint32(42)))
    );
    assert_eq!(
        metadata.get("answer_in_float"),
        Some(&MetadataValue::Scalar(MetadataScalar::Float32(42.0f32.to_bits())))
    );
}

#[test]
fn test_file_not_found() {
    let result = get_gguf_container("nonexistent.gguf").found(None);
    assert!(result.is_err());
    let err = result.err().unwrap();
    assert!(err.message().contains("file not found"));
}

#[test]
fn test_invalid_file_magic() {
    let invalid_data = vec![0x00, 0x00, 0x00, 0x00];
    let result = GGUFContainer::new(invalid_data, u64::MAX);
    assert!(result.is_err());
}

#[test]
fn test_tensors() {
    let mut container = open(get_gguf_container("tests/test-le-v3.gguf"), le_v3_file()).unwrap();
    let model = container.decode().unwrap();
    let tensors = model.tensors();
    assert!(!tensors.is_empty());

    for tensor in tensors {
        assert!(!tensor.name.is_empty());
        assert!(!tensor.shape.is_empty());
    }
}

#[test]
fn test_num_tensor() {
    let mut container = open(get_gguf_container("tests/test-le-v3.gguf"), le_v3_file()).unwrap();
    let model = container.decode().unwrap();
    assert!(model.num_tensor() > 0);
}

#[test]
fn test_get_version() {
    let mut container = open(get_gguf_container("tests/test-le-v3.gguf"), le_v3_file()).unwrap();
    assert_eq!(container.get_version(), "v1");
    let _ = container.decode().unwrap();
    assert_eq!(container.get_version(), "v3");
}

#[test]
fn test_model_family_unknown() {
    let mut container = open(get_gguf_container("tests/test-le-v3.gguf"), le_v3_file()).unwrap();
    let model = container.decode().unwrap();
    assert_eq!(model.model_family(), "llama");
}

#[test]
fn test_model_parameters_format() {
    let mut container = open(get_gguf_container("tests/test-le-v3.gguf"), le_v3_file()).unwrap();
    let model = container.decode().unwrap();
    assert_eq!(model.model_parameters(), "192");
}

#[test]
fn test_metadata_accessor() {
    let mut container = open(get_gguf_container("tests/test-le-v3.gguf"), le_v3_file()).unwrap();
    let model = container.decode().unwrap();
    let metadata = model.metadata();
    assert!(metadata.contains_key("general.architecture"));
    assert!(metadata.contains_key("llama.block_count"));
}

#[test]
fn test_num_kv() {
    let mut container = open(get_gguf_container("tests/test-le-v3.gguf"), le_v3_file()).unwrap();
    let model = container.decode().unwrap();
    assert!(model.num_kv() > 0);
}

#[test]
fn test_tensor_properties() {
    let mut container = open(get_gguf_container("tests/test-le-v3.gguf"), le_v3_file()).unwrap();
    let model = container.decode().unwrap();
    let tensors = model.tensors();

    for tensor in tensors {
        assert!(!tensor.name.is_empty());
        assert!(!tensor.shape.is_empty());
        let _ = tensor.offset;
        let _ = tensor.size;
        let _ = tensor.kind;
    }
}

#[test]
fn test_container_new() {
    let mut bytes = Vec::new();
    bytes.extend_from_slice(&FILE_MAGIC_GGUF_LE.to_le_bytes());
    let container = GGUFContainer::new(bytes, 100).unwrap();
    assert_eq!(container.get_version(), "v1");
}

#[test]
fn test_invalid_file_magic_detailed() {
    let invalid_magics = vec![
        vec![0x00, 0x00, 0x00, 0x00],
        vec![0xFF, 0xFF, 0xFF, 0xFF],
        vec![0x12, 0x34, 0x56, 0x78],
    ];

    for magic in invalid_magics {
        let result = GGUFContainer::new(magic, u64::MAX);
        assert!(result.is_err(), "Expected error for invalid magic");
    }
}

#[test]
fn test_file_not_found_message() {
    let result = get_gguf_container("this_file_does_not_exist.gguf").found(None);
    assert!(result.is_err());
    if let Err(err) = result {
        assert!(
            err.message().contains("file not found"),
            "Error message should mention 'file not found'"
        );
    }
}

#[test]
fn test_get_gguf_container_array_size() {
    let request = get_gguf_container_array_size("tests/test-le-v3.gguf", 1);
    let result = open(request, le_v3_file());
    assert!(result.is_ok());

    let mut container = result.unwrap();
    let model = container.decode().unwrap();

    match model.metadata().get("tokenizer.ggml.tokens") {
        Some(MetadataValue::Array(arr)) => {
            assert!(arr.len() <= 1, "Array should be truncated to max size");
            assert_eq!(arr, &vec![text("a")]);
        }
        _ => panic!("there is such an array"),
    }
}

#[test]
fn rejects_tensor_count_over_cap() {
    assert!(decode_bytes(empty_v3(MAX_TENSORS + 1, 0)).is_err());
}

#[test]
fn rejects_kv_count_over_cap() {
    assert!(decode_bytes(empty_v3(0, MAX_KV + 1)).is_err());
}

#[test]
fn rejects_dims_zero_or_too_large() {
    assert!(decode_bytes(one_tensor_v3("t", &[], 0, 0)).is_err());
    assert!(decode_bytes(one_tensor_v3("t", &[1, 1, 1, 1, 1], 0, 0)).is_err());
}

#[test]
fn rejects_invalid_kind_count() {
    assert!(decode_bytes(one_tensor_v3("t", &[1], 40, 0)).is_err());
}

#[test]
fn rejects_bad_quant_block_alignment() {
    assert!(decode_bytes(one_tensor_v3("t", &[1], 12, 0)).is_err());
}

#[test]
fn rejects_bad_quant_row_width_even_when_total_elements_align() {
    assert!(decode_bytes(one_tensor_v3("t", &[1, 256], 12, 0)).is_err());
}

#[test]
fn rejects_invalid_bool_value() {
    let bytes = build_v3(&[TestKv::Bool("bad.bool", 2)], &[]);
    assert!(decode_bytes(bytes).is_err());
}

#[test]
fn rejects_oversized_metadata_key() {
    let long_key = "k".repeat((MAX_METADATA_KEY_LEN + 1) as usize);
    let bytes = one_kv_v3(&long_key, 10, &1u64.to_le_bytes());
    assert!(decode_bytes(bytes).is_err());
}

#[test]
fn rejects_oversized_tensor_name() {
    let long_name = "t".repeat((MAX_TENSOR_NAME_LEN + 1) as usize);
    let bytes = one_tensor_v3(&long_name, &[1], 0, 0);
    assert!(decode_bytes(bytes).is_err());
}

#[test]
fn rejects_oversized_metadata_string_length_without_allocating() {
    let bytes = build_v3(&[TestKv::StrLen("big.string", MAX_STRING_VALUE_LEN + 1)], &[]);
    assert!(decode_bytes(bytes).is_err());
}

#[test]
fn rejects_oversized_array_length() {
    let mut bytes = empty_v3(0, 1);
    push_string(&mut bytes, "big.array");
    bytes.extend_from_slice(&9u32.to_le_bytes());
    bytes.extend_from_slice(&10u32.to_le_bytes());
    bytes.extend_from_slice(&(MAX_ARRAY_LEN + 1).to_le_bytes());
    assert!(decode_bytes(bytes).is_err());
}

#[test]
fn rejects_unaligned_tensor_offset() {
    let bytes = build_v3(
        &[TestKv::U64("general.alignment", 64)],
        &[TestTensor { name: "t", dims: &[1], kind: 0, offset: 1 }],
    );
    assert!(decode_bytes(bytes).is_err());
}

#[test]
fn rejects_alignment_not_multiple_of_eight() {
    let bytes = build_v3(
        &[TestKv::U64("general.alignment", 10)],
        &[TestTensor { name: "t", dims: &[1], kind: 0, offset: 0 }],
    );
    assert!(decode_bytes(bytes).is_err());
}

#[test]
fn rejects_alignment_wrong_type() {
    let bytes = build_v3(
        &[TestKv::StrLen("general.alignment", 0)],
        &[TestTensor { name: "t", dims: &[1], kind: 0, offset: 0 }],
    );
    assert!(decode_bytes(bytes).is_err());
}

#[test]
fn rejects_alignment_signed_integer_type() {
    let bytes = build_v3(
        &[TestKv::I64("general.alignment", 16)],
        &[TestTensor { name: "t", dims: &[1], kind: 0, offset: 0 }],
    );
    assert!(decode_bytes(bytes).is_err());
}

#[test]
fn rejects_overlapping_tensor_ranges() {
    let bytes = build_v3(
        &[],
        &[
            TestTensor { name: "a", dims: &[1], kind: 0, offset: 0 },
            TestTensor { name: "b", dims: &[1], kind: 0, offset: 0 },
        ],
    );
    assert!(decode_bytes(bytes).is_err());
}

#[test]
fn rejects_tensor_range_past_eof_when_length_known() {
    let bytes = one_tensor_v3("t", &[1], 0, 0);
    assert!(decode_bytes(bytes).is_err());
}

#[test]
fn validates_skipped_bool_array_entries() {
    let mut bytes = empty_v3(0, 1);
    push_string(&mut bytes, "bool.array");
    bytes.extend_from_slice(&9u32.to_le_bytes());
    bytes.extend_from_slice(&7u32.to_le_bytes());
    bytes.extend_from_slice(&2u64.to_le_bytes());
    bytes.push(1);
    bytes.push(2);

    let len = bytes.len() as u64;
    let mut container =
        GGUFContainer::new_after_magic(ByteOrder::LE, bytes, 1).with_input_len(len + 4);
    assert!(container.decode().is_err());
}

#[test]
fn rejects_duplicate_metadata_keys() {
    let mut bytes = empty_v3(0, 2);
    push_string(&mut bytes, "dup");
    bytes.extend_from_slice(&10u32.to_le_bytes());
    bytes.extend_from_slice(&1u64.to_le_bytes());
    push_string(&mut bytes, "dup");
    bytes.extend_from_slice(&10u32.to_le_bytes());
    bytes.extend_from_slice(&2u64.to_le_bytes());
    assert!(decode_bytes(bytes).is_err());
}

#[test]
fn rejects_duplicate_tensor_names() {
    let bytes = build_v3(
        &[],
        &[
            TestTensor { name: "dup", dims: &[1], kind: 0, offset: 0 },
            TestTensor { name: "dup", dims: &[1], kind: 0, offset: 4 },
        ],
    );
    assert!(decode_bytes(bytes).is_err());
}

#[test]
fn rejects_invalid_utf8_in_strings() {
    let mut bytes = empty_v3(0, 1);
    bytes.extend_from_slice(&1u64.to_le_bytes());
    bytes.push(0xff);
    bytes.extend_from_slice(&10u32.to_le_bytes());
    bytes.extend_from_slice(&1u64.to_le_bytes());
    let len = bytes.len() as u64;
    let mut container =
        GGUFContainer::new_after_magic(ByteOrder::LE, bytes, 3).with_input_len(len + 4);
    assert!(container.decode().is_err());
}

#[test]
fn direct_new_requires_explicit_input_policy() {
    let mut bytes = Vec::new();
    bytes.extend_from_slice(&FILE_MAGIC_GGUF_LE.to_le_bytes());
    bytes.extend_from_slice(&GGUF_VERSION_V3.to_le_bytes());
    bytes.extend_from_slice(&0u64.to_le_bytes());
    bytes.extend_from_slice(&0u64.to_le_bytes());
    let mut container = GGUFContainer::new(bytes, 3).unwrap();
    assert!(container.decode().is_err());
}

#[test]
fn allow_unbounded_input_opt_in_restores_streaming_decode() {
    let mut bytes = Vec::new();
    bytes.extend_from_slice(&FILE_MAGIC_GGUF_LE.to_le_bytes());
    bytes.extend_from_slice(&GGUF_VERSION_V3.to_le_bytes());
    bytes.extend_from_slice(&0u64.to_le_bytes());
    bytes.extend_from_slice(&0u64.to_le_bytes());
    let mut container = GGUFContainer::new(bytes, 3).unwrap().allow_unbounded_input();
    assert!(container.decode().is_ok());
}

#[test]
fn malformed_file_type_does_not_panic() {
    let bytes = build_v3(&[TestKv::StrLen("general.file_type", 0)], &[]);
    let model = decode_bytes(bytes).unwrap();
    assert_eq!(model.file_type(), "unknown");
}

#[test]
fn stored_array_items_are_capped_even_for_large_requests() {
    let n = MAX_STORED_ARRAY_ITEMS + 10;
    let mut bytes = empty_v3(0, 1);
    push_string(&mut bytes, "big.tokens");
    bytes.extend_from_slice(&9u32.to_le_bytes());
    bytes.extend_from_slice(&10u32.to_le_bytes());
    bytes.extend_from_slice(&n.to_le_bytes());
    for i in 0..n {
        bytes.extend_from_slice(&i.to_le_bytes());
    }

    let len = bytes.len() as u64;
    let mut container =
        GGUFContainer::new_after_magic(ByteOrder::LE, bytes, u64::MAX).with_input_len(len + 4);
    let model = container.decode().unwrap();
    match model.metadata().get("big.tokens") {
        Some(MetadataValue::Array(arr)) => {
            assert_eq!(arr.len(), MAX_STORED_ARRAY_ITEMS as usize);
        }
        _ => panic!("there is such an array"),
    }
}

#[test]
fn test_mmap_open() {
    let request = FileRequest::mmap("tests/test-le-v3.gguf", 3, DEFAULT_MAX_HELPER_INPUT_BYTES);
    assert!(open(request, le_v3_file()).is_ok());
}

#[test]
fn test_mmap_decode() {
    let request = FileRequest::mmap("tests/test-le-v3.gguf", 3, DEFAULT_MAX_HELPER_INPUT_BYTES);
    let model = open(request, le_v3_file()).unwrap().decode().unwrap();
    assert_eq!(model.get_version(), "v3");
    assert_eq!(model.model_family(), "llama");
}

#[test]
fn test_mmap_file_not_found() {
    let request = FileRequest::mmap("nonexistent.gguf", 3, DEFAULT_MAX_HELPER_INPUT_BYTES);
    let result = request.found(None);
    assert!(result.is_err());
}

#[test]
fn test_mmap_snapshot_limit_is_enforced() {
    let result = open(FileRequest::mmap("tests/test-le-v3.gguf", 3, 1), le_v3_file());
    assert!(result.is_err());
}

#[test]
fn test_async_open() {
    let request = FileRequest::asynchronous("tests/test-le-v3.gguf", None);
    let bytes = le_v3_file();
    let sized = request.found(Some(bytes.len() as u64)).unwrap();
    let checked = sized.magic([bytes[0], bytes[1], bytes[2], bytes[3]]);
    assert!(checked.is_ok());
}

#[test]
fn test_async_decode() {
    let request = FileRequest::asynchronous("tests/test-le-v3.gguf", None);
    let model = stream(request.expecting(ByteOrder::LE), &le_v3_file(), 64).unwrap();
    assert_eq!(model.get_version(), "v3");
    assert_eq!(model.model_family(), "llama");
}

#[test]
fn test_async_read_gguf() {
    let request = FileRequest::asynchronous("tests/test-le-v3.gguf", None);
    let model = stream(request, &le_v3_file(), 1).unwrap();
    assert_eq!(model.model_family(), "llama");
}

#[test]
fn test_async_file_not_found() {
    let result = FileRequest::asynchronous("nonexistent.gguf", None).found(None);
    assert!(result.is_err());
}

#[test]
fn test_async_input_limit_is_enforced() {
    let request = FileRequest::asynchronous("tests/test-le-v3.gguf", Some(1));
    let result = open(request.with_max_array_size(3), le_v3_file());
    assert!(result.is_err());
}

#[test]
fn async_streaming_default_parses_large_file_with_small_header() {
    let size = DEFAULT_MAX_HELPER_INPUT_BYTES + 4096;
    let request = FileRequest::asynchronous("large.gguf", None);
    let sized = request.found(Some(size)).unwrap();
    let mut container = sized.magic(FILE_MAGIC_GGUF_LE.to_le_bytes()).unwrap().stream();
    container.extend_input(&empty_v3(0, 0));
    container.extend_input(&[0; 100]);
    let model = container
        .try_decode()
        .expect("the header is complete")
        .expect("streaming async helper should parse large file");
    assert_eq!(model.num_tensor(), 0);
    assert_eq!(model.num_kv(), 0);
}

#[test]
fn async_snapshot_helper_rejects_large_file() {
    let size = DEFAULT_MAX_HELPER_INPUT_BYTES + 4096;
    let request = FileRequest::asynchronous("large.gguf", Some(DEFAULT_MAX_HELPER_INPUT_BYTES));
    let err = match request.with_max_array_size(3).found(Some(size)) {
        Ok(_) => panic!("snapshot async helper should reject oversized file"),
        Err(e) => e,
    };
    let msg = err.message();
    assert!(
        msg.contains("exceeds async input cap"),
        "expected legacy async cap error, got: {msg}"
    );
}
