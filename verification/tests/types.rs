//! Types, numbers as text, and layouts.
use gguf_rs::{
    file_type, ggml_type_layout, human_number, ByteOrder, GGMLType, MetadataValueType, Version, V1,
    V2, V3,
};
use std::convert::TryFrom;

#[test]
fn test_metadata_value_type_conversion() {
    assert!(matches!(MetadataValueType::try_from(0), Ok(MetadataValueType::Uint8)));
    assert!(matches!(MetadataValueType::try_from(6), Ok(MetadataValueType::Float32)));
    assert!(matches!(MetadataValueType::try_from(8), Ok(MetadataValueType::String)));
    assert!(MetadataValueType::try_from(100).is_err());
}

#[test]
fn test_ggml_type_conversion() {
    assert!(matches!(GGMLType::try_from(0), Ok(GGMLType::F32)));
    assert!(matches!(GGMLType::try_from(2), Ok(GGMLType::Q4_0)));
    assert!(GGMLType::try_from(100).is_err());
}

#[test]
fn test_byte_order_default() {
    let bo = ByteOrder::default();
    assert!(matches!(bo, ByteOrder::LE));
}

#[test]
fn test_human_number_small() {
    assert_eq!(human_number(999), "999");
    assert_eq!(human_number(1000), "1000");
    assert_eq!(human_number(1001), "1K");
    assert_eq!(human_number(1500), "2K");
}

#[test]
fn test_human_number_medium() {
    assert_eq!(human_number(1_000_000), "1000K");
    assert_eq!(human_number(1_000_001), "1M");
    assert_eq!(human_number(2_000_001), "2M");
    assert_eq!(human_number(3_500_000), "4M");
}

#[test]
fn test_human_number_large() {
    assert_eq!(human_number(1_000_000_000), "1000M");
    assert_eq!(human_number(1_000_000_001), "1B");
    assert_eq!(human_number(7_500_000_000), "8B");
}

#[test]
fn test_file_type_all_values() {
    assert_eq!(file_type(0), "All F32");
    assert_eq!(file_type(1), "Mostly F16");
    assert_eq!(file_type(2), "Mostly Q4_0");
    assert_eq!(file_type(7), "Mostly Q8_0");
    assert_eq!(file_type(14), "Mostly Q6_K");
    assert_eq!(file_type(24), "Mostly BF16");
    assert_eq!(file_type(99), "unknown");
}

#[test]
fn test_metadata_value_type_all_variants() {
    assert!(matches!(MetadataValueType::try_from(0), Ok(MetadataValueType::Uint8)));
    assert!(matches!(MetadataValueType::try_from(1), Ok(MetadataValueType::Int8)));
    assert!(matches!(MetadataValueType::try_from(2), Ok(MetadataValueType::Uint16)));
    assert!(matches!(MetadataValueType::try_from(3), Ok(MetadataValueType::Int16)));
    assert!(matches!(MetadataValueType::try_from(4), Ok(MetadataValueType::Uint32)));
    assert!(matches!(MetadataValueType::try_from(5), Ok(MetadataValueType::Int32)));
    assert!(matches!(MetadataValueType::try_from(6), Ok(MetadataValueType::Float32)));
    assert!(matches!(MetadataValueType::try_from(7), Ok(MetadataValueType::Bool)));
    assert!(matches!(MetadataValueType::try_from(8), Ok(MetadataValueType::String)));
    assert!(matches!(MetadataValueType::try_from(9), Ok(MetadataValueType::Array)));
    assert!(matches!(MetadataValueType::try_from(10), Ok(MetadataValueType::Uint64)));
    assert!(matches!(MetadataValueType::try_from(11), Ok(MetadataValueType::Int64)));
    assert!(matches!(MetadataValueType::try_from(12), Ok(MetadataValueType::Float64)));
}

#[test]
fn test_ggml_type_all_valid_types() {
    assert!(matches!(GGMLType::try_from(1), Ok(GGMLType::F16)));
    assert!(matches!(GGMLType::try_from(3), Ok(GGMLType::Q4_1)));
    assert!(matches!(GGMLType::try_from(6), Ok(GGMLType::Q5_0)));
    assert!(matches!(GGMLType::try_from(7), Ok(GGMLType::Q5_1)));
    assert!(matches!(GGMLType::try_from(8), Ok(GGMLType::Q8_0)));
    assert!(matches!(GGMLType::try_from(10), Ok(GGMLType::Q2_K)));
    assert!(matches!(GGMLType::try_from(30), Ok(GGMLType::BF16)));
    assert!(matches!(GGMLType::try_from(39), Ok(GGMLType::MXFP4)));
}

#[test]
fn test_mxfp4_layout_matches_current_ggml() {
    let (block_size, type_size) = ggml_type_layout(GGMLType::MXFP4).unwrap();
    assert_eq!((block_size, type_size), (32, 17));
}

#[test]
fn test_ggml_type_invalid() {
    assert!(GGMLType::try_from(100).is_err());
    assert!(GGMLType::try_from(255).is_err());
}

#[test]
fn test_byte_order_variants() {
    let le = ByteOrder::LE;
    let be = ByteOrder::BE;

    let _ = format!("{:?}", le);
    let _ = format!("{:?}", be);
}

#[test]
fn test_version_variants() {
    let v1 = Version::V1(V1::default());
    let v2 = Version::V2(V2::default());
    let v3 = Version::V3(V3::default());

    let _ = format!("{:?}", v1);
    let _ = format!("{:?}", v2);
    let _ = format!("{:?}", v3);
}
