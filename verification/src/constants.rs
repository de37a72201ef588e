//! Magic numbers, version numbers and the caps that bound a header.
use vstd::prelude::*;

verus! {

/// Magic constant for `ggml` files (unversioned).
pub const FILE_MAGIC_GGML: i32 = 0x67676d6c;

/// Magic constant for `ggml` files (versioned, ggmf).
pub const FILE_MAGIC_GGMF: i32 = 0x67676d66;

/// Magic constant for `ggml` files (versioned, ggjt).
pub const FILE_MAGIC_GGJT: i32 = 0x67676a74;

/// Magic constant for `ggla` files (LoRA adapter).
pub const FILE_MAGIC_GGLA: i32 = 0x67676C61;

/// Magic constant for little-endian `gguf` files.
pub const FILE_MAGIC_GGUF_LE: i32 = 0x46554747;

/// Magic constant for big-endian `gguf` files.
pub const FILE_MAGIC_GGUF_BE: i32 = 0x47475546;

pub const GGUF_VERSION_V1: i32 = 1;

pub const GGUF_VERSION_V2: i32 = 2;

pub const GGUF_VERSION_V3: i32 = 3;

pub const THOUSAND: u64 = 1000;

pub const MILLION: u64 = 1_000_000;

pub const BILLION: u64 = 1_000_000_000;

/// Alignment of the tensor data where the metadata names none.
pub const GGUF_DEFAULT_ALIGNMENT: u64 = 32;

pub const MAX_ALIGNMENT: u64 = 65536;

pub const MAX_TENSORS: u64 = 100_000;

pub const MAX_KV: u64 = 100_000;

pub const MAX_METADATA_KEY_LEN: u64 = 65535;

pub const MAX_TENSOR_NAME_LEN: u64 = 64;

/// 16 MiB.
pub const MAX_STRING_VALUE_LEN: u64 = 16_777_216;

pub const MAX_ARRAY_LEN: u64 = 1_000_000;

pub const MAX_STORED_ARRAY_ITEMS: u64 = 300_000;

/// 2^30.
pub const MAX_DIMENSION: u64 = 1_073_741_824;

/// 2^40.
pub const MAX_ELEMENTS: u64 = 1_099_511_627_776;

/// 64 MiB.
pub const MAX_METADATA_BYTES: u64 = 67_108_864;

/// 128 MiB.
pub const MAX_HEADER_BYTES: u64 = 134_217_728;

/// 256 MiB.
pub const DEFAULT_MAX_HELPER_INPUT_BYTES: u64 = 268_435_456;

/// Array items that the file helpers keep where the caller names no limit.
pub const DEFAULT_MAX_ARRAY_SIZE: u64 = 3;

} // verus!
