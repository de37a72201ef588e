//! The numbers of the format: magics, versions and caps.
use crate::constants::{
    BILLION, DEFAULT_MAX_ARRAY_SIZE, DEFAULT_MAX_HELPER_INPUT_BYTES, FILE_MAGIC_GGUF_BE,
    FILE_MAGIC_GGUF_LE, GGUF_DEFAULT_ALIGNMENT, GGUF_VERSION_V1, GGUF_VERSION_V2, GGUF_VERSION_V3,
    MAX_ALIGNMENT, MAX_ARRAY_LEN, MAX_DIMENSION, MAX_ELEMENTS, MAX_HEADER_BYTES, MAX_KV,
    MAX_METADATA_BYTES, MAX_METADATA_KEY_LEN, MAX_STORED_ARRAY_ITEMS, MAX_STRING_VALUE_LEN,
    MAX_TENSORS, MAX_TENSOR_NAME_LEN, MILLION, THOUSAND,
};
use crate::endian::{signed_value, ByteOrder};
use crate::error::{GGUFError, StringContext};
use crate::grammar::{check_counts, kept_items, value_width, Dialect};
use crate::laws::encoding::{le_bytes, lemma_ranges, magic_bytes, range};
use crate::types::{MetadataValueType, Version};
use vstd::prelude::*;

verus! {

/// The caps, as powers of ten and of two.
pub proof fn law_caps()
    ensures
        THOUSAND == 1_000 && MILLION == THOUSAND * 1_000 && BILLION == MILLION * 1_000,
        MAX_TENSORS == 100_000 && MAX_KV == 100_000,
        MAX_ARRAY_LEN == 1_000_000 && MAX_STORED_ARRAY_ITEMS == 300_000,
        MAX_METADATA_KEY_LEN == 0xffff && MAX_TENSOR_NAME_LEN == 0x40,
        MAX_STRING_VALUE_LEN == 0x100_0000,
        MAX_DIMENSION == 0x4000_0000 && MAX_ELEMENTS == 0x100_0000_0000,
        GGUF_DEFAULT_ALIGNMENT == 32 && MAX_ALIGNMENT == 0x1_0000,
        MAX_METADATA_BYTES == 0x400_0000 && MAX_HEADER_BYTES == 2 * MAX_METADATA_BYTES,
        DEFAULT_MAX_HELPER_INPUT_BYTES == 2 * MAX_HEADER_BYTES,
        DEFAULT_MAX_ARRAY_SIZE == 3,
        GGUF_VERSION_V1 == 1 && GGUF_VERSION_V2 == 2 && GGUF_VERSION_V3 == 3,
{
}

/// A file starts with the letters `GGUF`, or with the same letters backwards where its numbers
/// have their most significant byte in front.
pub proof fn law_magic_letters()
    ensures
        magic_bytes(ByteOrder::LE) == seq!['G' as u8, 'G' as u8, 'U' as u8, 'F' as u8],
        magic_bytes(ByteOrder::BE) == magic_bytes(ByteOrder::LE).reverse(),
        FILE_MAGIC_GGUF_LE > 0 && FILE_MAGIC_GGUF_BE > 0,
{
    reveal_with_fuel(le_bytes, 5);
    assert(magic_bytes(ByteOrder::LE) =~= seq!['G' as u8, 'G' as u8, 'U' as u8, 'F' as u8]);
    assert(magic_bytes(ByteOrder::BE) =~= magic_bytes(ByteOrder::LE).reverse());
}

/// Names are never empty, values may be; names of tensors are the shortest, values the longest.
pub proof fn law_string_contexts(context: StringContext)
    ensures
        context.allows_empty() <==> context.cap() == MAX_STRING_VALUE_LEN,
        context is MetadataKey ==> context.cap() == MAX_METADATA_KEY_LEN,
        context is TensorName ==> context.cap() == MAX_TENSOR_NAME_LEN,
        context is MetadataValue || context is ArrayItem ==> context.cap() == MAX_STRING_VALUE_LEN,
{
}

/// Counts are accepted exactly within their caps; of two that are too large the tensors are named.
pub proof fn law_counts(num_tensor: u64, num_kv: u64)
    ensures
        check_counts(num_tensor, num_kv) is Ok <==> num_tensor <= 100_000 && num_kv <= 100_000,
        num_tensor > 100_000 ==> check_counts(num_tensor, num_kv) == Err::<(), _>(
            GGUFError::<Seq<char>>::TooManyTensors(num_tensor),
        ),
        num_tensor <= 100_000 < num_kv ==> check_counts(num_tensor, num_kv) == Err::<(), _>(
            GGUFError::<Seq<char>>::TooManyKv(num_kv),
        ),
{
}

/// No more items are kept than there are, than were asked for and than the cap allows, and no fewer
/// than the least of these.
pub proof fn law_kept_items(d: Dialect, len: nat)
    ensures
        kept_items(d, len) <= len,
        kept_items(d, len) <= d.max_array_size,
        kept_items(d, len) <= 300_000,
        kept_items(d, len) == len || kept_items(d, len) == d.max_array_size || kept_items(d, len)
            == 300_000,
{
}

/// The bytes of a number follow from its type: 8, 16, 32 or 64 bits.
pub proof fn law_value_widths()
    ensures
        value_width(MetadataValueType::Bool) == 1,
        8 * value_width(MetadataValueType::Uint8) == 8,
        8 * value_width(MetadataValueType::Int8) == 8,
        8 * value_width(MetadataValueType::Uint16) == 16,
        8 * value_width(MetadataValueType::Int16) == 16,
        8 * value_width(MetadataValueType::Uint32) == 32,
        8 * value_width(MetadataValueType::Int32) == 32,
        8 * value_width(MetadataValueType::Float32) == 32,
        8 * value_width(MetadataValueType::Uint64) == 64,
        8 * value_width(MetadataValueType::Int64) == 64,
        8 * value_width(MetadataValueType::Float64) == 64,
{
}

/// A signed number differs from the unsigned one of the same bytes by a whole turn or not at all,
/// and lies in its range.
pub proof fn law_signed_values(n: nat, width: nat)
    requires
        width == 1 || width == 2 || width == 4 || width == 8,
        n < range(width),
    ensures
        signed_value(n, width) == n || signed_value(n, width) == n - range(
            width,
        ),
        -range(width) <= 2 * signed_value(n, width)
            < range(width),
{
    lemma_ranges();
}

/// The first version counts in four bytes, the others in eight; the magic and the version number
/// take four bytes each.
pub proof fn law_versions(version: Version)
    ensures
        version.wide_spec() <==> !(version is V1),
        version.preamble_len_spec() == 8 + 2 * if version.wide_spec() {
            8int
        } else {
            4int
        },
        version.name_spec().len() == 2,
        version.name_spec()[0] == 'v',
        version.name_spec()[1] == match version {
            Version::V1(_) => '1',
            Version::V2(_) => '2',
            Version::V3(_) => '3',
        },
        version matches Version::V1(v) ==> version.num_kv_spec() == v.num_kv
            && version.num_tensor_spec() == v.num_tensor,
        version matches Version::V2(v) ==> version.num_kv_spec() == v.num_kv
            && version.num_tensor_spec() == v.num_tensor,
        version matches Version::V3(v) ==> version.num_kv_spec() == v.num_kv
            && version.num_tensor_spec() == v.num_tensor,
{
    reveal_strlit("v1");
    reveal_strlit("v2");
    reveal_strlit("v3");
}

} // verus!
