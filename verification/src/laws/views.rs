//! What is said of values, tensors and errors is what they hold.
use crate::container::ContainerView;
use crate::endian::ByteOrder;
use crate::error::{GGUFError, ReadError};
use crate::grammar::InputBounds;
use crate::metadata::{entry_views, MetadataEntry};
use crate::types::{Version, V1};
use crate::value::{scalar_views, tensor_views, MetadataScalar, MetadataValue, Tensor, ValueView};
use vstd::prelude::*;

verus! {

/// A tensor is said to have the name, type, offset, size and shape that it has, and so are tensors, in
/// their order.
pub proof fn law_tensors(tensors: Seq<Tensor>, i: int)
    requires
        0 <= i < tensors.len(),
    ensures
        tensor_views(tensors).len() == tensors.len(),
        tensor_views(tensors)[i].name == tensors[i].name@,
        tensor_views(tensors)[i].kind == tensors[i].kind,
        tensor_views(tensors)[i].offset == tensors[i].offset,
        tensor_views(tensors)[i].size == tensors[i].size,
        tensor_views(tensors)[i].shape == tensors[i].shape@,
{
}

/// A value that is no array is said to be of the type that it is of, and to be the number, the bool or
/// the text that it is.
pub proof fn law_scalars(v: MetadataScalar)
    ensures
        match (v, v@) {
            (MetadataScalar::Uint8(n), MetadataScalar::Uint8(m)) => n == m,
            (MetadataScalar::Int8(n), MetadataScalar::Int8(m)) => n == m,
            (MetadataScalar::Uint16(n), MetadataScalar::Uint16(m)) => n == m,
            (MetadataScalar::Int16(n), MetadataScalar::Int16(m)) => n == m,
            (MetadataScalar::Uint32(n), MetadataScalar::Uint32(m)) => n == m,
            (MetadataScalar::Int32(n), MetadataScalar::Int32(m)) => n == m,
            (MetadataScalar::Float32(n), MetadataScalar::Float32(m)) => n == m,
            (MetadataScalar::Bool(n), MetadataScalar::Bool(m)) => n == m,
            (MetadataScalar::String(n), MetadataScalar::String(m)) => n@ == m,
            (MetadataScalar::Uint64(n), MetadataScalar::Uint64(m)) => n == m,
            (MetadataScalar::Int64(n), MetadataScalar::Int64(m)) => n == m,
            (MetadataScalar::Float64(n), MetadataScalar::Float64(m)) => n == m,
            _ => false,
        },
{
}

/// An array is said to hold the items that it holds, in their order.
pub proof fn law_values(v: MetadataValue)
    ensures
        match (v, v@) {
            (MetadataValue::Scalar(n), ValueView::Scalar(m)) => n@ == m,
            (MetadataValue::Array(x), ValueView::Array(y)) => {
                &&& x@.len() == y.len()
                &&& forall|i: int| 0 <= i < y.len() ==> #[trigger] y[i] == x@[i]@
            },
            _ => false,
        },
{
    if let MetadataValue::Array(x) = v {
        assert(v@ == ValueView::Array(scalar_views(x@)));
    }
}

/// Pairs are said to have the keys and values that they have, in their order.
pub proof fn law_entries(entries: Seq<MetadataEntry>, i: int)
    requires
        0 <= i < entries.len(),
    ensures
        entry_views(entries).len() == entries.len(),
        entry_views(entries)[i].0 == entries[i].key@,
        entry_views(entries)[i].1 == entries[i].value@,
{
}

/// An error is said to be the one that it is.
pub proof fn law_read_errors(e: ReadError)
    ensures
        match (e, e@) {
            (ReadError::UnexpectedEof, ReadError::UnexpectedEof) => true,
            (ReadError::UnsupportedValueType, ReadError::UnsupportedValueType) => true,
            (ReadError::InvalidBool(n), ReadError::InvalidBool(m)) => n == m,
            (ReadError::EmptyString(x), ReadError::EmptyString(y)) => x == y,
            (
                ReadError::StringTooLong { context: x, len: n },
                ReadError::StringTooLong { context: y, len: m },
            ) => x == y && n == m,
            (ReadError::InvalidUtf8(x, a), ReadError::InvalidUtf8(y, b)) => x == y && a@ == b,
            (ReadError::NestedArray, ReadError::NestedArray) => true,
            (ReadError::ArrayTooLong(n), ReadError::ArrayTooLong(m)) => n == m,
            (ReadError::MetadataTooLarge, ReadError::MetadataTooLarge) => true,
            (ReadError::SkippedArrayItem(n, a), ReadError::SkippedArrayItem(m, b)) => n == m && a@
                == *b,
            _ => false,
        },
{
}

/// An error is said to be the one that it is, with the names and numbers that it has.
pub proof fn law_errors(e: GGUFError)
    ensures
        match (e, e@) {
            (GGUFError::Read(x), GGUFError::Read(y)) => x@ == y,
            (GGUFError::InvalidMagic, GGUFError::InvalidMagic) => true,
            (GGUFError::InputLengthRequired, GGUFError::InputLengthRequired) => true,
            (GGUFError::InputTooShort(n), GGUFError::InputTooShort(m)) => n == m,
            (GGUFError::InvalidVersion(n), GGUFError::InvalidVersion(m)) => n == m,
            (GGUFError::TooManyTensors(n), GGUFError::TooManyTensors(m)) => n == m,
            (GGUFError::TooManyKv(n), GGUFError::TooManyKv(m)) => n == m,
            (GGUFError::DuplicateKey(a), GGUFError::DuplicateKey(b)) => a@ == b,
            (GGUFError::AlignmentType, GGUFError::AlignmentType) => true,
            (GGUFError::AlignmentZero, GGUFError::AlignmentZero) => true,
            (
                GGUFError::AlignmentNotMultipleOfEight(n),
                GGUFError::AlignmentNotMultipleOfEight(m),
            ) => n == m,
            (GGUFError::AlignmentTooLarge(n), GGUFError::AlignmentTooLarge(m)) => n == m,
            (GGUFError::DuplicateTensor(a), GGUFError::DuplicateTensor(b)) => a@ == b,
            (GGUFError::Tensor(a, x), GGUFError::Tensor(b, y)) => a@ == b && x == y,
            (GGUFError::InvalidTensorType, GGUFError::InvalidTensorType) => true,
            (GGUFError::UnsupportedTensorType, GGUFError::UnsupportedTensorType) => true,
            (GGUFError::HeaderTooLarge, GGUFError::HeaderTooLarge) => true,
            (GGUFError::OverlappingTensors(a, x), GGUFError::OverlappingTensors(b, y)) => a@ == b
                && x@ == y,
            (GGUFError::FileNotFound(None), GGUFError::FileNotFound(None)) => true,
            (GGUFError::FileNotFound(Some(a)), GGUFError::FileNotFound(Some(b))) => a@ == b,
            (
                GGUFError::FileTooLarge { helper: x, len: n, cap: k },
                GGUFError::FileTooLarge { helper: y, len: m, cap: l },
            ) => x == y && n == m && k == l,
            (GGUFError::FileTooSmall, GGUFError::FileTooSmall) => true,
            (GGUFError::SnapshotTooLarge, GGUFError::SnapshotTooLarge) => true,
            (GGUFError::ByteOrderChanged, GGUFError::ByteOrderChanged) => true,
            _ => false,
        },
{
}

/// A container that has not been decoded has what it was given and a first version without anything.
pub proof fn law_new_containers(
    order: ByteOrder,
    input: Seq<u8>,
    max_array_size: u64,
    bounds: InputBounds,
)
    ensures
        ({
            let c = ContainerView::fresh(order, input, max_array_size, bounds);
            &&& c.order == order
            &&& c.input == input
            &&& c.max_array_size == max_array_size
            &&& c.bounds == bounds
            &&& c.version == Version::V1(V1 { num_tensor: 0, num_kv: 0 })
        }),
{
}

} // verus!
