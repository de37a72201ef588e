//! The GGUF header format, as functions from bytes to what they hold.
//!
//! `s` is always the whole input of a function and `pos` the place in it where the item starts. A
//! result is the item together with the place behind it, or the reason why there is no item.
use crate::constants::{
    FILE_MAGIC_GGUF_BE, FILE_MAGIC_GGUF_LE, GGUF_DEFAULT_ALIGNMENT, GGUF_VERSION_V1,
    GGUF_VERSION_V2, GGUF_VERSION_V3, MAX_ALIGNMENT, MAX_ARRAY_LEN, MAX_DIMENSION, MAX_ELEMENTS,
    MAX_HEADER_BYTES, MAX_KV, MAX_METADATA_BYTES, MAX_STORED_ARRAY_ITEMS, MAX_TENSORS,
};
use crate::endian::{signed_value, uint_value, ByteOrder};
use crate::error::{GGUFError, ReadError, StringContext, TensorFault};
use crate::types::{ggml_type_of, layout_of, value_type_of, MetadataValueType, Version, V1, V2, V3};
use crate::value::{MetadataScalar, TensorView, ValueView};
use vstd::prelude::*;
use vstd::utf8::{decode_utf8, valid_utf8};

verus! {

/// How much input there is.
#[derive(Debug, Clone, Copy, PartialEq, Eq, Structural)]
pub enum InputBounds {
    /// Not said: decoding is refused.
    Unknown,
    /// The input, its magic included, has this many bytes.
    Known(u64),
    /// The input may be of any length, and tensor data is not held against its end.
    TrustedUnbounded,
}

/// What decides how the bytes behind the version are read.
#[derive(Debug, Clone, Copy, PartialEq, Eq, Structural)]
pub struct Dialect {
    pub order: ByteOrder,
    /// Sizes take eight bytes rather than four.
    pub wide: bool,
    /// So many items of an array are kept.
    pub max_array_size: u64,
}

/// The unsigned number of `width` bytes at `pos`.
pub open spec fn uint_at(order: ByteOrder, width: nat, s: Seq<u8>, pos: int) -> Result<
    (nat, int),
    ReadError<Seq<char>>,
> {
    if pos + width <= s.len() {
        Ok((uint_value(order, s.subrange(pos, pos + width)), pos + width))
    } else {
        Err(ReadError::UnexpectedEof)
    }
}

/// The bytes that a size takes.
pub open spec fn size_width(d: Dialect) -> nat {
    if d.wide {
        8
    } else {
        4
    }
}

/// The size at `pos`.
pub open spec fn size_at(d: Dialect, s: Seq<u8>, pos: int) -> Result<(nat, int), ReadError<Seq<char>>> {
    uint_at(d.order, size_width(d), s, pos)
}

/// What is wrong with bytes that are not UTF-8, in words.
pub uninterp spec fn utf8_fault_text(bytes: Seq<u8>) -> Seq<char>;

/// The string at `pos`: its byte length as a size, then its UTF-8 bytes.
pub open spec fn string_at(d: Dialect, context: StringContext, s: Seq<u8>, pos: int) -> Result<
    (Seq<char>, int),
    ReadError<Seq<char>>,
> {
    match size_at(d, s, pos) {
        Err(e) => Err(e),
        Ok((len, p)) => if len == 0 && !context.allows_empty() {
            Err(ReadError::EmptyString(context))
        } else if len > context.cap() {
            Err(ReadError::StringTooLong { context, len: len as u64 })
        } else if p + len > s.len() {
            Err(ReadError::UnexpectedEof)
        } else if !valid_utf8(s.subrange(p, p + len)) {
            Err(ReadError::InvalidUtf8(context, utf8_fault_text(s.subrange(p, p + len))))
        } else {
            Ok((decode_utf8(s.subrange(p, p + len)), p + len))
        },
    }
}

/// The bytes that a value of type `t` takes, where the type alone decides.
pub open spec fn value_width(t: MetadataValueType) -> nat {
    match t {
        MetadataValueType::Uint8 | MetadataValueType::Int8 | MetadataValueType::Bool => 1,
        MetadataValueType::Uint16 | MetadataValueType::Int16 => 2,
        MetadataValueType::Uint32 | MetadataValueType::Int32 | MetadataValueType::Float32 => 4,
        _ => 8,
    }
}

/// What the unsigned number `n` stands for as a value of type `t`, which is neither a string nor
/// an array.
pub open spec fn scalar_of(t: MetadataValueType, n: nat) -> Result<
    MetadataScalar<Seq<char>>,
    ReadError<Seq<char>>,
> {
    match t {
        MetadataValueType::Uint8 => Ok(MetadataScalar::Uint8(n as u8)),
        MetadataValueType::Int8 => Ok(MetadataScalar::Int8(signed_value(n, 1) as i8)),
        MetadataValueType::Uint16 => Ok(MetadataScalar::Uint16(n as u16)),
        MetadataValueType::Int16 => Ok(MetadataScalar::Int16(signed_value(n, 2) as i16)),
        MetadataValueType::Uint32 => Ok(MetadataScalar::Uint32(n as u32)),
        MetadataValueType::Int32 => Ok(MetadataScalar::Int32(signed_value(n, 4) as i32)),
        MetadataValueType::Float32 => Ok(MetadataScalar::Float32(n as u32)),
        MetadataValueType::Bool => if n == 0 {
            Ok(MetadataScalar::Bool(false))
        } else if n == 1 {
            Ok(MetadataScalar::Bool(true))
        } else {
            Err(ReadError::InvalidBool(n as u8))
        },
        MetadataValueType::Uint64 => Ok(MetadataScalar::Uint64(n as u64)),
        MetadataValueType::Int64 => Ok(MetadataScalar::Int64(signed_value(n, 8) as i64)),
        _ => Ok(MetadataScalar::Float64(n as u64)),
    }
}

/// The value of type `t` at `pos`, where no array may stand.
pub open spec fn scalar_at(
    d: Dialect,
    t: MetadataValueType,
    context: StringContext,
    s: Seq<u8>,
    pos: int,
) -> Result<(MetadataScalar<Seq<char>>, int), ReadError<Seq<char>>> {
    match t {
        MetadataValueType::String => match string_at(d, context, s, pos) {
            Ok((text, p)) => Ok((MetadataScalar::String(text), p)),
            Err(e) => Err(e),
        },
        MetadataValueType::Array => Err(ReadError::NestedArray),
        _ => match uint_at(d.order, value_width(t), s, pos) {
            Ok((n, p)) => match scalar_of(t, n) {
                Ok(v) => Ok((v, p)),
                Err(e) => Err(e),
            },
            Err(e) => Err(e),
        },
    }
}

/// The value type whose number stands at `pos`.
pub open spec fn value_type_at(d: Dialect, s: Seq<u8>, pos: int) -> Result<
    (MetadataValueType, int),
    ReadError<Seq<char>>,
> {
    match uint_at(d.order, 4, s, pos) {
        Err(e) => Err(e),
        Ok((code, p)) => match value_type_of(code as u32) {
            Some(t) => Ok((t, p)),
            None => Err(ReadError::UnsupportedValueType),
        },
    }
}

/// The items from number `i` on of an array of `len` items at `pos`: of those, the ones below
/// number `keep`. The others are read in the same way and left out.
pub open spec fn items_at(
    d: Dialect,
    t: MetadataValueType,
    len: nat,
    keep: nat,
    i: nat,
    s: Seq<u8>,
    pos: int,
) -> Result<(Seq<MetadataScalar<Seq<char>>>, int), ReadError<Seq<char>>>
    decreases len - i,
{
    if i >= len {
        Ok((Seq::empty(), pos))
    } else {
        match scalar_at(d, t, StringContext::ArrayItem, s, pos) {
            Err(e) => if i < keep {
                Err(e)
            } else {
                Err(ReadError::SkippedArrayItem(i as u64, Box::new(e)))
            },
            Ok((v, p)) => if p > MAX_METADATA_BYTES {
                Err(ReadError::MetadataTooLarge)
            } else {
                match items_at(d, t, len, keep, i + 1, s, p) {
                    Err(e) => Err(e),
                    Ok((rest, end)) => if i < keep {
                        Ok((seq![v] + rest, end))
                    } else {
                        Ok((rest, end))
                    },
                }
            },
        }
    }
}

/// How many items of an array of `len` items are kept.
pub open spec fn kept_items(d: Dialect, len: nat) -> nat {
    let limit = if d.max_array_size < MAX_STORED_ARRAY_ITEMS {
        d.max_array_size
    } else {
        MAX_STORED_ARRAY_ITEMS
    };
    if len < limit {
        len
    } else {
        limit as nat
    }
}

/// The array at `pos`: the type of its items, their number as a size, and the items.
pub open spec fn array_at(d: Dialect, s: Seq<u8>, pos: int) -> Result<
    (Seq<MetadataScalar<Seq<char>>>, int),
    ReadError<Seq<char>>,
> {
    match value_type_at(d, s, pos) {
        Err(e) => Err(e),
        Ok((t, p)) => match size_at(d, s, p) {
            Err(e) => Err(e),
            Ok((len, q)) => if len > MAX_ARRAY_LEN {
                Err(ReadError::ArrayTooLong(len as u64))
            } else {
                items_at(d, t, len, kept_items(d, len), 0, s, q)
            },
        },
    }
}

/// The value of type `t` at `pos`.
pub open spec fn value_at(d: Dialect, t: MetadataValueType, s: Seq<u8>, pos: int) -> Result<
    (ValueView, int),
    ReadError<Seq<char>>,
> {
    if t is Array {
        match array_at(d, s, pos) {
            Ok((items, p)) => Ok((ValueView::Array(items), p)),
            Err(e) => Err(e),
        }
    } else {
        match scalar_at(d, t, StringContext::MetadataValue, s, pos) {
            Ok((v, p)) => Ok((ValueView::Scalar(v), p)),
            Err(e) => Err(e),
        }
    }
}

/// The value at `pos` that is preceded by the number of its type.
pub open spec fn typed_value_at(d: Dialect, s: Seq<u8>, pos: int) -> Result<
    (ValueView, int),
    ReadError<Seq<char>>,
> {
    match value_type_at(d, s, pos) {
        Err(e) => Err(e),
        Ok((t, p)) => value_at(d, t, s, p),
    }
}

/// `n` more key-value pairs at `pos`, behind those that have been read into `done`.
pub open spec fn kvs_at(
    d: Dialect,
    n: nat,
    done: Map<Seq<char>, ValueView>,
    s: Seq<u8>,
    pos: int,
) -> Result<(Map<Seq<char>, ValueView>, int), GGUFError<Seq<char>>>
    decreases n,
{
    if n == 0 {
        Ok((done, pos))
    } else {
        match string_at(d, StringContext::MetadataKey, s, pos) {
            Err(e) => Err(GGUFError::Read(e)),
            Ok((key, p)) => if done.contains_key(key) {
                Err(GGUFError::DuplicateKey(key))
            } else {
                match typed_value_at(d, s, p) {
                    Err(e) => Err(GGUFError::Read(e)),
                    Ok((value, q)) => if q > MAX_METADATA_BYTES {
                        Err(GGUFError::Read(ReadError::MetadataTooLarge))
                    } else {
                        kvs_at(d, (n - 1) as nat, done.insert(key, value), s, q)
                    },
                }
            },
        }
    }
}

/// The alignment of tensor data that the metadata asks for.
pub open spec fn alignment_of(kvs: Map<Seq<char>, ValueView>) -> Result<
    u64,
    GGUFError<Seq<char>>,
> {
    let key = "general.alignment"@;
    if kvs.contains_key(key) && !kvs[key].value_type().is_unsigned_spec() {
        Err(GGUFError::AlignmentType)
    } else {
        let raw = if kvs.contains_key(key) {
            kvs[key].as_u64()->0
        } else {
            GGUF_DEFAULT_ALIGNMENT
        };
        if raw == 0 {
            Err(GGUFError::AlignmentZero)
        } else if raw % 8 != 0 {
            Err(GGUFError::AlignmentNotMultipleOfEight(raw))
        } else if raw > MAX_ALIGNMENT {
            Err(GGUFError::AlignmentTooLarge(raw))
        } else {
            Ok(raw)
        }
    }
}

/// The product of the numbers.
pub open spec fn product(dims: Seq<u64>) -> nat
    decreases dims.len(),
{
    if dims.len() == 0 {
        1
    } else {
        product(dims.drop_last()) * dims.last() as nat
    }
}

/// `count` dimensions of the tensor `name`, of which `done` have been read and the next stands at
/// `pos`.
pub open spec fn dims_at(
    d: Dialect,
    name: Seq<char>,
    count: nat,
    done: Seq<u64>,
    s: Seq<u8>,
    pos: int,
) -> Result<(Seq<u64>, int), GGUFError<Seq<char>>>
    decreases count - done.len(),
{
    if done.len() >= count {
        Ok((done, pos))
    } else {
        match uint_at(d.order, 8, s, pos) {
            Err(e) => Err(GGUFError::Read(e)),
            Ok((dim, p)) => if dim == 0 {
                Err(GGUFError::Tensor(name, TensorFault::ZeroDimension))
            } else if dim > MAX_DIMENSION {
                Err(GGUFError::Tensor(name, TensorFault::DimensionTooLarge(dim as u64)))
            } else if product(done) * dim > u64::MAX {
                Err(GGUFError::Tensor(name, TensorFault::ElementOverflow))
            } else {
                dims_at(d, name, count, done.push(dim as u64), s, p)
            },
        }
    }
}

/// `dims`, filled up with ones to four dimensions.
pub open spec fn padded(dims: Seq<u64>) -> Seq<u64> {
    dims + Seq::new((4 - dims.len()) as nat, |i: int| 1u64)
}

/// The dimensions of the tensor `name` at `pos`: their number, then each of them.
pub open spec fn shape_at(d: Dialect, name: Seq<char>, s: Seq<u8>, pos: int) -> Result<
    (Seq<u64>, int),
    GGUFError<Seq<char>>,
> {
    match uint_at(d.order, 4, s, pos) {
        Err(e) => Err(GGUFError::Read(e)),
        Ok((count, p)) => if count == 0 || count > 4 {
            Err(GGUFError::Tensor(name, TensorFault::DimensionCount(count as u32)))
        } else {
            match dims_at(d, name, count, Seq::empty(), s, p) {
                Err(e) => Err(e),
                Ok((dims, q)) => if product(dims) > MAX_ELEMENTS {
                    Err(GGUFError::Tensor(name, TensorFault::TooManyElements(product(dims) as u64)))
                } else {
                    Ok((padded(dims), q))
                },
            }
        },
    }
}

/// The bytes that a tensor of four dimensions takes: its rows are stored block by block.
pub open spec fn byte_size(shape: Seq<u64>, block: u64, block_bytes: u64) -> nat {
    ((shape[0] / block) * block_bytes * (shape[1] * shape[2] * shape[3])) as nat
}

/// What is wrong with a tensor of type number `kind`, that shape and that offset, or the bytes that
/// its data takes.
pub open spec fn tensor_size(
    name: Seq<char>,
    kind: u32,
    offset: u64,
    shape: Seq<u64>,
    alignment: u64,
) -> Result<u64, GGUFError<Seq<char>>> {
    match ggml_type_of(kind) {
        None => Err(GGUFError::InvalidTensorType),
        Some(t) => match layout_of(t) {
            None => Err(GGUFError::UnsupportedTensorType),
            Some((block, block_bytes)) => if shape[0] % block != 0 {
                Err(GGUFError::Tensor(name, TensorFault::RowWidth { row: shape[0], block }))
            } else if offset % alignment != 0 {
                Err(GGUFError::Tensor(name, TensorFault::Unaligned { offset, alignment }))
            } else {
                Ok(byte_size(shape, block, block_bytes) as u64)
            },
        },
    }
}

/// The description of the tensor `name` at `pos`: its shape, its type and its offset.
pub open spec fn description_at(
    d: Dialect,
    alignment: u64,
    name: Seq<char>,
    s: Seq<u8>,
    pos: int,
) -> Result<(TensorView, int), GGUFError<Seq<char>>> {
    match shape_at(d, name, s, pos) {
        Err(e) => Err(e),
        Ok((shape, p)) => match uint_at(d.order, 4, s, p) {
            Err(e) => Err(GGUFError::Read(e)),
            Ok((kind, q)) => match uint_at(d.order, 8, s, q) {
                Err(e) => Err(GGUFError::Read(e)),
                Ok((offset, end)) => match tensor_size(
                    name,
                    kind as u32,
                    offset as u64,
                    shape,
                    alignment,
                ) {
                    Err(e) => Err(e),
                    Ok(size) => Ok(
                        (
                            TensorView {
                                name,
                                kind: kind as u32,
                                offset: offset as u64,
                                size,
                                shape,
                            },
                            end,
                        ),
                    ),
                },
            },
        },
    }
}

/// Whether one of the tensors is called `name`.
pub open spec fn has_name(tensors: Seq<TensorView>, name: Seq<char>) -> bool {
    exists|i: int| 0 <= i < tensors.len() && (#[trigger] tensors[i]).name == name
}

/// `n` tensor descriptions, of which `done` have been read and the next stands at `pos`.
pub open spec fn tensors_at(
    d: Dialect,
    alignment: u64,
    n: nat,
    done: Seq<TensorView>,
    s: Seq<u8>,
    pos: int,
) -> Result<(Seq<TensorView>, int), GGUFError<Seq<char>>>
    decreases n - done.len(),
{
    if done.len() >= n {
        Ok((done, pos))
    } else {
        match string_at(d, StringContext::TensorName, s, pos) {
            Err(e) => Err(GGUFError::Read(e)),
            Ok((name, p)) => if has_name(done, name) {
                Err(GGUFError::DuplicateTensor(name))
            } else {
                match description_at(d, alignment, name, s, p) {
                    Err(e) => Err(e),
                    Ok((tensor, q)) => if q > MAX_HEADER_BYTES {
                        Err(GGUFError::HeaderTooLarge)
                    } else {
                        tensors_at(d, alignment, n, done.push(tensor), s, q)
                    },
                }
            },
        }
    }
}

/// The number of elements of all the tensors together.
pub open spec fn total_elements(tensors: Seq<TensorView>) -> nat
    decreases tensors.len(),
{
    if tensors.len() == 0 {
        0
    } else {
        total_elements(tensors.drop_last()) + product(tensors.last().shape)
    }
}

/// `n` rounded up to a multiple of `alignment`.
pub open spec fn align_up(n: int, alignment: int) -> int {
    (n + alignment - 1) / alignment * alignment
}

/// What is wrong with where the data of `tensor` stands, if the data of all tensors starts at
/// `start`.
pub open spec fn range_fault(tensor: TensorView, start: int, bounds: InputBounds) -> Option<
    TensorFault,
> {
    let abs_start = start + tensor.offset;
    let abs_end = abs_start + tensor.size;
    if abs_start > u64::MAX {
        Some(TensorFault::OffsetOverflow)
    } else if abs_end > u64::MAX {
        Some(TensorFault::RangeOverflow)
    } else {
        match bounds {
            InputBounds::Known(file_size) if abs_end > file_size => Some(
                TensorFault::PastEof { end: abs_end as u64, file_size },
            ),
            _ => None,
        }
    }
}

/// The first of the tensors from number `i` on whose data stands wrongly, and what is wrong.
pub open spec fn first_range_fault(
    tensors: Seq<TensorView>,
    i: int,
    start: int,
    bounds: InputBounds,
) -> Option<(int, TensorFault)>
    decreases tensors.len() - i,
{
    if i < 0 || i >= tensors.len() {
        None
    } else {
        match range_fault(tensors[i], start, bounds) {
            Some(fault) => Some((i, fault)),
            None => first_range_fault(tensors, i + 1, start, bounds),
        }
    }
}

/// The absolute start, the number and the absolute end of each tensor.
pub open spec fn data_ranges(tensors: Seq<TensorView>, start: int) -> Seq<(u64, usize, u64)> {
    Seq::new(
        tensors.len(),
        |i: int|
            (
                (start + tensors[i].offset) as u64,
                i as usize,
                (start + tensors[i].offset + tensors[i].size) as u64,
            ),
    )
}

/// The order of ranges: by start, then by number, then by end.
pub open spec fn range_leq(a: (u64, usize, u64), b: (u64, usize, u64)) -> bool {
    a.0 < b.0 || (a.0 == b.0 && (a.1 < b.1 || (a.1 == b.1 && a.2 <= b.2)))
}

/// [`range_leq`] as a function.
pub open spec fn range_order() -> spec_fn((u64, usize, u64), (u64, usize, u64)) -> bool {
    |a: (u64, usize, u64), b: (u64, usize, u64)| range_leq(a, b)
}

/// The ranges in order.
pub open spec fn sorted_ranges(tensors: Seq<TensorView>, start: int) -> Seq<(u64, usize, u64)> {
    data_ranges(tensors, start).sort_by(range_order())
}

/// The first range from number `k` on that reaches into the next.
pub open spec fn first_overlap(ranges: Seq<(u64, usize, u64)>, k: int) -> Option<int>
    decreases ranges.len() - k,
{
    if k < 0 || k + 1 >= ranges.len() {
        None
    } else if ranges[k].2 > ranges[k + 1].0 {
        Some(k)
    } else {
        first_overlap(ranges, k + 1)
    }
}

/// Whether the tensors' data stands where it may: inside the input, and no two in one place.
pub open spec fn check_ranges(tensors: Seq<TensorView>, start: int, bounds: InputBounds) -> Result<
    (),
    GGUFError<Seq<char>>,
> {
    match first_range_fault(tensors, 0, start, bounds) {
        Some((i, fault)) => Err(GGUFError::Tensor(tensors[i].name, fault)),
        None => {
            let ranges = sorted_ranges(tensors, start);
            match first_overlap(ranges, 0) {
                Some(k) => Err(
                    GGUFError::OverlappingTensors(
                        tensors[ranges[k].1 as int].name,
                        tensors[ranges[k + 1].1 as int].name,
                    ),
                ),
                None => Ok(()),
            }
        },
    }
}

/// What a decoded header holds.
#[verifier::ext_equal]
pub struct ModelView {
    pub order: ByteOrder,
    pub version: Version,
    /// The metadata.
    pub kvs: Map<Seq<char>, ValueView>,
    /// The tensors in the order of the file.
    pub tensors: Seq<TensorView>,
}

impl ModelView {
    /// The number of elements of all tensors.
    pub open spec fn parameters(self) -> nat {
        total_elements(self.tensors)
    }
}

/// Metadata and tensor descriptions behind the preamble: `s` starts with them.
pub open spec fn body(d: Dialect, version: Version, bounds: InputBounds, s: Seq<u8>) -> Result<
    ModelView,
    GGUFError<Seq<char>>,
> {
    match kvs_at(d, version.num_kv_spec() as nat, Map::empty(), s, 0) {
        Err(e) => Err(e),
        Ok((kvs, p)) => match alignment_of(kvs) {
            Err(e) => Err(e),
            Ok(alignment) => match tensors_at(
                d,
                alignment,
                version.num_tensor_spec() as nat,
                Seq::empty(),
                s,
                p,
            ) {
                Err(e) => Err(e),
                Ok((tensors, end)) => {
                    let start = align_up(version.preamble_len_spec() + end, alignment as int);
                    match check_ranges(tensors, start, bounds) {
                        Err(e) => Err(e),
                        Ok(()) => Ok(ModelView { order: d.order, version, kvs, tensors }),
                    }
                },
            },
        },
    }
}

/// The byte order that the four bytes of a magic announce.
pub open spec fn order_of_magic(magic: Seq<u8>) -> Option<ByteOrder> {
    let number = signed_value(uint_value(ByteOrder::LE, magic), 4);
    if number == FILE_MAGIC_GGUF_LE {
        Some(ByteOrder::LE)
    } else if number == FILE_MAGIC_GGUF_BE {
        Some(ByteOrder::BE)
    } else {
        None
    }
}

/// The version number and the two counts behind the magic; `s` starts behind the magic.
pub open spec fn version_at(order: ByteOrder, s: Seq<u8>) -> Result<
    (Version, int),
    GGUFError<Seq<char>>,
> {
    match uint_at(order, 4, s, 0) {
        Err(e) => Err(GGUFError::Read(e)),
        Ok((n, _)) => {
            let number = signed_value(n, 4);
            if number != GGUF_VERSION_V1 && number != GGUF_VERSION_V2 && number
                != GGUF_VERSION_V3 {
                Err(GGUFError::InvalidVersion(number as i32))
            } else {
                let width: nat = if number == GGUF_VERSION_V1 {
                    4
                } else {
                    8
                };
                match uint_at(order, width, s, 4) {
                    Err(e) => Err(GGUFError::Read(e)),
                    Ok((num_tensor, p)) => match uint_at(order, width, s, p) {
                        Err(e) => Err(GGUFError::Read(e)),
                        Ok((num_kv, q)) => Ok(
                            (
                                if number == GGUF_VERSION_V1 {
                                    Version::V1(
                                        V1 { num_tensor: num_tensor as u32, num_kv: num_kv as u32 },
                                    )
                                } else if number == GGUF_VERSION_V2 {
                                    Version::V2(
                                        V2 { num_tensor: num_tensor as u64, num_kv: num_kv as u64 },
                                    )
                                } else {
                                    Version::V3(
                                        V3 { num_tensor: num_tensor as u64, num_kv: num_kv as u64 },
                                    )
                                },
                                q,
                            ),
                        ),
                    },
                }
            }
        },
    }
}

/// Whether the counts are within their caps.
pub open spec fn check_counts(num_tensor: u64, num_kv: u64) -> Result<(), GGUFError<Seq<char>>> {
    if num_tensor > MAX_TENSORS {
        Err(GGUFError::TooManyTensors(num_tensor))
    } else if num_kv > MAX_KV {
        Err(GGUFError::TooManyKv(num_kv))
    } else {
        Ok(())
    }
}

/// The part of the input behind the magic that may be read.
pub open spec fn window(bounds: InputBounds, input: Seq<u8>) -> Seq<u8> {
    match bounds {
        InputBounds::Known(len) if len - 4 < input.len() => input.take(len - 4),
        _ => input,
    }
}

/// Whether the bounds let decoding begin.
pub open spec fn check_bounds(bounds: InputBounds) -> Result<(), GGUFError<Seq<char>>> {
    match bounds {
        InputBounds::Unknown => Err(GGUFError::InputLengthRequired),
        InputBounds::Known(len) if len < 4 => Err(GGUFError::InputTooShort(len)),
        _ => Ok(()),
    }
}

/// The header of version `version` whose metadata starts at `pos` of `s`.
pub open spec fn versioned_body(
    order: ByteOrder,
    max_array_size: u64,
    bounds: InputBounds,
    version: Version,
    s: Seq<u8>,
    pos: int,
) -> Result<ModelView, GGUFError<Seq<char>>> {
    match check_counts(version.num_tensor_spec(), version.num_kv_spec()) {
        Err(e) => Err(e),
        Ok(()) => body(
            Dialect { order, wide: version.wide_spec(), max_array_size },
            version,
            bounds,
            s.skip(pos),
        ),
    }
}

/// What the input behind a magic of byte order `order` holds.
pub open spec fn header(
    order: ByteOrder,
    max_array_size: u64,
    bounds: InputBounds,
    input: Seq<u8>,
) -> Result<ModelView, GGUFError<Seq<char>>> {
    match check_bounds(bounds) {
        Err(e) => Err(e),
        Ok(()) => {
            let s = window(bounds, input);
            match version_at(order, s) {
                Err(e) => Err(e),
                Ok((version, pos)) => versioned_body(
                    order,
                    max_array_size,
                    bounds,
                    version,
                    s,
                    pos,
                ),
            }
        },
    }
}

} // verus!
