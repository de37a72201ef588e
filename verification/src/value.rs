//! Metadata values and tensors, and their mathematical counterparts.
use crate::types::MetadataValueType;
use vstd::prelude::*;

verus! {

/// A metadata value that is no array. `S` is the type of its text: `String` at run time, a
/// sequence of characters in specifications. Floating-point numbers are kept as their bits.
#[derive(Debug, Clone, PartialEq, Eq)]
pub enum MetadataScalar<S = String> {
    Uint8(u8),
    Int8(i8),
    Uint16(u16),
    Int16(i16),
    Uint32(u32),
    Int32(i32),
    /// The bits of a 32-bit floating-point number.
    Float32(u32),
    Bool(bool),
    String(S),
    Uint64(u64),
    Int64(i64),
    /// The bits of a 64-bit floating-point number.
    Float64(u64),
}

impl<S> MetadataScalar<S> {
    /// The type under which a header holds the value.
    pub open spec fn value_type_spec(self) -> MetadataValueType {
        match self {
            MetadataScalar::Uint8(_) => MetadataValueType::Uint8,
            MetadataScalar::Int8(_) => MetadataValueType::Int8,
            MetadataScalar::Uint16(_) => MetadataValueType::Uint16,
            MetadataScalar::Int16(_) => MetadataValueType::Int16,
            MetadataScalar::Uint32(_) => MetadataValueType::Uint32,
            MetadataScalar::Int32(_) => MetadataValueType::Int32,
            MetadataScalar::Float32(_) => MetadataValueType::Float32,
            MetadataScalar::Bool(_) => MetadataValueType::Bool,
            MetadataScalar::String(_) => MetadataValueType::String,
            MetadataScalar::Uint64(_) => MetadataValueType::Uint64,
            MetadataScalar::Int64(_) => MetadataValueType::Int64,
            MetadataScalar::Float64(_) => MetadataValueType::Float64,
        }
    }

    /// The value as a natural number, if it is an integer that is not negative.
    pub open spec fn as_u64_spec(self) -> Option<u64> {
        match self {
            MetadataScalar::Uint8(n) => Some(n as u64),
            MetadataScalar::Uint16(n) => Some(n as u64),
            MetadataScalar::Uint32(n) => Some(n as u64),
            MetadataScalar::Uint64(n) => Some(n),
            MetadataScalar::Int8(n) if n >= 0 => Some(n as u64),
            MetadataScalar::Int16(n) if n >= 0 => Some(n as u64),
            MetadataScalar::Int32(n) if n >= 0 => Some(n as u64),
            MetadataScalar::Int64(n) if n >= 0 => Some(n as u64),
            _ => None,
        }
    }
}

impl View for MetadataScalar<String> {
    type V = MetadataScalar<Seq<char>>;

    open spec fn view(&self) -> MetadataScalar<Seq<char>> {
        match *self {
            MetadataScalar::Uint8(n) => MetadataScalar::Uint8(n),
            MetadataScalar::Int8(n) => MetadataScalar::Int8(n),
            MetadataScalar::Uint16(n) => MetadataScalar::Uint16(n),
            MetadataScalar::Int16(n) => MetadataScalar::Int16(n),
            MetadataScalar::Uint32(n) => MetadataScalar::Uint32(n),
            MetadataScalar::Int32(n) => MetadataScalar::Int32(n),
            MetadataScalar::Float32(bits) => MetadataScalar::Float32(bits),
            MetadataScalar::Bool(b) => MetadataScalar::Bool(b),
            MetadataScalar::String(s) => MetadataScalar::String(s@),
            MetadataScalar::Uint64(n) => MetadataScalar::Uint64(n),
            MetadataScalar::Int64(n) => MetadataScalar::Int64(n),
            MetadataScalar::Float64(bits) => MetadataScalar::Float64(bits),
        }
    }
}

impl MetadataScalar<String> {
    /// The type under which a header holds the value.
    pub fn value_type(&self) -> (t: MetadataValueType)
        ensures
            t == self@.value_type_spec(),
    {
        match self {
            MetadataScalar::Uint8(_) => MetadataValueType::Uint8,
            MetadataScalar::Int8(_) => MetadataValueType::Int8,
            MetadataScalar::Uint16(_) => MetadataValueType::Uint16,
            MetadataScalar::Int16(_) => MetadataValueType::Int16,
            MetadataScalar::Uint32(_) => MetadataValueType::Uint32,
            MetadataScalar::Int32(_) => MetadataValueType::Int32,
            MetadataScalar::Float32(_) => MetadataValueType::Float32,
            MetadataScalar::Bool(_) => MetadataValueType::Bool,
            MetadataScalar::String(_) => MetadataValueType::String,
            MetadataScalar::Uint64(_) => MetadataValueType::Uint64,
            MetadataScalar::Int64(_) => MetadataValueType::Int64,
            MetadataScalar::Float64(_) => MetadataValueType::Float64,
        }
    }

    /// The value as a natural number, if it is an integer that is not negative.
    pub fn as_u64(&self) -> (r: Option<u64>)
        ensures
            r == self@.as_u64_spec(),
    {
        match self {
            MetadataScalar::Uint8(n) => Some(*n as u64),
            MetadataScalar::Uint16(n) => Some(*n as u64),
            MetadataScalar::Uint32(n) => Some(*n as u64),
            MetadataScalar::Uint64(n) => Some(*n),
            MetadataScalar::Int8(n) => if *n >= 0 {
                Some(*n as u64)
            } else {
                None
            },
            MetadataScalar::Int16(n) => if *n >= 0 {
                Some(*n as u64)
            } else {
                None
            },
            MetadataScalar::Int32(n) => if *n >= 0 {
                Some(*n as u64)
            } else {
                None
            },
            MetadataScalar::Int64(n) => if *n >= 0 {
                Some(*n as u64)
            } else {
                None
            },
            _ => None,
        }
    }
}

/// A metadata value: a single one, or an array, of which only the first items may have been kept.
#[derive(Debug, PartialEq, Eq)]
pub enum MetadataValue {
    Scalar(MetadataScalar),
    Array(Vec<MetadataScalar>),
}

/// What a metadata value holds.
#[verifier::ext_equal]
pub enum ValueView {
    Scalar(MetadataScalar<Seq<char>>),
    Array(Seq<MetadataScalar<Seq<char>>>),
}

impl ValueView {
    /// The type under which a header holds the value.
    pub open spec fn value_type(self) -> MetadataValueType {
        match self {
            ValueView::Scalar(v) => v.value_type_spec(),
            ValueView::Array(_) => MetadataValueType::Array,
        }
    }

    /// The value as a natural number, if it is an integer that is not negative.
    pub open spec fn as_u64(self) -> Option<u64> {
        match self {
            ValueView::Scalar(v) => v.as_u64_spec(),
            ValueView::Array(_) => None,
        }
    }
}

/// What a sequence of scalars holds.
pub open spec fn scalar_views(items: Seq<MetadataScalar>) -> Seq<MetadataScalar<Seq<char>>> {
    items.map_values(|item: MetadataScalar| item@)
}

impl View for MetadataValue {
    type V = ValueView;

    open spec fn view(&self) -> ValueView {
        match *self {
            MetadataValue::Scalar(v) => ValueView::Scalar(v@),
            MetadataValue::Array(items) => ValueView::Array(scalar_views(items@)),
        }
    }
}

impl MetadataValue {
    /// The type under which a header holds the value.
    pub fn value_type(&self) -> (t: MetadataValueType)
        ensures
            t == self@.value_type(),
    {
        match self {
            MetadataValue::Scalar(v) => v.value_type(),
            MetadataValue::Array(_) => MetadataValueType::Array,
        }
    }

    /// The value as a natural number, if it is an integer that is not negative.
    pub fn as_u64(&self) -> (r: Option<u64>)
        ensures
            r == self@.as_u64(),
    {
        match self {
            MetadataValue::Scalar(v) => v.as_u64(),
            MetadataValue::Array(_) => None,
        }
    }
}

/// Tensor in the GGUF file.
///
/// A single tensor with its name, type, offset, size and shape.
#[derive(Debug, Clone)]
pub struct Tensor {
    /// Name of the tensor (e.g., "token_embd.weight", "blk.0.attn_q.weight")
    pub name: String,
    /// GGML type number (see [`crate::types::GGMLType`])
    pub kind: u32,
    /// Byte offset relative to the GGUF tensor-data section where this tensor begins
    pub offset: u64,
    /// Size of tensor data in bytes
    pub size: u64,
    /// Shape dimensions (number of elements in each dimension)
    pub shape: Vec<u64>,
}

/// What a tensor description holds.
#[verifier::ext_equal]
pub struct TensorView {
    pub name: Seq<char>,
    pub kind: u32,
    pub offset: u64,
    pub size: u64,
    pub shape: Seq<u64>,
}

impl View for Tensor {
    type V = TensorView;

    open spec fn view(&self) -> TensorView {
        TensorView {
            name: self.name@,
            kind: self.kind,
            offset: self.offset,
            size: self.size,
            shape: self.shape@,
        }
    }
}

/// What a sequence of tensor descriptions holds.
pub open spec fn tensor_views(tensors: Seq<Tensor>) -> Seq<TensorView> {
    tensors.map_values(|t: Tensor| t@)
}

} // verus!
