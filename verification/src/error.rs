//! Why a header is refused.
use crate::constants::{MAX_METADATA_KEY_LEN, MAX_STRING_VALUE_LEN, MAX_TENSOR_NAME_LEN};
use vstd::prelude::*;

verus! {

/// Where in a header a string stands; this decides how long it may be.
#[derive(Debug, Clone, Copy, PartialEq, Eq, Structural)]
pub enum StringContext {
    MetadataKey,
    MetadataValue,
    ArrayItem,
    TensorName,
}

impl StringContext {
    /// The largest byte length of such a string.
    pub open spec fn cap_spec(self) -> u64 {
        match self {
            StringContext::MetadataKey => MAX_METADATA_KEY_LEN,
            StringContext::MetadataValue => MAX_STRING_VALUE_LEN,
            StringContext::ArrayItem => MAX_STRING_VALUE_LEN,
            StringContext::TensorName => MAX_TENSOR_NAME_LEN,
        }
    }

    /// Whether such a string may be empty: values may, names may not.
    pub open spec fn allows_empty_spec(self) -> bool {
        self is MetadataValue || self is ArrayItem
    }

    /// The largest byte length of such a string.
    #[verifier::when_used_as_spec(cap_spec)]
    pub fn cap(self) -> (cap: u64)
        ensures
            cap == self.cap_spec(),
    {
        match self {
            StringContext::MetadataKey => MAX_METADATA_KEY_LEN,
            StringContext::MetadataValue => MAX_STRING_VALUE_LEN,
            StringContext::ArrayItem => MAX_STRING_VALUE_LEN,
            StringContext::TensorName => MAX_TENSOR_NAME_LEN,
        }
    }

    /// Whether such a string may be empty: values may, names may not.
    #[verifier::when_used_as_spec(allows_empty_spec)]
    pub fn allows_empty(self) -> (allowed: bool)
        ensures
            allowed == self.allows_empty_spec(),
    {
        match self {
            StringContext::MetadataKey | StringContext::TensorName => false,
            StringContext::MetadataValue | StringContext::ArrayItem => true,
        }
    }
}

/// Why a metadata value, a string or a number cannot be read. `S` is the type of the text in it:
/// `String` at run time, a sequence of characters in specifications.
#[derive(Debug, PartialEq, Eq)]
pub enum ReadError<S = String> {
    /// The input ends before the value does.
    UnexpectedEof,
    /// The value's type number is not one of the known ones.
    UnsupportedValueType,
    /// A bool is neither 0 nor 1.
    InvalidBool(u8),
    /// A name has no bytes.
    EmptyString(StringContext),
    /// A string is longer than its context allows.
    StringTooLong { context: StringContext, len: u64 },
    /// A string is not UTF-8; the text says why.
    InvalidUtf8(StringContext, S),
    /// An array declares arrays as its items.
    NestedArray,
    /// An array declares too many items.
    ArrayTooLong(u64),
    /// The metadata takes too many bytes.
    MetadataTooLarge,
    /// An array item beyond those that are kept cannot be read.
    SkippedArrayItem(u64, Box<ReadError<S>>),
}

impl ReadError<String> {
    /// The error with its text as a sequence of characters.
    pub open spec fn with_text(self) -> ReadError<Seq<char>>
        decreases self,
    {
        match self {
            ReadError::UnexpectedEof => ReadError::UnexpectedEof,
            ReadError::UnsupportedValueType => ReadError::UnsupportedValueType,
            ReadError::InvalidBool(other) => ReadError::InvalidBool(other),
            ReadError::EmptyString(context) => ReadError::EmptyString(context),
            ReadError::StringTooLong { context, len } => ReadError::StringTooLong { context, len },
            ReadError::InvalidUtf8(context, fault) => ReadError::InvalidUtf8(context, fault@),
            ReadError::NestedArray => ReadError::NestedArray,
            ReadError::ArrayTooLong(len) => ReadError::ArrayTooLong(len),
            ReadError::MetadataTooLarge => ReadError::MetadataTooLarge,
            ReadError::SkippedArrayItem(i, source) => ReadError::SkippedArrayItem(
                i,
                Box::new(source.with_text()),
            ),
        }
    }
}

impl View for ReadError<String> {
    type V = ReadError<Seq<char>>;

    open spec fn view(&self) -> ReadError<Seq<char>> {
        self.with_text()
    }
}

impl ReadError<Seq<char>> {
    /// Whether more input could have helped.
    pub open spec fn is_eof(self) -> bool
        decreases self,
    {
        match self {
            ReadError::UnexpectedEof => true,
            ReadError::SkippedArrayItem(_, source) => source.is_eof(),
            _ => false,
        }
    }
}

impl ReadError<String> {
    /// Whether more input could have helped.
    pub fn is_eof(&self) -> (eof: bool)
        ensures
            eof == self@.is_eof(),
        decreases self,
    {
        match self {
            ReadError::UnexpectedEof => true,
            ReadError::SkippedArrayItem(_, source) => source.is_eof(),
            _ => false,
        }
    }
}

/// What is wrong with one tensor's description.
#[derive(Debug, Clone, Copy, PartialEq, Eq)]
pub enum TensorFault {
    /// The number of dimensions is not in `1..=4`.
    DimensionCount(u32),
    /// A dimension is zero.
    ZeroDimension,
    /// A dimension is too large.
    DimensionTooLarge(u64),
    /// The product of the dimensions does not fit in 64 bits.
    ElementOverflow,
    /// The product of the dimensions is too large.
    TooManyElements(u64),
    /// The row width is no multiple of the type's block size.
    RowWidth { row: u64, block: u64 },
    /// The data offset is no multiple of the alignment.
    Unaligned { offset: u64, alignment: u64 },
    /// The data's absolute start does not fit in 64 bits.
    OffsetOverflow,
    /// The data's absolute end does not fit in 64 bits.
    RangeOverflow,
    /// The data ends behind the end of the input.
    PastEof { end: u64, file_size: u64 },
}

/// Which of the file helpers refuses a file for its size.
#[derive(Debug, Clone, Copy, PartialEq, Eq, Structural)]
pub enum Helper {
    /// The synchronous helper that reads the file into memory.
    File,
    /// The asynchronous helper.
    Async,
    /// The memory-map helper.
    Mmap,
}

/// Why a GGUF input is refused. `S` is the type of the names in it: `String` at run time, a
/// sequence of characters in specifications.
#[derive(Debug, PartialEq, Eq)]
pub enum GGUFError<S = String> {
    /// A number, string or metadata value cannot be read.
    Read(ReadError<S>),
    /// The first four bytes are neither of the two GGUF magics.
    InvalidMagic,
    /// Neither an input length was given nor unbounded input allowed.
    InputLengthRequired,
    /// The input length that was given is smaller than the magic.
    InputTooShort(u64),
    /// The version is not 1, 2 or 3.
    InvalidVersion(i32),
    TooManyTensors(u64),
    TooManyKv(u64),
    DuplicateKey(S),
    /// `general.alignment` is not an unsigned number.
    AlignmentType,
    AlignmentZero,
    AlignmentNotMultipleOfEight(u64),
    AlignmentTooLarge(u64),
    DuplicateTensor(S),
    /// A tensor of that name is described wrongly.
    Tensor(S, TensorFault),
    /// A tensor's type number is not one of the known ones.
    InvalidTensorType,
    /// A tensor's type has no layout.
    UnsupportedTensorType,
    /// Metadata and tensor descriptions together take too many bytes.
    HeaderTooLarge,
    /// The data of the two tensors overlaps.
    OverlappingTensors(S, S),
    /// There is no such file; the path is given where the helper reports it.
    FileNotFound(Option<S>),
    /// The file is larger than the helper's cap.
    FileTooLarge { helper: Helper, len: u64, cap: u64 },
    /// The file is smaller than the magic.
    FileTooSmall,
    /// The file's length does not fit the platform's address space.
    SnapshotTooLarge,
    /// The file's byte order is not what it was when it was opened.
    ByteOrderChanged,
}

impl View for GGUFError<String> {
    type V = GGUFError<Seq<char>>;

    open spec fn view(&self) -> GGUFError<Seq<char>> {
        match *self {
            GGUFError::Read(e) => GGUFError::Read(e@),
            GGUFError::InvalidMagic => GGUFError::InvalidMagic,
            GGUFError::InputLengthRequired => GGUFError::InputLengthRequired,
            GGUFError::InputTooShort(len) => GGUFError::InputTooShort(len),
            GGUFError::InvalidVersion(version) => GGUFError::InvalidVersion(version),
            GGUFError::TooManyTensors(n) => GGUFError::TooManyTensors(n),
            GGUFError::TooManyKv(n) => GGUFError::TooManyKv(n),
            GGUFError::DuplicateKey(key) => GGUFError::DuplicateKey(key@),
            GGUFError::AlignmentType => GGUFError::AlignmentType,
            GGUFError::AlignmentZero => GGUFError::AlignmentZero,
            GGUFError::AlignmentNotMultipleOfEight(n) => GGUFError::AlignmentNotMultipleOfEight(n),
            GGUFError::AlignmentTooLarge(n) => GGUFError::AlignmentTooLarge(n),
            GGUFError::DuplicateTensor(name) => GGUFError::DuplicateTensor(name@),
            GGUFError::Tensor(name, fault) => GGUFError::Tensor(name@, fault),
            GGUFError::InvalidTensorType => GGUFError::InvalidTensorType,
            GGUFError::UnsupportedTensorType => GGUFError::UnsupportedTensorType,
            GGUFError::HeaderTooLarge => GGUFError::HeaderTooLarge,
            GGUFError::OverlappingTensors(a, b) => GGUFError::OverlappingTensors(a@, b@),
            GGUFError::FileNotFound(path) => GGUFError::FileNotFound(
                match path {
                    Some(p) => Some(p@),
                    None => None,
                },
            ),
            GGUFError::FileTooLarge { helper, len, cap } => GGUFError::FileTooLarge {
                helper,
                len,
                cap,
            },
            GGUFError::FileTooSmall => GGUFError::FileTooSmall,
            GGUFError::SnapshotTooLarge => GGUFError::SnapshotTooLarge,
            GGUFError::ByteOrderChanged => GGUFError::ByteOrderChanged,
        }
    }
}

impl GGUFError<Seq<char>> {
    /// Whether more input could have helped.
    pub open spec fn is_eof(self) -> bool {
        self matches GGUFError::Read(e) && e.is_eof()
    }
}

impl GGUFError<String> {
    /// Whether more input could have helped.
    pub fn is_eof(&self) -> (eof: bool)
        ensures
            eof == self@.is_eof(),
    {
        match self {
            GGUFError::Read(e) => e.is_eof(),
            _ => false,
        }
    }
}

} // verus!
