//! Errors as text.
use crate::constants::{
    MAX_ALIGNMENT, MAX_ARRAY_LEN, MAX_DIMENSION, MAX_ELEMENTS, MAX_HEADER_BYTES, MAX_KV,
    MAX_METADATA_BYTES, MAX_TENSORS,
};
use crate::error::{GGUFError, Helper, ReadError, StringContext, TensorFault};
use crate::text::{decimal, decimal_text};
use vstd::prelude::*;
use vstd::string::StringExecFns;

verus! {

/// `n` in decimal, with a sign if it is negative.
pub open spec fn signed_text(n: int) -> Seq<char> {
    if n < 0 {
        "-"@ + decimal_text((-n) as nat)
    } else {
        decimal_text(n as nat)
    }
}

/// `n` in decimal, with a sign if it is negative.
pub fn signed_decimal(n: i32) -> (text: String)
    ensures
        text@ == signed_text(n as int),
{
    if n < 0 {
        let mut text = "-".to_owned();
        text.append(decimal((-(n as i64)) as u64).as_str());
        text
    } else {
        decimal(n as u64)
    }
}

/// What the `Debug` format of a string gives: the string in quotes, with some characters escaped.
pub uninterp spec fn quoted(s: Seq<char>) -> Seq<char>;

/// `format!` with the `Debug` format of a string. What it gives is a function of the string; which
/// characters it escapes, and how, is left unsaid.
#[verifier::external_body]
fn quote(s: &str) -> (text: String)
    ensures
        text@ == quoted(s@),
{
    format!("{:?}", s)
}

impl StringContext {
    /// What such a string is called.
    pub open spec fn text(self) -> Seq<char> {
        match self {
            StringContext::MetadataKey => "metadata key"@,
            StringContext::MetadataValue => "metadata string value"@,
            StringContext::ArrayItem => "array string value"@,
            StringContext::TensorName => "tensor name"@,
        }
    }

    /// What such a string is called.
    pub fn describe(self) -> (text: String)
        ensures
            text@ == self.text(),
    {
        match self {
            StringContext::MetadataKey => "metadata key".to_owned(),
            StringContext::MetadataValue => "metadata string value".to_owned(),
            StringContext::ArrayItem => "array string value".to_owned(),
            StringContext::TensorName => "tensor name".to_owned(),
        }
    }
}

/// `front`, the number, `back`.
fn numbered(front: &str, n: u64, back: &str) -> (text: String)
    ensures
        text@ == front@ + decimal_text(n as nat) + back@,
{
    let mut text = front.to_owned();
    text.append(decimal(n).as_str());
    text.append(back);
    text
}

/// `front`, the first number, `middle`, the second number.
fn compared(front: &str, n: u64, middle: &str, m: u64) -> (text: String)
    ensures
        text@ == front@ + decimal_text(n as nat) + middle@ + decimal_text(m as nat),
{
    let mut text = numbered(front, n, middle);
    text.append(decimal(m).as_str());
    text
}

impl ReadError<Seq<char>> {
    /// The error in words.
    pub open spec fn text(self) -> Seq<char>
        decreases self,
    {
        match self {
            ReadError::UnexpectedEof => "failed to fill whole buffer"@,
            ReadError::UnsupportedValueType => "unsupport metadata value type"@,
            ReadError::InvalidBool(other) => "invalid bool value "@ + decimal_text(other as nat)
                + "; expected 0 or 1"@,
            ReadError::EmptyString(context) => context.text() + " has zero length"@,
            ReadError::StringTooLong { context, len } => context.text() + " length "@
                + decimal_text(len as nat) + " exceeds cap "@ + decimal_text(context.cap() as nat),
            ReadError::InvalidUtf8(context, fault) => context.text() + " is not valid UTF-8: "@
                + fault,
            ReadError::NestedArray => "unsupported item value type: Array"@,
            ReadError::ArrayTooLong(len) => "array length "@ + decimal_text(len as nat)
                + " exceeds cap "@ + decimal_text(MAX_ARRAY_LEN as nat),
            ReadError::MetadataTooLarge => "metadata section exceeds cap "@ + decimal_text(
                MAX_METADATA_BYTES as nat,
            ) + " bytes"@,
            ReadError::SkippedArrayItem(i, source) => "failed to skip array item "@ + decimal_text(
                i as nat,
            ) + ": "@ + source.text(),
        }
    }

}

impl ReadError<String> {
    /// The error in words.
    pub fn message(&self) -> (text: String)
        ensures
            text@ == self@.text(),
        decreases self,
    {
        match self {
            ReadError::UnexpectedEof => "failed to fill whole buffer".to_owned(),
            ReadError::UnsupportedValueType => "unsupport metadata value type".to_owned(),
            ReadError::InvalidBool(other) => numbered(
                "invalid bool value ",
                *other as u64,
                "; expected 0 or 1",
            ),
            ReadError::EmptyString(context) => {
                let mut text = context.describe();
                text.append(" has zero length");
                text
            },
            ReadError::StringTooLong { context, len } => {
                let mut text = context.describe();
                text.append(" length ");
                text.append(decimal(*len).as_str());
                text.append(" exceeds cap ");
                text.append(decimal(context.cap()).as_str());
                text
            },
            ReadError::InvalidUtf8(context, fault) => {
                let mut text = context.describe();
                text.append(" is not valid UTF-8: ");
                text.append(fault.as_str());
                text
            },
            ReadError::NestedArray => "unsupported item value type: Array".to_owned(),
            ReadError::ArrayTooLong(len) => compared(
                "array length ",
                *len,
                " exceeds cap ",
                MAX_ARRAY_LEN,
            ),
            ReadError::MetadataTooLarge => numbered(
                "metadata section exceeds cap ",
                MAX_METADATA_BYTES,
                " bytes",
            ),
            ReadError::SkippedArrayItem(i, source) => {
                let mut text = numbered("failed to skip array item ", *i, ": ");
                text.append(source.message().as_str());
                text
            },
        }
    }
}

impl TensorFault {
    /// What is wrong, as it follows the tensor's name.
    pub open spec fn text(self) -> Seq<char> {
        match self {
            TensorFault::DimensionCount(dims) => " declares "@ + decimal_text(dims as nat)
                + " dimensions (must be 1..=4)"@,
            TensorFault::ZeroDimension => " has a zero-length dimension"@,
            TensorFault::DimensionTooLarge(dim) => " dimension "@ + decimal_text(dim as nat)
                + " exceeds "@ + decimal_text(MAX_DIMENSION as nat),
            TensorFault::ElementOverflow => " dimension product overflows u64"@,
            TensorFault::TooManyElements(elements) => " element count "@ + decimal_text(
                elements as nat,
            ) + " exceeds "@ + decimal_text(MAX_ELEMENTS as nat),
            TensorFault::RowWidth { row, block } => " row width "@ + decimal_text(row as nat)
                + " is not divisible by block size "@ + decimal_text(block as nat),
            TensorFault::Unaligned { offset, alignment } => " offset "@ + decimal_text(
                offset as nat,
            ) + " is not aligned to "@ + decimal_text(alignment as nat),
            TensorFault::OffsetOverflow => " absolute offset overflows u64"@,
            TensorFault::RangeOverflow => " byte range overflows u64"@,
            TensorFault::PastEof { end, file_size } => " extends past EOF: end="@ + decimal_text(
                end as nat,
            ) + " file_size="@ + decimal_text(file_size as nat),
        }
    }

    /// What is wrong, as it follows the tensor's name.
    pub fn describe(&self) -> (text: String)
        ensures
            text@ == self.text(),
    {
        match self {
            TensorFault::DimensionCount(dims) => numbered(
                " declares ",
                *dims as u64,
                " dimensions (must be 1..=4)",
            ),
            TensorFault::ZeroDimension => " has a zero-length dimension".to_owned(),
            TensorFault::DimensionTooLarge(dim) => compared(
                " dimension ",
                *dim,
                " exceeds ",
                MAX_DIMENSION,
            ),
            TensorFault::ElementOverflow => " dimension product overflows u64".to_owned(),
            TensorFault::TooManyElements(elements) => compared(
                " element count ",
                *elements,
                " exceeds ",
                MAX_ELEMENTS,
            ),
            TensorFault::RowWidth { row, block } => compared(
                " row width ",
                *row,
                " is not divisible by block size ",
                *block,
            ),
            TensorFault::Unaligned { offset, alignment } => compared(
                " offset ",
                *offset,
                " is not aligned to ",
                *alignment,
            ),
            TensorFault::OffsetOverflow => " absolute offset overflows u64".to_owned(),
            TensorFault::RangeOverflow => " byte range overflows u64".to_owned(),
            TensorFault::PastEof { end, file_size } => compared(
                " extends past EOF: end=",
                *end,
                " file_size=",
                *file_size,
            ),
        }
    }
}

impl Helper {
    /// What the helper calls its cap.
    pub open spec fn cap_text(self) -> Seq<char> {
        match self {
            Helper::File => " exceeds helper input cap "@,
            Helper::Async => " exceeds async input cap "@,
            Helper::Mmap => " exceeds snapshot cap "@,
        }
    }
}

impl GGUFError<Seq<char>> {
    /// The error in words, with names as they are.
    pub open spec fn text(self) -> Seq<char> {
        match self {
            GGUFError::Read(e) => e.text(),
            GGUFError::InvalidMagic => "invalid file magic: not a GGUF file"@,
            GGUFError::InputLengthRequired =>
                "input length is required for checked decoding; use with_input_len(...) or explicitly opt into allow_unbounded_input()"@,
            GGUFError::InputTooShort(len) => "input length "@ + decimal_text(len as nat)
                + " is smaller than GGUF magic"@,
            GGUFError::InvalidVersion(version) => "invalid version "@ + signed_text(version as int)
                + ", only support version: 1 | 2 | 3"@,
            GGUFError::TooManyTensors(n) => "tensor count "@ + decimal_text(n as nat)
                + " exceeds cap "@ + decimal_text(MAX_TENSORS as nat),
            GGUFError::TooManyKv(n) => "kv count "@ + decimal_text(n as nat) + " exceeds cap "@
                + decimal_text(MAX_KV as nat),
            GGUFError::DuplicateKey(key) => "duplicate metadata key "@ + key,
            GGUFError::AlignmentType => "general.alignment is missing or has invalid type"@,
            GGUFError::AlignmentZero => "general.alignment is 0"@,
            GGUFError::AlignmentNotMultipleOfEight(n) => "general.alignment "@ + decimal_text(
                n as nat,
            ) + " is not a multiple of 8"@,
            GGUFError::AlignmentTooLarge(n) => "general.alignment "@ + decimal_text(n as nat)
                + " exceeds cap "@ + decimal_text(MAX_ALIGNMENT as nat),
            GGUFError::DuplicateTensor(name) => "duplicate tensor name "@ + name,
            GGUFError::Tensor(name, fault) => "tensor "@ + name + fault.text(),
            GGUFError::InvalidTensorType => "invalid GGML type"@,
            GGUFError::UnsupportedTensorType => "unsupported or removed GGML tensor type"@,
            GGUFError::HeaderTooLarge => "GGUF header exceeds cap "@ + decimal_text(
                MAX_HEADER_BYTES as nat,
            ) + " bytes"@,
            GGUFError::OverlappingTensors(a, b) => "tensors "@ + a + " and "@ + b
                + " have overlapping data ranges"@,
            GGUFError::FileNotFound(path) => match path {
                Some(p) => "file not found: "@ + p,
                None => "file not found"@,
            },
            GGUFError::FileTooLarge { helper, len, cap } => "file size "@ + decimal_text(len as nat)
                + helper.cap_text() + decimal_text(cap as nat) + " bytes"@,
            GGUFError::FileTooSmall => "file too small to be a valid GGUF file"@,
            GGUFError::SnapshotTooLarge =>
                "file too large to snapshot into memory on this platform"@,
            GGUFError::ByteOrderChanged => "GGUF byte order changed between open() and decode()"@,
        }
    }

    /// The error with the names that come out of a header in quotes.
    pub open spec fn with_quoted_names(self) -> GGUFError<Seq<char>> {
        match self {
            GGUFError::DuplicateKey(key) => GGUFError::DuplicateKey(quoted(key)),
            GGUFError::DuplicateTensor(name) => GGUFError::DuplicateTensor(quoted(name)),
            GGUFError::Tensor(name, fault) => GGUFError::Tensor(quoted(name), fault),
            GGUFError::OverlappingTensors(a, b) => GGUFError::OverlappingTensors(
                quoted(a),
                quoted(b),
            ),
            _ => self,
        }
    }
}

impl GGUFError<String> {
    /// The error in words, with names as they are.
    pub fn describe(&self) -> (text: String)
        ensures
            text@ == self@.text(),
    {
        match self {
            GGUFError::Read(e) => e.message(),
            GGUFError::InvalidMagic => "invalid file magic: not a GGUF file".to_owned(),
            GGUFError::InputLengthRequired =>
                "input length is required for checked decoding; use with_input_len(...) or explicitly opt into allow_unbounded_input()".to_owned(),
            GGUFError::InputTooShort(len) => numbered(
                "input length ",
                *len,
                " is smaller than GGUF magic",
            ),
            GGUFError::InvalidVersion(version) => {
                let mut text = "invalid version ".to_owned();
                text.append(signed_decimal(*version).as_str());
                text.append(", only support version: 1 | 2 | 3");
                text
            },
            GGUFError::TooManyTensors(n) => compared(
                "tensor count ",
                *n,
                " exceeds cap ",
                MAX_TENSORS,
            ),
            GGUFError::TooManyKv(n) => compared("kv count ", *n, " exceeds cap ", MAX_KV),
            GGUFError::DuplicateKey(key) => {
                let mut text = "duplicate metadata key ".to_owned();
                text.append(key.as_str());
                text
            },
            GGUFError::AlignmentType =>
                "general.alignment is missing or has invalid type".to_owned(),
            GGUFError::AlignmentZero => "general.alignment is 0".to_owned(),
            GGUFError::AlignmentNotMultipleOfEight(n) => numbered(
                "general.alignment ",
                *n,
                " is not a multiple of 8",
            ),
            GGUFError::AlignmentTooLarge(n) => compared(
                "general.alignment ",
                *n,
                " exceeds cap ",
                MAX_ALIGNMENT,
            ),
            GGUFError::DuplicateTensor(name) => {
                let mut text = "duplicate tensor name ".to_owned();
                text.append(name.as_str());
                text
            },
            GGUFError::Tensor(name, fault) => {
                let mut text = "tensor ".to_owned();
                text.append(name.as_str());
                text.append(fault.describe().as_str());
                text
            },
            GGUFError::InvalidTensorType => "invalid GGML type".to_owned(),
            GGUFError::UnsupportedTensorType =>
                "unsupported or removed GGML tensor type".to_owned(),
            GGUFError::HeaderTooLarge => numbered(
                "GGUF header exceeds cap ",
                MAX_HEADER_BYTES,
                " bytes",
            ),
            GGUFError::OverlappingTensors(a, b) => {
                let mut text = "tensors ".to_owned();
                text.append(a.as_str());
                text.append(" and ");
                text.append(b.as_str());
                text.append(" have overlapping data ranges");
                text
            },
            GGUFError::FileNotFound(path) => match path {
                Some(p) => {
                    let mut text = "file not found: ".to_owned();
                    text.append(p.as_str());
                    text
                },
                None => "file not found".to_owned(),
            },
            GGUFError::FileTooLarge { helper, len, cap } => {
                let cap_text = match helper {
                    Helper::File => " exceeds helper input cap ",
                    Helper::Async => " exceeds async input cap ",
                    Helper::Mmap => " exceeds snapshot cap ",
                };
                let mut text = compared("file size ", *len, cap_text, *cap);
                text.append(" bytes");
                text
            },
            GGUFError::FileTooSmall => "file too small to be a valid GGUF file".to_owned(),
            GGUFError::SnapshotTooLarge =>
                "file too large to snapshot into memory on this platform".to_owned(),
            GGUFError::ByteOrderChanged =>
                "GGUF byte order changed between open() and decode()".to_owned(),
        }
    }

    /// The error in words, with the names that come out of a header in quotes.
    pub fn message(&self) -> (text: String)
        ensures
            text@ == self@.with_quoted_names().text(),
    {
        match self {
            GGUFError::DuplicateKey(key) => GGUFError::DuplicateKey(quote(key)).describe(),
            GGUFError::DuplicateTensor(name) => GGUFError::DuplicateTensor(quote(name)).describe(),
            GGUFError::Tensor(name, fault) => GGUFError::Tensor(quote(name), *fault).describe(),
            GGUFError::OverlappingTensors(a, b) => GGUFError::OverlappingTensors(
                quote(a),
                quote(b),
            ).describe(),
            _ => self.describe(),
        }
    }
}

} // verus!
