//! Reading numbers, strings and metadata values off an input.
use crate::constants::{MAX_ARRAY_LEN, MAX_METADATA_BYTES, MAX_STORED_ARRAY_ITEMS};
use crate::endian::{
    be_value, front_i16_be, front_i16_le, front_i32_be, front_i32_le, front_i64_be, front_i64_le,
    front_i8, front_u16_be, front_u16_le, front_u32_be, front_u32_le, front_u64_be, front_u64_le,
    front_u8, le_value, signed_value, uint_value, ByteOrder,
};
use crate::error::{ReadError, StringContext};
use crate::grammar::{
    array_at, items_at, scalar_at, size_at, size_width, string_at, typed_value_at, uint_at, utf8_fault_text,
    value_type_at, Dialect,
};
use crate::progress::{
    array_stop, items_stop, scalar_stop, string_stop, typed_value_stop, uint_stop,
};
use crate::types::MetadataValueType;
use crate::value::{scalar_views, MetadataScalar, MetadataValue};
use vstd::prelude::*;
use vstd::slice::{slice_subrange, slice_to_vec};
use vstd::utf8::{decode_utf8, valid_utf8};

verus! {

/// `String::from_utf8` succeeds on UTF-8 alone, and then gives the text that the bytes encode;
/// otherwise its error, shown as text, says what is wrong with the bytes. What that text is is left
/// unsaid.
#[verifier::external_body]
fn text_from_utf8(bytes: Vec<u8>) -> (r: Result<String, String>)
    ensures
        r is Ok <==> valid_utf8(bytes@),
        r matches Ok(text) ==> text@ == decode_utf8(bytes@),
        r matches Err(fault) ==> fault@ == utf8_fault_text(bytes@),
{
    String::from_utf8(bytes).map_err(|e| e.to_string())
}

/// A byte source that counts what has been read from it.
pub struct CountingReader<'a> {
    inner: &'a [u8],
    bytes_read: usize,
}

impl<'a> CountingReader<'a> {
    /// All the bytes of the source, read or not.
    pub closed spec fn source(self) -> Seq<u8> {
        self.inner@
    }

    /// How many bytes have been read.
    pub closed spec fn count(self) -> int {
        self.bytes_read as int
    }

    /// No more has been read than there is.
    pub open spec fn wf(self) -> bool {
        0 <= self.count() <= self.source().len() <= usize::MAX
    }

    pub fn new(inner: &'a [u8]) -> (reader: Self)
        ensures
            reader.wf(),
            reader.source() == inner@,
            reader.count() == 0,
    {
        proof {
            assert(inner.len() <= usize::MAX);
        }
        CountingReader { inner, bytes_read: 0 }
    }

    /// How many bytes have been read.
    pub fn bytes_read(&self) -> (n: u64)
        ensures
            n == self.count(),
    {
        self.bytes_read as u64
    }

    /// The bytes that have not been read.
    fn rest(&self) -> (rest: &'a [u8])
        requires
            self.wf(),
        ensures
            rest@ == self.source().skip(self.count()),
            rest@.len() == self.source().len() - self.count(),
    {
        let rest = slice_subrange(self.inner, self.bytes_read, self.inner.len());
        proof {
            assert(rest@ =~= self.source().skip(self.count()));
        }
        rest
    }

    /// Counts `n` more bytes as read.
    fn advance(&mut self, n: usize)
        requires
            old(self).wf(),
            old(self).count() + n <= old(self).source().len(),
        ensures
            final(self).wf(),
            final(self).source() == old(self).source(),
            final(self).count() == old(self).count() + n,
    {
        self.bytes_read = self.bytes_read + n;
    }

    /// Counts all that is left as read.
    fn exhaust(&mut self)
        requires
            old(self).wf(),
        ensures
            final(self).wf(),
            final(self).source() == old(self).source(),
            final(self).count() == old(self).source().len(),
    {
        self.bytes_read = self.inner.len();
    }

    /// Reads `len` bytes. If there are fewer, they are used up.
    pub fn read_exact(&mut self, len: usize) -> (r: Result<&'a [u8], ReadError>)
        requires
            old(self).wf(),
        ensures
            final(self).wf(),
            final(self).source() == old(self).source(),
            match r {
                Ok(bytes) => {
                    &&& old(self).count() + len <= old(self).source().len()
                    &&& final(self).count() == old(self).count() + len
                    &&& bytes@ == old(self).source().subrange(
                        old(self).count(),
                        old(self).count() + len,
                    )
                },
                Err(e) => {
                    &&& old(self).count() + len > old(self).source().len()
                    &&& final(self).count() == old(self).source().len()
                    &&& e@ == ReadError::<Seq<char>>::UnexpectedEof
                },
            },
    {
        if len > self.inner.len() - self.bytes_read {
            self.exhaust();
            return Err(ReadError::UnexpectedEof);
        }
        let bytes = slice_subrange(self.inner, self.bytes_read, self.bytes_read + len);
        self.advance(len);
        Ok(bytes)
    }

    /// Reads `len` bytes and drops them. If there are fewer, they are used up.
    pub fn skip_exact(&mut self, len: usize) -> (r: Result<(), ReadError>)
        requires
            old(self).wf(),
        ensures
            final(self).wf(),
            final(self).source() == old(self).source(),
            match r {
                Ok(_) => {
                    &&& old(self).count() + len <= old(self).source().len()
                    &&& final(self).count() == old(self).count() + len
                },
                Err(e) => {
                    &&& old(self).count() + len > old(self).source().len()
                    &&& final(self).count() == old(self).source().len()
                    &&& e@ == ReadError::<Seq<char>>::UnexpectedEof
                },
            },
    {
        match self.read_exact(len) {
            Ok(_) => Ok(()),
            Err(e) => Err(e),
        }
    }
}

/// The front of what is left at `pos` is what stands at `pos`.
proof fn lemma_front(s: Seq<u8>, pos: int, width: int)
    requires
        0 <= pos,
        0 <= width,
        pos + width <= s.len(),
    ensures
        s.skip(pos).take(width) == s.subrange(pos, pos + width),
{
    assert(s.skip(pos).take(width) =~= s.subrange(pos, pos + width));
}

/// One byte stands for itself in either byte order.
pub proof fn lemma_one_byte(order: ByteOrder, bytes: Seq<u8>)
    requires
        bytes.len() == 1,
    ensures
        uint_value(order, bytes) == bytes[0],
{
    reveal_with_fuel(le_value, 2);
    reveal_with_fuel(be_value, 2);
}

impl Dialect {
    /// Reads an unsigned number of 1 byte.
    pub fn read_u8(&self, reader: &mut CountingReader<'_>) -> (r: Result<u8, ReadError>)
        requires
            old(reader).wf(),
        ensures
            final(reader).wf(),
            final(reader).source() == old(reader).source(),
            final(reader).count() == uint_stop(1, old(reader).source(), old(reader).count()),
            match (r, uint_at(self.order, 1, old(reader).source(), old(reader).count())) {
                (Ok(v), Ok((n, end))) => v == n && final(reader).count() == end,
                (Err(e), Err(f)) => e@ == f,
                _ => false,
            },
    {
        let rest = reader.rest();
        proof {
            if rest@.len() >= 1 {
                lemma_front(reader.source(), reader.count(), 1);
                lemma_one_byte(
                    self.order,
                    reader.source().subrange(reader.count(), reader.count() + 1),
                );
            }
        }
        let read = front_u8(rest);
        match read {
            Ok(v) => {
                reader.advance(1);
                Ok(v)
            },
            Err(_) => {
                reader.exhaust();
                Err(ReadError::UnexpectedEof)
            },
        }
    }

    /// Reads a signed number of 1 byte.
    pub fn read_i8(&self, reader: &mut CountingReader<'_>) -> (r: Result<i8, ReadError>)
        requires
            old(reader).wf(),
        ensures
            final(reader).wf(),
            final(reader).source() == old(reader).source(),
            final(reader).count() == uint_stop(1, old(reader).source(), old(reader).count()),
            match (r, uint_at(self.order, 1, old(reader).source(), old(reader).count())) {
                (Ok(v), Ok((n, end))) => v == signed_value(n, 1) && final(reader).count() == end,
                (Err(e), Err(f)) => e@ == f,
                _ => false,
            },
    {
        let rest = reader.rest();
        proof {
            if rest@.len() >= 1 {
                lemma_front(reader.source(), reader.count(), 1);
                lemma_one_byte(
                    self.order,
                    reader.source().subrange(reader.count(), reader.count() + 1),
                );
            }
        }
        let read = front_i8(rest);
        match read {
            Ok(v) => {
                reader.advance(1);
                Ok(v)
            },
            Err(_) => {
                reader.exhaust();
                Err(ReadError::UnexpectedEof)
            },
        }
    }

    /// Reads an unsigned number of 2 bytes.
    pub fn read_u16(&self, reader: &mut CountingReader<'_>) -> (r: Result<u16, ReadError>)
        requires
            old(reader).wf(),
        ensures
            final(reader).wf(),
            final(reader).source() == old(reader).source(),
            final(reader).count() == uint_stop(2, old(reader).source(), old(reader).count()),
            match (r, uint_at(self.order, 2, old(reader).source(), old(reader).count())) {
                (Ok(v), Ok((n, end))) => v == n && final(reader).count() == end,
                (Err(e), Err(f)) => e@ == f,
                _ => false,
            },
    {
        let rest = reader.rest();
        proof {
            if rest@.len() >= 2 {
                lemma_front(reader.source(), reader.count(), 2);
            }
        }
        let read = match self.order {
            ByteOrder::LE => front_u16_le(rest),
            ByteOrder::BE => front_u16_be(rest),
        };
        match read {
            Ok(v) => {
                reader.advance(2);
                Ok(v)
            },
            Err(_) => {
                reader.exhaust();
                Err(ReadError::UnexpectedEof)
            },
        }
    }

    /// Reads a signed number of 2 bytes.
    pub fn read_i16(&self, reader: &mut CountingReader<'_>) -> (r: Result<i16, ReadError>)
        requires
            old(reader).wf(),
        ensures
            final(reader).wf(),
            final(reader).source() == old(reader).source(),
            final(reader).count() == uint_stop(2, old(reader).source(), old(reader).count()),
            match (r, uint_at(self.order, 2, old(reader).source(), old(reader).count())) {
                (Ok(v), Ok((n, end))) => v == signed_value(n, 2) && final(reader).count() == end,
                (Err(e), Err(f)) => e@ == f,
                _ => false,
            },
    {
        let rest = reader.rest();
        proof {
            if rest@.len() >= 2 {
                lemma_front(reader.source(), reader.count(), 2);
            }
        }
        let read = match self.order {
            ByteOrder::LE => front_i16_le(rest),
            ByteOrder::BE => front_i16_be(rest),
        };
        match read {
            Ok(v) => {
                reader.advance(2);
                Ok(v)
            },
            Err(_) => {
                reader.exhaust();
                Err(ReadError::UnexpectedEof)
            },
        }
    }

    /// Reads an unsigned number of 4 bytes.
    pub fn read_u32(&self, reader: &mut CountingReader<'_>) -> (r: Result<u32, ReadError>)
        requires
            old(reader).wf(),
        ensures
            final(reader).wf(),
            final(reader).source() == old(reader).source(),
            final(reader).count() == uint_stop(4, old(reader).source(), old(reader).count()),
            match (r, uint_at(self.order, 4, old(reader).source(), old(reader).count())) {
                (Ok(v), Ok((n, end))) => v == n && final(reader).count() == end,
                (Err(e), Err(f)) => e@ == f,
                _ => false,
            },
    {
        let rest = reader.rest();
        proof {
            if rest@.len() >= 4 {
                lemma_front(reader.source(), reader.count(), 4);
            }
        }
        let read = match self.order {
            ByteOrder::LE => front_u32_le(rest),
            ByteOrder::BE => front_u32_be(rest),
        };
        match read {
            Ok(v) => {
                reader.advance(4);
                Ok(v)
            },
            Err(_) => {
                reader.exhaust();
                Err(ReadError::UnexpectedEof)
            },
        }
    }

    /// Reads a signed number of 4 bytes.
    pub fn read_i32(&self, reader: &mut CountingReader<'_>) -> (r: Result<i32, ReadError>)
        requires
            old(reader).wf(),
        ensures
            final(reader).wf(),
            final(reader).source() == old(reader).source(),
            final(reader).count() == uint_stop(4, old(reader).source(), old(reader).count()),
            match (r, uint_at(self.order, 4, old(reader).source(), old(reader).count())) {
                (Ok(v), Ok((n, end))) => v == signed_value(n, 4) && final(reader).count() == end,
                (Err(e), Err(f)) => e@ == f,
                _ => false,
            },
    {
        let rest = reader.rest();
        proof {
            if rest@.len() >= 4 {
                lemma_front(reader.source(), reader.count(), 4);
            }
        }
        let read = match self.order {
            ByteOrder::LE => front_i32_le(rest),
            ByteOrder::BE => front_i32_be(rest),
        };
        match read {
            Ok(v) => {
                reader.advance(4);
                Ok(v)
            },
            Err(_) => {
                reader.exhaust();
                Err(ReadError::UnexpectedEof)
            },
        }
    }

    /// Reads an unsigned number of 8 bytes.
    pub fn read_u64(&self, reader: &mut CountingReader<'_>) -> (r: Result<u64, ReadError>)
        requires
            old(reader).wf(),
        ensures
            final(reader).wf(),
            final(reader).source() == old(reader).source(),
            final(reader).count() == uint_stop(8, old(reader).source(), old(reader).count()),
            match (r, uint_at(self.order, 8, old(reader).source(), old(reader).count())) {
                (Ok(v), Ok((n, end))) => v == n && final(reader).count() == end,
                (Err(e), Err(f)) => e@ == f,
                _ => false,
            },
    {
        let rest = reader.rest();
        proof {
            if rest@.len() >= 8 {
                lemma_front(reader.source(), reader.count(), 8);
            }
        }
        let read = match self.order {
            ByteOrder::LE => front_u64_le(rest),
            ByteOrder::BE => front_u64_be(rest),
        };
        match read {
            Ok(v) => {
                reader.advance(8);
                Ok(v)
            },
            Err(_) => {
                reader.exhaust();
                Err(ReadError::UnexpectedEof)
            },
        }
    }

    /// Reads a signed number of 8 bytes.
    pub fn read_i64(&self, reader: &mut CountingReader<'_>) -> (r: Result<i64, ReadError>)
        requires
            old(reader).wf(),
        ensures
            final(reader).wf(),
            final(reader).source() == old(reader).source(),
            final(reader).count() == uint_stop(8, old(reader).source(), old(reader).count()),
            match (r, uint_at(self.order, 8, old(reader).source(), old(reader).count())) {
                (Ok(v), Ok((n, end))) => v == signed_value(n, 8) && final(reader).count() == end,
                (Err(e), Err(f)) => e@ == f,
                _ => false,
            },
    {
        let rest = reader.rest();
        proof {
            if rest@.len() >= 8 {
                lemma_front(reader.source(), reader.count(), 8);
            }
        }
        let read = match self.order {
            ByteOrder::LE => front_i64_le(rest),
            ByteOrder::BE => front_i64_be(rest),
        };
        match read {
            Ok(v) => {
                reader.advance(8);
                Ok(v)
            },
            Err(_) => {
                reader.exhaust();
                Err(ReadError::UnexpectedEof)
            },
        }
    }

    /// Reads a bool, which is a byte 0 or 1.
    pub fn read_bool(&self, reader: &mut CountingReader<'_>) -> (r: Result<bool, ReadError>)
        requires
            old(reader).wf(),
        ensures
            final(reader).wf(),
            final(reader).source() == old(reader).source(),
            final(reader).count() == uint_stop(1, old(reader).source(), old(reader).count()),
            match (r, uint_at(self.order, 1, old(reader).source(), old(reader).count())) {
                (Ok(v), Ok((n, end))) => n == (if v {
                    1nat
                } else {
                    0nat
                }) && final(reader).count() == end,
                (Err(e), Ok((n, end))) => {
                    &&& n > 1
                    &&& e@ == ReadError::<Seq<char>>::InvalidBool(n as u8)
                    &&& final(reader).count() == end
                },
                (Err(e), Err(f)) => e@ == f,
                _ => false,
            },
    {
        match self.read_u8(reader) {
            Ok(b) => if b == 0 {
                Ok(false)
            } else if b == 1 {
                Ok(true)
            } else {
                Err(ReadError::InvalidBool(b))
            },
            Err(e) => Err(e),
        }
    }

    /// Reads a size: four bytes in version 1, eight in later versions.
    pub fn read_version_size(&self, reader: &mut CountingReader<'_>) -> (r: Result<u64, ReadError>)
        requires
            old(reader).wf(),
        ensures
            final(reader).wf(),
            final(reader).source() == old(reader).source(),
            final(reader).count() == uint_stop(
                size_width(*self),
                old(reader).source(),
                old(reader).count(),
            ),
            match (r, size_at(*self, old(reader).source(), old(reader).count())) {
                (Ok(v), Ok((n, end))) => v == n && final(reader).count() == end,
                (Err(e), Err(f)) => e@ == f,
                _ => false,
            },
    {
        if self.wide {
            self.read_u64(reader)
        } else {
            match self.read_u32(reader) {
                Ok(v) => Ok(v as u64),
                Err(e) => Err(e),
            }
        }
    }

    /// Reads a string as long as `context` allows.
    pub fn read_string_limited(
        &self,
        reader: &mut CountingReader<'_>,
        context: StringContext,
    ) -> (r: Result<String, ReadError>)
        requires
            old(reader).wf(),
        ensures
            final(reader).wf(),
            final(reader).source() == old(reader).source(),
            final(reader).count() == string_stop(
                *self,
                context,
                old(reader).source(),
                old(reader).count(),
            ),
            match (r, string_at(*self, context, old(reader).source(), old(reader).count())) {
                (Ok(v), Ok((text, end))) => v@ == text && final(reader).count() == end,
                (Err(e), Err(f)) => e@ == f,
                _ => false,
            },
    {
        let len = match self.read_version_size(reader) {
            Ok(len) => len,
            Err(e) => return Err(e),
        };
        if len == 0 && !context.allows_empty() {
            return Err(ReadError::EmptyString(context));
        }
        if len > context.cap() {
            return Err(ReadError::StringTooLong { context, len });
        }
        let bytes = match reader.read_exact(len as usize) {
            Ok(bytes) => bytes,
            Err(e) => return Err(e),
        };
        match text_from_utf8(slice_to_vec(bytes)) {
            Ok(text) => Ok(text),
            Err(fault) => Err(ReadError::InvalidUtf8(context, fault)),
        }
    }

    /// Reads the number of a value type.
    pub fn read_value_type(&self, reader: &mut CountingReader<'_>) -> (r: Result<
        MetadataValueType,
        ReadError,
    >)
        requires
            old(reader).wf(),
        ensures
            final(reader).wf(),
            final(reader).source() == old(reader).source(),
            final(reader).count() == uint_stop(4, old(reader).source(), old(reader).count()),
            match (r, value_type_at(*self, old(reader).source(), old(reader).count())) {
                (Ok(v), Ok((t, end))) => v == t && final(reader).count() == end,
                (Err(e), Err(f)) => e@ == f,
                _ => false,
            },
    {
        match self.read_u32(reader) {
            Ok(code) => MetadataValueType::try_from(code),
            Err(e) => Err(e),
        }
    }

    /// Reads a value of type `item_type` where no array may stand.
    pub fn read_array_value(
        &self,
        reader: &mut CountingReader<'_>,
        item_type: MetadataValueType,
        context: StringContext,
    ) -> (r: Result<MetadataScalar, ReadError>)
        requires
            old(reader).wf(),
        ensures
            final(reader).wf(),
            final(reader).source() == old(reader).source(),
            final(reader).count() == scalar_stop(
                *self,
                item_type,
                context,
                old(reader).source(),
                old(reader).count(),
            ),
            match (
                r,
                scalar_at(*self, item_type, context, old(reader).source(), old(reader).count()),
            ) {
                (Ok(v), Ok((value, end))) => v@ == value && final(reader).count() == end,
                (Err(e), Err(f)) => e@ == f,
                _ => false,
            },
    {
        match item_type {
            MetadataValueType::Uint8 => match self.read_u8(reader) {
                Ok(v) => Ok(MetadataScalar::Uint8(v)),
                Err(e) => Err(e),
            },
            MetadataValueType::Int8 => match self.read_i8(reader) {
                Ok(v) => Ok(MetadataScalar::Int8(v)),
                Err(e) => Err(e),
            },
            MetadataValueType::Uint16 => match self.read_u16(reader) {
                Ok(v) => Ok(MetadataScalar::Uint16(v)),
                Err(e) => Err(e),
            },
            MetadataValueType::Int16 => match self.read_i16(reader) {
                Ok(v) => Ok(MetadataScalar::Int16(v)),
                Err(e) => Err(e),
            },
            MetadataValueType::Uint32 => match self.read_u32(reader) {
                Ok(v) => Ok(MetadataScalar::Uint32(v)),
                Err(e) => Err(e),
            },
            MetadataValueType::Int32 => match self.read_i32(reader) {
                Ok(v) => Ok(MetadataScalar::Int32(v)),
                Err(e) => Err(e),
            },
            MetadataValueType::Float32 => match self.read_u32(reader) {
                Ok(v) => Ok(MetadataScalar::Float32(v)),
                Err(e) => Err(e),
            },
            MetadataValueType::Bool => match self.read_bool(reader) {
                Ok(v) => Ok(MetadataScalar::Bool(v)),
                Err(e) => Err(e),
            },
            MetadataValueType::Uint64 => match self.read_u64(reader) {
                Ok(v) => Ok(MetadataScalar::Uint64(v)),
                Err(e) => Err(e),
            },
            MetadataValueType::Int64 => match self.read_i64(reader) {
                Ok(v) => Ok(MetadataScalar::Int64(v)),
                Err(e) => Err(e),
            },
            MetadataValueType::Float64 => match self.read_u64(reader) {
                Ok(v) => Ok(MetadataScalar::Float64(v)),
                Err(e) => Err(e),
            },
            MetadataValueType::String => match self.read_string_limited(reader, context) {
                Ok(v) => Ok(MetadataScalar::String(v)),
                Err(e) => Err(e),
            },
            MetadataValueType::Array => Err(ReadError::NestedArray),
        }
    }

    /// Reads a value of type `item_type` where no array may stand, and drops it. What is refused
    /// when it is read is refused here too.
    pub fn skip_array_value(
        &self,
        reader: &mut CountingReader<'_>,
        item_type: MetadataValueType,
    ) -> (r: Result<(), ReadError>)
        requires
            old(reader).wf(),
        ensures
            final(reader).wf(),
            final(reader).source() == old(reader).source(),
            final(reader).count() == scalar_stop(
                *self,
                item_type,
                StringContext::ArrayItem,
                old(reader).source(),
                old(reader).count(),
            ),
            match (
                r,
                scalar_at(
                    *self,
                    item_type,
                    StringContext::ArrayItem,
                    old(reader).source(),
                    old(reader).count(),
                ),
            ) {
                (Ok(_), Ok((_, end))) => final(reader).count() == end,
                (Err(e), Err(f)) => e@ == f,
                _ => false,
            },
    {
        match item_type {
            MetadataValueType::Bool => match self.read_bool(reader) {
                Ok(_) => Ok(()),
                Err(e) => Err(e),
            },
            MetadataValueType::Uint8 | MetadataValueType::Int8 => reader.skip_exact(1),
            MetadataValueType::Uint16 | MetadataValueType::Int16 => reader.skip_exact(2),
            MetadataValueType::Uint32
            | MetadataValueType::Int32
            | MetadataValueType::Float32 => reader.skip_exact(4),
            MetadataValueType::Uint64
            | MetadataValueType::Int64
            | MetadataValueType::Float64 => reader.skip_exact(8),
            MetadataValueType::String => match self.read_string_limited(
                reader,
                StringContext::ArrayItem,
            ) {
                Ok(_) => Ok(()),
                Err(e) => Err(e),
            },
            MetadataValueType::Array => Err(ReadError::NestedArray),
        }
    }

    /// Reads an array, of which no more items are kept than the dialect and the cap allow.
    pub fn read_array(&self, reader: &mut CountingReader<'_>) -> (r: Result<
        Vec<MetadataScalar>,
        ReadError,
    >)
        requires
            old(reader).wf(),
        ensures
            final(reader).wf(),
            final(reader).source() == old(reader).source(),
            final(reader).count() == array_stop(*self, old(reader).source(), old(reader).count()),
            match (r, array_at(*self, old(reader).source(), old(reader).count())) {
                (Ok(v), Ok((items, end))) => scalar_views(v@) == items && final(reader).count()
                    == end,
                (Err(e), Err(f)) => e@ == f,
                _ => false,
            },
    {
        let item_type = match self.read_value_type(reader) {
            Ok(t) => t,
            Err(e) => return Err(e),
        };
        let array_len: u64 = match self.read_version_size(reader) {
            Ok(len) => len,
            Err(e) => return Err(e),
        };
        if array_len > MAX_ARRAY_LEN {
            return Err(ReadError::ArrayTooLong(array_len));
        }
        let limit: u64 = if self.max_array_size < MAX_STORED_ARRAY_ITEMS {
            self.max_array_size
        } else {
            MAX_STORED_ARRAY_ITEMS
        };
        let read_count: u64 = if array_len < limit {
            array_len
        } else {
            limit
        };
        let ghost source = reader.source();
        let ghost all = items_at(
            *self,
            item_type,
            array_len as nat,
            read_count as nat,
            0,
            source,
            reader.count(),
        );
        let mut data: Vec<MetadataScalar> = Vec::new();
        let mut i: u64 = 0;
        proof {
            assert(all matches Ok((items, _)) ==> scalar_views(data@) + items =~= items);
        }
        while i < array_len
            invariant
                i <= array_len,
                read_count <= array_len,
                data@.len() == (if i < read_count {
                    i
                } else {
                    read_count
                }),
                reader.wf(),
                reader.source() == source,
                source == old(reader).source(),
                all == array_at(*self, source, old(reader).count()),
                array_stop(*self, source, old(reader).count()) == items_stop(
                    *self,
                    item_type,
                    array_len as nat,
                    i as nat,
                    source,
                    reader.count(),
                ),
                match items_at(
                    *self,
                    item_type,
                    array_len as nat,
                    read_count as nat,
                    i as nat,
                    source,
                    reader.count(),
                ) {
                    Ok((items, end)) => all == Ok::<_, ReadError<Seq<char>>>(
                        (scalar_views(data@) + items, end),
                    ),
                    Err(e) => all == Err::<(Seq<MetadataScalar<Seq<char>>>, int), _>(e),
                },
            decreases array_len - i,
        {
            let ghost before = data@;
            if (data.len() as u64) < read_count {
                match self.read_array_value(reader, item_type, StringContext::ArrayItem) {
                    Ok(value) => {
                        data.push(value);
                    },
                    Err(e) => return Err(e),
                }
            } else {
                match self.skip_array_value(reader, item_type) {
                    Ok(_) => {},
                    Err(e) => return Err(ReadError::SkippedArrayItem(i, Box::new(e))),
                }
            }
            if reader.bytes_read() > MAX_METADATA_BYTES {
                return Err(ReadError::MetadataTooLarge);
            }
            i = i + 1;
            proof {
                if data@.len() > before.len() {
                    assert forall|rest: Seq<MetadataScalar<Seq<char>>>| #[trigger]
                        (scalar_views(data@) + rest) == scalar_views(before) + (
                        seq![data@.last()@] + rest) by {
                        assert(scalar_views(data@) + rest =~= scalar_views(before) + (
                        seq![data@.last()@] + rest));
                    }
                }
            }
        }
        proof {
            assert(scalar_views(data@) + Seq::empty() =~= scalar_views(data@));
        }
        Ok(data)
    }

    /// Reads a value that is preceded by the number of its type.
    pub fn read_typed_value(&self, reader: &mut CountingReader<'_>) -> (r: Result<
        MetadataValue,
        ReadError,
    >)
        requires
            old(reader).wf(),
        ensures
            final(reader).wf(),
            final(reader).source() == old(reader).source(),
            final(reader).count() == typed_value_stop(
                *self,
                old(reader).source(),
                old(reader).count(),
            ),
            match (r, typed_value_at(*self, old(reader).source(), old(reader).count())) {
                (Ok(v), Ok((value, end))) => v@ == value && final(reader).count() == end,
                (Err(e), Err(f)) => e@ == f,
                _ => false,
            },
    {
        let value_type = match self.read_value_type(reader) {
            Ok(t) => t,
            Err(e) => return Err(e),
        };
        match value_type {
            MetadataValueType::Array => match self.read_array(reader) {
                Ok(items) => Ok(MetadataValue::Array(items)),
                Err(e) => Err(e),
            },
            _ => match self.read_array_value(reader, value_type, StringContext::MetadataValue) {
                Ok(v) => Ok(MetadataValue::Scalar(v)),
                Err(e) => Err(e),
            },
        }
    }
}

} // verus!
