//! Headers as bytes.
//!
//! [`RawHeader`] is what a header says before anything is checked: numbers and texts as they are
//! written down, right or wrong. [`raw_bytes`] writes it in one byte order.
use crate::constants::{FILE_MAGIC_GGUF_BE, FILE_MAGIC_GGUF_LE};
use crate::container::ContainerView;
use crate::endian::{be_value, le_value, uint_value, ByteOrder};
use crate::error::{ReadError, StringContext};
use crate::grammar::{
    order_of_magic, scalar_at, scalar_of, string_at, uint_at, value_type_at, value_width, Dialect,
    InputBounds,
};
use crate::types::{value_type_of, MetadataValueType};
use crate::value::MetadataScalar;
use vstd::prelude::*;
use vstd::utf8::{decode_utf8, valid_utf8};

verus! {

/// The number of values that `width` bytes can hold.
pub open spec fn range(width: nat) -> nat
    decreases width,
{
    if width == 0 {
        1
    } else {
        256 * range((width - 1) as nat)
    }
}

/// The `width` bytes of `n`, least significant first.
pub open spec fn le_bytes(n: nat, width: nat) -> Seq<u8>
    decreases width,
{
    if width == 0 {
        Seq::empty()
    } else {
        seq![(n % 256) as u8] + le_bytes(n / 256, (width - 1) as nat)
    }
}

/// The `width` bytes of `n`, most significant first.
pub open spec fn be_bytes(n: nat, width: nat) -> Seq<u8>
    decreases width,
{
    if width == 0 {
        Seq::empty()
    } else {
        be_bytes(n / 256, (width - 1) as nat).push((n % 256) as u8)
    }
}

/// The `width` bytes of `n` in byte order `order`.
pub open spec fn uint_bytes(order: ByteOrder, n: nat, width: nat) -> Seq<u8> {
    match order {
        ByteOrder::LE => le_bytes(n, width),
        ByteOrder::BE => be_bytes(n, width),
    }
}

pub proof fn lemma_le_bytes(n: nat, width: nat)
    requires
        n < range(width),
    ensures
        le_bytes(n, width).len() == width,
        le_value(le_bytes(n, width)) == n,
    decreases width,
{
    if width > 0 {
        let fewer = (width - 1) as nat;
        lemma_le_bytes(n / 256, fewer);
        assert(le_bytes(n, width).skip(1) =~= le_bytes(n / 256, fewer));
    }
}

pub proof fn lemma_be_bytes(n: nat, width: nat)
    requires
        n < range(width),
    ensures
        be_bytes(n, width).len() == width,
        be_value(be_bytes(n, width)) == n,
    decreases width,
{
    if width > 0 {
        let fewer = (width - 1) as nat;
        lemma_be_bytes(n / 256, fewer);
        assert(be_bytes(n, width).drop_last() =~= be_bytes(n / 256, fewer));
    }
}

/// The bytes of a number stand for it, in either byte order.
pub proof fn law_uint_round_trip(order: ByteOrder, n: nat, width: nat)
    requires
        n < range(width),
    ensures
        uint_bytes(order, n, width).len() == width,
        uint_value(order, uint_bytes(order, n, width)) == n,
{
    lemma_le_bytes(n, width);
    lemma_be_bytes(n, width);
}

pub proof fn lemma_le_value(bytes: Seq<u8>)
    ensures
        le_value(bytes) < range(bytes.len()),
        le_bytes(le_value(bytes), bytes.len()) == bytes,
    decreases bytes.len(),
{
    if bytes.len() > 0 {
        let rest = bytes.skip(1);
        lemma_le_value(rest);
        let n = le_value(bytes);
        assert(n % 256 == bytes[0]);
        assert(n / 256 == le_value(rest));
        assert(seq![bytes[0]] + rest =~= bytes);
    } else {
        assert(le_bytes(0, 0) =~= bytes);
    }
}

/// The four bytes with which a file of byte order `order` starts.
pub open spec fn magic_bytes(order: ByteOrder) -> Seq<u8> {
    match order {
        ByteOrder::LE => le_bytes(FILE_MAGIC_GGUF_LE as nat, 4),
        ByteOrder::BE => le_bytes(FILE_MAGIC_GGUF_BE as nat, 4),
    }
}

/// Each byte order has one magic, and nothing else is one.
pub proof fn law_magic(magic: Seq<u8>, order: ByteOrder)
    requires
        magic.len() == 4,
    ensures
        order_of_magic(magic) == Some(order) <==> magic == magic_bytes(order),
{
    lemma_ranges();
    lemma_le_value(magic);
    lemma_le_bytes(FILE_MAGIC_GGUF_LE as nat, 4);
    lemma_le_bytes(FILE_MAGIC_GGUF_BE as nat, 4);
}

pub proof fn lemma_ranges()
    ensures
        range(1) == 0x100,
        range(2) == 0x1_0000,
        range(4) == 0x1_0000_0000,
        range(8) == 0x1_0000_0000_0000_0000,
{
    reveal_with_fuel(range, 9);
}

/// A value that is no array, as it is written.
pub enum RawScalar {
    /// A number of so many bytes.
    Number { n: nat, width: nat },
    /// The bytes of a text.
    Text(Seq<u8>),
}

/// A value as it is written.
pub enum RawValue {
    Scalar(RawScalar),
    /// Items behind the number of their type.
    Array { item_kind: u32, items: Seq<RawScalar> },
}

/// A key-value pair as it is written.
pub struct RawPair {
    pub key: Seq<u8>,
    /// The number of the value's type.
    pub kind: u32,
    pub value: RawValue,
}

/// A tensor description as it is written.
pub struct RawTensor {
    pub name: Seq<u8>,
    pub dims: Seq<u64>,
    pub kind: u32,
    pub offset: u64,
}

/// A header as it is written.
pub struct RawHeader {
    pub version: u32,
    pub num_tensor: u64,
    pub num_kv: u64,
    pub pairs: Seq<RawPair>,
    pub tensors: Seq<RawTensor>,
}

/// The bytes that a size takes.
pub open spec fn raw_width(wide: bool) -> nat {
    if wide {
        8
    } else {
        4
    }
}

/// A text with its length in front.
pub open spec fn text_bytes(order: ByteOrder, wide: bool, text: Seq<u8>) -> Seq<u8> {
    uint_bytes(order, text.len(), raw_width(wide)) + text
}

pub open spec fn scalar_bytes(order: ByteOrder, wide: bool, v: RawScalar) -> Seq<u8> {
    match v {
        RawScalar::Number { n, width } => uint_bytes(order, n, width),
        RawScalar::Text(text) => text_bytes(order, wide, text),
    }
}

/// The items one behind the other.
pub open spec fn items_bytes(order: ByteOrder, wide: bool, items: Seq<RawScalar>) -> Seq<u8>
    decreases items.len(),
{
    if items.len() == 0 {
        Seq::empty()
    } else {
        scalar_bytes(order, wide, items[0]) + items_bytes(order, wide, items.skip(1))
    }
}

pub open spec fn value_bytes(order: ByteOrder, wide: bool, v: RawValue) -> Seq<u8> {
    match v {
        RawValue::Scalar(scalar) => scalar_bytes(order, wide, scalar),
        RawValue::Array { item_kind, items } => uint_bytes(order, item_kind as nat, 4) + (
        uint_bytes(order, items.len(), raw_width(wide)) + items_bytes(order, wide, items)),
    }
}

/// The value of a pair behind the number of its type.
pub open spec fn typed_bytes(order: ByteOrder, wide: bool, pair: RawPair) -> Seq<u8> {
    uint_bytes(order, pair.kind as nat, 4) + value_bytes(order, wide, pair.value)
}

/// The pairs one behind the other: each is its key, the number of its value's type and its value.
pub open spec fn pairs_bytes(order: ByteOrder, wide: bool, pairs: Seq<RawPair>) -> Seq<u8>
    decreases pairs.len(),
{
    if pairs.len() == 0 {
        Seq::empty()
    } else {
        text_bytes(order, wide, pairs[0].key) + (typed_bytes(order, wide, pairs[0]) + pairs_bytes(
            order,
            wide,
            pairs.skip(1),
        ))
    }
}

/// The dimensions one behind the other.
pub open spec fn dims_bytes(order: ByteOrder, dims: Seq<u64>) -> Seq<u8>
    decreases dims.len(),
{
    if dims.len() == 0 {
        Seq::empty()
    } else {
        uint_bytes(order, dims[0] as nat, 8) + dims_bytes(order, dims.skip(1))
    }
}

/// A tensor description behind the name.
pub open spec fn description_bytes(order: ByteOrder, t: RawTensor) -> Seq<u8> {
    uint_bytes(order, t.dims.len(), 4) + (dims_bytes(order, t.dims) + (uint_bytes(
        order,
        t.kind as nat,
        4,
    ) + uint_bytes(order, t.offset as nat, 8)))
}

/// The tensor descriptions one behind the other.
pub open spec fn tensors_bytes(order: ByteOrder, wide: bool, tensors: Seq<RawTensor>) -> Seq<u8>
    decreases tensors.len(),
{
    if tensors.len() == 0 {
        Seq::empty()
    } else {
        text_bytes(order, wide, tensors[0].name) + (description_bytes(order, tensors[0])
            + tensors_bytes(order, wide, tensors.skip(1)))
    }
}

impl RawHeader {
    /// Whether sizes take eight bytes: in all versions but the first.
    pub open spec fn wide(self) -> bool {
        self.version != 1
    }
}

/// The version and the counts.
pub open spec fn preamble_bytes(order: ByteOrder, h: RawHeader) -> Seq<u8> {
    uint_bytes(order, h.version as nat, 4) + (uint_bytes(
        order,
        h.num_tensor as nat,
        raw_width(h.wide()),
    ) + uint_bytes(order, h.num_kv as nat, raw_width(h.wide())))
}

/// A header, behind its magic, in byte order `order`.
pub open spec fn raw_bytes(order: ByteOrder, h: RawHeader) -> Seq<u8> {
    preamble_bytes(order, h) + (pairs_bytes(order, h.wide(), h.pairs) + tensors_bytes(
        order,
        h.wide(),
        h.tensors,
    ))
}

/// Whether the value is written as one of type `t` is: what it says may be wrong, but it has the
/// bytes of such a value. Arrays in arrays are refused before anything of them is read.
pub open spec fn written_as(wide: bool, t: MetadataValueType, v: RawScalar) -> bool {
    match t {
        MetadataValueType::String => v matches RawScalar::Text(text) && text.len() < range(
            raw_width(wide),
        ),
        MetadataValueType::Array => true,
        _ => v matches RawScalar::Number { n, width } && width == value_width(t) && n < range(
            width,
        ),
    }
}

/// Whether the value has the bytes of one of the type whose number stands in front of it; behind an
/// unknown number anything may follow.
pub open spec fn written_pair(wide: bool, pair: RawPair) -> bool {
    &&& pair.key.len() < range(raw_width(wide))
    &&& match value_type_of(pair.kind) {
        None => true,
        Some(t) => if t is Array {
            &&& pair.value matches RawValue::Array { item_kind, items }
            &&& items.len() < range(raw_width(wide))
            &&& value_type_of(item_kind) matches Some(item_type) ==> forall|i: int|
                0 <= i < items.len() ==> written_as(wide, item_type, #[trigger] items[i])
        } else {
            pair.value matches RawValue::Scalar(v) && written_as(wide, t, v)
        },
    }
}

/// Whether the lengths in a tensor description can be written.
pub open spec fn written_tensor(wide: bool, t: RawTensor) -> bool {
    t.name.len() < range(raw_width(wide)) && t.dims.len() < range(4)
}

/// Whether the header is one that can be written: its counts are those of its pairs and tensors,
/// and each value has the bytes of its type. Behind an unknown version anything may follow.
pub open spec fn written(h: RawHeader) -> bool {
    1 <= h.version <= 3 ==> {
        &&& h.num_kv == h.pairs.len() < range(raw_width(h.wide()))
        &&& h.num_tensor == h.tensors.len() < range(raw_width(h.wide()))
        &&& forall|i: int| 0 <= i < h.pairs.len() ==> written_pair(h.wide(), #[trigger] h.pairs[i])
        &&& forall|i: int|
            0 <= i < h.tensors.len() ==> written_tensor(h.wide(), #[trigger] h.tensors[i])
    }
}

/// Whether `bytes` stand at `pos` of `s`, as far as `s` goes.
pub open spec fn stands_at(s: Seq<u8>, pos: int, bytes: Seq<u8>) -> bool {
    &&& 0 <= pos <= s.len()
    &&& forall|i: int|
        0 <= i < bytes.len() && pos + i < s.len() ==> s[pos + i] == #[trigger] bytes[i]
}

pub proof fn lemma_stands_split(s: Seq<u8>, pos: int, a: Seq<u8>, b: Seq<u8>)
    requires
        stands_at(s, pos, a + b),
    ensures
        stands_at(s, pos, a),
        pos + a.len() <= s.len() ==> stands_at(s, pos + a.len(), b),
{
    assert forall|i: int| 0 <= i < a.len() && pos + i < s.len() implies s[pos + i]
        == #[trigger] a[i] by {
        assert((a + b)[i] == a[i]);
    }
    assert forall|i: int| 0 <= i < b.len() && pos + a.len() + i < s.len() implies s[pos + a.len()
        + i] == #[trigger] b[i] by {
        assert((a + b)[a.len() + i] == b[i]);
    }
}

pub proof fn lemma_stands_whole(s: Seq<u8>, pos: int, bytes: Seq<u8>)
    requires
        stands_at(s, pos, bytes),
        pos + bytes.len() <= s.len(),
    ensures
        s.subrange(pos, pos + bytes.len()) == bytes,
{
    assert(s.subrange(pos, pos + bytes.len()) =~= bytes);
}

/// A number that is written is read, if the input goes that far.
pub proof fn lemma_uint_read(order: ByteOrder, n: nat, width: nat, s: Seq<u8>, pos: int)
    requires
        n < range(width),
        stands_at(s, pos, uint_bytes(order, n, width)),
    ensures
        uint_bytes(order, n, width).len() == width,
        uint_at(order, width, s, pos) == if pos + width <= s.len() {
            Ok::<(nat, int), ReadError<Seq<char>>>((n, pos + width))
        } else {
            Err(ReadError::UnexpectedEof)
        },
{
    law_uint_round_trip(order, n, width);
    if pos + width <= s.len() {
        lemma_stands_whole(s, pos, uint_bytes(order, n, width));
    }
}

/// What reading a text that is written gives, if the input has `end` bytes.
pub open spec fn text_read(
    wide: bool,
    context: StringContext,
    text: Seq<u8>,
    end: int,
    pos: int,
) -> Result<(Seq<char>, int), ReadError<Seq<char>>> {
    let p = pos + raw_width(wide);
    if p > end {
        Err(ReadError::UnexpectedEof)
    } else if text.len() == 0 && !context.allows_empty() {
        Err(ReadError::EmptyString(context))
    } else if text.len() > context.cap() {
        Err(ReadError::StringTooLong { context, len: text.len() as u64 })
    } else if p + text.len() > end {
        Err(ReadError::UnexpectedEof)
    } else if !valid_utf8(text) {
        Err(ReadError::InvalidUtf8(context, crate::grammar::utf8_fault_text(text)))
    } else {
        Ok((decode_utf8(text), p + text.len()))
    }
}

pub proof fn lemma_text_read(
    d: Dialect,
    context: StringContext,
    text: Seq<u8>,
    s: Seq<u8>,
    pos: int,
)
    requires
        text.len() < range(raw_width(d.wide)),
        stands_at(s, pos, text_bytes(d.order, d.wide, text)),
    ensures
        string_at(d, context, s, pos) == text_read(d.wide, context, text, s.len() as int, pos),
        text_bytes(d.order, d.wide, text).len() == raw_width(d.wide) + text.len(),
{
    let width = raw_width(d.wide);
    lemma_stands_split(s, pos, uint_bytes(d.order, text.len(), width), text);
    lemma_uint_read(d.order, text.len(), width, s, pos);
    if pos + width + text.len() <= s.len() {
        lemma_stands_whole(s, pos + width, text);
    }
}

/// What reading a value of type `t` that is written gives, if the input has `end` bytes.
pub open spec fn scalar_read(
    wide: bool,
    t: MetadataValueType,
    context: StringContext,
    v: RawScalar,
    end: int,
    pos: int,
) -> Result<(MetadataScalar<Seq<char>>, int), ReadError<Seq<char>>> {
    match (t, v) {
        (MetadataValueType::Array, _) => Err(ReadError::NestedArray),
        (MetadataValueType::String, RawScalar::Text(text)) => match text_read(
            wide,
            context,
            text,
            end,
            pos,
        ) {
            Ok((text, p)) => Ok((MetadataScalar::String(text), p)),
            Err(e) => Err(e),
        },
        (_, RawScalar::Number { n, width }) => if pos + width <= end {
            match scalar_of(t, n) {
                Ok(v) => Ok((v, pos + width)),
                Err(e) => Err(e),
            }
        } else {
            Err(ReadError::UnexpectedEof)
        },
        _ => Err(ReadError::UnexpectedEof),
    }
}

pub proof fn lemma_scalar_read(
    d: Dialect,
    t: MetadataValueType,
    context: StringContext,
    v: RawScalar,
    s: Seq<u8>,
    pos: int,
)
    requires
        written_as(d.wide, t, v),
        stands_at(s, pos, scalar_bytes(d.order, d.wide, v)),
    ensures
        scalar_at(d, t, context, s, pos) == scalar_read(
            d.wide,
            t,
            context,
            v,
            s.len() as int,
            pos,
        ),
        scalar_at(d, t, context, s, pos) matches Ok((_, p)) ==> p == pos + scalar_bytes(
            d.order,
            d.wide,
            v,
        ).len() && p <= s.len(),
{
    match v {
        RawScalar::Text(text) => if t is String {
            lemma_text_read(d, context, text, s, pos);
        },
        RawScalar::Number { n, width } => if !(t is Array || t is String) {
            lemma_uint_read(d.order, n, width, s, pos);
        },
    }
}

pub proof fn lemma_kind_read(d: Dialect, kind: u32, s: Seq<u8>, pos: int)
    requires
        stands_at(s, pos, uint_bytes(d.order, kind as nat, 4)),
    ensures
        uint_bytes(d.order, kind as nat, 4).len() == 4,
        value_type_at(d, s, pos) == if pos + 4 <= s.len() {
            match value_type_of(kind) {
                Some(t) => Ok::<(MetadataValueType, int), ReadError<Seq<char>>>((t, pos + 4)),
                None => Err(ReadError::UnsupportedValueType),
            }
        } else {
            Err(ReadError::UnexpectedEof)
        },
{
    lemma_ranges();
    lemma_uint_read(d.order, kind as nat, 4, s, pos);
}

pub proof fn lemma_uint_bytes_len(order: ByteOrder, n: nat, width: nat)
    ensures
        uint_bytes(order, n, width).len() == width,
    decreases width,
{
    if width > 0 {
        lemma_uint_bytes_len(order, n / 256, (width - 1) as nat);
    }
}

pub proof fn lemma_uint_bytes_lens()
    ensures
        forall|order: ByteOrder, n: nat, width: nat|
            #[trigger] uint_bytes(order, n, width).len() == width,
{
    assert forall|order: ByteOrder, n: nat, width: nat|
        #[trigger] uint_bytes(order, n, width).len() == width by {
        lemma_uint_bytes_len(order, n, width);
    }
}

/// The header `h` written in byte order `order`, with whatever follows, as an input behind its
/// magic.
pub open spec fn input_of(
    order: ByteOrder,
    h: RawHeader,
    tail: Seq<u8>,
    max_array_size: u64,
    bounds: InputBounds,
) -> ContainerView {
    ContainerView::fresh(order, raw_bytes(order, h) + tail, max_array_size, bounds)
}

/// A file: the magic, the header `h`, and whatever follows, in byte order `order`.
pub open spec fn file_of(order: ByteOrder, h: RawHeader, tail: Seq<u8>) -> Seq<u8> {
    magic_bytes(order) + (raw_bytes(order, h) + tail)
}

/// A file is opened in its byte order, and what stands behind the magic is its header.
pub proof fn law_file_is_opened(order: ByteOrder, h: RawHeader, tail: Seq<u8>)
    ensures
        file_of(order, h, tail).len() >= 4,
        order_of_magic(file_of(order, h, tail).take(4)) == Some(order),
        file_of(order, h, tail).skip(4) == raw_bytes(order, h) + tail,
{
    let file = file_of(order, h, tail);
    lemma_ranges();
    lemma_le_bytes(FILE_MAGIC_GGUF_LE as nat, 4);
    lemma_le_bytes(FILE_MAGIC_GGUF_BE as nat, 4);
    assert(file.take(4) =~= magic_bytes(order));
    assert(file.skip(4) =~= raw_bytes(order, h) + tail);
    law_magic(file.take(4), order);
}

} // verus!
