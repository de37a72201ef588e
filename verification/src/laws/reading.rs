//! What written metadata is read as, and why it is refused.
//!
//! Everything here is said of pairs as they are written down, right or wrong, and in plain numbers.
use crate::constants::MAX_METADATA_BYTES;
use crate::error::{GGUFError, ReadError, StringContext};
use crate::grammar::{
    array_at, items_at, kept_items, kvs_at, scalar_at, string_at, typed_value_at, Dialect,
};
use crate::laws::encoding::{
    items_bytes, lemma_kind_read, lemma_ranges, lemma_scalar_read, lemma_stands_split,
    lemma_text_read, lemma_uint_bytes_lens, lemma_uint_read, pairs_bytes, range, raw_width,
    scalar_bytes, stands_at, text_bytes, typed_bytes, uint_bytes, value_bytes, written_as,
    written_pair, RawPair, RawScalar, RawValue,
};
use crate::types::{value_type_of, MetadataValueType};
use crate::value::{MetadataScalar, ValueView};
use vstd::prelude::*;
use vstd::utf8::{decode_utf8, valid_utf8};

verus! {

/// The number of bytes that a text may have in that place.
pub open spec fn text_limit(context: StringContext) -> nat {
    match context {
        StringContext::MetadataKey => 65_535,
        StringContext::TensorName => 64,
        StringContext::MetadataValue => 16_777_216,
        StringContext::ArrayItem => 16_777_216,
    }
}

/// Whether the bytes are a text that may stand in that place; names are not empty.
pub open spec fn fit_text(context: StringContext, text: Seq<u8>) -> bool {
    &&& valid_utf8(text)
    &&& text.len() <= text_limit(context)
    &&& context is MetadataKey || context is TensorName ==> text.len() > 0
}

/// Whether the error says what is wrong with the text.
pub open spec fn text_fault(
    context: StringContext,
    text: Seq<u8>,
    e: ReadError<Seq<char>>,
) -> bool {
    match e {
        ReadError::EmptyString(place) => {
            &&& place == context
            &&& text.len() == 0
            &&& context is MetadataKey || context is TensorName
        },
        ReadError::StringTooLong { context: place, len } => {
            &&& place == context
            &&& len == text.len()
            &&& text.len() > text_limit(context)
        },
        ReadError::InvalidUtf8(place, _) => {
            &&& place == context
            &&& text.len() <= text_limit(context)
            &&& !valid_utf8(text)
        },
        _ => false,
    }
}

/// A written text is read as what its bytes encode, if it may stand in its place and the input goes
/// that far. Otherwise it is refused for what is wrong with it, or because the input ends.
pub proof fn law_texts_are_read(
    d: Dialect,
    context: StringContext,
    text: Seq<u8>,
    s: Seq<u8>,
    pos: int,
)
    requires
        text.len() < range(raw_width(d.wide)),
        stands_at(s, pos, text_bytes(d.order, d.wide, text)),
    ensures
        string_at(d, context, s, pos) is Ok <==> fit_text(context, text) && pos + raw_width(d.wide)
            + text.len() <= s.len(),
        match string_at(d, context, s, pos) {
            Ok((v, p)) => v == decode_utf8(text) && p == pos + raw_width(d.wide) + text.len(),
            Err(e) => text_fault(context, text, e) || (e is UnexpectedEof && pos + raw_width(d.wide)
                + text.len() > s.len()),
        },
        text_bytes(d.order, d.wide, text).len() == raw_width(d.wide) + text.len(),
{
    lemma_ranges();
    lemma_text_read(d, context, text, s, pos);
}

/// Whether a written value may stand where no array may: a text is one, and a bool is 0 or 1.
pub open spec fn fit_scalar(t: MetadataValueType, raw: RawScalar) -> bool {
    match t {
        MetadataValueType::Array => false,
        MetadataValueType::Bool => raw matches RawScalar::Number { n, .. } && n <= 1,
        MetadataValueType::String => raw matches RawScalar::Text(text) && valid_utf8(text)
            && text.len() <= 16_777_216,
        _ => true,
    }
}

/// Whether the value is what is written: numbers as they are, signed ones less a whole turn where
/// they are negative.
pub open spec fn told_scalar(
    t: MetadataValueType,
    raw: RawScalar,
    v: MetadataScalar<Seq<char>>,
) -> bool {
    match raw {
        RawScalar::Text(text) => t is String && v == MetadataScalar::String(decode_utf8(text)),
        RawScalar::Number { n, .. } => match v {
            MetadataScalar::Uint8(x) => t is Uint8 && x == n,
            MetadataScalar::Uint16(x) => t is Uint16 && x == n,
            MetadataScalar::Uint32(x) => t is Uint32 && x == n,
            MetadataScalar::Uint64(x) => t is Uint64 && x == n,
            MetadataScalar::Int8(x) => t is Int8 && (x == n || x == n - 0x100),
            MetadataScalar::Int16(x) => t is Int16 && (x == n || x == n - 0x1_0000),
            MetadataScalar::Int32(x) => t is Int32 && (x == n || x == n - 0x1_0000_0000),
            MetadataScalar::Int64(x) => t is Int64 && (x == n || x == n - 0x1_0000_0000_0000_0000),
            MetadataScalar::Float32(x) => t is Float32 && x == n,
            MetadataScalar::Float64(x) => t is Float64 && x == n,
            MetadataScalar::Bool(x) => t is Bool && (n == 0 && !x || n == 1 && x),
            MetadataScalar::String(_) => false,
        },
    }
}

/// Whether the error says what is wrong with the value.
pub open spec fn scalar_fault(
    t: MetadataValueType,
    context: StringContext,
    raw: RawScalar,
    e: ReadError<Seq<char>>,
) -> bool {
    match e {
        ReadError::NestedArray => t is Array,
        ReadError::InvalidBool(x) => {
            &&& t is Bool
            &&& raw matches RawScalar::Number { n, .. }
            &&& x == n
            &&& n > 1
        },
        _ => {
            &&& t is String
            &&& raw matches RawScalar::Text(text)
            &&& text_fault(context, text, e)
        },
    }
}

/// A written value that is no array is read as it is written, if it may stand there and the input
/// goes that far. Otherwise it is refused for what is wrong with it, or because the input ends.
pub proof fn law_values_are_read(
    d: Dialect,
    t: MetadataValueType,
    context: StringContext,
    raw: RawScalar,
    s: Seq<u8>,
    pos: int,
)
    requires
        context is MetadataValue || context is ArrayItem,
        written_as(d.wide, t, raw),
        stands_at(s, pos, scalar_bytes(d.order, d.wide, raw)),
    ensures
        scalar_at(d, t, context, s, pos) is Ok <==> fit_scalar(t, raw) && pos + scalar_bytes(
            d.order,
            d.wide,
            raw,
        ).len() <= s.len(),
        match scalar_at(d, t, context, s, pos) {
            Ok((v, p)) => told_scalar(t, raw, v) && p == pos + scalar_bytes(
                d.order,
                d.wide,
                raw,
            ).len(),
            Err(e) => scalar_fault(t, context, raw, e) || (e is UnexpectedEof && pos + scalar_bytes(
                d.order,
                d.wide,
                raw,
            ).len() > s.len()),
        },
{
    lemma_ranges();
    lemma_uint_bytes_lens();
    lemma_scalar_read(d, t, context, raw, s, pos);
    if let RawScalar::Text(text) = raw {
        if t is String {
            law_texts_are_read(d, context, text, s, pos);
        }
    }
}

/// Whether the error says what is wrong with item number `j`, the first that is: by itself if the item
/// is to be kept, and behind its number if not.
pub open spec fn item_fault(
    t: MetadataValueType,
    keep: nat,
    items: Seq<RawScalar>,
    j: int,
    e: ReadError<Seq<char>>,
) -> bool {
    &&& 0 <= j < items.len()
    &&& forall|k: int| 0 <= k < j ==> fit_scalar(t, #[trigger] items[k])
    &&& if j < keep {
        scalar_fault(t, StringContext::ArrayItem, items[j], e)
    } else {
        e matches ReadError::SkippedArrayItem(n, source) && n == j && scalar_fault(
            t,
            StringContext::ArrayItem,
            items[j],
            *source,
        )
    }
}

/// Whether the error says that the input ended, be it in an item that was not to be kept.
pub open spec fn cut_short(e: ReadError<Seq<char>>) -> bool {
    match e {
        ReadError::UnexpectedEof => true,
        ReadError::SkippedArrayItem(_, source) => *source is UnexpectedEof,
        _ => false,
    }
}

/// Items are read one behind the other. They are accepted exactly if each of them is and they end
/// within the input and the cap; the first `keep` of them are kept as they are written.
proof fn lemma_items(
    d: Dialect,
    t: MetadataValueType,
    items: Seq<RawScalar>,
    keep: nat,
    i: nat,
    s: Seq<u8>,
    pos: int,
)
    requires
        i <= items.len() < 0x1_0000_0000_0000_0000,
        keep <= items.len(),
        forall|j: int| 0 <= j < i ==> fit_scalar(t, #[trigger] items[j]),
        forall|j: int| 0 <= j < items.len() ==> written_as(d.wide, t, #[trigger] items[j]),
        stands_at(s, pos, items_bytes(d.order, d.wide, items.skip(i as int))),
    ensures
        ({
            let end = pos + items_bytes(d.order, d.wide, items.skip(i as int)).len();
            let r = items_at(d, t, items.len(), keep, i, s, pos);
            &&& r is Ok <==> {
                &&& forall|j: int| i <= j < items.len() ==> fit_scalar(t, #[trigger] items[j])
                &&& end <= s.len()
                &&& i < items.len() ==> end <= 67_108_864
            }
            &&& match r {
                Ok((values, p)) => {
                    &&& p == end
                    &&& values.len() == if i < keep {
                        keep - i
                    } else {
                        0
                    }
                    &&& forall|k: int|
                        0 <= k < values.len() ==> told_scalar(t, items[i + k], #[trigger] values[k])
                },
                Err(e) => {
                    ||| exists|j: int| #[trigger] item_fault(t, keep, items, j, e)
                    ||| e is MetadataTooLarge && end > 67_108_864
                    ||| cut_short(e) && end > s.len()
                },
            }
        }),
    decreases items.len() - i,
{
    let raws = items.skip(i as int);
    if i < items.len() {
        let front = scalar_bytes(d.order, d.wide, raws[0]);
        let tail = raws.skip(1);
        assert(tail =~= items.skip(i as int + 1));
        assert(raws[0] == items[i as int]);
        lemma_stands_split(s, pos, front, items_bytes(d.order, d.wide, tail));
        law_values_are_read(d, t, StringContext::ArrayItem, items[i as int], s, pos);
        let r = items_at(d, t, items.len(), keep, i, s, pos);
        match scalar_at(d, t, StringContext::ArrayItem, s, pos) {
            Ok((v, p)) => {
                if p <= MAX_METADATA_BYTES {
                    lemma_items(d, t, items, keep, i + 1, s, p);
                    assert(fit_scalar(t, items[i as int]));
                    if let Ok((rest, _)) = items_at(d, t, items.len(), keep, i + 1, s, p) {
                        let values = r->Ok_0.0;
                        assert forall|k: int| 0 <= k < values.len() implies told_scalar(
                            t,
                            items[i + k],
                            #[trigger] values[k],
                        ) by {
                            if k > 0 {
                                assert(values[k] == rest[k - 1]);
                                assert(items[i + k] == items[i + 1 + (k - 1)]);
                            }
                        }
                    }
                }
            },
            Err(e) => {
                let f = r->Err_0;
                if scalar_fault(t, StringContext::ArrayItem, items[i as int], e) {
                    assert(item_fault(t, keep, items, i as int, f));
                }
            },
        }
    }
}

/// The number of items of an array that are kept: all, or as many as were asked for, or as many as
/// the cap allows, whichever is least.
pub open spec fn kept(len: nat, max_array_size: u64) -> nat {
    let some = if len <= max_array_size {
        len
    } else {
        max_array_size as nat
    };
    if some <= 300_000 {
        some
    } else {
        300_000
    }
}

/// Whether a written value may stand in the metadata: it is of a known type, and an array is of
/// items of a known type, none of them an array, and not too long.
pub open spec fn fit_value(pair: RawPair) -> bool {
    &&& value_type_of(pair.kind) matches Some(t)
    &&& match pair.value {
        RawValue::Scalar(raw) => fit_scalar(t, raw),
        RawValue::Array { item_kind, items } => {
            &&& value_type_of(item_kind) matches Some(item_type)
            &&& items.len() <= 1_000_000
            &&& forall|j: int| 0 <= j < items.len() ==> fit_scalar(item_type, #[trigger] items[j])
        },
    }
}

/// Whether the value is what is written, with the first items of an array.
pub open spec fn told_value(max_array_size: u64, pair: RawPair, v: ValueView) -> bool {
    &&& value_type_of(pair.kind) matches Some(t)
    &&& match (pair.value, v) {
        (RawValue::Scalar(raw), ValueView::Scalar(scalar)) => told_scalar(t, raw, scalar),
        (RawValue::Array { item_kind, items }, ValueView::Array(values)) => {
            &&& value_type_of(item_kind) matches Some(item_type)
            &&& values.len() == kept(items.len(), max_array_size)
            &&& forall|k: int|
                0 <= k < values.len() ==> told_scalar(item_type, items[k], #[trigger] values[k])
        },
        _ => false,
    }
}

/// Whether the error says what is wrong with the value.
pub open spec fn value_fault(
    max_array_size: u64,
    pair: RawPair,
    e: ReadError<Seq<char>>,
) -> bool {
    match (value_type_of(pair.kind), pair.value) {
        (None, _) => e is UnsupportedValueType,
        (Some(t), RawValue::Scalar(raw)) => scalar_fault(t, StringContext::MetadataValue, raw, e),
        (Some(_), RawValue::Array { item_kind, items }) => match value_type_of(item_kind) {
            None => e is UnsupportedValueType,
            Some(item_type) => {
                ||| items.len() > 1_000_000 && e == ReadError::<Seq<char>>::ArrayTooLong(
                    items.len() as u64,
                )
                ||| items.len() <= 1_000_000 && exists|j: int| #[trigger]
                    item_fault(item_type, kept(items.len(), max_array_size), items, j, e)
            },
        },
    }
}

/// A written value behind the number of its type is read as it is written, if it may stand in the
/// metadata and ends within the input and the cap. Otherwise it is refused for what is wrong with
/// it, or because the input or the cap ends.
pub proof fn law_typed_values_are_read(d: Dialect, pair: RawPair, s: Seq<u8>, pos: int)
    requires
        written_pair(d.wide, pair),
        stands_at(s, pos, typed_bytes(d.order, d.wide, pair)),
    ensures
        ({
            let end = pos + typed_bytes(d.order, d.wide, pair).len();
            let r = typed_value_at(d, s, pos);
            &&& r is Ok ==> fit_value(pair) && end <= s.len()
            &&& fit_value(pair) && end <= s.len() && end <= 67_108_864 ==> r is Ok
            &&& match r {
                Ok((v, p)) => p == end && told_value(d.max_array_size, pair, v),
                Err(e) => {
                    ||| value_fault(d.max_array_size, pair, e)
                    ||| e is MetadataTooLarge && end > 67_108_864
                    ||| cut_short(e) && end > s.len()
                },
            }
        }),
{
    lemma_ranges();
    lemma_uint_bytes_lens();
    let first = uint_bytes(d.order, pair.kind as nat, 4);
    let rest = value_bytes(d.order, d.wide, pair.value);
    lemma_stands_split(s, pos, first, rest);
    lemma_kind_read(d, pair.kind, s, pos);
    if pos + 4 <= s.len() {
        if let Some(t) = value_type_of(pair.kind) {
            match pair.value {
                RawValue::Scalar(raw) => {
                    law_values_are_read(d, t, StringContext::MetadataValue, raw, s, pos + 4);
                },
                RawValue::Array { item_kind, items } => {
                    lemma_array(d, item_kind, items, s, pos + 4);
                },
            }
        }
    }
}

/// An array of written items, behind the number of their type and their number.
proof fn lemma_array(d: Dialect, item_kind: u32, items: Seq<RawScalar>, s: Seq<u8>, pos: int)
    requires
        items.len() < range(raw_width(d.wide)),
        value_type_of(item_kind) matches Some(t) ==> forall|i: int|
            0 <= i < items.len() ==> written_as(d.wide, t, #[trigger] items[i]),
        stands_at(
            s,
            pos,
            value_bytes(d.order, d.wide, RawValue::Array { item_kind, items }),
        ),
    ensures
        ({
            let end = pos + value_bytes(
                d.order,
                d.wide,
                RawValue::Array { item_kind, items },
            ).len();
            let r = array_at(d, s, pos);
            let known = value_type_of(item_kind);
            let fit = known is Some && items.len() <= 1_000_000 && forall|j: int|
                0 <= j < items.len() ==> fit_scalar(known->0, #[trigger] items[j]);
            &&& r is Ok ==> fit && end <= s.len()
            &&& fit && end <= s.len() && end <= 67_108_864 ==> r is Ok
            &&& match r {
                Ok((values, p)) => {
                    &&& p == end
                    &&& values.len() == kept(items.len(), d.max_array_size)
                    &&& forall|k: int|
                        0 <= k < values.len() ==> told_scalar(
                            known->0,
                            items[k],
                            #[trigger] values[k],
                        )
                },
                Err(e) => {
                    ||| known is None && e is UnsupportedValueType
                    ||| known is Some && items.len() > 1_000_000 && e == ReadError::<
                        Seq<char>,
                    >::ArrayTooLong(items.len() as u64)
                    ||| known is Some && items.len() <= 1_000_000 && exists|j: int| #[trigger]
                        item_fault(known->0, kept(items.len(), d.max_array_size), items, j, e)
                    ||| e is MetadataTooLarge && end > 67_108_864
                    ||| cut_short(e) && end > s.len()
                },
            }
        }),
{
    lemma_ranges();
    lemma_uint_bytes_lens();
    let width = raw_width(d.wide);
    let first = uint_bytes(d.order, item_kind as nat, 4);
    let second = uint_bytes(d.order, items.len(), width);
    let rest = items_bytes(d.order, d.wide, items);
    lemma_stands_split(s, pos, first, second + rest);
    lemma_kind_read(d, item_kind, s, pos);
    if pos + 4 <= s.len() {
        lemma_stands_split(s, pos + 4, second, rest);
        lemma_uint_read(d.order, items.len(), width, s, pos + 4);
        if pos + 4 + width <= s.len() {
            if let Some(t) = value_type_of(item_kind) {
                let keep = kept_items(d, items.len());
                assert(keep == kept(items.len(), d.max_array_size));
                assert(items.skip(0) =~= items);
                lemma_items(d, t, items, keep, 0, s, pos + 4 + width);
            }
        }
    }
}

/// The key of a pair.
pub open spec fn key_of(pair: RawPair) -> Seq<char> {
    decode_utf8(pair.key)
}

/// Whether pair number `j` has that key.
pub open spec fn has_key(pairs: Seq<RawPair>, j: int, key: Seq<char>) -> bool {
    0 <= j < pairs.len() && key_of(pairs[j]) == key
}

/// Whether one of the first `n` pairs has that key.
pub open spec fn keyed(pairs: Seq<RawPair>, n: int, key: Seq<char>) -> bool {
    exists|j: int| j < n && #[trigger] has_key(pairs, j, key)
}

/// Whether pair number `j` may stand in the metadata, behind those that stand there.
pub open spec fn fit_pair(pairs: Seq<RawPair>, j: int) -> bool {
    &&& fit_text(StringContext::MetadataKey, pairs[j].key)
    &&& !keyed(pairs, j, key_of(pairs[j]))
    &&& fit_value(pairs[j])
}

/// Whether the map holds the first `n` pairs as they are written, and nothing else.
pub open spec fn told_pairs(
    max_array_size: u64,
    pairs: Seq<RawPair>,
    n: int,
    kvs: Map<Seq<char>, ValueView>,
) -> bool {
    &&& forall|key: Seq<char>| #[trigger] kvs.contains_key(key) <==> keyed(pairs, n, key)
    &&& forall|j: int|
        0 <= j < n ==> told_value(max_array_size, #[trigger] pairs[j], kvs[key_of(pairs[j])])
}

/// Whether the error says what is wrong with pair number `j`, the first that is: with its key, or that
/// its key stands there already, or with its value.
pub open spec fn pair_fault(
    max_array_size: u64,
    pairs: Seq<RawPair>,
    j: int,
    e: GGUFError<Seq<char>>,
) -> bool {
    let sound = fit_text(StringContext::MetadataKey, pairs[j].key);
    let new = !keyed(pairs, j, key_of(pairs[j]));
    &&& 0 <= j < pairs.len()
    &&& forall|k: int| 0 <= k < j ==> #[trigger] fit_pair(pairs, k)
    &&& match e {
        GGUFError::Read(r) => {
            ||| text_fault(StringContext::MetadataKey, pairs[j].key, r)
            ||| sound && new && value_fault(max_array_size, pairs[j], r)
        },
        GGUFError::DuplicateKey(key) => sound && !new && key == key_of(pairs[j]),
        _ => false,
    }
}

/// What reading the pairs from number `i` on comes to, which take the bytes up to `end`.
pub open spec fn pairs_read(
    max_array_size: u64,
    pairs: Seq<RawPair>,
    i: int,
    available: int,
    end: int,
    r: Result<(Map<Seq<char>, ValueView>, int), GGUFError<Seq<char>>>,
) -> bool {
    &&& r is Ok <==> {
        &&& forall|j: int| i <= j < pairs.len() ==> #[trigger] fit_pair(pairs, j)
        &&& end <= available
        &&& i < pairs.len() ==> end <= 67_108_864
    }
    &&& match r {
        Ok((kvs, p)) => p == end && told_pairs(max_array_size, pairs, pairs.len() as int, kvs),
        Err(e) => {
            ||| exists|j: int| #[trigger] pair_fault(max_array_size, pairs, j, e)
            ||| e == GGUFError::<Seq<char>>::Read(ReadError::MetadataTooLarge) && end > 67_108_864
            ||| e matches GGUFError::Read(f) && cut_short(f) && end > available
        },
    }
}

proof fn lemma_told_more(
    max_array_size: u64,
    pairs: Seq<RawPair>,
    i: int,
    done: Map<Seq<char>, ValueView>,
    value: ValueView,
)
    requires
        0 <= i < pairs.len(),
        told_pairs(max_array_size, pairs, i, done),
        !done.contains_key(key_of(pairs[i])),
        told_value(max_array_size, pairs[i], value),
    ensures
        told_pairs(max_array_size, pairs, i + 1, done.insert(key_of(pairs[i]), value)),
{
    let more = done.insert(key_of(pairs[i]), value);
    assert forall|key: Seq<char>| #[trigger] more.contains_key(key) <==> keyed(
        pairs,
        i + 1,
        key,
    ) by {
        assert(has_key(pairs, i, key_of(pairs[i])));
        if more.contains_key(key) && key != key_of(pairs[i]) {
            assert(done.contains_key(key));
            let j = choose|j: int| j < i && #[trigger] has_key(pairs, j, key);
            assert(has_key(pairs, j, key));
        }
        if keyed(pairs, i + 1, key) {
            let j = choose|j: int| j < i + 1 && #[trigger] has_key(pairs, j, key);
            if j < i {
                assert(keyed(pairs, i, key));
                assert(done.contains_key(key));
            }
        }
    }
    assert forall|j: int| 0 <= j < i + 1 implies told_value(
        max_array_size,
        #[trigger] pairs[j],
        more[key_of(pairs[j])],
    ) by {
        if j < i {
            assert(has_key(pairs, j, key_of(pairs[j])));
            assert(keyed(pairs, i, key_of(pairs[j])));
            assert(done.contains_key(key_of(pairs[j])));
        }
    }
}

proof fn lemma_pairs(
    d: Dialect,
    pairs: Seq<RawPair>,
    i: nat,
    done: Map<Seq<char>, ValueView>,
    s: Seq<u8>,
    pos: int,
)
    requires
        i <= pairs.len(),
        forall|j: int| 0 <= j < pairs.len() ==> written_pair(d.wide, #[trigger] pairs[j]),
        forall|j: int| 0 <= j < i ==> #[trigger] fit_pair(pairs, j),
        told_pairs(d.max_array_size, pairs, i as int, done),
        stands_at(s, pos, pairs_bytes(d.order, d.wide, pairs.skip(i as int))),
    ensures
        pairs_read(
            d.max_array_size,
            pairs,
            i as int,
            s.len() as int,
            pos + pairs_bytes(d.order, d.wide, pairs.skip(i as int)).len(),
            kvs_at(d, (pairs.len() - i) as nat, done, s, pos),
        ),
    decreases pairs.len() - i,
{
    let raws = pairs.skip(i as int);
    if i < pairs.len() {
        let pair = pairs[i as int];
        assert(raws[0] == pair);
        let front = text_bytes(d.order, d.wide, pair.key);
        let middle = typed_bytes(d.order, d.wide, pair);
        let tail = raws.skip(1);
        assert(tail =~= pairs.skip(i as int + 1));
        let back = pairs_bytes(d.order, d.wide, tail);
        lemma_stands_split(s, pos, front, middle + back);
        law_texts_are_read(d, StringContext::MetadataKey, pair.key, s, pos);
        let r = kvs_at(d, (pairs.len() - i) as nat, done, s, pos);
        assert(done.contains_key(key_of(pair)) <==> keyed(pairs, i as int, key_of(pair)));
        match string_at(d, StringContext::MetadataKey, s, pos) {
            Ok((key, p)) => {
                lemma_stands_split(s, p, middle, back);
                law_typed_values_are_read(d, pair, s, p);
                if done.contains_key(key) {
                    assert(!fit_pair(pairs, i as int));
                    assert(pair_fault(d.max_array_size, pairs, i as int, r->Err_0));
                } else {
                    match typed_value_at(d, s, p) {
                        Ok((value, q)) => if q <= MAX_METADATA_BYTES {
                            lemma_told_more(d.max_array_size, pairs, i as int, done, value);
                            assert(fit_pair(pairs, i as int));
                            lemma_pairs(d, pairs, i + 1, done.insert(key, value), s, q);
                        },
                        Err(e) => {
                            assert(!fit_value(pair) ==> !fit_pair(pairs, i as int));
                            if value_fault(d.max_array_size, pair, e) {
                                assert(pair_fault(d.max_array_size, pairs, i as int, r->Err_0));
                            }
                        },
                    }
                }
            },
            Err(e) => {
                assert(!fit_text(StringContext::MetadataKey, pair.key) ==> !fit_pair(
                    pairs,
                    i as int,
                ));
                if text_fault(StringContext::MetadataKey, pair.key, e) {
                    assert(pair_fault(d.max_array_size, pairs, i as int, r->Err_0));
                }
            },
        }
    }
}

/// Written metadata is accepted exactly if each pair may stand there behind the others and all of it
/// ends within the input and the cap. It is then read as it is written. Otherwise it is refused for
/// what is wrong with one of its pairs, or because the input or the cap ends.
pub proof fn law_metadata_is_read(d: Dialect, pairs: Seq<RawPair>, s: Seq<u8>)
    requires
        forall|j: int| 0 <= j < pairs.len() ==> written_pair(d.wide, #[trigger] pairs[j]),
        stands_at(s, 0, pairs_bytes(d.order, d.wide, pairs)),
    ensures
        pairs_read(
            d.max_array_size,
            pairs,
            0,
            s.len() as int,
            pairs_bytes(d.order, d.wide, pairs).len() as int,
            kvs_at(d, pairs.len(), Map::empty(), s, 0),
        ),
{
    assert(pairs.skip(0) =~= pairs);
    lemma_pairs(d, pairs, 0, Map::empty(), s, 0);
}

} // verus!
