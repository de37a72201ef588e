//! That headers are read back.
use crate::constants::{
    MAX_DIMENSION, MAX_ELEMENTS, MAX_HEADER_BYTES, MAX_KV, MAX_METADATA_BYTES, MAX_TENSORS,
};
use crate::container::ContainerView;
use crate::endian::{half_range, ByteOrder};
use crate::error::{GGUFError, ReadError, StringContext};
use crate::grammar::{
    align_up, alignment_of, body, check_ranges, description_at, dims_at, has_name, header, items_at,
    kvs_at, order_of_magic, padded, product, scalar_at, shape_at, string_at, tensors_at,
    typed_value_at, value_width, version_at, versioned_body, window, Dialect, InputBounds,
    ModelView,
};
use crate::laws::byte_orders::law_byte_orders_agree;
use crate::laws::contents::{
    distinct_names, law_decoded_contents, sound_kvs, sound_scalar, sound_tensor, sound_text, sound_value,
};
use crate::laws::encoding::{
    description_bytes, dims_bytes, file_of, input_of, items_bytes, law_file_is_opened,
    lemma_kind_read, lemma_ranges, lemma_scalar_read, lemma_stands_split, lemma_text_read,
    lemma_uint_bytes_lens, lemma_uint_read, pairs_bytes, preamble_bytes, raw_bytes, raw_width,
    scalar_bytes, stands_at, tensors_bytes, text_bytes, typed_bytes, uint_bytes, value_bytes,
    written, written_as, written_pair, written_tensor, RawHeader, RawPair, RawScalar, RawTensor, RawValue,
};
use crate::metadata::{collected, distinct_keys, lemma_collected};
use crate::types::{lemma_value_type_codes, MetadataValueType, Version};
use crate::value::{MetadataScalar, TensorView, ValueView};
use vstd::prelude::*;
use vstd::utf8::{decode_utf8, encode_utf8, encode_utf8_decode_utf8, encode_utf8_valid_utf8};

verus! {

/// The unsigned number that stands for `n` in two's complement of `width` bytes.
pub open spec fn unsigned_value(n: int, width: nat) -> nat {
    if n < 0 {
        (n + 2 * half_range(width)) as nat
    } else {
        n as nat
    }
}

/// How a value that is no array is written.
pub open spec fn raw_scalar(v: MetadataScalar<Seq<char>>) -> RawScalar {
    let number: nat = match v {
        MetadataScalar::Uint8(n) => n as nat,
        MetadataScalar::Int8(n) => unsigned_value(n as int, 1),
        MetadataScalar::Uint16(n) => n as nat,
        MetadataScalar::Int16(n) => unsigned_value(n as int, 2),
        MetadataScalar::Uint32(n) => n as nat,
        MetadataScalar::Int32(n) => unsigned_value(n as int, 4),
        MetadataScalar::Float32(bits) => bits as nat,
        MetadataScalar::Bool(b) => if b {
            1
        } else {
            0
        },
        MetadataScalar::String(_) => 0,
        MetadataScalar::Uint64(n) => n as nat,
        MetadataScalar::Int64(n) => unsigned_value(n as int, 8),
        MetadataScalar::Float64(bits) => bits as nat,
    };
    match v {
        MetadataScalar::String(text) => RawScalar::Text(encode_utf8(text)),
        _ => RawScalar::Number { n: number, width: value_width(v.value_type_spec()) },
    }
}

/// How items are written.
pub open spec fn raw_items(items: Seq<MetadataScalar<Seq<char>>>) -> Seq<RawScalar> {
    items.map_values(|v: MetadataScalar<Seq<char>>| raw_scalar(v))
}

/// The type of the items of an array; an array without items is one of bytes.
pub open spec fn item_type(items: Seq<MetadataScalar<Seq<char>>>) -> MetadataValueType {
    if items.len() == 0 {
        MetadataValueType::Uint8
    } else {
        items[0].value_type_spec()
    }
}

/// How a pair is written.
pub open spec fn raw_pair(pair: (Seq<char>, ValueView)) -> RawPair {
    RawPair {
        key: encode_utf8(pair.0),
        kind: pair.1.value_type().code_spec(),
        value: match pair.1 {
            ValueView::Scalar(v) => RawValue::Scalar(raw_scalar(v)),
            ValueView::Array(items) => RawValue::Array {
                item_kind: item_type(items).code_spec(),
                items: raw_items(items),
            },
        },
    }
}

/// How pairs are written.
pub open spec fn raw_pairs(pairs: Seq<(Seq<char>, ValueView)>) -> Seq<RawPair> {
    pairs.map_values(|pair: (Seq<char>, ValueView)| raw_pair(pair))
}

/// How a tensor description is written.
pub open spec fn raw_tensor(t: TensorView) -> RawTensor {
    RawTensor { name: encode_utf8(t.name), dims: t.shape, kind: t.kind, offset: t.offset }
}

/// How tensor descriptions are written.
pub open spec fn raw_tensors(tensors: Seq<TensorView>) -> Seq<RawTensor> {
    tensors.map_values(|t: TensorView| raw_tensor(t))
}

/// How a header is written, with its metadata in the order of `pairs`.
pub open spec fn raw_header(m: ModelView, pairs: Seq<(Seq<char>, ValueView)>) -> RawHeader {
    RawHeader {
        version: match m.version {
            Version::V1(_) => 1,
            Version::V2(_) => 2,
            Version::V3(_) => 3,
        },
        num_tensor: m.version.num_tensor_spec(),
        num_kv: m.version.num_kv_spec(),
        pairs: raw_pairs(pairs),
        tensors: raw_tensors(m.tensors),
    }
}

proof fn lemma_text_back(
    d: Dialect,
    context: StringContext,
    text: Seq<char>,
    s: Seq<u8>,
    pos: int,
)
    requires
        sound_text(context, text),
        stands_at(s, pos, text_bytes(d.order, d.wide, encode_utf8(text))),
        pos + text_bytes(d.order, d.wide, encode_utf8(text)).len() <= s.len(),
    ensures
        string_at(d, context, s, pos) == Ok::<(Seq<char>, int), ReadError<Seq<char>>>(
            (text, pos + text_bytes(d.order, d.wide, encode_utf8(text)).len()),
        ),
{
    lemma_ranges();
    let bytes = encode_utf8(text);
    lemma_text_read(d, context, bytes, s, pos);
    encode_utf8_valid_utf8(text);
    encode_utf8_decode_utf8(text);
    if bytes.len() == 0 {
        assert(decode_utf8(bytes) =~= Seq::empty());
    }
}

proof fn lemma_scalar_back(
    d: Dialect,
    context: StringContext,
    v: MetadataScalar<Seq<char>>,
    s: Seq<u8>,
    pos: int,
)
    requires
        sound_scalar(context, v),
        stands_at(s, pos, scalar_bytes(d.order, d.wide, raw_scalar(v))),
        pos + scalar_bytes(d.order, d.wide, raw_scalar(v)).len() <= s.len(),
    ensures
        scalar_at(d, v.value_type_spec(), context, s, pos) == Ok::<
            (MetadataScalar<Seq<char>>, int),
            ReadError<Seq<char>>,
        >((v, pos + scalar_bytes(d.order, d.wide, raw_scalar(v)).len())),
{
    lemma_ranges();
    match v {
        MetadataScalar::String(text) => lemma_text_back(d, context, text, s, pos),
        _ => {
            lemma_uint_bytes_lens();
            lemma_scalar_read(d, v.value_type_spec(), context, raw_scalar(v), s, pos);
        },
    }
}

proof fn lemma_items_back(
    d: Dialect,
    kind: MetadataValueType,
    items: Seq<MetadataScalar<Seq<char>>>,
    i: nat,
    s: Seq<u8>,
    pos: int,
)
    requires
        i <= items.len(),
        forall|k: int|
            0 <= k < items.len() ==> sound_scalar(StringContext::ArrayItem, #[trigger] items[k])
                && items[k].value_type_spec() == kind,
        stands_at(s, pos, items_bytes(d.order, d.wide, raw_items(items).skip(i as int))),
        pos + items_bytes(d.order, d.wide, raw_items(items).skip(i as int)).len() <= s.len(),
        pos + items_bytes(d.order, d.wide, raw_items(items).skip(i as int)).len()
            <= MAX_METADATA_BYTES,
    ensures
        items_at(d, kind, items.len(), items.len(), i, s, pos) == Ok::<
            (Seq<MetadataScalar<Seq<char>>>, int),
            ReadError<Seq<char>>,
        >(
            (
                items.skip(i as int),
                pos + items_bytes(d.order, d.wide, raw_items(items).skip(i as int)).len(),
            ),
        ),
    decreases items.len() - i,
{
    let raws = raw_items(items).skip(i as int);
    if i < items.len() {
        let tail = raws.skip(1);
        assert(tail =~= raw_items(items).skip(i as int + 1));
        let front = scalar_bytes(d.order, d.wide, raws[0]);
        assert(raws[0] == raw_scalar(items[i as int]));
        lemma_stands_split(s, pos, front, items_bytes(d.order, d.wide, tail));
        lemma_scalar_back(d, StringContext::ArrayItem, items[i as int], s, pos);
        lemma_items_back(d, kind, items, i + 1, s, pos + front.len());
        assert(seq![items[i as int]] + items.skip(i as int + 1) =~= items.skip(i as int));
    } else {
        assert(items.skip(i as int) =~= Seq::empty());
    }
}

proof fn lemma_value_back(
    d: Dialect,
    pair: (Seq<char>, ValueView),
    s: Seq<u8>,
    pos: int,
)
    requires
        sound_value(d.max_array_size, pair.1),
        stands_at(s, pos, typed_bytes(d.order, d.wide, raw_pair(pair))),
        pos + typed_bytes(d.order, d.wide, raw_pair(pair)).len() <= s.len(),
        pos + typed_bytes(d.order, d.wide, raw_pair(pair)).len() <= MAX_METADATA_BYTES,
    ensures
        typed_value_at(d, s, pos) == Ok::<(ValueView, int), ReadError<Seq<char>>>(
            (pair.1, pos + typed_bytes(d.order, d.wide, raw_pair(pair)).len()),
        ),
{
    lemma_ranges();
    lemma_uint_bytes_lens();
    let raw = raw_pair(pair);
    let kind = pair.1.value_type();
    let width = raw_width(d.wide);
    lemma_stands_split(
        s,
        pos,
        uint_bytes(d.order, raw.kind as nat, 4),
        value_bytes(d.order, d.wide, raw.value),
    );
    lemma_kind_read(d, raw.kind, s, pos);
    lemma_value_type_codes(kind);
    match pair.1 {
        ValueView::Scalar(v) => lemma_scalar_back(d, StringContext::MetadataValue, v, s, pos + 4),
        ValueView::Array(items) => {
            let t = item_type(items);
            let first = uint_bytes(d.order, t.code_spec() as nat, 4);
            let second = uint_bytes(d.order, items.len(), width);
            let rest = items_bytes(d.order, d.wide, raw_items(items));
            lemma_stands_split(s, pos + 4, first, second + rest);
            lemma_kind_read(d, t.code_spec(), s, pos + 4);
            lemma_value_type_codes(t);
            lemma_stands_split(s, pos + 8, second, rest);
            lemma_uint_read(d.order, items.len(), width, s, pos + 8);
            assert(raw_items(items).skip(0) =~= raw_items(items));
            assert(items.skip(0) =~= items);
            lemma_items_back(d, t, items, 0, s, pos + 8 + width);
        },
    }
}

proof fn lemma_kvs_back(
    d: Dialect,
    pairs: Seq<(Seq<char>, ValueView)>,
    i: nat,
    s: Seq<u8>,
    pos: int,
)
    requires
        i <= pairs.len(),
        sound_kvs(d.max_array_size, collected(pairs)),
        distinct_keys(pairs),
        stands_at(s, pos, pairs_bytes(d.order, d.wide, raw_pairs(pairs).skip(i as int))),
        pos + pairs_bytes(d.order, d.wide, raw_pairs(pairs).skip(i as int)).len() <= s.len(),
        pos + pairs_bytes(d.order, d.wide, raw_pairs(pairs).skip(i as int)).len()
            <= MAX_METADATA_BYTES,
    ensures
        kvs_at(d, (pairs.len() - i) as nat, collected(pairs.take(i as int)), s, pos) == Ok::<
            (Map<Seq<char>, ValueView>, int),
            GGUFError<Seq<char>>,
        >(
            (
                collected(pairs),
                pos + pairs_bytes(d.order, d.wide, raw_pairs(pairs).skip(i as int)).len(),
            ),
        ),
    decreases pairs.len() - i,
{
    let raws = raw_pairs(pairs).skip(i as int);
    let done = pairs.take(i as int);
    if i < pairs.len() {
        let pair = pairs[i as int];
        let tail = raws.skip(1);
        assert(tail =~= raw_pairs(pairs).skip(i as int + 1));
        assert(raws[0] == raw_pair(pair));
        let front = text_bytes(d.order, d.wide, encode_utf8(pair.0));
        let middle = typed_bytes(d.order, d.wide, raw_pair(pair));
        lemma_stands_split(s, pos, front, middle + pairs_bytes(d.order, d.wide, tail));
        lemma_stands_split(s, pos + front.len(), middle, pairs_bytes(d.order, d.wide, tail));
        lemma_collected(pairs);
        assert(collected(pairs).contains_key(pair.0));
        lemma_text_back(d, StringContext::MetadataKey, pair.0, s, pos);
        lemma_value_back(d, pair, s, pos + front.len());
        assert forall|j: int, k: int| 0 <= j < k < done.len() implies (#[trigger] done[j]).0 != (
        #[trigger] done[k]).0 by {
            assert(pairs[j].0 != pairs[k].0);
        }
        lemma_collected(done);
        if collected(done).contains_key(pair.0) {
            let j = choose|j: int| 0 <= j < done.len() && (#[trigger] done[j]).0 == pair.0;
            assert(pairs[j].0 == pairs[i as int].0);
        }
        let more = pairs.take(i as int + 1);
        assert(more.drop_last() =~= done);
        assert(collected(more) == collected(done).insert(pair.0, pair.1));
        lemma_kvs_back(d, pairs, i + 1, s, pos + front.len() + middle.len());
    } else {
        assert(done =~= pairs);
        assert(raws =~= Seq::empty());
    }
}

/// The product of the first dimensions is no larger than that of all of them.
pub proof fn lemma_product_of_some(dims: Seq<u64>, i: nat)
    requires
        i <= dims.len(),
        forall|k: int| 0 <= k < dims.len() ==> 1 <= #[trigger] dims[k],
    ensures
        1 <= product(dims.take(i as int)) <= product(dims),
    decreases dims.len(),
{
    if i == dims.len() {
        assert(dims.take(i as int) =~= dims);
        if i > 0 {
            let fewer = dims.drop_last();
            lemma_product_of_some(fewer, fewer.len());
            assert(fewer.take(fewer.len() as int) =~= fewer);
            let (a, b) = (product(fewer), dims.last());
            assert(dims.last() == dims[dims.len() - 1]);
            assert(a * b >= 1) by (nonlinear_arith)
                requires
                    a >= 1,
                    b >= 1,
            ;
        }
    } else {
        let fewer = dims.drop_last();
        lemma_product_of_some(fewer, i);
        assert(fewer.take(i as int) =~= dims.take(i as int));
        let (a, b) = (product(fewer), dims.last());
        assert(dims.last() == dims[dims.len() - 1]);
        assert(a * b >= a) by (nonlinear_arith)
            requires
                a >= 1,
                b >= 1,
        ;
    }
}

proof fn lemma_dims_back(
    d: Dialect,
    name: Seq<char>,
    dims: Seq<u64>,
    i: nat,
    s: Seq<u8>,
    pos: int,
)
    requires
        i <= dims.len(),
        forall|k: int| 0 <= k < dims.len() ==> 1 <= #[trigger] dims[k] <= MAX_DIMENSION,
        product(dims) <= MAX_ELEMENTS,
        stands_at(s, pos, dims_bytes(d.order, dims.skip(i as int))),
        pos + dims_bytes(d.order, dims.skip(i as int)).len() <= s.len(),
    ensures
        dims_at(d, name, dims.len(), dims.take(i as int), s, pos) == Ok::<
            (Seq<u64>, int),
            GGUFError<Seq<char>>,
        >((dims, pos + dims_bytes(d.order, dims.skip(i as int)).len())),
    decreases dims.len() - i,
{
    let done = dims.take(i as int);
    let rest = dims.skip(i as int);
    if i < dims.len() {
        let dim = dims[i as int];
        assert(rest[0] == dim);
        let front = uint_bytes(d.order, dim as nat, 8);
        let tail = rest.skip(1);
        assert(tail =~= dims.skip(i as int + 1));
        lemma_stands_split(s, pos, front, dims_bytes(d.order, tail));
        lemma_ranges();
        lemma_uint_read(d.order, dim as nat, 8, s, pos);
        let more = dims.take(i as int + 1);
        assert(done.push(dim) =~= more);
        assert(more.drop_last() =~= done);
        lemma_product_of_some(dims, i + 1);
        lemma_dims_back(d, name, dims, i + 1, s, pos + 8);
    } else {
        assert(done =~= dims);
        assert(rest =~= Seq::empty());
    }
}

proof fn lemma_description_back(d: Dialect, alignment: u64, t: TensorView, s: Seq<u8>, pos: int)
    requires
        sound_tensor(alignment, t),
        stands_at(s, pos, description_bytes(d.order, raw_tensor(t))),
        pos + description_bytes(d.order, raw_tensor(t)).len() <= s.len(),
    ensures
        description_at(d, alignment, t.name, s, pos) == Ok::<
            (TensorView, int),
            GGUFError<Seq<char>>,
        >((t, pos + description_bytes(d.order, raw_tensor(t)).len())),
{
    let first = uint_bytes(d.order, 4, 4);
    let second = dims_bytes(d.order, t.shape);
    let third = uint_bytes(d.order, t.kind as nat, 4);
    let fourth = uint_bytes(d.order, t.offset as nat, 8);
    lemma_ranges();
    lemma_uint_bytes_lens();
    lemma_stands_split(s, pos, first, second + (third + fourth));
    lemma_uint_read(d.order, 4, 4, s, pos);
    lemma_stands_split(s, pos + 4, second, third + fourth);
    assert(t.shape.skip(0) =~= t.shape);
    assert(t.shape.take(0) =~= Seq::empty());
    lemma_dims_back(d, t.name, t.shape, 0, s, pos + 4);
    assert(padded(t.shape) =~= t.shape);
    let p = pos + 4 + second.len();
    assert(shape_at(d, t.name, s, pos) == Ok::<(Seq<u64>, int), GGUFError<Seq<char>>>(
        (t.shape, p),
    ));
    lemma_stands_split(s, p, third, fourth);
    lemma_uint_read(d.order, t.kind as nat, 4, s, p);
    lemma_uint_read(d.order, t.offset as nat, 8, s, p + 4);
}

proof fn lemma_tensors_back(
    d: Dialect,
    alignment: u64,
    tensors: Seq<TensorView>,
    i: nat,
    s: Seq<u8>,
    pos: int,
)
    requires
        i <= tensors.len(),
        forall|k: int| 0 <= k < tensors.len() ==> sound_tensor(alignment, #[trigger] tensors[k]),
        distinct_names(tensors),
        stands_at(s, pos, tensors_bytes(d.order, d.wide, raw_tensors(tensors).skip(i as int))),
        pos + tensors_bytes(d.order, d.wide, raw_tensors(tensors).skip(i as int)).len() <= s.len(),
        pos + tensors_bytes(d.order, d.wide, raw_tensors(tensors).skip(i as int)).len()
            <= MAX_HEADER_BYTES,
    ensures
        tensors_at(d, alignment, tensors.len(), tensors.take(i as int), s, pos) == Ok::<
            (Seq<TensorView>, int),
            GGUFError<Seq<char>>,
        >(
            (
                tensors,
                pos + tensors_bytes(d.order, d.wide, raw_tensors(tensors).skip(i as int)).len(),
            ),
        ),
    decreases tensors.len() - i,
{
    let done = tensors.take(i as int);
    let raws = raw_tensors(tensors).skip(i as int);
    if i < tensors.len() {
        let t = tensors[i as int];
        assert(raws[0] == raw_tensor(t));
        let front = text_bytes(d.order, d.wide, encode_utf8(t.name));
        let middle = description_bytes(d.order, raw_tensor(t));
        let tail = raws.skip(1);
        assert(tail =~= raw_tensors(tensors).skip(i as int + 1));
        lemma_stands_split(s, pos, front, middle + tensors_bytes(d.order, d.wide, tail));
        lemma_stands_split(s, pos + front.len(), middle, tensors_bytes(d.order, d.wide, tail));
        lemma_text_back(d, StringContext::TensorName, t.name, s, pos);
        lemma_description_back(d, alignment, t, s, pos + front.len());
        if has_name(done, t.name) {
            let j = choose|j: int| 0 <= j < done.len() && (#[trigger] done[j]).name == t.name;
            assert(tensors[j].name == tensors[i as int].name);
        }
        assert(done.push(t) =~= tensors.take(i as int + 1));
        lemma_tensors_back(d, alignment, tensors, i + 1, s, pos + front.len() + middle.len());
    } else {
        assert(done =~= tensors);
        assert(raws =~= Seq::empty());
    }
}

proof fn lemma_version_back(m: ModelView, pairs: Seq<(Seq<char>, ValueView)>, s: Seq<u8>)
    requires
        stands_at(s, 0, preamble_bytes(m.order, raw_header(m, pairs))),
        preamble_bytes(m.order, raw_header(m, pairs)).len() <= s.len(),
    ensures
        version_at(m.order, s) == Ok::<(Version, int), GGUFError<Seq<char>>>(
            (m.version, preamble_bytes(m.order, raw_header(m, pairs)).len() as int),
        ),
        preamble_bytes(m.order, raw_header(m, pairs)).len() + 4 == m.version.preamble_len_spec(),
{
    lemma_ranges();
    lemma_uint_bytes_lens();
    let h = raw_header(m, pairs);
    let order = m.order;
    let width = raw_width(h.wide());
    let first = uint_bytes(order, h.version as nat, 4);
    let second = uint_bytes(order, h.num_tensor as nat, width);
    let third = uint_bytes(order, h.num_kv as nat, width);
    lemma_stands_split(s, 0, first, second + third);
    lemma_uint_read(order, h.version as nat, 4, s, 0);
    lemma_stands_split(s, 4, second, third);
    lemma_uint_read(order, h.num_tensor as nat, width, s, 4);
    lemma_uint_read(order, h.num_kv as nat, width, s, 4 + width as int);
}

/// Whether there is an input of those bounds that holds the header, with its metadata in the order
/// of `pairs`: its counts are right and within the caps, its parts are sound, its bytes are within
/// the caps, and the data of its tensors has a place.
pub open spec fn encodable(
    m: ModelView,
    pairs: Seq<(Seq<char>, ValueView)>,
    max_array_size: u64,
    bounds: InputBounds,
) -> bool {
    let h = raw_header(m, pairs);
    let kvs_len = pairs_bytes(m.order, h.wide(), h.pairs).len();
    &&& distinct_keys(pairs)
    &&& collected(pairs) == m.kvs
    &&& pairs.len() == m.version.num_kv_spec() <= MAX_KV
    &&& m.tensors.len() == m.version.num_tensor_spec() <= MAX_TENSORS
    &&& sound_kvs(max_array_size, m.kvs)
    &&& distinct_names(m.tensors)
    &&& kvs_len <= MAX_METADATA_BYTES
    &&& kvs_len + tensors_bytes(m.order, h.wide(), h.tensors).len() <= MAX_HEADER_BYTES
    &&& !(bounds is Unknown)
    &&& bounds matches InputBounds::Known(len) ==> 4 + raw_bytes(m.order, h).len() <= len
    &&& alignment_of(m.kvs) matches Ok(alignment)
    &&& forall|i: int| 0 <= i < m.tensors.len() ==> sound_tensor(alignment, #[trigger] m.tensors[i])
    &&& check_ranges(
        m.tensors,
        align_up(4 + raw_bytes(m.order, h).len() as int, alignment as int),
        bounds,
    ) is Ok
}

proof fn lemma_body_back(
    m: ModelView,
    pairs: Seq<(Seq<char>, ValueView)>,
    max_array_size: u64,
    bounds: InputBounds,
    rest: Seq<u8>,
)
    requires
        encodable(m, pairs, max_array_size, bounds),
        stands_at(
            rest,
            0,
            pairs_bytes(m.order, m.version.wide_spec(), raw_pairs(pairs)) + tensors_bytes(
                m.order,
                m.version.wide_spec(),
                raw_tensors(m.tensors),
            ),
        ),
        pairs_bytes(m.order, m.version.wide_spec(), raw_pairs(pairs)).len() + tensors_bytes(
            m.order,
            m.version.wide_spec(),
            raw_tensors(m.tensors),
        ).len() <= rest.len(),
        preamble_bytes(m.order, raw_header(m, pairs)).len() + 4 == m.version.preamble_len_spec(),
    ensures
        body(
            Dialect { order: m.order, wide: m.version.wide_spec(), max_array_size },
            m.version,
            bounds,
            rest,
        ) == Ok::<ModelView, GGUFError<Seq<char>>>(m),
{
    let wide = m.version.wide_spec();
    let d = Dialect { order: m.order, wide, max_array_size };
    let front = pairs_bytes(m.order, wide, raw_pairs(pairs));
    let back = tensors_bytes(m.order, wide, raw_tensors(m.tensors));
    lemma_stands_split(rest, 0, front, back);
    assert(raw_pairs(pairs).skip(0) =~= raw_pairs(pairs));
    assert(pairs.take(0) =~= Seq::empty());
    lemma_kvs_back(d, pairs, 0, rest, 0);
    let alignment = alignment_of(m.kvs)->Ok_0;
    assert(raw_tensors(m.tensors).skip(0) =~= raw_tensors(m.tensors));
    assert(m.tensors.take(0) =~= Seq::empty());
    lemma_tensors_back(d, alignment, m.tensors, 0, rest, front.len() as int);
    assert(m.version.preamble_len_spec() + front.len() + back.len() == 4 + raw_bytes(
        m.order,
        raw_header(m, pairs),
    ).len());
}

/// Whatever follows, a header that is written down is decoded to that header: in every version, in
/// either byte order, with the metadata in any order.
pub proof fn law_header_round_trip(
    m: ModelView,
    pairs: Seq<(Seq<char>, ValueView)>,
    max_array_size: u64,
    bounds: InputBounds,
    tail: Seq<u8>,
)
    requires
        encodable(m, pairs, max_array_size, bounds),
    ensures
        input_of(m.order, raw_header(m, pairs), tail, max_array_size, bounds).header() == Ok::<
            ModelView,
            GGUFError<Seq<char>>,
        >(m),
{
    let h = raw_header(m, pairs);
    let whole = raw_bytes(m.order, h);
    let input = whole + tail;
    let s = window(bounds, input);
    let front = preamble_bytes(m.order, h);
    let back = pairs_bytes(m.order, h.wide(), h.pairs) + tensors_bytes(
        m.order,
        h.wide(),
        h.tensors,
    );
    assert forall|i: int| 0 <= i < whole.len() && i < s.len() implies s[0 + i]
        == #[trigger] whole[i] by {
        assert(input[i] == whole[i]);
    }
    lemma_stands_split(s, 0, front, back);
    lemma_version_back(m, pairs, s);
    let rest = s.skip(front.len() as int);
    assert forall|i: int| 0 <= i < back.len() && i < rest.len() implies rest[0 + i]
        == #[trigger] back[i] by {
        assert(s[front.len() + i] == back[i]);
    }
    lemma_body_back(m, pairs, max_array_size, bounds, rest);
    assert(header(m.order, max_array_size, bounds, input) == versioned_body(
        m.order,
        max_array_size,
        bounds,
        m.version,
        s,
        front.len() as int,
    ));
}

/// A file that consists of a magic, a header and whatever follows is opened in the header's byte
/// order and decoded to that header.
pub proof fn law_file_round_trip(
    m: ModelView,
    pairs: Seq<(Seq<char>, ValueView)>,
    max_array_size: u64,
    file: Seq<u8>,
    tail: Seq<u8>,
)
    requires
        file == file_of(m.order, raw_header(m, pairs), tail),
        file.len() <= u64::MAX,
        encodable(m, pairs, max_array_size, InputBounds::Known(file.len() as u64)),
    ensures
        order_of_magic(file.take(4)) == Some(m.order),
        ContainerView::fresh(
            m.order,
            file.skip(4),
            max_array_size,
            InputBounds::Known(file.len() as u64),
        ).header() == Ok::<ModelView, GGUFError<Seq<char>>>(m),
{
    law_file_is_opened(m.order, raw_header(m, pairs), tail);
    let bounds = InputBounds::Known(file.len() as u64);
    law_header_round_trip(m, pairs, max_array_size, bounds, tail);
}

/// A header that can be read back is one that can be written.
pub proof fn lemma_encodable_is_written(
    m: ModelView,
    pairs: Seq<(Seq<char>, ValueView)>,
    max_array_size: u64,
    bounds: InputBounds,
)
    requires
        encodable(m, pairs, max_array_size, bounds),
    ensures
        written(raw_header(m, pairs)),
{
    lemma_ranges();
    lemma_collected(pairs);
    let h = raw_header(m, pairs);
    assert forall|i: int| 0 <= i < h.pairs.len() implies written_pair(
        h.wide(),
        #[trigger] h.pairs[i],
    ) by {
        let (key, value) = pairs[i];
        assert(m.kvs.contains_key(pairs[i].0) && m.kvs[pairs[i].0] == pairs[i].1);
        lemma_value_type_codes(value.value_type());
        if let ValueView::Array(items) = value {
            lemma_value_type_codes(item_type(items));
            assert forall|k: int| 0 <= k < items.len() implies written_as(
                h.wide(),
                item_type(items),
                #[trigger] raw_items(items)[k],
            ) by {
                assert(sound_scalar(StringContext::ArrayItem, items[k]));
                assert(items[k].value_type_spec() == items[0].value_type_spec());
            }
        }
    }
    let alignment = alignment_of(m.kvs)->Ok_0;
    assert forall|i: int| 0 <= i < h.tensors.len() implies written_tensor(
        h.wide(),
        #[trigger] h.tensors[i],
    ) by {
        assert(sound_tensor(alignment, m.tensors[i]));
    }
}

/// What is read back in one byte order is read back in the other.
pub proof fn law_round_trip_in_either_order(
    m: ModelView,
    pairs: Seq<(Seq<char>, ValueView)>,
    max_array_size: u64,
    bounds: InputBounds,
    tail: Seq<u8>,
    other: ByteOrder,
)
    requires
        encodable(m, pairs, max_array_size, bounds),
    ensures
        input_of(other, raw_header(m, pairs), tail, max_array_size, bounds).header() == Ok::<
            ModelView,
            GGUFError<Seq<char>>,
        >(ModelView { order: other, ..m }),
{
    let h = raw_header(m, pairs);
    lemma_encodable_is_written(m, pairs, max_array_size, bounds);
    law_header_round_trip(m, pairs, max_array_size, bounds, tail);
    law_byte_orders_agree(m.order, other, h, tail, max_array_size, bounds);
    law_decoded_contents(input_of(other, h, tail, max_array_size, bounds));
}

} // verus!
