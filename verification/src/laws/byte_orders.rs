//! That the byte order makes no difference.
use crate::container::ContainerView;
use crate::endian::ByteOrder;
use crate::error::{GGUFError, StringContext};
use crate::grammar::{
    alignment_of, body, description_at, dims_at, header, items_at, kept_items, kvs_at,
    order_of_magic, scalar_at, shape_at, size_at, string_at, tensors_at, typed_value_at, uint_at, value_type_at, version_at,
    versioned_body, window, Dialect, InputBounds, ModelView,
};
use crate::laws::encoding::{
    description_bytes, dims_bytes, file_of, input_of, items_bytes, law_file_is_opened,
    lemma_kind_read, lemma_ranges,
    lemma_scalar_read, lemma_stands_split, lemma_text_read, lemma_uint_bytes_lens, lemma_uint_read,
    pairs_bytes, preamble_bytes, range, raw_bytes, raw_width, scalar_bytes, stands_at,
    tensors_bytes, text_bytes, typed_bytes, uint_bytes, value_bytes, written, written_as,
    written_pair, written_tensor, RawHeader, RawPair, RawScalar, RawTensor, RawValue,
};
use crate::types::{MetadataValueType, Version};
use crate::value::{TensorView, ValueView};
use vstd::prelude::*;

verus! {

/// Whether two dialects differ in the byte order alone.
pub open spec fn same_but_order(d: Dialect, e: Dialect) -> bool {
    d.wide == e.wide && d.max_array_size == e.max_array_size
}

proof fn lemma_items_alike(
    d: Dialect,
    e: Dialect,
    t: MetadataValueType,
    len: nat,
    keep: nat,
    i: nat,
    items: Seq<RawScalar>,
    s: Seq<u8>,
    u: Seq<u8>,
    pos: int,
)
    requires
        same_but_order(d, e),
        s.len() == u.len(),
        len == i + items.len(),
        forall|k: int| 0 <= k < items.len() ==> written_as(d.wide, t, #[trigger] items[k]),
        stands_at(s, pos, items_bytes(d.order, d.wide, items)),
        stands_at(u, pos, items_bytes(e.order, e.wide, items)),
    ensures
        items_at(d, t, len, keep, i, s, pos) == items_at(e, t, len, keep, i, u, pos),
        items_at(d, t, len, keep, i, s, pos) matches Ok((_, p)) ==> {
            &&& p == pos + items_bytes(d.order, d.wide, items).len()
            &&& p == pos + items_bytes(e.order, e.wide, items).len()
            &&& p <= s.len()
        },
    decreases items.len(),
{
    if items.len() > 0 {
        let rest = items.skip(1);
        let context = StringContext::ArrayItem;
        let (a, b) = (
            scalar_bytes(d.order, d.wide, items[0]),
            scalar_bytes(e.order, e.wide, items[0]),
        );
        lemma_stands_split(s, pos, a, items_bytes(d.order, d.wide, rest));
        lemma_stands_split(u, pos, b, items_bytes(e.order, e.wide, rest));
        lemma_scalar_read(d, t, context, items[0], s, pos);
        lemma_scalar_read(e, t, context, items[0], u, pos);
        if let Ok((_, p)) = scalar_at(d, t, context, s, pos) {
            assert forall|k: int| 0 <= k < rest.len() implies written_as(
                d.wide,
                t,
                #[trigger] rest[k],
            ) by {
                assert(rest[k] == items[k + 1]);
            }
            lemma_items_alike(d, e, t, len, keep, i + 1, rest, s, u, p);
        }
    }
}

proof fn lemma_value_alike(
    d: Dialect,
    e: Dialect,
    pair: RawPair,
    s: Seq<u8>,
    u: Seq<u8>,
    pos: int,
)
    requires
        same_but_order(d, e),
        s.len() == u.len(),
        written_pair(d.wide, pair),
        stands_at(s, pos, typed_bytes(d.order, d.wide, pair)),
        stands_at(u, pos, typed_bytes(e.order, e.wide, pair)),
    ensures
        typed_value_at(d, s, pos) == typed_value_at(e, u, pos),
        typed_value_at(d, s, pos) matches Ok((_, p)) ==> {
            &&& p == pos + typed_bytes(d.order, d.wide, pair).len()
            &&& p == pos + typed_bytes(e.order, e.wide, pair).len()
            &&& p <= s.len()
        },
{
    let (f, g) = (value_bytes(d.order, d.wide, pair.value), value_bytes(e.order, e.wide, pair.value));
    lemma_stands_split(s, pos, uint_bytes(d.order, pair.kind as nat, 4), f);
    lemma_stands_split(u, pos, uint_bytes(e.order, pair.kind as nat, 4), g);
    lemma_kind_read(d, pair.kind, s, pos);
    lemma_kind_read(e, pair.kind, u, pos);
    if let Ok((t, p)) = value_type_at(d, s, pos) {
        match pair.value {
            RawValue::Scalar(v) => if !(t is Array) {
                lemma_scalar_read(d, t, StringContext::MetadataValue, v, s, p);
                lemma_scalar_read(e, t, StringContext::MetadataValue, v, u, p);
            },
            RawValue::Array { item_kind, items } => if t is Array {
                let width = raw_width(d.wide);
                let (k, l) = (
                    uint_bytes(d.order, item_kind as nat, 4),
                    uint_bytes(e.order, item_kind as nat, 4),
                );
                let (m, n) = (
                    uint_bytes(d.order, items.len(), width),
                    uint_bytes(e.order, items.len(), width),
                );
                let (x, y) = (
                    items_bytes(d.order, d.wide, items),
                    items_bytes(e.order, e.wide, items),
                );
                lemma_stands_split(s, p, k, m + x);
                lemma_stands_split(u, p, l, n + y);
                lemma_kind_read(d, item_kind, s, p);
                lemma_kind_read(e, item_kind, u, p);
                if let Ok((item_type, q)) = value_type_at(d, s, p) {
                    lemma_stands_split(s, q, m, x);
                    lemma_stands_split(u, q, n, y);
                    lemma_uint_read(d.order, items.len(), width, s, q);
                    lemma_uint_read(e.order, items.len(), width, u, q);
                    if let Ok((len, r)) = size_at(d, s, q) {
                        let keep = kept_items(d, len);
                        lemma_items_alike(d, e, item_type, len, keep, 0, items, s, u, r);
                    }
                }
            },
        }
    }
}

proof fn lemma_kvs_alike(
    d: Dialect,
    e: Dialect,
    pairs: Seq<RawPair>,
    done: Map<Seq<char>, ValueView>,
    s: Seq<u8>,
    u: Seq<u8>,
    pos: int,
)
    requires
        same_but_order(d, e),
        s.len() == u.len(),
        forall|i: int| 0 <= i < pairs.len() ==> written_pair(d.wide, #[trigger] pairs[i]),
        stands_at(s, pos, pairs_bytes(d.order, d.wide, pairs)),
        stands_at(u, pos, pairs_bytes(e.order, e.wide, pairs)),
    ensures
        kvs_at(d, pairs.len(), done, s, pos) == kvs_at(e, pairs.len(), done, u, pos),
        kvs_at(d, pairs.len(), done, s, pos) matches Ok((_, p)) ==> {
            &&& p == pos + pairs_bytes(d.order, d.wide, pairs).len()
            &&& p == pos + pairs_bytes(e.order, e.wide, pairs).len()
            &&& p <= s.len()
        },
    decreases pairs.len(),
{
    if pairs.len() > 0 {
        let pair = pairs[0];
        let rest = pairs.skip(1);
        assert(written_pair(d.wide, pair));
        let (a, b) = (
            text_bytes(d.order, d.wide, pair.key),
            text_bytes(e.order, e.wide, pair.key),
        );
        let (f, g) = (typed_bytes(d.order, d.wide, pair), typed_bytes(e.order, e.wide, pair));
        let (x, y) = (
            pairs_bytes(d.order, d.wide, rest),
            pairs_bytes(e.order, e.wide, rest),
        );
        lemma_stands_split(s, pos, a, f + x);
        lemma_stands_split(u, pos, b, g + y);
        lemma_text_read(d, StringContext::MetadataKey, pair.key, s, pos);
        lemma_text_read(e, StringContext::MetadataKey, pair.key, u, pos);
        if let Ok((key, p)) = string_at(d, StringContext::MetadataKey, s, pos) {
            lemma_stands_split(s, p, f, x);
            lemma_stands_split(u, p, g, y);
            lemma_value_alike(d, e, pair, s, u, p);
            if let Ok((value, q)) = typed_value_at(d, s, p) {
                assert forall|i: int| 0 <= i < rest.len() implies written_pair(
                    d.wide,
                    #[trigger] rest[i],
                ) by {
                    assert(rest[i] == pairs[i + 1]);
                }
                lemma_kvs_alike(d, e, rest, done.insert(key, value), s, u, q);
            }
        }
    }
}

proof fn lemma_dims_alike(
    d: Dialect,
    e: Dialect,
    name: Seq<char>,
    dims: Seq<u64>,
    done: Seq<u64>,
    s: Seq<u8>,
    u: Seq<u8>,
    pos: int,
)
    requires
        s.len() == u.len(),
        stands_at(s, pos, dims_bytes(d.order, dims)),
        stands_at(u, pos, dims_bytes(e.order, dims)),
    ensures
        dims_at(d, name, done.len() + dims.len(), done, s, pos) == dims_at(
            e,
            name,
            done.len() + dims.len(),
            done,
            u,
            pos,
        ),
        dims_at(d, name, done.len() + dims.len(), done, s, pos) matches Ok((_, p)) ==> {
            &&& p == pos + dims_bytes(d.order, dims).len()
            &&& p == pos + dims_bytes(e.order, dims).len()
            &&& p <= s.len()
        },
    decreases dims.len(),
{
    if dims.len() > 0 {
        let rest = dims.skip(1);
        let n = dims[0] as nat;
        lemma_ranges();
        lemma_stands_split(s, pos, uint_bytes(d.order, n, 8), dims_bytes(d.order, rest));
        lemma_stands_split(u, pos, uint_bytes(e.order, n, 8), dims_bytes(e.order, rest));
        lemma_uint_read(d.order, n, 8, s, pos);
        lemma_uint_read(e.order, n, 8, u, pos);
        if let Ok((dim, p)) = uint_at(d.order, 8, s, pos) {
            lemma_dims_alike(d, e, name, rest, done.push(dim as u64), s, u, p);
        }
    }
}

proof fn lemma_description_alike(
    d: Dialect,
    e: Dialect,
    alignment: u64,
    name: Seq<char>,
    t: RawTensor,
    s: Seq<u8>,
    u: Seq<u8>,
    pos: int,
)
    requires
        s.len() == u.len(),
        t.dims.len() < range(4),
        stands_at(s, pos, description_bytes(d.order, t)),
        stands_at(u, pos, description_bytes(e.order, t)),
    ensures
        description_at(d, alignment, name, s, pos) == description_at(e, alignment, name, u, pos),
        description_at(d, alignment, name, s, pos) matches Ok((_, p)) ==> {
            &&& p == pos + description_bytes(d.order, t).len()
            &&& p == pos + description_bytes(e.order, t).len()
            &&& p <= s.len()
        },
{
    lemma_ranges();
    let count = t.dims.len();
    let (a, b) = (uint_bytes(d.order, count, 4), uint_bytes(e.order, count, 4));
    let (f, g) = (dims_bytes(d.order, t.dims), dims_bytes(e.order, t.dims));
    let (k, l) = (uint_bytes(d.order, t.kind as nat, 4), uint_bytes(e.order, t.kind as nat, 4));
    let (x, y) = (uint_bytes(d.order, t.offset as nat, 8), uint_bytes(e.order, t.offset as nat, 8));
    lemma_stands_split(s, pos, a, f + (k + x));
    lemma_stands_split(u, pos, b, g + (l + y));
    lemma_uint_read(d.order, count, 4, s, pos);
    lemma_uint_read(e.order, count, 4, u, pos);
    if let Ok((_, p)) = uint_at(d.order, 4, s, pos) {
        lemma_stands_split(s, p, f, k + x);
        lemma_stands_split(u, p, g, l + y);
        lemma_dims_alike(d, e, name, t.dims, Seq::empty(), s, u, p);
        assert(shape_at(d, name, s, pos) == shape_at(e, name, u, pos));
        if let Ok((_, q)) = shape_at(d, name, s, pos) {
            lemma_stands_split(s, q, k, x);
            lemma_stands_split(u, q, l, y);
            lemma_uint_read(d.order, t.kind as nat, 4, s, q);
            lemma_uint_read(e.order, t.kind as nat, 4, u, q);
            if let Ok((_, r)) = uint_at(d.order, 4, s, q) {
                lemma_uint_read(d.order, t.offset as nat, 8, s, r);
                lemma_uint_read(e.order, t.offset as nat, 8, u, r);
            }
        }
    }
}

proof fn lemma_tensors_alike(
    d: Dialect,
    e: Dialect,
    alignment: u64,
    tensors: Seq<RawTensor>,
    done: Seq<TensorView>,
    s: Seq<u8>,
    u: Seq<u8>,
    pos: int,
)
    requires
        same_but_order(d, e),
        s.len() == u.len(),
        forall|i: int| 0 <= i < tensors.len() ==> written_tensor(d.wide, #[trigger] tensors[i]),
        stands_at(s, pos, tensors_bytes(d.order, d.wide, tensors)),
        stands_at(u, pos, tensors_bytes(e.order, e.wide, tensors)),
    ensures
        tensors_at(d, alignment, done.len() + tensors.len(), done, s, pos) == tensors_at(
            e,
            alignment,
            done.len() + tensors.len(),
            done,
            u,
            pos,
        ),
    decreases tensors.len(),
{
    if tensors.len() > 0 {
        let t = tensors[0];
        let rest = tensors.skip(1);
        assert(written_tensor(d.wide, t));
        let (a, b) = (text_bytes(d.order, d.wide, t.name), text_bytes(e.order, e.wide, t.name));
        let (f, g) = (description_bytes(d.order, t), description_bytes(e.order, t));
        let (x, y) = (
            tensors_bytes(d.order, d.wide, rest),
            tensors_bytes(e.order, e.wide, rest),
        );
        lemma_stands_split(s, pos, a, f + x);
        lemma_stands_split(u, pos, b, g + y);
        lemma_text_read(d, StringContext::TensorName, t.name, s, pos);
        lemma_text_read(e, StringContext::TensorName, t.name, u, pos);
        if let Ok((name, p)) = string_at(d, StringContext::TensorName, s, pos) {
            lemma_stands_split(s, p, f, x);
            lemma_stands_split(u, p, g, y);
            lemma_description_alike(d, e, alignment, name, t, s, u, p);
            if let Ok((tensor, q)) = description_at(d, alignment, name, s, p) {
                assert forall|i: int| 0 <= i < rest.len() implies written_tensor(
                    d.wide,
                    #[trigger] rest[i],
                ) by {
                    assert(rest[i] == tensors[i + 1]);
                }
                lemma_tensors_alike(d, e, alignment, rest, done.push(tensor), s, u, q);
            }
        }
    }
}

/// Whether two decodings came to the same: the same error, or the same contents.
pub open spec fn same_contents(
    a: Result<ModelView, GGUFError<Seq<char>>>,
    b: Result<ModelView, GGUFError<Seq<char>>>,
) -> bool {
    match (a, b) {
        (Ok(x), Ok(y)) => {
            &&& x.version == y.version
            &&& x.kvs == y.kvs
            &&& x.tensors == y.tensors
        },
        (Err(e), Err(f)) => e == f,
        _ => false,
    }
}

proof fn lemma_body_alike(
    d: Dialect,
    e: Dialect,
    version: Version,
    bounds: InputBounds,
    pairs: Seq<RawPair>,
    tensors: Seq<RawTensor>,
    s: Seq<u8>,
    u: Seq<u8>,
)
    requires
        same_but_order(d, e),
        s.len() == u.len(),
        version.num_kv_spec() == pairs.len(),
        version.num_tensor_spec() == tensors.len(),
        forall|i: int| 0 <= i < pairs.len() ==> written_pair(d.wide, #[trigger] pairs[i]),
        forall|i: int| 0 <= i < tensors.len() ==> written_tensor(d.wide, #[trigger] tensors[i]),
        stands_at(
            s,
            0,
            pairs_bytes(d.order, d.wide, pairs) + tensors_bytes(d.order, d.wide, tensors),
        ),
        stands_at(
            u,
            0,
            pairs_bytes(e.order, e.wide, pairs) + tensors_bytes(e.order, e.wide, tensors),
        ),
    ensures
        same_contents(body(d, version, bounds, s), body(e, version, bounds, u)),
{
    let (a, b) = (pairs_bytes(d.order, d.wide, pairs), pairs_bytes(e.order, e.wide, pairs));
    lemma_stands_split(s, 0, a, tensors_bytes(d.order, d.wide, tensors));
    lemma_stands_split(u, 0, b, tensors_bytes(e.order, e.wide, tensors));
    lemma_kvs_alike(d, e, pairs, Map::empty(), s, u, 0);
    if let Ok((kvs, p)) = kvs_at(d, pairs.len(), Map::empty(), s, 0) {
        if let Ok(alignment) = alignment_of(kvs) {
            lemma_tensors_alike(d, e, alignment, tensors, Seq::empty(), s, u, p);
        }
    }
}

proof fn lemma_version_alike(
    order: ByteOrder,
    other: ByteOrder,
    h: RawHeader,
    s: Seq<u8>,
    u: Seq<u8>,
)
    requires
        written(h),
        s.len() == u.len(),
        stands_at(s, 0, preamble_bytes(order, h)),
        stands_at(u, 0, preamble_bytes(other, h)),
    ensures
        version_at(order, s) == version_at(other, u),
        version_at(order, s) matches Ok((v, p)) ==> {
            &&& p == preamble_bytes(order, h).len()
            &&& p == preamble_bytes(other, h).len()
            &&& 0 <= p <= s.len()
            &&& 1 <= h.version <= 3
            &&& v.num_kv_spec() == h.num_kv
            &&& v.num_tensor_spec() == h.num_tensor
            &&& v.wide_spec() == h.wide()
        },
{
    lemma_ranges();
    let width = raw_width(h.wide());
    let (n, m) = (h.num_tensor as nat, h.num_kv as nat);
    let (a, b) = (uint_bytes(order, h.version as nat, 4), uint_bytes(other, h.version as nat, 4));
    let (f, g) = (uint_bytes(order, n, width), uint_bytes(other, n, width));
    let (k, l) = (uint_bytes(order, m, width), uint_bytes(other, m, width));
    lemma_stands_split(s, 0, a, f + k);
    lemma_stands_split(u, 0, b, g + l);
    lemma_uint_read(order, h.version as nat, 4, s, 0);
    lemma_uint_read(other, h.version as nat, 4, u, 0);
    if 4 <= s.len() && 1 <= h.version <= 3 {
        lemma_stands_split(s, 4, f, k);
        lemma_stands_split(u, 4, g, l);
        lemma_uint_read(order, n, width, s, 4);
        lemma_uint_read(other, n, width, u, 4);
        if 4 + width <= s.len() {
            lemma_uint_read(order, m, width, s, 4 + width as int);
            lemma_uint_read(other, m, width, u, 4 + width as int);
        }
    }
}

proof fn lemma_items_len(a: ByteOrder, b: ByteOrder, wide: bool, items: Seq<RawScalar>)
    ensures
        items_bytes(a, wide, items).len() == items_bytes(b, wide, items).len(),
    decreases items.len(),
{
    if items.len() > 0 {
        lemma_uint_bytes_lens();
        lemma_items_len(a, b, wide, items.skip(1));
    }
}

proof fn lemma_pairs_len(a: ByteOrder, b: ByteOrder, wide: bool, pairs: Seq<RawPair>)
    ensures
        pairs_bytes(a, wide, pairs).len() == pairs_bytes(b, wide, pairs).len(),
    decreases pairs.len(),
{
    if pairs.len() > 0 {
        lemma_uint_bytes_lens();
        if let RawValue::Array { item_kind, items } = pairs[0].value {
            lemma_items_len(a, b, wide, items);
        }
        lemma_pairs_len(a, b, wide, pairs.skip(1));
    }
}

proof fn lemma_dims_len(a: ByteOrder, b: ByteOrder, dims: Seq<u64>)
    ensures
        dims_bytes(a, dims).len() == dims_bytes(b, dims).len(),
    decreases dims.len(),
{
    if dims.len() > 0 {
        lemma_uint_bytes_lens();
        lemma_dims_len(a, b, dims.skip(1));
    }
}

proof fn lemma_tensors_len(a: ByteOrder, b: ByteOrder, wide: bool, tensors: Seq<RawTensor>)
    ensures
        tensors_bytes(a, wide, tensors).len() == tensors_bytes(b, wide, tensors).len(),
    decreases tensors.len(),
{
    if tensors.len() > 0 {
        lemma_uint_bytes_lens();
        lemma_dims_len(a, b, tensors[0].dims);
        lemma_tensors_len(a, b, wide, tensors.skip(1));
    }
}

/// A header takes as many bytes in either byte order.
pub proof fn law_byte_orders_take_the_same_room(a: ByteOrder, b: ByteOrder, h: RawHeader)
    ensures
        raw_bytes(a, h).len() == raw_bytes(b, h).len(),
{
    lemma_uint_bytes_lens();
    lemma_pairs_len(a, b, h.wide(), h.pairs);
    lemma_tensors_len(a, b, h.wide(), h.tensors);
}

/// What follows the version of a written header.
proof fn lemma_versioned_alike(
    order: ByteOrder,
    other: ByteOrder,
    h: RawHeader,
    max_array_size: u64,
    bounds: InputBounds,
    version: Version,
    s: Seq<u8>,
    u: Seq<u8>,
    pos: int,
)
    requires
        written(h),
        1 <= h.version <= 3,
        version.num_kv_spec() == h.num_kv,
        version.num_tensor_spec() == h.num_tensor,
        version.wide_spec() == h.wide(),
        s.len() == u.len(),
        pos == preamble_bytes(order, h).len() == preamble_bytes(other, h).len(),
        0 <= pos <= s.len(),
        stands_at(s, 0, raw_bytes(order, h)),
        stands_at(u, 0, raw_bytes(other, h)),
    ensures
        same_contents(
            versioned_body(order, max_array_size, bounds, version, s, pos),
            versioned_body(other, max_array_size, bounds, version, u, pos),
        ),
{
    let wide = h.wide();
    let d = Dialect { order, wide, max_array_size };
    let e = Dialect { order: other, wide, max_array_size };
    let a = pairs_bytes(order, wide, h.pairs) + tensors_bytes(order, wide, h.tensors);
    let b = pairs_bytes(other, wide, h.pairs) + tensors_bytes(other, wide, h.tensors);
    lemma_stands_split(s, 0, preamble_bytes(order, h), a);
    lemma_stands_split(u, 0, preamble_bytes(other, h), b);
    let (v, w) = (s.skip(pos), u.skip(pos));
    assert forall|i: int| 0 <= i < a.len() && i < v.len() implies v[0 + i] == #[trigger] a[i] by {
        assert(s[pos + i] == a[i]);
    }
    assert forall|i: int| 0 <= i < b.len() && i < w.len() implies w[0 + i] == #[trigger] b[i] by {
        assert(u[pos + i] == b[i]);
    }
    lemma_body_alike(d, e, version, bounds, h.pairs, h.tensors, v, w);
}

/// The byte order makes no difference. Two inputs that say the same in either byte order are
/// decoded to the same contents, or refused for the same reason: whether what they say is right or
/// wrong, and wherever the input ends.
pub proof fn law_byte_orders_agree(
    order: ByteOrder,
    other: ByteOrder,
    h: RawHeader,
    tail: Seq<u8>,
    max_array_size: u64,
    bounds: InputBounds,
)
    requires
        written(h),
    ensures
        same_contents(
            input_of(order, h, tail, max_array_size, bounds).header(),
            input_of(other, h, tail, max_array_size, bounds).header(),
        ),
{
    let too_short = bounds matches InputBounds::Known(len) && len < 4;
    if !too_short {
        law_byte_orders_take_the_same_room(order, other, h);
        let (a, b) = (raw_bytes(order, h), raw_bytes(other, h));
        let (s, u) = (window(bounds, a + tail), window(bounds, b + tail));
        assert forall|i: int| 0 <= i < a.len() && i < s.len() implies s[0 + i]
            == #[trigger] a[i] by {
            assert((a + tail)[i] == a[i]);
        }
        assert forall|i: int| 0 <= i < b.len() && i < u.len() implies u[0 + i]
            == #[trigger] b[i] by {
            assert((b + tail)[i] == b[i]);
        }
        let wide = h.wide();
        lemma_stands_split(
            s,
            0,
            preamble_bytes(order, h),
            pairs_bytes(order, wide, h.pairs) + tensors_bytes(order, wide, h.tensors),
        );
        lemma_stands_split(
            u,
            0,
            preamble_bytes(other, h),
            pairs_bytes(other, wide, h.pairs) + tensors_bytes(other, wide, h.tensors),
        );
        lemma_version_alike(order, other, h, s, u);
        if let Ok((version, pos)) = version_at(order, s) {
            lemma_versioned_alike(order, other, h, max_array_size, bounds, version, s, u, pos);
        }
    }
}

/// Two files that say the same, each with the magic and the numbers of its byte order, are opened
/// in their byte orders and decoded to the same contents, or refused for the same reason.
pub proof fn law_files_agree(
    order: ByteOrder,
    other: ByteOrder,
    h: RawHeader,
    tail: Seq<u8>,
    max_array_size: u64,
    bounds: InputBounds,
)
    requires
        written(h),
    ensures
        order_of_magic(file_of(order, h, tail).take(4)) == Some(order),
        order_of_magic(file_of(other, h, tail).take(4)) == Some(other),
        same_contents(
            ContainerView::fresh(
                order,
                file_of(order, h, tail).skip(4),
                max_array_size,
                bounds,
            ).header(),
            ContainerView::fresh(
                other,
                file_of(other, h, tail).skip(4),
                max_array_size,
                bounds,
            ).header(),
        ),
{
    law_file_is_opened(order, h, tail);
    law_file_is_opened(other, h, tail);
    law_byte_orders_agree(order, other, h, tail, max_array_size, bounds);
}

} // verus!
