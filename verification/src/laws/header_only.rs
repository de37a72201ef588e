//! That nothing behind the header is read.
use crate::container::ContainerView;
use crate::endian::ByteOrder;
use crate::error::StringContext;
use crate::grammar::{
    alignment_of, body, description_at, dims_at, items_at, kept_items, kvs_at, scalar_at, shape_at,
    size_at, size_width, string_at, tensors_at, typed_value_at, uint_at, value_type_at, value_width,
    version_at, window, Dialect,
};
use crate::laws::placement::{header_end, law_tensor_data};
use crate::laws::streaming::{
    law_more_input_changes_nothing, lemma_description_prefix, lemma_dims_prefix,
    lemma_items_prefix, lemma_kvs_prefix, lemma_scalar_prefix, lemma_string_prefix,
    lemma_tensors_prefix, lemma_typed_value_prefix, lemma_uint_prefix, lemma_version_prefix,
};
use crate::types::MetadataValueType;
use crate::value::{TensorView, ValueView};
use vstd::prelude::*;

verus! {

proof fn lemma_uint_own(order: ByteOrder, width: nat, s: Seq<u8>, end: int, pos: int)
    requires
        0 <= pos,
        end <= s.len(),
    ensures
        uint_at(order, width, s, pos) matches Ok((_, p)) && p <= end ==> uint_at(
            order,
            width,
            s.take(end),
            pos,
        ) == uint_at(order, width, s, pos),
{
    if pos + width <= end {
        assert(s.take(end).subrange(pos, pos + width) =~= s.subrange(pos, pos + width));
    }
}

proof fn lemma_string_own(d: Dialect, context: StringContext, s: Seq<u8>, end: int, pos: int)
    requires
        0 <= pos,
        end <= s.len(),
    ensures
        string_at(d, context, s, pos) matches Ok((_, p)) && p <= end ==> string_at(
            d,
            context,
            s.take(end),
            pos,
        ) == string_at(d, context, s, pos),
{
    lemma_uint_own(d.order, size_width(d), s, end, pos);
    if let Ok((len, p)) = size_at(d, s, pos) {
        if p + len <= end {
            assert(s.take(end).subrange(p, p + len) =~= s.subrange(p, p + len));
        }
    }
}

proof fn lemma_scalar_own(
    d: Dialect,
    kind: MetadataValueType,
    context: StringContext,
    s: Seq<u8>,
    end: int,
    pos: int,
)
    requires
        0 <= pos,
        end <= s.len(),
    ensures
        scalar_at(d, kind, context, s, pos) matches Ok((_, p)) && p <= end ==> scalar_at(
            d,
            kind,
            context,
            s.take(end),
            pos,
        ) == scalar_at(d, kind, context, s, pos),
{
    lemma_string_own(d, context, s, end, pos);
    lemma_uint_own(d.order, value_width(kind), s, end, pos);
}

proof fn lemma_items_own(
    d: Dialect,
    kind: MetadataValueType,
    len: nat,
    keep: nat,
    i: nat,
    s: Seq<u8>,
    end: int,
    pos: int,
)
    requires
        0 <= pos <= s.len(),
        end <= s.len(),
    ensures
        items_at(d, kind, len, keep, i, s, pos) matches Ok((_, p)) && p <= end ==> items_at(
            d,
            kind,
            len,
            keep,
            i,
            s.take(end),
            pos,
        ) == items_at(d, kind, len, keep, i, s, pos),
    decreases len - i,
{
    if i < len {
        lemma_scalar_own(d, kind, StringContext::ArrayItem, s, end, pos);
        lemma_scalar_prefix(d, kind, StringContext::ArrayItem, s, Seq::empty(), pos);
        if let Ok((_, p)) = scalar_at(d, kind, StringContext::ArrayItem, s, pos) {
            lemma_items_own(d, kind, len, keep, i + 1, s, end, p);
            lemma_items_prefix(d, kind, len, keep, i + 1, s, Seq::empty(), p);
        }
    }
}

proof fn lemma_typed_value_own(d: Dialect, s: Seq<u8>, end: int, pos: int)
    requires
        0 <= pos,
        end <= s.len(),
    ensures
        typed_value_at(d, s, pos) matches Ok((_, p)) && p <= end ==> typed_value_at(
            d,
            s.take(end),
            pos,
        ) == typed_value_at(d, s, pos),
{
    lemma_uint_own(d.order, 4, s, end, pos);
    lemma_uint_prefix(d.order, 4, s, Seq::empty(), pos);
    if let Ok((kind, p)) = value_type_at(d, s, pos) {
        lemma_scalar_own(d, kind, StringContext::MetadataValue, s, end, p);
        lemma_scalar_prefix(d, kind, StringContext::MetadataValue, s, Seq::empty(), p);
        lemma_uint_own(d.order, 4, s, end, p);
        lemma_uint_prefix(d.order, 4, s, Seq::empty(), p);
        if let Ok((item_kind, q)) = value_type_at(d, s, p) {
            lemma_uint_own(d.order, size_width(d), s, end, q);
            lemma_uint_prefix(d.order, size_width(d), s, Seq::empty(), q);
            if let Ok((len, r)) = size_at(d, s, q) {
                let keep = kept_items(d, len);
                lemma_items_own(d, item_kind, len, keep, 0, s, end, r);
                lemma_items_prefix(d, item_kind, len, keep, 0, s, Seq::empty(), r);
            }
        }
    }
}

proof fn lemma_kvs_own(
    d: Dialect,
    n: nat,
    done: Map<Seq<char>, ValueView>,
    s: Seq<u8>,
    end: int,
    pos: int,
)
    requires
        0 <= pos <= s.len(),
        end <= s.len(),
    ensures
        kvs_at(d, n, done, s, pos) matches Ok((_, p)) && p <= end ==> kvs_at(
            d,
            n,
            done,
            s.take(end),
            pos,
        ) == kvs_at(d, n, done, s, pos),
    decreases n,
{
    if n > 0 {
        lemma_string_own(d, StringContext::MetadataKey, s, end, pos);
        lemma_string_prefix(d, StringContext::MetadataKey, s, Seq::empty(), pos);
        if let Ok((key, p)) = string_at(d, StringContext::MetadataKey, s, pos) {
            lemma_typed_value_own(d, s, end, p);
            lemma_typed_value_prefix(d, s, Seq::empty(), p);
            if let Ok((value, q)) = typed_value_at(d, s, p) {
                let more = done.insert(key, value);
                lemma_kvs_own(d, (n - 1) as nat, more, s, end, q);
                lemma_kvs_prefix(d, (n - 1) as nat, more, s, Seq::empty(), q);
            }
        }
    }
}

proof fn lemma_dims_own(
    d: Dialect,
    name: Seq<char>,
    count: nat,
    done: Seq<u64>,
    s: Seq<u8>,
    end: int,
    pos: int,
)
    requires
        0 <= pos <= s.len(),
        end <= s.len(),
    ensures
        dims_at(d, name, count, done, s, pos) matches Ok((_, p)) && p <= end ==> dims_at(
            d,
            name,
            count,
            done,
            s.take(end),
            pos,
        ) == dims_at(d, name, count, done, s, pos),
    decreases count - done.len(),
{
    if done.len() < count {
        lemma_uint_own(d.order, 8, s, end, pos);
        if let Ok((dim, p)) = uint_at(d.order, 8, s, pos) {
            lemma_dims_own(d, name, count, done.push(dim as u64), s, end, p);
            lemma_dims_prefix(d, name, count, done.push(dim as u64), s, Seq::empty(), p);
        }
    }
}

proof fn lemma_description_own(
    d: Dialect,
    alignment: u64,
    name: Seq<char>,
    s: Seq<u8>,
    end: int,
    pos: int,
)
    requires
        0 <= pos,
        end <= s.len(),
    ensures
        description_at(d, alignment, name, s, pos) matches Ok((_, p)) && p <= end
            ==> description_at(d, alignment, name, s.take(end), pos) == description_at(
            d,
            alignment,
            name,
            s,
            pos,
        ),
{
    lemma_uint_own(d.order, 4, s, end, pos);
    lemma_uint_prefix(d.order, 4, s, Seq::empty(), pos);
    if let Ok((count, p)) = uint_at(d.order, 4, s, pos) {
        lemma_dims_own(d, name, count, Seq::empty(), s, end, p);
        lemma_dims_prefix(d, name, count, Seq::empty(), s, Seq::empty(), p);
    }
    if let Ok((_, p)) = shape_at(d, name, s, pos) {
        lemma_uint_own(d.order, 4, s, end, p);
        lemma_uint_prefix(d.order, 4, s, Seq::empty(), p);
        if let Ok((_, q)) = uint_at(d.order, 4, s, p) {
            lemma_uint_own(d.order, 8, s, end, q);
            lemma_uint_prefix(d.order, 8, s, Seq::empty(), q);
        }
    }
}

proof fn lemma_tensors_own(
    d: Dialect,
    alignment: u64,
    n: nat,
    done: Seq<TensorView>,
    s: Seq<u8>,
    end: int,
    pos: int,
)
    requires
        0 <= pos <= s.len(),
        end <= s.len(),
    ensures
        tensors_at(d, alignment, n, done, s, pos) matches Ok((_, p)) && p <= end ==> tensors_at(
            d,
            alignment,
            n,
            done,
            s.take(end),
            pos,
        ) == tensors_at(d, alignment, n, done, s, pos),
    decreases n - done.len(),
{
    if done.len() < n {
        lemma_string_own(d, StringContext::TensorName, s, end, pos);
        lemma_string_prefix(d, StringContext::TensorName, s, Seq::empty(), pos);
        if let Ok((name, p)) = string_at(d, StringContext::TensorName, s, pos) {
            lemma_description_own(d, alignment, name, s, end, p);
            lemma_description_prefix(d, alignment, name, s, Seq::empty(), p);
            if let Ok((tensor, q)) = description_at(d, alignment, name, s, p) {
                let more = done.push(tensor);
                lemma_tensors_own(d, alignment, n, more, s, end, q);
                lemma_tensors_prefix(d, alignment, n, more, s, Seq::empty(), q);
            }
        }
    }
}

proof fn lemma_version_own(order: ByteOrder, s: Seq<u8>, end: int)
    requires
        end <= s.len(),
    ensures
        version_at(order, s) matches Ok((_, p)) && p <= end ==> version_at(order, s.take(end))
            == version_at(order, s),
{
    lemma_uint_own(order, 4, s, end, 0);
    lemma_uint_own(order, 4, s, end, 4);
    lemma_uint_own(order, 4, s, end, 8);
    lemma_uint_own(order, 8, s, end, 4);
    lemma_uint_own(order, 8, s, end, 12);
}

/// Of an input that is accepted, the header alone is read: cut off behind the header it is decoded
/// to the same, and so it is with anything else in place of the padding and the tensor data.
pub proof fn law_only_the_header_is_read(c: ContainerView, other: Seq<u8>)
    requires
        c.header() is Ok,
    ensures
        4 <= header_end(c) <= 4 + c.input.len(),
        (ContainerView { input: c.input.take(header_end(c) - 4), ..c }).header() == c.header(),
        (ContainerView { input: c.input.take(header_end(c) - 4) + other, ..c }).header()
            == c.header(),
{
    law_tensor_data(c);
    let s = window(c.bounds, c.input);
    let end = header_end(c) - 4;
    let cut = ContainerView { input: c.input.take(end), ..c };
    let (version, pos) = version_at(c.order, s)->Ok_0;
    lemma_version_prefix(c.order, s, Seq::empty());
    let d = Dialect {
        order: c.order,
        wide: version.wide_spec(),
        max_array_size: c.max_array_size,
    };
    let rest = s.skip(pos);
    let num_kv = version.num_kv_spec() as nat;
    let num_tensor = version.num_tensor_spec() as nat;
    lemma_kvs_prefix(d, num_kv, Map::empty(), rest, Seq::empty(), 0);
    let (kvs, p) = kvs_at(d, num_kv, Map::empty(), rest, 0)->Ok_0;
    let alignment = alignment_of(kvs)->Ok_0;
    lemma_tensors_prefix(d, alignment, num_tensor, Seq::empty(), rest, Seq::empty(), p);
    assert(window(c.bounds, cut.input) =~= s.take(end));
    lemma_version_own(c.order, s, end);
    let own = end - pos;
    assert(s.take(end).skip(pos) =~= rest.take(own));
    lemma_kvs_own(d, num_kv, Map::empty(), rest, own, 0);
    lemma_tensors_own(d, alignment, num_tensor, Seq::empty(), rest, own, p);
    assert(body(d, version, c.bounds, rest.take(own)) == body(d, version, c.bounds, rest));
    assert(cut.header() == c.header());
    law_more_input_changes_nothing(cut, other);
}

} // verus!
