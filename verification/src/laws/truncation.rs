//! Arrays of which only the first items are kept.
use crate::constants::MAX_METADATA_BYTES;
use crate::container::ContainerView;
use crate::error::{GGUFError, ReadError, StringContext};
use crate::grammar::{
    alignment_of, body, description_at, dims_at, items_at, kept_items, kvs_at, scalar_at,
    shape_at, size_at, string_at, tensors_at, typed_value_at, uint_at, value_type_at, version_at,
    window, Dialect, InputBounds, ModelView,
};
use crate::types::{MetadataValueType, Version};
use crate::value::{TensorView, ValueView};
use vstd::prelude::*;

verus! {

/// The value with no more than the first `max_array_size` items of an array.
pub open spec fn truncated(v: ValueView, max_array_size: u64) -> ValueView {
    match v {
        ValueView::Scalar(_) => v,
        ValueView::Array(items) => if items.len() <= max_array_size {
            v
        } else {
            ValueView::Array(items.take(max_array_size as int))
        },
    }
}

/// The metadata with no more than the first `max_array_size` items of each array.
pub open spec fn truncated_kvs(
    kvs: Map<Seq<char>, ValueView>,
    max_array_size: u64,
) -> Map<Seq<char>, ValueView> {
    kvs.map_values(|v: ValueView| truncated(v, max_array_size))
}

/// The error behind an array item that could not be skipped.
pub open spec fn root_cause(e: ReadError<Seq<char>>) -> ReadError<Seq<char>>
    decreases e,
{
    match e {
        ReadError::SkippedArrayItem(_, source) => root_cause(*source),
        _ => e,
    }
}

/// Whether two errors are the same, be it that one came while an array item was skipped.
pub open spec fn same_cause(e: GGUFError<Seq<char>>, f: GGUFError<Seq<char>>) -> bool {
    match (e, f) {
        (GGUFError::Read(a), GGUFError::Read(b)) => root_cause(a) == root_cause(b),
        _ => e == f,
    }
}

/// The dialect that keeps `max_array_size` items of an array.
pub open spec fn keeping(d: Dialect, max_array_size: u64) -> Dialect {
    Dialect { max_array_size, ..d }
}

proof fn lemma_scalar_keeping(
    d: Dialect,
    n: u64,
    kind: MetadataValueType,
    context: StringContext,
    s: Seq<u8>,
    pos: int,
)
    ensures
        scalar_at(keeping(d, n), kind, context, s, pos) == scalar_at(d, kind, context, s, pos),
        scalar_at(d, kind, context, s, pos) matches Err(e) ==> root_cause(e) == e,
{
}

proof fn lemma_items_keeping(
    d: Dialect,
    n: u64,
    kind: MetadataValueType,
    len: nat,
    few: nat,
    many: nat,
    i: nat,
    s: Seq<u8>,
    pos: int,
)
    requires
        few <= many <= len,
    ensures
        match (
            items_at(keeping(d, n), kind, len, few, i, s, pos),
            items_at(d, kind, len, many, i, s, pos),
        ) {
            (Ok((x, p)), Ok((y, q))) => {
                &&& p == q
                &&& x.len() <= y.len()
                &&& x == y.take(x.len() as int)
            },
            (Err(e), Err(f)) => root_cause(e) == root_cause(f),
            _ => false,
        },
    decreases len - i,
{
    if i < len {
        lemma_scalar_keeping(d, n, kind, StringContext::ArrayItem, s, pos);
        if let Ok((v, p)) = scalar_at(d, kind, StringContext::ArrayItem, s, pos) {
            if p <= MAX_METADATA_BYTES {
                lemma_items_keeping(d, n, kind, len, few, many, i + 1, s, p);
                match (
                    items_at(keeping(d, n), kind, len, few, i + 1, s, p),
                    items_at(d, kind, len, many, i + 1, s, p),
                ) {
                    (Ok((x, _)), Ok((y, _))) => {
                        let all = seq![v] + y;
                        assert((seq![v] + x) =~= all.take(x.len() as int + 1));
                        lemma_items_len(keeping(d, n), kind, len, few, i + 1, s, p);
                        assert(x.len() == 0 ==> x =~= all.take(0));
                    },
                    _ => {},
                }
            }
        }
    }
}

/// As many items are kept as are to be kept.
proof fn lemma_items_len(
    d: Dialect,
    kind: MetadataValueType,
    len: nat,
    keep: nat,
    i: nat,
    s: Seq<u8>,
    pos: int,
)
    requires
        keep <= len,
        i <= len,
    ensures
        items_at(d, kind, len, keep, i, s, pos) matches Ok((items, _)) ==> items.len() == if i
            < keep {
            keep - i
        } else {
            0
        },
    decreases len - i,
{
    if i < len {
        if let Ok((v, p)) = scalar_at(d, kind, StringContext::ArrayItem, s, pos) {
            lemma_items_len(d, kind, len, keep, i + 1, s, p);
        }
    }
}

proof fn lemma_typed_value_keeping(d: Dialect, n: u64, s: Seq<u8>, pos: int)
    requires
        n <= d.max_array_size,
    ensures
        match (typed_value_at(keeping(d, n), s, pos), typed_value_at(d, s, pos)) {
            (Ok((x, p)), Ok((y, q))) => p == q && x == truncated(y, n),
            (Err(e), Err(f)) => root_cause(e) == root_cause(f),
            _ => false,
        },
{
    let e = keeping(d, n);
    if let Ok((kind, p)) = value_type_at(d, s, pos) {
        lemma_scalar_keeping(d, n, kind, StringContext::MetadataValue, s, p);
        if let Ok((item_kind, q)) = value_type_at(d, s, p) {
            if let Ok((len, r)) = size_at(d, s, q) {
                let few = kept_items(e, len);
                let many = kept_items(d, len);
                lemma_items_keeping(d, n, item_kind, len, few, many, 0, s, r);
                lemma_items_len(e, item_kind, len, few, 0, s, r);
                lemma_items_len(d, item_kind, len, many, 0, s, r);
                if let Ok((y, _)) = items_at(d, item_kind, len, many, 0, s, r) {
                    assert(y.take(y.len() as int) =~= y);
                }
            }
        }
    }
}

proof fn lemma_kvs_keeping(
    d: Dialect,
    n: u64,
    count: nat,
    done: Map<Seq<char>, ValueView>,
    s: Seq<u8>,
    pos: int,
)
    requires
        n <= d.max_array_size,
    ensures
        match (
            kvs_at(keeping(d, n), count, truncated_kvs(done, n), s, pos),
            kvs_at(d, count, done, s, pos),
        ) {
            (Ok((x, p)), Ok((y, q))) => p == q && x == truncated_kvs(y, n),
            (Err(e), Err(f)) => same_cause(e, f),
            _ => false,
        },
    decreases count,
{
    if count > 0 {
        assert(string_at(keeping(d, n), StringContext::MetadataKey, s, pos) == string_at(
            d,
            StringContext::MetadataKey,
            s,
            pos,
        ));
        if let Ok((key, p)) = string_at(d, StringContext::MetadataKey, s, pos) {
            lemma_typed_value_keeping(d, n, s, p);
            if let Ok((value, q)) = typed_value_at(d, s, p) {
                let more = done.insert(key, value);
                assert(truncated_kvs(more, n) =~= truncated_kvs(done, n).insert(
                    key,
                    truncated(value, n),
                ));
                lemma_kvs_keeping(d, n, (count - 1) as nat, more, s, q);
            }
        }
    }
}

proof fn lemma_dims_keeping(
    d: Dialect,
    n: u64,
    name: Seq<char>,
    count: nat,
    done: Seq<u64>,
    s: Seq<u8>,
    pos: int,
)
    ensures
        dims_at(keeping(d, n), name, count, done, s, pos) == dims_at(d, name, count, done, s, pos),
    decreases count - done.len(),
{
    if done.len() < count {
        if let Ok((dim, p)) = uint_at(d.order, 8, s, pos) {
            lemma_dims_keeping(d, n, name, count, done.push(dim as u64), s, p);
        }
    }
}

proof fn lemma_tensors_keeping(
    d: Dialect,
    n: u64,
    alignment: u64,
    count: nat,
    done: Seq<TensorView>,
    s: Seq<u8>,
    pos: int,
)
    ensures
        tensors_at(keeping(d, n), alignment, count, done, s, pos) == tensors_at(
            d,
            alignment,
            count,
            done,
            s,
            pos,
        ),
    decreases count - done.len(),
{
    if done.len() < count {
        assert(string_at(keeping(d, n), StringContext::TensorName, s, pos) == string_at(
            d,
            StringContext::TensorName,
            s,
            pos,
        ));
        if let Ok((name, p)) = string_at(d, StringContext::TensorName, s, pos) {
            if let Ok((dims, q)) = uint_at(d.order, 4, s, p) {
                lemma_dims_keeping(d, n, name, dims, Seq::empty(), s, q);
            }
            assert(shape_at(keeping(d, n), name, s, p) == shape_at(d, name, s, p));
            assert(description_at(keeping(d, n), alignment, name, s, p) == description_at(
                d,
                alignment,
                name,
                s,
                p,
            ));
            if let Ok((tensor, q)) = description_at(d, alignment, name, s, p) {
                lemma_tensors_keeping(d, n, alignment, count, done.push(tensor), s, q);
            }
        }
    }
}

proof fn lemma_body_keeping(
    d: Dialect,
    n: u64,
    version: Version,
    bounds: InputBounds,
    s: Seq<u8>,
)
    requires
        n <= d.max_array_size,
    ensures
        match (body(keeping(d, n), version, bounds, s), body(d, version, bounds, s)) {
            (Ok(x), Ok(y)) => x == (ModelView { kvs: truncated_kvs(y.kvs, n), ..y }),
            (Err(e), Err(f)) => same_cause(e, f),
            _ => false,
        },
{
    let num_kv = version.num_kv_spec() as nat;
    let num_tensor = version.num_tensor_spec() as nat;
    let none = Map::<Seq<char>, ValueView>::empty();
    assert(truncated_kvs(none, n) =~= none);
    lemma_kvs_keeping(d, n, num_kv, none, s, 0);
    if let Ok((kvs, p)) = kvs_at(d, num_kv, none, s, 0) {
        assert(alignment_of(truncated_kvs(kvs, n)) == alignment_of(kvs));
        if let Ok(alignment) = alignment_of(kvs) {
            lemma_tensors_keeping(d, n, alignment, num_tensor, Seq::empty(), s, p);
        }
    }
}

/// How many items of an array are kept changes nothing but that: a container that keeps fewer
/// decodes the same header, with shorter arrays, and is refused exactly if the other is. The reason
/// is then the same too, be it that it is met while an item is skipped rather than read.
pub proof fn law_truncation(c: ContainerView, fewer: u64)
    requires
        fewer <= c.max_array_size,
    ensures
        match ((ContainerView { max_array_size: fewer, ..c }).header(), c.header()) {
            (Ok(x), Ok(y)) => x == (ModelView { kvs: truncated_kvs(y.kvs, fewer), ..y }),
            (Err(e), Err(f)) => same_cause(e, f),
            _ => false,
        },
{
    let s = window(c.bounds, c.input);
    if let Ok((version, pos)) = version_at(c.order, s) {
        let d = Dialect {
            order: c.order,
            wide: version.wide_spec(),
            max_array_size: c.max_array_size,
        };
        lemma_body_keeping(d, fewer, version, c.bounds, s.skip(pos));
    }
}

} // verus!
