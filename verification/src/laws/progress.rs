//! How far reads get.
use crate::constants::{MAX_ARRAY_LEN, MAX_HEADER_BYTES, MAX_METADATA_BYTES};
use crate::error::{GGUFError, ReadError, StringContext};
use crate::grammar::{
    description_at, dims_at, items_at, kept_items, kvs_at, scalar_at, shape_at, size_at, size_width,
    string_at, tensors_at, typed_value_at, uint_at, value_type_at, value_width, Dialect,
};
use crate::progress::{
    array_stop, description_stop, dims_stop, items_stop, kvs_stop, scalar_stop, shape_stop, string_stop,
    tensors_stop, typed_value_stop, uint_stop,
};
use crate::types::MetadataValueType;
use crate::value::{TensorView, ValueView};
use vstd::prelude::*;

verus! {

/// Whether a read from `pos` got no further than the input goes and did not go back, got exactly
/// behind what it read, and used up the input if that ended too early.
pub open spec fn got_to<A>(
    r: Result<(A, int), ReadError<Seq<char>>>,
    s: Seq<u8>,
    pos: int,
    stop: int,
) -> bool {
    &&& pos <= stop <= s.len()
    &&& match r {
        Ok((_, p)) => stop == p,
        Err(e) => e.is_eof() ==> stop == s.len(),
    }
}

/// The same of metadata and tensor descriptions.
pub open spec fn went_to<A>(
    r: Result<(A, int), GGUFError<Seq<char>>>,
    s: Seq<u8>,
    pos: int,
    stop: int,
) -> bool {
    &&& pos <= stop <= s.len()
    &&& match r {
        Ok((_, p)) => stop == p,
        Err(e) => e.is_eof() ==> stop == s.len(),
    }
}

/// How far reading a string or another value that is no array gets.
pub proof fn law_how_far_values_get(
    d: Dialect,
    t: MetadataValueType,
    context: StringContext,
    s: Seq<u8>,
    pos: int,
)
    requires
        0 <= pos <= s.len(),
    ensures
        got_to(string_at(d, context, s, pos), s, pos, string_stop(d, context, s, pos)),
        got_to(scalar_at(d, t, context, s, pos), s, pos, scalar_stop(d, t, context, s, pos)),
{
}

proof fn lemma_items_stop(
    d: Dialect,
    t: MetadataValueType,
    len: nat,
    keep: nat,
    i: nat,
    s: Seq<u8>,
    pos: int,
)
    requires
        0 <= pos <= s.len(),
    ensures
        got_to(items_at(d, t, len, keep, i, s, pos), s, pos, items_stop(d, t, len, i, s, pos)),
    decreases len - i,
{
    if i < len {
        law_how_far_values_get(d, t, StringContext::ArrayItem, s, pos);
        if let Ok((_, p)) = scalar_at(d, t, StringContext::ArrayItem, s, pos) {
            if p <= MAX_METADATA_BYTES {
                lemma_items_stop(d, t, len, keep, i + 1, s, p);
            }
        }
    }
}

/// How far reading a metadata value gets.
pub proof fn law_how_far_typed_values_get(d: Dialect, s: Seq<u8>, pos: int)
    requires
        0 <= pos <= s.len(),
    ensures
        got_to(typed_value_at(d, s, pos), s, pos, typed_value_stop(d, s, pos)),
{
    if let Ok((t, p)) = value_type_at(d, s, pos) {
        law_how_far_values_get(d, t, StringContext::MetadataValue, s, p);
        if let Ok((item_type, q)) = value_type_at(d, s, p) {
            if let Ok((len, r)) = size_at(d, s, q) {
                if len <= MAX_ARRAY_LEN {
                    lemma_items_stop(d, item_type, len, kept_items(d, len), 0, s, r);
                }
            }
        }
    }
}

/// How far reading metadata gets.
pub proof fn law_how_far_metadata_gets(
    d: Dialect,
    n: nat,
    done: Map<Seq<char>, ValueView>,
    s: Seq<u8>,
    pos: int,
)
    requires
        0 <= pos <= s.len(),
    ensures
        went_to(kvs_at(d, n, done, s, pos), s, pos, kvs_stop(d, n, done, s, pos)),
    decreases n,
{
    if n > 0 {
        law_how_far_values_get(d, MetadataValueType::Bool, StringContext::MetadataKey, s, pos);
        if let Ok((key, p)) = string_at(d, StringContext::MetadataKey, s, pos) {
            law_how_far_typed_values_get(d, s, p);
            if let Ok((value, q)) = typed_value_at(d, s, p) {
                if q <= MAX_METADATA_BYTES {
                    law_how_far_metadata_gets(d, (n - 1) as nat, done.insert(key, value), s, q);
                }
            }
        }
    }
}

proof fn lemma_dims_stop(
    d: Dialect,
    name: Seq<char>,
    count: nat,
    done: Seq<u64>,
    s: Seq<u8>,
    pos: int,
)
    requires
        0 <= pos <= s.len(),
    ensures
        went_to(dims_at(d, name, count, done, s, pos), s, pos, dims_stop(d, count, done, s, pos)),
    decreases count - done.len(),
{
    if done.len() < count {
        if let Ok((dim, p)) = uint_at(d.order, 8, s, pos) {
            lemma_dims_stop(d, name, count, done.push(dim as u64), s, p);
        }
    }
}

/// How far reading a tensor description gets; how it is called and aligned does not matter.
pub proof fn law_how_far_descriptions_get(
    d: Dialect,
    alignment: u64,
    name: Seq<char>,
    s: Seq<u8>,
    pos: int,
)
    requires
        0 <= pos <= s.len(),
    ensures
        went_to(shape_at(d, name, s, pos), s, pos, shape_stop(d, s, pos)),
        went_to(
            description_at(d, alignment, name, s, pos),
            s,
            pos,
            description_stop(d, name, s, pos),
        ),
{
    if let Ok((count, p)) = uint_at(d.order, 4, s, pos) {
        lemma_dims_stop(d, name, count, Seq::empty(), s, p);
    }
}

/// How far reading tensor descriptions gets.
pub proof fn law_how_far_tensors_get(
    d: Dialect,
    alignment: u64,
    n: nat,
    done: Seq<TensorView>,
    s: Seq<u8>,
    pos: int,
)
    requires
        0 <= pos <= s.len(),
    ensures
        went_to(
            tensors_at(d, alignment, n, done, s, pos),
            s,
            pos,
            tensors_stop(d, alignment, n, done, s, pos),
        ),
    decreases n - done.len(),
{
    if done.len() < n {
        law_how_far_values_get(d, MetadataValueType::Bool, StringContext::TensorName, s, pos);
        if let Ok((name, p)) = string_at(d, StringContext::TensorName, s, pos) {
            law_how_far_descriptions_get(d, alignment, name, s, p);
            if let Ok((tensor, q)) = description_at(d, alignment, name, s, p) {
                if q <= MAX_HEADER_BYTES {
                    law_how_far_tensors_get(d, alignment, n, done.push(tensor), s, q);
                }
            }
        }
    }
}

/// Whether a read came to the same of the first `n` bytes as of all of them if it got no further than
/// those, and found them too few otherwise.
pub open spec fn needs<A>(
    cut: Result<(A, int), ReadError<Seq<char>>>,
    whole: Result<(A, int), ReadError<Seq<char>>>,
    n: int,
    stop: int,
) -> bool {
    if n >= stop {
        cut == whole
    } else {
        cut matches Err(e) && e.is_eof()
    }
}

/// The same of metadata and tensor descriptions.
pub open spec fn takes<A>(
    cut: Result<(A, int), GGUFError<Seq<char>>>,
    whole: Result<(A, int), GGUFError<Seq<char>>>,
    n: int,
    stop: int,
) -> bool {
    if n >= stop {
        cut == whole
    } else {
        cut matches Err(e) && e.is_eof()
    }
}

proof fn lemma_uint_cut(d: Dialect, width: nat, s: Seq<u8>, pos: int, n: int)
    requires
        0 <= pos <= n <= s.len(),
    ensures
        needs(
            uint_at(d.order, width, s.take(n), pos),
            uint_at(d.order, width, s, pos),
            n,
            uint_stop(width, s, pos),
        ),
{
    if pos + width <= n {
        assert(s.take(n).subrange(pos, pos + width) =~= s.subrange(pos, pos + width));
    }
    assert(s.take(s.len() as int) =~= s);
}

/// A string or another value that is no array, whether it is read or refused, is read just as far as
/// has to be: of fewer bytes it is found that they are too few, and of no more it comes to the same.
pub proof fn law_what_values_need(
    d: Dialect,
    t: MetadataValueType,
    context: StringContext,
    s: Seq<u8>,
    pos: int,
    n: int,
)
    requires
        0 <= pos <= n <= s.len(),
    ensures
        needs(
            string_at(d, context, s.take(n), pos),
            string_at(d, context, s, pos),
            n,
            string_stop(d, context, s, pos),
        ),
        needs(
            scalar_at(d, t, context, s.take(n), pos),
            scalar_at(d, t, context, s, pos),
            n,
            scalar_stop(d, t, context, s, pos),
        ),
{
    lemma_uint_cut(d, size_width(d), s, pos, n);
    lemma_uint_cut(d, value_width(t), s, pos, n);
    if let Ok((len, p)) = size_at(d, s, pos) {
        if p + len <= n {
            assert(s.take(n).subrange(p, p + len) =~= s.subrange(p, p + len));
        }
    }
    assert(s.take(s.len() as int) =~= s);
}

proof fn lemma_items_need(
    d: Dialect,
    t: MetadataValueType,
    len: nat,
    keep: nat,
    i: nat,
    s: Seq<u8>,
    pos: int,
    n: int,
)
    requires
        0 <= pos <= n <= s.len(),
    ensures
        needs(
            items_at(d, t, len, keep, i, s.take(n), pos),
            items_at(d, t, len, keep, i, s, pos),
            n,
            items_stop(d, t, len, i, s, pos),
        ),
    decreases len - i,
{
    if i < len {
        law_what_values_need(d, t, StringContext::ArrayItem, s, pos, n);
        law_how_far_values_get(d, t, StringContext::ArrayItem, s, pos);
        if let Ok((_, p)) = scalar_at(d, t, StringContext::ArrayItem, s, pos) {
            if p <= MAX_METADATA_BYTES {
                lemma_items_stop(d, t, len, keep, i + 1, s, p);
                if p <= n {
                    lemma_items_need(d, t, len, keep, i + 1, s, p, n);
                }
            }
        }
    }
}

/// A metadata value is read just as far as has to be.
pub proof fn law_what_typed_values_need(d: Dialect, s: Seq<u8>, pos: int, n: int)
    requires
        0 <= pos <= n <= s.len(),
    ensures
        needs(
            typed_value_at(d, s.take(n), pos),
            typed_value_at(d, s, pos),
            n,
            typed_value_stop(d, s, pos),
        ),
{
    lemma_uint_cut(d, 4, s, pos, n);
    law_how_far_typed_values_get(d, s, pos);
    if let Ok((t, p)) = value_type_at(d, s, pos) {
        if p <= n {
            law_what_values_need(d, t, StringContext::MetadataValue, s, p, n);
            lemma_uint_cut(d, 4, s, p, n);
            if let Ok((item_type, q)) = value_type_at(d, s, p) {
                if q <= n {
                    lemma_uint_cut(d, size_width(d), s, q, n);
                    if let Ok((len, r)) = size_at(d, s, q) {
                        if len <= MAX_ARRAY_LEN {
                            lemma_items_stop(d, item_type, len, kept_items(d, len), 0, s, r);
                            if r <= n {
                                lemma_items_need(d, item_type, len, kept_items(d, len), 0, s, r, n);
                            }
                        }
                    }
                } else {
                    lemma_items_go_on(d, item_type, s, q);
                }
            }
        } else {
            law_how_far_values_get(d, t, StringContext::MetadataValue, s, p);
            lemma_array_goes_on(d, s, p);
        }
    }
}

/// Reading an array goes on from where it starts.
proof fn lemma_array_goes_on(d: Dialect, s: Seq<u8>, pos: int)
    requires
        0 <= pos <= s.len(),
    ensures
        pos <= array_stop(d, s, pos) <= s.len(),
{
    if let Ok((item_type, q)) = value_type_at(d, s, pos) {
        lemma_items_go_on(d, item_type, s, q);
    }
}

/// Reading the number of items, and the items, goes on from where it starts.
proof fn lemma_items_go_on(d: Dialect, item_type: MetadataValueType, s: Seq<u8>, pos: int)
    requires
        0 <= pos <= s.len(),
    ensures
        match size_at(d, s, pos) {
            Err(_) => pos <= uint_stop(size_width(d), s, pos) <= s.len(),
            Ok((len, r)) => pos <= r <= s.len() && (len <= MAX_ARRAY_LEN ==> r <= items_stop(
                d,
                item_type,
                len,
                0,
                s,
                r,
            ) <= s.len()),
        },
{
    if let Ok((len, r)) = size_at(d, s, pos) {
        lemma_items_stop(d, item_type, len, kept_items(d, len), 0, s, r);
    }
}

/// Metadata is read just as far as has to be.
pub proof fn law_what_metadata_needs(
    d: Dialect,
    count: nat,
    done: Map<Seq<char>, ValueView>,
    s: Seq<u8>,
    pos: int,
    n: int,
)
    requires
        0 <= pos <= n <= s.len(),
    ensures
        takes(
            kvs_at(d, count, done, s.take(n), pos),
            kvs_at(d, count, done, s, pos),
            n,
            kvs_stop(d, count, done, s, pos),
        ),
    decreases count,
{
    if count > 0 {
        let bool_type = MetadataValueType::Bool;
        law_what_values_need(d, bool_type, StringContext::MetadataKey, s, pos, n);
        law_how_far_values_get(d, bool_type, StringContext::MetadataKey, s, pos);
        if let Ok((key, p)) = string_at(d, StringContext::MetadataKey, s, pos) {
            law_how_far_typed_values_get(d, s, p);
            if p <= n {
                law_what_typed_values_need(d, s, p, n);
            }
            if let Ok((value, q)) = typed_value_at(d, s, p) {
                if q <= MAX_METADATA_BYTES {
                    let more = done.insert(key, value);
                    law_how_far_metadata_gets(d, (count - 1) as nat, more, s, q);
                    if q <= n {
                        law_what_metadata_needs(d, (count - 1) as nat, more, s, q, n);
                    }
                }
            }
        }
    }
}

proof fn lemma_dims_need(
    d: Dialect,
    name: Seq<char>,
    count: nat,
    done: Seq<u64>,
    s: Seq<u8>,
    pos: int,
    n: int,
)
    requires
        0 <= pos <= n <= s.len(),
    ensures
        takes(
            dims_at(d, name, count, done, s.take(n), pos),
            dims_at(d, name, count, done, s, pos),
            n,
            dims_stop(d, count, done, s, pos),
        ),
    decreases count - done.len(),
{
    if done.len() < count {
        lemma_uint_cut(d, 8, s, pos, n);
        if let Ok((dim, p)) = uint_at(d.order, 8, s, pos) {
            let more = done.push(dim as u64);
            lemma_dims_stop(d, name, count, more, s, p);
            if p <= n {
                lemma_dims_need(d, name, count, more, s, p, n);
            }
        }
    }
}

proof fn lemma_shape_need(d: Dialect, name: Seq<char>, s: Seq<u8>, pos: int, n: int)
    requires
        0 <= pos <= n <= s.len(),
    ensures
        takes(
            shape_at(d, name, s.take(n), pos),
            shape_at(d, name, s, pos),
            n,
            shape_stop(d, s, pos),
        ),
{
    lemma_uint_cut(d, 4, s, pos, n);
    if let Ok((count, p)) = uint_at(d.order, 4, s, pos) {
        lemma_dims_stop(d, name, count, Seq::empty(), s, p);
        if p <= n {
            lemma_dims_need(d, name, count, Seq::empty(), s, p, n);
        }
    }
}

/// A tensor description is read just as far as has to be.
pub proof fn law_what_descriptions_need(
    d: Dialect,
    alignment: u64,
    name: Seq<char>,
    s: Seq<u8>,
    pos: int,
    n: int,
)
    requires
        0 <= pos <= n <= s.len(),
    ensures
        takes(
            description_at(d, alignment, name, s.take(n), pos),
            description_at(d, alignment, name, s, pos),
            n,
            description_stop(d, name, s, pos),
        ),
{
    lemma_shape_need(d, name, s, pos, n);
    law_how_far_descriptions_get(d, alignment, name, s, pos);
    if let Ok((_, p)) = shape_at(d, name, s, pos) {
        if p <= n {
            lemma_uint_cut(d, 4, s, p, n);
            if let Ok((_, q)) = uint_at(d.order, 4, s, p) {
                if q <= n {
                    lemma_uint_cut(d, 8, s, q, n);
                }
            }
        }
    }
}

/// Tensor descriptions are read just as far as has to be.
pub proof fn law_what_tensors_need(
    d: Dialect,
    alignment: u64,
    count: nat,
    done: Seq<TensorView>,
    s: Seq<u8>,
    pos: int,
    n: int,
)
    requires
        0 <= pos <= n <= s.len(),
    ensures
        takes(
            tensors_at(d, alignment, count, done, s.take(n), pos),
            tensors_at(d, alignment, count, done, s, pos),
            n,
            tensors_stop(d, alignment, count, done, s, pos),
        ),
    decreases count - done.len(),
{
    if done.len() < count {
        let bool_type = MetadataValueType::Bool;
        law_what_values_need(d, bool_type, StringContext::TensorName, s, pos, n);
        law_how_far_values_get(d, bool_type, StringContext::TensorName, s, pos);
        if let Ok((name, p)) = string_at(d, StringContext::TensorName, s, pos) {
            law_how_far_descriptions_get(d, alignment, name, s, p);
            if p <= n {
                law_what_descriptions_need(d, alignment, name, s, p, n);
            }
            if let Ok((tensor, q)) = description_at(d, alignment, name, s, p) {
                if q <= MAX_HEADER_BYTES {
                    let more = done.push(tensor);
                    law_how_far_tensors_get(d, alignment, count, more, s, q);
                    if q <= n {
                        law_what_tensors_need(d, alignment, count, more, s, q, n);
                    }
                }
            }
        }
    }
}

} // verus!
