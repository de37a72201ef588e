//! Input that arrives piece by piece.
use crate::container::ContainerView;
use crate::endian::ByteOrder;
use crate::error::{GGUFError, ReadError, StringContext};
use crate::grammar::{
    alignment_of, body, description_at, dims_at, header, items_at, kept_items, kvs_at, scalar_at,
    shape_at, size_at, size_width, string_at, tensors_at, typed_value_at, uint_at, value_type_at,
    value_width, version_at, versioned_body, window, Dialect, InputBounds,
};
use crate::laws::truncation::root_cause;
use crate::types::{MetadataValueType, Version};
use crate::value::{TensorView, ValueView};
use vstd::prelude::*;

verus! {

/// Whether a read came to a result that does not say that the input ended too early.
pub open spec fn settled_read<A>(r: Result<A, ReadError<Seq<char>>>) -> bool {
    !(r matches Err(e) && e.is_eof())
}

/// Whether decoding came to a result that does not say that the input ended too early.
pub open spec fn settled<A>(r: Result<A, GGUFError<Seq<char>>>) -> bool {
    !(r matches Err(e) && e.is_eof())
}

pub proof fn lemma_uint_prefix(order: ByteOrder, width: nat, s: Seq<u8>, t: Seq<u8>, pos: int)
    requires
        0 <= pos,
    ensures
        settled_read(uint_at(order, width, s, pos)) ==> uint_at(order, width, s + t, pos)
            == uint_at(order, width, s, pos),
        uint_at(order, width, s, pos) matches Ok((_, p)) ==> pos <= p <= s.len(),
{
    if pos + width <= s.len() {
        assert((s + t).subrange(pos, pos + width) =~= s.subrange(pos, pos + width));
    }
}

pub proof fn lemma_string_prefix(
    d: Dialect,
    context: StringContext,
    s: Seq<u8>,
    t: Seq<u8>,
    pos: int,
)
    requires
        0 <= pos,
    ensures
        settled_read(string_at(d, context, s, pos)) ==> string_at(d, context, s + t, pos)
            == string_at(d, context, s, pos),
        string_at(d, context, s, pos) matches Ok((_, p)) ==> pos <= p <= s.len(),
{
    lemma_uint_prefix(d.order, size_width(d), s, t, pos);
    if let Ok((len, p)) = size_at(d, s, pos) {
        if p + len <= s.len() {
            assert((s + t).subrange(p, p + len) =~= s.subrange(p, p + len));
        }
    }
}

pub proof fn lemma_scalar_prefix(
    d: Dialect,
    kind: MetadataValueType,
    context: StringContext,
    s: Seq<u8>,
    t: Seq<u8>,
    pos: int,
)
    requires
        0 <= pos,
    ensures
        settled_read(scalar_at(d, kind, context, s, pos)) ==> scalar_at(
            d,
            kind,
            context,
            s + t,
            pos,
        ) == scalar_at(d, kind, context, s, pos),
        scalar_at(d, kind, context, s, pos) matches Ok((_, p)) ==> pos <= p <= s.len(),
{
    lemma_string_prefix(d, context, s, t, pos);
    lemma_uint_prefix(d.order, value_width(kind), s, t, pos);
}

pub proof fn lemma_items_prefix(
    d: Dialect,
    kind: MetadataValueType,
    len: nat,
    keep: nat,
    i: nat,
    s: Seq<u8>,
    t: Seq<u8>,
    pos: int,
)
    requires
        0 <= pos <= s.len(),
    ensures
        settled_read(items_at(d, kind, len, keep, i, s, pos)) ==> items_at(
            d,
            kind,
            len,
            keep,
            i,
            s + t,
            pos,
        ) == items_at(d, kind, len, keep, i, s, pos),
        items_at(d, kind, len, keep, i, s, pos) matches Ok((_, p)) ==> pos <= p <= s.len(),
    decreases len - i,
{
    if i < len {
        lemma_scalar_prefix(d, kind, StringContext::ArrayItem, s, t, pos);
        if let Ok((_, p)) = scalar_at(d, kind, StringContext::ArrayItem, s, pos) {
            lemma_items_prefix(d, kind, len, keep, i + 1, s, t, p);
        }
    }
}

pub proof fn lemma_typed_value_prefix(d: Dialect, s: Seq<u8>, t: Seq<u8>, pos: int)
    requires
        0 <= pos,
    ensures
        settled_read(typed_value_at(d, s, pos)) ==> typed_value_at(d, s + t, pos)
            == typed_value_at(d, s, pos),
        typed_value_at(d, s, pos) matches Ok((_, p)) ==> pos <= p <= s.len(),
{
    lemma_uint_prefix(d.order, 4, s, t, pos);
    if let Ok((kind, p)) = value_type_at(d, s, pos) {
        lemma_scalar_prefix(d, kind, StringContext::MetadataValue, s, t, p);
        lemma_uint_prefix(d.order, 4, s, t, p);
        if let Ok((item_kind, q)) = value_type_at(d, s, p) {
            lemma_uint_prefix(d.order, size_width(d), s, t, q);
            if let Ok((len, r)) = size_at(d, s, q) {
                lemma_items_prefix(d, item_kind, len, kept_items(d, len), 0, s, t, r);
            }
        }
    }
}

pub proof fn lemma_kvs_prefix(
    d: Dialect,
    n: nat,
    done: Map<Seq<char>, ValueView>,
    s: Seq<u8>,
    t: Seq<u8>,
    pos: int,
)
    requires
        0 <= pos <= s.len(),
    ensures
        settled(kvs_at(d, n, done, s, pos)) ==> kvs_at(d, n, done, s + t, pos) == kvs_at(
            d,
            n,
            done,
            s,
            pos,
        ),
        kvs_at(d, n, done, s, pos) matches Ok((_, p)) ==> pos <= p <= s.len(),
    decreases n,
{
    if n > 0 {
        lemma_string_prefix(d, StringContext::MetadataKey, s, t, pos);
        if let Ok((key, p)) = string_at(d, StringContext::MetadataKey, s, pos) {
            lemma_typed_value_prefix(d, s, t, p);
            if let Ok((value, q)) = typed_value_at(d, s, p) {
                lemma_kvs_prefix(d, (n - 1) as nat, done.insert(key, value), s, t, q);
            }
        }
    }
}

pub proof fn lemma_dims_prefix(
    d: Dialect,
    name: Seq<char>,
    count: nat,
    done: Seq<u64>,
    s: Seq<u8>,
    t: Seq<u8>,
    pos: int,
)
    requires
        0 <= pos <= s.len(),
    ensures
        settled(dims_at(d, name, count, done, s, pos)) ==> dims_at(d, name, count, done, s + t, pos)
            == dims_at(d, name, count, done, s, pos),
        dims_at(d, name, count, done, s, pos) matches Ok((_, p)) ==> pos <= p <= s.len(),
    decreases count - done.len(),
{
    if done.len() < count {
        lemma_uint_prefix(d.order, 8, s, t, pos);
        if let Ok((dim, p)) = uint_at(d.order, 8, s, pos) {
            lemma_dims_prefix(d, name, count, done.push(dim as u64), s, t, p);
        }
    }
}

pub proof fn lemma_description_prefix(
    d: Dialect,
    alignment: u64,
    name: Seq<char>,
    s: Seq<u8>,
    t: Seq<u8>,
    pos: int,
)
    requires
        0 <= pos,
    ensures
        settled(description_at(d, alignment, name, s, pos)) ==> description_at(
            d,
            alignment,
            name,
            s + t,
            pos,
        ) == description_at(d, alignment, name, s, pos),
        description_at(d, alignment, name, s, pos) matches Ok((_, p)) ==> pos <= p <= s.len(),
{
    lemma_uint_prefix(d.order, 4, s, t, pos);
    if let Ok((count, p)) = uint_at(d.order, 4, s, pos) {
        lemma_dims_prefix(d, name, count, Seq::empty(), s, t, p);
    }
    if let Ok((_, p)) = shape_at(d, name, s, pos) {
        lemma_uint_prefix(d.order, 4, s, t, p);
        if let Ok((_, q)) = uint_at(d.order, 4, s, p) {
            lemma_uint_prefix(d.order, 8, s, t, q);
        }
    }
}

pub proof fn lemma_tensors_prefix(
    d: Dialect,
    alignment: u64,
    n: nat,
    done: Seq<TensorView>,
    s: Seq<u8>,
    t: Seq<u8>,
    pos: int,
)
    requires
        0 <= pos <= s.len(),
    ensures
        settled(tensors_at(d, alignment, n, done, s, pos)) ==> tensors_at(
            d,
            alignment,
            n,
            done,
            s + t,
            pos,
        ) == tensors_at(d, alignment, n, done, s, pos),
        tensors_at(d, alignment, n, done, s, pos) matches Ok((_, p)) ==> pos <= p <= s.len(),
    decreases n - done.len(),
{
    if done.len() < n {
        lemma_string_prefix(d, StringContext::TensorName, s, t, pos);
        if let Ok((name, p)) = string_at(d, StringContext::TensorName, s, pos) {
            lemma_description_prefix(d, alignment, name, s, t, p);
            if let Ok((tensor, q)) = description_at(d, alignment, name, s, p) {
                lemma_tensors_prefix(d, alignment, n, done.push(tensor), s, t, q);
            }
        }
    }
}

pub proof fn lemma_body_prefix(
    d: Dialect,
    version: Version,
    bounds: InputBounds,
    s: Seq<u8>,
    t: Seq<u8>,
)
    ensures
        settled(body(d, version, bounds, s)) ==> body(d, version, bounds, s + t) == body(
            d,
            version,
            bounds,
            s,
        ),
{
    let num_kv = version.num_kv_spec() as nat;
    let num_tensor = version.num_tensor_spec() as nat;
    lemma_kvs_prefix(d, num_kv, Map::empty(), s, t, 0);
    if let Ok((kvs, p)) = kvs_at(d, num_kv, Map::empty(), s, 0) {
        if let Ok(alignment) = alignment_of(kvs) {
            lemma_tensors_prefix(d, alignment, num_tensor, Seq::empty(), s, t, p);
        }
    }
}

pub proof fn lemma_version_prefix(order: ByteOrder, s: Seq<u8>, t: Seq<u8>)
    ensures
        settled(version_at(order, s)) ==> version_at(order, s + t) == version_at(order, s),
        version_at(order, s) matches Ok((v, p)) ==> 0 <= p <= s.len() && p + 4
            == v.preamble_len_spec(),
{
    lemma_uint_prefix(order, 4, s, t, 0);
    lemma_uint_prefix(order, 4, s, t, 4);
    lemma_uint_prefix(order, 4, s, t, 8);
    lemma_uint_prefix(order, 8, s, t, 4);
    lemma_uint_prefix(order, 8, s, t, 12);
}

pub proof fn lemma_versioned_prefix(
    order: ByteOrder,
    max_array_size: u64,
    bounds: InputBounds,
    version: Version,
    s: Seq<u8>,
    t: Seq<u8>,
    pos: int,
)
    requires
        0 <= pos <= s.len(),
    ensures
        settled(versioned_body(order, max_array_size, bounds, version, s, pos)) ==> versioned_body(
            order,
            max_array_size,
            bounds,
            version,
            s + t,
            pos,
        ) == versioned_body(order, max_array_size, bounds, version, s, pos),
{
    let d = Dialect { order, wide: version.wide_spec(), max_array_size };
    lemma_body_prefix(d, version, bounds, s.skip(pos), t);
    assert((s + t).skip(pos) =~= s.skip(pos) + t);
}

/// A container that does not want more input has been given all that matters: whatever follows,
/// decoding gives the same header or the same error, and the container the same version.
///
/// So a file that is read piece by piece, until no more is wanted, is decoded to the same result as
/// the whole file.
pub proof fn law_more_input_changes_nothing(c: ContainerView, more: Seq<u8>)
    requires
        !c.wants_more(),
    ensures
        (ContainerView { input: c.input + more, ..c }).header() == c.header(),
        (ContainerView { input: c.input + more, ..c }).decoded().version == c.decoded().version,
{
    let too_short = c.bounds matches InputBounds::Known(len) && len < 4;
    if !too_short {
        let s = window(c.bounds, c.input);
        let longer = window(c.bounds, c.input + more);
        let rest = longer.skip(s.len() as int);
        assert(longer =~= s + rest);
        let full = c.bounds matches InputBounds::Known(len) && c.input.len() >= len - 4;
        if full {
            assert(longer =~= s);
        } else {
            lemma_version_prefix(c.order, s, rest);
            if let Ok((version, pos)) = version_at(c.order, s) {
                lemma_versioned_prefix(
                    c.order,
                    c.max_array_size,
                    c.bounds,
                    version,
                    s,
                    rest,
                    pos,
                );
            }
        }
    }
}

/// An error says that the input ended if, behind the items that were skipped, it is that and nothing
/// else.
pub proof fn law_ends_of_input(e: ReadError<Seq<char>>)
    ensures
        e.is_eof() <==> root_cause(e) is UnexpectedEof,
        GGUFError::Read(e).is_eof() <==> e.is_eof(),
    decreases e,
{
    if let ReadError::SkippedArrayItem(_, source) = e {
        law_ends_of_input(*source);
    }
}

/// Nothing but an error of reading says that the input ended.
pub proof fn law_other_errors_are_final(e: GGUFError<Seq<char>>)
    ensures
        e.is_eof() ==> e is Read,
{
}

/// More is wanted exactly if the input ended too early and is not known to be all there.
pub proof fn law_when_more_is_wanted(c: ContainerView)
    ensures
        c.wants_more() <==> {
            &&& c.header() is Err
            &&& c.header()->Err_0.is_eof()
            &&& forall|len: u64| c.bounds == InputBounds::Known(len) ==> c.input.len() + 4 < len
        },
{
    if let InputBounds::Known(len) = c.bounds {
        assert(c.bounds == InputBounds::Known(len));
    }
}

/// Of an input whose length is known, no more is wanted when it is all there.
pub proof fn law_whole_input_suffices(c: ContainerView, len: u64)
    requires
        c.bounds == InputBounds::Known(len),
        c.input.len() >= len - 4,
    ensures
        !c.wants_more(),
{
}

/// A file of which the first `n` bytes have been read, when no more is wanted, is decoded as it is
/// from a snapshot of the whole file.
pub proof fn law_stream_agrees_with_snapshot(
    order: ByteOrder,
    max_array_size: u64,
    bounds: InputBounds,
    bytes: Seq<u8>,
    n: int,
)
    requires
        4 <= n <= bytes.len(),
        !ContainerView::fresh(
            order,
            bytes.subrange(4, n),
            max_array_size,
            bounds,
        ).wants_more(),
    ensures
        ContainerView::fresh(order, bytes.subrange(4, n), max_array_size, bounds).header()
            == ContainerView::fresh(order, bytes.skip(4), max_array_size, bounds).header(),
{
    let so_far = ContainerView::fresh(order, bytes.subrange(4, n), max_array_size, bounds);
    assert(bytes.skip(4) =~= bytes.subrange(4, n) + bytes.skip(n));
    law_more_input_changes_nothing(so_far, bytes.skip(n));
}

} // verus!
