//! What a decoded header holds.
use crate::constants::{
    GGUF_DEFAULT_ALIGNMENT, MAX_ALIGNMENT, MAX_DIMENSION, MAX_HEADER_BYTES, MAX_KV,
    MAX_STORED_ARRAY_ITEMS, MAX_TENSORS,
};
use crate::container::ContainerView;
use crate::error::{GGUFError, StringContext};
use crate::grammar::{
    alignment_of, byte_size, description_at, dims_at, has_name, items_at, kept_items,
    kvs_at, scalar_at, shape_at, size_at, size_width, string_at, tensors_at,
    typed_value_at, uint_at, value_type_at, version_at, window, Dialect,
};
use crate::laws::streaming::{
    lemma_description_prefix, lemma_kvs_prefix, lemma_scalar_prefix, lemma_string_prefix,
    lemma_typed_value_prefix, lemma_uint_prefix,
};
use crate::model::lemma_kvs_end;
use crate::tensors::{lemma_byte_size, lemma_layout_bounds, lemma_padded, sound_shape};
use crate::types::{ggml_type_of, layout_of, MetadataValueType};
use crate::value::{MetadataScalar, TensorView, ValueView};
use vstd::prelude::*;
use vstd::utf8::{decode_utf8_encode_utf8, encode_utf8};

verus! {

/// Whether a text may stand in that place: its length in bytes is within the cap, and it is empty
/// only where it may be.
pub open spec fn sound_text(context: StringContext, text: Seq<char>) -> bool {
    &&& encode_utf8(text).len() <= context.cap()
    &&& text.len() == 0 ==> context.allows_empty()
}

/// Whether a value that is no array may stand in that place.
pub open spec fn sound_scalar(context: StringContext, v: MetadataScalar<Seq<char>>) -> bool {
    v matches MetadataScalar::String(text) ==> sound_text(context, text)
}

/// Whether a value may stand in the metadata: an array keeps no more items than was asked for, and
/// all of one type.
pub open spec fn sound_value(max_array_size: u64, v: ValueView) -> bool {
    match v {
        ValueView::Scalar(scalar) => sound_scalar(StringContext::MetadataValue, scalar),
        ValueView::Array(items) => {
            &&& items.len() <= max_array_size
            &&& items.len() <= MAX_STORED_ARRAY_ITEMS
            &&& forall|i: int|
                0 <= i < items.len() ==> sound_scalar(
                    StringContext::ArrayItem,
                    #[trigger] items[i],
                )
            &&& forall|i: int, j: int|
                0 <= i < j < items.len() ==> (#[trigger] items[i]).value_type_spec() == (
                #[trigger] items[j]).value_type_spec()
        },
    }
}

/// Whether all keys and values may stand in the metadata.
pub open spec fn sound_kvs(max_array_size: u64, kvs: Map<Seq<char>, ValueView>) -> bool {
    forall|key: Seq<char>| #[trigger]
        kvs.contains_key(key) ==> sound_text(StringContext::MetadataKey, key) && sound_value(
            max_array_size,
            kvs[key],
        )
}

/// Whether no tensor name stands twice.
pub open spec fn distinct_names(tensors: Seq<TensorView>) -> bool {
    forall|i: int, j: int|
        0 <= i < j < tensors.len() ==> (#[trigger] tensors[i]).name != (#[trigger] tensors[j]).name
}

/// Whether a tensor is described consistently: its name and shape are within their caps, its type
/// has a layout, its rows are whole blocks, its size is that of its blocks and its offset is
/// aligned.
pub open spec fn sound_tensor(alignment: u64, t: TensorView) -> bool {
    &&& sound_text(StringContext::TensorName, t.name)
    &&& sound_shape(t.shape)
    &&& ggml_type_of(t.kind) matches Some(kind)
    &&& layout_of(kind) matches Some((block, block_bytes))
    &&& t.shape[0] % block == 0
    &&& t.size == byte_size(t.shape, block, block_bytes)
    &&& t.size > 0
    &&& t.offset % alignment == 0
}

proof fn lemma_string_sound(d: Dialect, context: StringContext, s: Seq<u8>, pos: int)
    requires
        0 <= pos,
    ensures
        string_at(d, context, s, pos) matches Ok((text, _)) ==> sound_text(context, text),
{
    if let Ok((text, end)) = string_at(d, context, s, pos) {
        if let Ok((len, p)) = size_at(d, s, pos) {
            let bytes = s.subrange(p, p + len);
            decode_utf8_encode_utf8(bytes);
            assert(bytes.len() == len);
            if text.len() == 0 {
                assert(encode_utf8(text) =~= Seq::empty());
            }
        }
    }
}

proof fn lemma_scalar_sound(
    d: Dialect,
    kind: MetadataValueType,
    context: StringContext,
    s: Seq<u8>,
    pos: int,
)
    requires
        0 <= pos,
    ensures
        scalar_at(d, kind, context, s, pos) matches Ok((v, _)) ==> sound_scalar(context, v)
            && v.value_type_spec() == kind,
{
    lemma_string_sound(d, context, s, pos);
}

proof fn lemma_items_sound(
    d: Dialect,
    kind: MetadataValueType,
    len: nat,
    keep: nat,
    i: nat,
    s: Seq<u8>,
    pos: int,
)
    requires
        0 <= pos <= s.len(),
        i <= len,
        keep <= len,
    ensures
        items_at(d, kind, len, keep, i, s, pos) matches Ok((items, _)) ==> {
            &&& items.len() == if i < keep {
                keep - i
            } else {
                0
            }
            &&& forall|k: int|
                0 <= k < items.len() ==> sound_scalar(StringContext::ArrayItem, #[trigger] items[k])
                    && items[k].value_type_spec() == kind
        },
    decreases len - i,
{
    if i < len {
        lemma_scalar_sound(d, kind, StringContext::ArrayItem, s, pos);
        lemma_scalar_prefix(d, kind, StringContext::ArrayItem, s, Seq::empty(), pos);
        if let Ok((v, p)) = scalar_at(d, kind, StringContext::ArrayItem, s, pos) {
            lemma_items_sound(d, kind, len, keep, i + 1, s, p);
        }
    }
}

proof fn lemma_typed_value_sound(d: Dialect, s: Seq<u8>, pos: int)
    requires
        0 <= pos,
    ensures
        typed_value_at(d, s, pos) matches Ok((v, _)) ==> sound_value(d.max_array_size, v),
{
    lemma_uint_prefix(d.order, 4, s, Seq::empty(), pos);
    if let Ok((kind, p)) = value_type_at(d, s, pos) {
        lemma_scalar_sound(d, kind, StringContext::MetadataValue, s, p);
        lemma_uint_prefix(d.order, 4, s, Seq::empty(), p);
        if let Ok((item_kind, q)) = value_type_at(d, s, p) {
            lemma_uint_prefix(d.order, size_width(d), s, Seq::empty(), q);
            if let Ok((len, r)) = size_at(d, s, q) {
                lemma_items_sound(d, item_kind, len, kept_items(d, len), 0, s, r);
            }
        }
    }
}

/// What metadata that has been read is like.
pub proof fn lemma_kvs_sound(
    d: Dialect,
    n: nat,
    done: Map<Seq<char>, ValueView>,
    s: Seq<u8>,
    pos: int,
)
    requires
        0 <= pos <= s.len(),
        done.dom().finite(),
        sound_kvs(d.max_array_size, done),
    ensures
        kvs_at(d, n, done, s, pos) matches Ok((kvs, _)) ==> {
            &&& kvs.dom().finite()
            &&& kvs.len() == done.len() + n
            &&& sound_kvs(d.max_array_size, kvs)
        },
    decreases n,
{
    if n > 0 {
        lemma_string_sound(d, StringContext::MetadataKey, s, pos);
        lemma_string_prefix(d, StringContext::MetadataKey, s, Seq::empty(), pos);
        if let Ok((key, p)) = string_at(d, StringContext::MetadataKey, s, pos) {
            lemma_typed_value_sound(d, s, p);
            lemma_typed_value_prefix(d, s, Seq::empty(), p);
            if let Ok((value, q)) = typed_value_at(d, s, p) {
                if !done.contains_key(key) {
                    lemma_kvs_sound(d, (n - 1) as nat, done.insert(key, value), s, q);
                }
            }
        }
    }
}

proof fn lemma_dims_sound(
    d: Dialect,
    name: Seq<char>,
    count: nat,
    done: Seq<u64>,
    s: Seq<u8>,
    pos: int,
)
    requires
        done.len() <= count,
        forall|i: int| 0 <= i < done.len() ==> 1 <= #[trigger] done[i] <= MAX_DIMENSION,
    ensures
        dims_at(d, name, count, done, s, pos) matches Ok((dims, _)) ==> {
            &&& dims.len() == count
            &&& forall|i: int| 0 <= i < dims.len() ==> 1 <= #[trigger] dims[i] <= MAX_DIMENSION
        },
    decreases count - done.len(),
{
    if done.len() < count {
        if let Ok((dim, p)) = uint_at(d.order, 8, s, pos) {
            if 0 < dim <= MAX_DIMENSION {
                lemma_dims_sound(d, name, count, done.push(dim as u64), s, p);
            }
        }
    }
}

proof fn lemma_shape_sound(d: Dialect, name: Seq<char>, s: Seq<u8>, pos: int)
    ensures
        shape_at(d, name, s, pos) matches Ok((shape, _)) ==> sound_shape(shape),
{
    if let Ok((count, p)) = uint_at(d.order, 4, s, pos) {
        if 0 < count <= 4 {
            lemma_dims_sound(d, name, count, Seq::empty(), s, p);
            if let Ok((dims, q)) = dims_at(d, name, count, Seq::empty(), s, p) {
                lemma_padded(dims);
            }
        }
    }
}

/// What a tensor description that has been read is like.
pub proof fn lemma_description_sound(
    d: Dialect,
    alignment: u64,
    name: Seq<char>,
    s: Seq<u8>,
    pos: int,
)
    requires
        sound_text(StringContext::TensorName, name),
    ensures
        description_at(d, alignment, name, s, pos) matches Ok((t, _)) ==> t.name == name
            && sound_tensor(alignment, t),
{
    lemma_shape_sound(d, name, s, pos);
    if let Ok((t, _)) = description_at(d, alignment, name, s, pos) {
        let kind = ggml_type_of(t.kind)->0;
        lemma_layout_bounds(kind);
        let (block, block_bytes) = layout_of(kind)->0;
        lemma_byte_size(t.shape, block, block_bytes);
    }
}

/// What tensor descriptions that have been read are like.
pub proof fn lemma_tensors_sound(
    d: Dialect,
    alignment: u64,
    n: nat,
    done: Seq<TensorView>,
    s: Seq<u8>,
    pos: int,
)
    requires
        0 <= pos <= s.len(),
        done.len() <= n,
        forall|i: int| 0 <= i < done.len() ==> sound_tensor(alignment, #[trigger] done[i]),
        distinct_names(done),
    ensures
        tensors_at(d, alignment, n, done, s, pos) matches Ok((tensors, _)) ==> {
            &&& tensors.len() == n
            &&& forall|i: int|
                0 <= i < tensors.len() ==> sound_tensor(alignment, #[trigger] tensors[i])
            &&& distinct_names(tensors)
        },
    decreases n - done.len(),
{
    if done.len() < n {
        lemma_string_sound(d, StringContext::TensorName, s, pos);
        lemma_string_prefix(d, StringContext::TensorName, s, Seq::empty(), pos);
        if let Ok((name, p)) = string_at(d, StringContext::TensorName, s, pos) {
            lemma_description_sound(d, alignment, name, s, p);
            lemma_description_prefix(d, alignment, name, s, Seq::empty(), p);
            if let Ok((t, q)) = description_at(d, alignment, name, s, p) {
                if !has_name(done, name) {
                    let more = done.push(t);
                    assert forall|i: int, j: int| 0 <= i < j < more.len() implies (
                    #[trigger] more[i]).name != (#[trigger] more[j]).name by {
                        assert(done[i].name == more[i].name);
                    }
                    lemma_tensors_sound(d, alignment, n, more, s, q);
                }
            }
        }
    }
}

/// Whether the metadata asks for the alignment `a`: by an unsigned number under
/// `general.alignment`, or by saying nothing of it.
pub open spec fn asks_for(kvs: Map<Seq<char>, ValueView>, a: u64) -> bool {
    let key = "general.alignment"@;
    if kvs.contains_key(key) {
        match kvs[key] {
            ValueView::Scalar(MetadataScalar::Uint8(n)) => n == a,
            ValueView::Scalar(MetadataScalar::Uint16(n)) => n == a,
            ValueView::Scalar(MetadataScalar::Uint32(n)) => n == a,
            ValueView::Scalar(MetadataScalar::Uint64(n)) => n == a,
            _ => false,
        }
    } else {
        a == 32
    }
}

/// The alignment is the one that the metadata asks for, if that is a positive multiple of eight
/// within its cap; otherwise there is none. Where nothing is asked for it is the default one.
pub proof fn law_alignment(kvs: Map<Seq<char>, ValueView>)
    ensures
        alignment_of(kvs) matches Ok(alignment) ==> {
            &&& 8 <= alignment <= MAX_ALIGNMENT
            &&& alignment % 8 == 0
        },
        !kvs.contains_key("general.alignment"@) ==> alignment_of(kvs) == Ok::<u64, GGUFError<Seq<char>>>(
            GGUF_DEFAULT_ALIGNMENT,
        ),
        forall|a: u64| #[trigger]
            asks_for(kvs, a) && 0 < a <= 65536 && a % 8 == 0 <==> alignment_of(kvs) == Ok::<
                u64,
                GGUFError<Seq<char>>,
            >(a),
{
}

/// An alignment that is asked for and cannot be had is refused with its number; what is no unsigned
/// number is refused for its type.
pub proof fn law_alignment_refused(kvs: Map<Seq<char>, ValueView>, a: u64)
    ensures
        asks_for(kvs, a) && a == 0 ==> alignment_of(kvs) == Err::<u64, _>(
            GGUFError::<Seq<char>>::AlignmentZero,
        ),
        asks_for(kvs, a) && a % 8 != 0 ==> alignment_of(kvs) == Err::<u64, _>(
            GGUFError::<Seq<char>>::AlignmentNotMultipleOfEight(a),
        ),
        asks_for(kvs, a) && a % 8 == 0 && a > 65536 ==> alignment_of(kvs) == Err::<u64, _>(
            GGUFError::<Seq<char>>::AlignmentTooLarge(a),
        ),
        (forall|n: u64| !#[trigger] asks_for(kvs, n)) ==> alignment_of(kvs) == Err::<u64, _>(
            GGUFError::<Seq<char>>::AlignmentType,
        ),
{
    let key = "general.alignment"@;
    if kvs.contains_key(key) {
        if let Some(n) = kvs[key].as_u64() {
            assert(kvs[key].value_type().is_unsigned_spec() ==> asks_for(kvs, n));
        }
    } else {
        assert(asks_for(kvs, 32));
    }
}

/// A header that is decoded holds as many pairs and tensors as it announces, within the caps. No
/// tensor name stands twice, every string, array and shape is within its caps, and every
/// tensor is described consistently.
pub proof fn law_decoded_contents(c: ContainerView)
    ensures
        c.header() matches Ok(m) ==> {
            &&& m.order == c.order
            &&& m.version == c.decoded().version
            &&& m.kvs.dom().finite()
            &&& m.kvs.len() == m.version.num_kv_spec() <= MAX_KV
            &&& m.tensors.len() == m.version.num_tensor_spec() <= MAX_TENSORS
            &&& sound_kvs(c.max_array_size, m.kvs)
            &&& distinct_names(m.tensors)
            &&& alignment_of(m.kvs) matches Ok(alignment)
            &&& forall|i: int|
                0 <= i < m.tensors.len() ==> sound_tensor(alignment, #[trigger] m.tensors[i])
        },
{
    if let Ok(m) = c.header() {
        let s = window(c.bounds, c.input);
        let (version, pos) = version_at(c.order, s)->Ok_0;
        let d = Dialect {
            order: c.order,
            wide: version.wide_spec(),
            max_array_size: c.max_array_size,
        };
        let rest = s.skip(pos);
        let num_kv = version.num_kv_spec() as nat;
        let num_tensor = version.num_tensor_spec() as nat;
        lemma_kvs_sound(d, num_kv, Map::empty(), rest, 0);
        lemma_kvs_prefix(d, num_kv, Map::empty(), rest, Seq::empty(), 0);
        let (kvs, p) = kvs_at(d, num_kv, Map::empty(), rest, 0)->Ok_0;
        let alignment = alignment_of(kvs)->Ok_0;
        lemma_tensors_sound(d, alignment, num_tensor, Seq::empty(), rest, p);
    }
}

proof fn lemma_dims_end(
    d: Dialect,
    name: Seq<char>,
    count: nat,
    done: Seq<u64>,
    s: Seq<u8>,
    pos: int,
)
    requires
        done.len() <= count,
    ensures
        match dims_at(d, name, count, done, s, pos) {
            Ok((_, p)) => p == pos + 8 * (count - done.len()),
            Err(e) => !(e is HeaderTooLarge),
        },
    decreases count - done.len(),
{
    if done.len() < count {
        if let Ok((dim, p)) = uint_at(d.order, 8, s, pos) {
            lemma_dims_end(d, name, count, done.push(dim as u64), s, p);
        }
    }
}

proof fn lemma_tensors_short(
    d: Dialect,
    alignment: u64,
    n: nat,
    done: Seq<TensorView>,
    s: Seq<u8>,
    pos: int,
)
    requires
        done.len() <= n,
        pos + 120 * (n - done.len()) <= MAX_HEADER_BYTES,
    ensures
        tensors_at(d, alignment, n, done, s, pos) matches Err(e) ==> !(e is HeaderTooLarge),
    decreases n - done.len(),
{
    if done.len() < n {
        if let Ok((name, p)) = string_at(d, StringContext::TensorName, s, pos) {
            assert(p <= pos + 72);
            if let Ok((count, q)) = uint_at(d.order, 4, s, p) {
                if count <= 4 {
                    lemma_dims_end(d, name, count, Seq::empty(), s, q);
                }
            }
            if let Ok((tensor, q)) = description_at(d, alignment, name, s, p) {
                assert(q <= p + 48);
                lemma_tensors_short(d, alignment, n, done.push(tensor), s, q);
            }
        }
    }
}

/// The caps on counts, names and metadata leave no header that exceeds the cap on all of it.
pub proof fn law_header_cap_is_never_exceeded(c: ContainerView)
    ensures
        c.header() matches Err(e) ==> !(e is HeaderTooLarge),
{
    let s = window(c.bounds, c.input);
    if let Ok((version, pos)) = version_at(c.order, s) {
        let d = Dialect {
            order: c.order,
            wide: version.wide_spec(),
            max_array_size: c.max_array_size,
        };
        let rest = s.skip(pos);
        let num_kv = version.num_kv_spec() as nat;
        let num_tensor = version.num_tensor_spec() as nat;
        lemma_kvs_end(d, num_kv, Map::empty(), rest, 0);
        lemma_kvs_cap(d, num_kv, Map::empty(), rest, 0);
        if let Ok((kvs, p)) = kvs_at(d, num_kv, Map::empty(), rest, 0) {
            if let Ok(alignment) = alignment_of(kvs) {
                if num_tensor <= MAX_TENSORS {
                    lemma_tensors_short(d, alignment, num_tensor, Seq::empty(), rest, p);
                }
            }
        }
    }
}

proof fn lemma_kvs_cap(
    d: Dialect,
    n: nat,
    done: Map<Seq<char>, ValueView>,
    s: Seq<u8>,
    pos: int,
)
    ensures
        kvs_at(d, n, done, s, pos) matches Err(e) ==> !(e is HeaderTooLarge),
    decreases n,
{
    if n > 0 {
        if let Ok((key, p)) = string_at(d, StringContext::MetadataKey, s, pos) {
            if let Ok((value, q)) = typed_value_at(d, s, p) {
                lemma_kvs_cap(d, (n - 1) as nat, done.insert(key, value), s, q);
            }
        }
    }
}

} // verus!
