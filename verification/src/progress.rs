//! How far into its input a read gets, whether it succeeds or not.
//!
//! Each function gives the place that the reader has reached when an item at `pos` of `s` has been
//! read, or when reading it has been given up. An item that the input is too short for uses up what
//! is left of it.
use crate::constants::{MAX_ARRAY_LEN, MAX_DIMENSION, MAX_HEADER_BYTES, MAX_METADATA_BYTES};
use crate::error::StringContext;
use crate::grammar::{
    description_at, has_name, product, scalar_at, shape_at, size_at, size_width,
    string_at, typed_value_at, uint_at, value_type_at, value_width, Dialect,
};
use crate::types::MetadataValueType;
use crate::value::{TensorView, ValueView};
use vstd::prelude::*;

verus! {

/// Behind a number of `width` bytes.
pub open spec fn uint_stop(width: nat, s: Seq<u8>, pos: int) -> int {
    if pos + width <= s.len() {
        pos + width
    } else {
        s.len() as int
    }
}

/// Behind a string: a length that is refused is the last that is read of it.
pub open spec fn string_stop(d: Dialect, context: StringContext, s: Seq<u8>, pos: int) -> int {
    match size_at(d, s, pos) {
        Err(_) => uint_stop(size_width(d), s, pos),
        Ok((len, p)) => if (len == 0 && !context.allows_empty()) || len > context.cap() {
            p
        } else {
            uint_stop(len, s, p)
        },
    }
}

/// Behind a value of type `t` where no array may stand; of an array nothing is read.
pub open spec fn scalar_stop(
    d: Dialect,
    t: MetadataValueType,
    context: StringContext,
    s: Seq<u8>,
    pos: int,
) -> int {
    match t {
        MetadataValueType::String => string_stop(d, context, s, pos),
        MetadataValueType::Array => pos,
        _ => uint_stop(value_width(t), s, pos),
    }
}

/// Behind the items from number `i` on of an array of `len` items.
pub open spec fn items_stop(
    d: Dialect,
    t: MetadataValueType,
    len: nat,
    i: nat,
    s: Seq<u8>,
    pos: int,
) -> int
    decreases len - i,
{
    if i >= len {
        pos
    } else {
        match scalar_at(d, t, StringContext::ArrayItem, s, pos) {
            Err(_) => scalar_stop(d, t, StringContext::ArrayItem, s, pos),
            Ok((_, p)) => if p > MAX_METADATA_BYTES {
                p
            } else {
                items_stop(d, t, len, i + 1, s, p)
            },
        }
    }
}

/// Behind an array.
pub open spec fn array_stop(d: Dialect, s: Seq<u8>, pos: int) -> int {
    match value_type_at(d, s, pos) {
        Err(_) => uint_stop(4, s, pos),
        Ok((t, p)) => match size_at(d, s, p) {
            Err(_) => uint_stop(size_width(d), s, p),
            Ok((len, q)) => if len > MAX_ARRAY_LEN {
                q
            } else {
                items_stop(d, t, len, 0, s, q)
            },
        },
    }
}

/// Behind a value that is preceded by the number of its type.
pub open spec fn typed_value_stop(d: Dialect, s: Seq<u8>, pos: int) -> int {
    match value_type_at(d, s, pos) {
        Err(_) => uint_stop(4, s, pos),
        Ok((t, p)) => if t is Array {
            array_stop(d, s, p)
        } else {
            scalar_stop(d, t, StringContext::MetadataValue, s, p)
        },
    }
}

/// Behind `n` more key-value pairs.
pub open spec fn kvs_stop(
    d: Dialect,
    n: nat,
    done: Map<Seq<char>, ValueView>,
    s: Seq<u8>,
    pos: int,
) -> int
    decreases n,
{
    if n == 0 {
        pos
    } else {
        match string_at(d, StringContext::MetadataKey, s, pos) {
            Err(_) => string_stop(d, StringContext::MetadataKey, s, pos),
            Ok((key, p)) => if done.contains_key(key) {
                p
            } else {
                match typed_value_at(d, s, p) {
                    Err(_) => typed_value_stop(d, s, p),
                    Ok((value, q)) => if q > MAX_METADATA_BYTES {
                        q
                    } else {
                        kvs_stop(d, (n - 1) as nat, done.insert(key, value), s, q)
                    },
                }
            },
        }
    }
}

/// Behind `count` dimensions, of which `done` have been read.
pub open spec fn dims_stop(d: Dialect, count: nat, done: Seq<u64>, s: Seq<u8>, pos: int) -> int
    decreases count - done.len(),
{
    if done.len() >= count {
        pos
    } else {
        match uint_at(d.order, 8, s, pos) {
            Err(_) => uint_stop(8, s, pos),
            Ok((dim, p)) => if dim == 0 || dim > MAX_DIMENSION || product(done) * dim > u64::MAX {
                p
            } else {
                dims_stop(d, count, done.push(dim as u64), s, p)
            },
        }
    }
}

/// Behind the dimensions of a tensor.
pub open spec fn shape_stop(d: Dialect, s: Seq<u8>, pos: int) -> int {
    match uint_at(d.order, 4, s, pos) {
        Err(_) => uint_stop(4, s, pos),
        Ok((count, p)) => if count == 0 || count > 4 {
            p
        } else {
            dims_stop(d, count, Seq::empty(), s, p)
        },
    }
}

/// Behind the description of the tensor `name`.
pub open spec fn description_stop(d: Dialect, name: Seq<char>, s: Seq<u8>, pos: int) -> int {
    match shape_at(d, name, s, pos) {
        Err(_) => shape_stop(d, s, pos),
        Ok((_, p)) => match uint_at(d.order, 4, s, p) {
            Err(_) => uint_stop(4, s, p),
            Ok((_, q)) => uint_stop(8, s, q),
        },
    }
}

/// Behind `n` tensor descriptions, of which `done` have been read.
pub open spec fn tensors_stop(
    d: Dialect,
    alignment: u64,
    n: nat,
    done: Seq<TensorView>,
    s: Seq<u8>,
    pos: int,
) -> int
    decreases n - done.len(),
{
    if done.len() >= n {
        pos
    } else {
        match string_at(d, StringContext::TensorName, s, pos) {
            Err(_) => string_stop(d, StringContext::TensorName, s, pos),
            Ok((name, p)) => if has_name(done, name) {
                p
            } else {
                match description_at(d, alignment, name, s, p) {
                    Err(_) => description_stop(d, name, s, p),
                    Ok((tensor, q)) => if q > MAX_HEADER_BYTES {
                        q
                    } else {
                        tensors_stop(d, alignment, n, done.push(tensor), s, q)
                    },
                }
            },
        }
    }
}

} // verus!
