//! Shapes, sizes and parameter counts.
use crate::endian::{uint_value, ByteOrder};
use crate::grammar::{dims_at, padded, product, shape_at, total_elements, uint_at, Dialect};
use crate::laws::contents::sound_tensor;
use crate::tensors::{
    lemma_byte_size, lemma_layout_bounds, lemma_product_of_four, lemma_sound_products,
};
use crate::types::{ggml_type_of, layout_of};
use crate::value::TensorView;
use vstd::prelude::*;

verus! {

/// The number of elements of a tensor of four dimensions.
pub open spec fn elements(shape: Seq<u64>) -> int {
    shape[0] * shape[1] * shape[2] * shape[3]
}

/// Nothing multiplied is one, and one more factor multiplies.
pub proof fn law_product(dims: Seq<u64>, dim: u64)
    ensures
        product(Seq::<u64>::empty()) == 1,
        product(dims.push(dim)) == product(dims) * dim,
{
    assert(dims.push(dim).drop_last() =~= dims);
}

/// A shape has four entries: the dimensions in their order, and ones behind them.
pub proof fn law_padded(dims: Seq<u64>, i: int)
    requires
        dims.len() <= 4,
        0 <= i < 4,
    ensures
        padded(dims).len() == 4,
        padded(dims)[i] == if i < dims.len() {
            dims[i]
        } else {
            1
        },
{
}

/// Whether the number `n` stands at `pos`, in `width` bytes.
pub open spec fn number_at(order: ByteOrder, width: nat, s: Seq<u8>, pos: int, n: int) -> bool {
    &&& 0 <= pos
    &&& pos + width <= s.len()
    &&& uint_value(order, s.subrange(pos, pos + width)) == n
}

/// Dimensions are read in the order in which they stand, eight bytes each, and none is left out.
pub proof fn lemma_dims_order(
    d: Dialect,
    name: Seq<char>,
    count: nat,
    done: Seq<u64>,
    s: Seq<u8>,
    pos: int,
)
    requires
        0 <= pos,
        done.len() <= count,
    ensures
        dims_at(d, name, count, done, s, pos) matches Ok((dims, _)) ==> {
            &&& dims.len() == count
            &&& dims.take(done.len() as int) == done
            &&& forall|i: int|
                done.len() <= i < count ==> number_at(
                    d.order,
                    8,
                    s,
                    pos + 8 * (i - done.len()),
                    #[trigger] dims[i] as int,
                )
        },
    decreases count - done.len(),
{
    if done.len() < count {
        if let Ok((dim, p)) = uint_at(d.order, 8, s, pos) {
            let more = done.push(dim as u64);
            lemma_dims_order(d, name, count, more, s, p);
            if let Ok((dims, _)) = dims_at(d, name, count, more, s, p) {
                if dims_at(d, name, count, done, s, pos) is Ok {
                    assert(dims.take(more.len() as int)[done.len() as int] == dim);
                    assert(dims.take(done.len() as int) =~= dims.take(more.len() as int).take(
                        done.len() as int,
                    ));
                    assert(more.take(done.len() as int) =~= done);
                    assert forall|i: int| done.len() <= i < count implies number_at(
                        d.order,
                        8,
                        s,
                        pos + 8 * (i - done.len()),
                        #[trigger] dims[i] as int,
                    ) by {
                        if i > done.len() {
                            assert(p + 8 * (i - more.len()) == pos + 8 * (i - done.len()));
                        }
                    }
                }
            }
        }
    } else if dims_at(d, name, count, done, s, pos) is Ok {
        assert(done.take(done.len() as int) =~= done);
    }
}

/// A shape that is read has, in the order of the bytes, the dimensions that are written behind
/// their number, and ones in place of those that are not.
pub proof fn law_shape_follows_the_bytes(d: Dialect, name: Seq<char>, s: Seq<u8>, pos: int, i: int)
    requires
        0 <= pos,
        0 <= i < 4,
    ensures
        shape_at(d, name, s, pos) matches Ok((shape, _)) ==> {
            let count = uint_value(d.order, s.subrange(pos, pos + 4));
            &&& number_at(d.order, 4, s, pos, count as int)
            &&& 1 <= count <= 4
            &&& shape.len() == 4
            &&& i < count ==> number_at(d.order, 8, s, pos + 4 + 8 * i, shape[i] as int)
            &&& i >= count ==> shape[i] == 1
        },
{
    if let Ok((count, p)) = uint_at(d.order, 4, s, pos) {
        if 1 <= count <= 4 {
            lemma_dims_order(d, name, count, Seq::empty(), s, p);
            if let Ok((dims, _)) = dims_at(d, name, count, Seq::empty(), s, p) {
                law_padded(dims, i);
                assert(p + 8 * i == pos + 4 + 8 * i);
                if i < count {
                    assert(dims[i] == padded(dims)[i]);
                }
            }
        }
    }
}

/// The parameter count of no tensors is nothing, and one more tensor, of whatever type, raises it
/// by the product of its four dimensions.
pub proof fn law_parameter_count(tensors: Seq<TensorView>, t: TensorView)
    requires
        t.shape.len() == 4,
    ensures
        total_elements(Seq::<TensorView>::empty()) == 0,
        total_elements(tensors.push(t)) == total_elements(tensors) + elements(t.shape),
{
    assert(tensors.push(t).drop_last() =~= tensors);
    lemma_product_of_four(t.shape);
    let (a, b, c, d) = (
        t.shape[0] as int,
        t.shape[1] as int,
        t.shape[2] as int,
        t.shape[3] as int,
    );
    assert(a * (b * c * d) == a * b * c * d) by (nonlinear_arith);
}

/// The parameter count depends on the shapes alone.
pub proof fn law_parameter_count_of_shapes(x: Seq<TensorView>, y: Seq<TensorView>)
    requires
        x.len() == y.len(),
        forall|i: int| 0 <= i < x.len() ==> (#[trigger] x[i]).shape == y[i].shape,
    ensures
        total_elements(x) == total_elements(y),
    decreases x.len(),
{
    if x.len() > 0 {
        let (v, w) = (x.drop_last(), y.drop_last());
        assert forall|i: int| 0 <= i < v.len() implies (#[trigger] v[i]).shape == w[i].shape by {
            assert(x[i].shape == y[i].shape);
        }
        law_parameter_count_of_shapes(v, w);
        assert(x[x.len() - 1].shape == y[x.len() - 1].shape);
    }
}

/// The data of a tensor that is accepted takes its type's bytes to a block for each block of its
/// elements.
pub proof fn law_tensor_size(alignment: u64, t: TensorView)
    requires
        sound_tensor(alignment, t),
    ensures
        t.shape.len() == 4,
        forall|i: int| 0 <= i < 4 ==> 1 <= #[trigger] t.shape[i] <= 0x4000_0000,
        elements(t.shape) <= 0x100_0000_0000,
        ggml_type_of(t.kind) matches Some(kind) && layout_of(kind) matches Some(
            (block, block_bytes),
        ) && t.size * block == elements(t.shape) * block_bytes,
        t.offset % alignment == 0,
{
    let kind = ggml_type_of(t.kind)->0;
    lemma_layout_bounds(kind);
    let (block, block_bytes) = layout_of(kind)->0;
    lemma_byte_size(t.shape, block, block_bytes);
    lemma_sound_products(t.shape);
    let (a, b, c, d) = (
        t.shape[0] as int,
        t.shape[1] as int,
        t.shape[2] as int,
        t.shape[3] as int,
    );
    assert(a * (b * c * d) == a * b * c * d) by (nonlinear_arith);
    let rows = b * c * d;
    let blocks = a / block as int;
    assert(blocks * block == a) by (nonlinear_arith)
        requires
            a % (block as int) == 0,
            block >= 1,
            blocks == a / block as int,
    ;
    assert((blocks * block_bytes * rows) * block == (blocks * block) * rows * block_bytes)
        by (nonlinear_arith);
}

} // verus!
