//! What written tensor descriptions are read as, and why they are refused.
use crate::constants::MAX_HEADER_BYTES;
use crate::error::{GGUFError, ReadError, StringContext, TensorFault};
use crate::grammar::{
    byte_size, description_at, dims_at, has_name, padded, product, shape_at, string_at, tensors_at,
    Dialect,
};
use crate::laws::encoding::{
    description_bytes, dims_bytes, lemma_ranges, lemma_stands_split, lemma_uint_bytes_lens,
    lemma_uint_read, stands_at, tensors_bytes, text_bytes, uint_bytes, written_tensor, RawTensor,
};
use crate::laws::measures::law_padded;
use crate::laws::reading::{fit_text, law_texts_are_read, text_fault};
use crate::laws::round_trip::lemma_product_of_some;
use crate::tensors::{lemma_byte_size, lemma_layout_bounds, lemma_padded, lemma_product_of_four};
use crate::types::{ggml_type_of, layout_of};
use crate::value::TensorView;
use vstd::prelude::*;
use vstd::utf8::decode_utf8;

verus! {

/// Dimension number `k` of those that are written; the others are one.
pub open spec fn dim(dims: Seq<u64>, k: int) -> int {
    if k < dims.len() {
        dims[k] as int
    } else {
        1
    }
}

/// The number of elements of a tensor of those dimensions.
pub open spec fn count(dims: Seq<u64>) -> int {
    dim(dims, 0) * dim(dims, 1) * dim(dims, 2) * dim(dims, 3)
}

/// Whether the dimensions may be those of a tensor: one to four, none of them zero or above a
/// billion or so, and not more than a trillion or so of elements.
pub open spec fn fit_dims(dims: Seq<u64>) -> bool {
    &&& 1 <= dims.len() <= 4
    &&& forall|k: int| 0 <= k < dims.len() ==> 1 <= #[trigger] dims[k] <= 1_073_741_824
    &&& count(dims) <= 1_099_511_627_776
}

/// Whether the dimensions in front of number `k` may be those of a tensor, as far as they go.
pub open spec fn fit_before(dims: Seq<u64>, k: int) -> bool {
    &&& 1 <= dims.len() <= 4
    &&& 0 <= k < dims.len()
    &&& forall|j: int| 0 <= j < k ==> 1 <= #[trigger] dims[j] <= 1_073_741_824
    &&& product(dims.take(k)) <= u64::MAX
}

/// Whether the fault says what is wrong with the dimensions: with their number, with the first that is
/// wrong, or with all of them together.
pub open spec fn dims_fault(dims: Seq<u64>, fault: TensorFault) -> bool {
    match fault {
        TensorFault::DimensionCount(n) => n == dims.len() && !(1 <= n <= 4),
        TensorFault::ZeroDimension => exists|k: int| #[trigger]
            fit_before(dims, k) && dims[k] == 0,
        TensorFault::DimensionTooLarge(n) => exists|k: int| #[trigger]
            fit_before(dims, k) && dims[k] == n && n > 1_073_741_824,
        TensorFault::ElementOverflow => exists|k: int| #[trigger]
            fit_before(dims, k) && 1 <= dims[k] <= 1_073_741_824 && product(dims.take(k)) * dims[k]
                > u64::MAX,
        TensorFault::TooManyElements(n) => {
            &&& 1 <= dims.len() <= 4
            &&& forall|k: int| 0 <= k < dims.len() ==> 1 <= #[trigger] dims[k] <= 1_073_741_824
            &&& n == count(dims)
            &&& n > 1_099_511_627_776
        },
        _ => false,
    }
}

proof fn lemma_count(dims: Seq<u64>)
    requires
        dims.len() <= 4,
    ensures
        product(dims) == count(dims),
{
    lemma_padded(dims);
    let shape = padded(dims);
    law_padded(dims, 0);
    law_padded(dims, 1);
    law_padded(dims, 2);
    law_padded(dims, 3);
    lemma_product_of_four(shape);
    let (a, b, c, d) = (shape[0] as int, shape[1] as int, shape[2] as int, shape[3] as int);
    assert(a * (b * c * d) == a * b * c * d) by (nonlinear_arith);
}

proof fn lemma_dims(
    d: Dialect,
    name: Seq<char>,
    dims: Seq<u64>,
    i: nat,
    s: Seq<u8>,
    pos: int,
)
    requires
        i <= dims.len(),
        1 <= dims.len() <= 4,
        forall|k: int| 0 <= k < i ==> 1 <= #[trigger] dims[k] <= 1_073_741_824,
        product(dims.take(i as int)) <= u64::MAX,
        stands_at(s, pos, dims_bytes(d.order, dims.skip(i as int))),
    ensures
        dims_bytes(d.order, dims.skip(i as int)).len() == 8 * (dims.len() - i),
        ({
            let end = pos + 8 * (dims.len() - i);
            let r = dims_at(d, name, dims.len(), dims.take(i as int), s, pos);
            &&& r is Ok <==> {
                &&& forall|k: int| 0 <= k < dims.len() ==> 1 <= #[trigger] dims[k] <= 1_073_741_824
                &&& product(dims) <= u64::MAX
                &&& end <= s.len()
            }
            &&& match r {
                Ok((all, p)) => all == dims && p == end,
                Err(e) => {
                    ||| e matches GGUFError::Tensor(of, fault) && of == name && dims_fault(
                        dims,
                        fault,
                    )
                    ||| e == GGUFError::<Seq<char>>::Read(ReadError::UnexpectedEof) && end
                        > s.len()
                },
            }
        }),
    decreases dims.len() - i,
{
    let done = dims.take(i as int);
    let rest = dims.skip(i as int);
    lemma_uint_bytes_lens();
    if i < dims.len() {
        let n = dims[i as int];
        assert(rest[0] == n);
        let front = uint_bytes(d.order, n as nat, 8);
        let tail = rest.skip(1);
        assert(tail =~= dims.skip(i as int + 1));
        lemma_stands_split(s, pos, front, dims_bytes(d.order, tail));
        lemma_ranges();
        lemma_uint_read(d.order, n as nat, 8, s, pos);
        lemma_dims_len(d, tail);
        let more = dims.take(i as int + 1);
        assert(done.push(n) =~= more);
        assert(more.drop_last() =~= done);
        assert(fit_before(dims, i as int));
        if pos + 8 <= s.len() && 1 <= n <= 1_073_741_824 {
            if product(more) <= u64::MAX {
                lemma_dims(d, name, dims, i + 1, s, pos + 8);
            } else if forall|k: int|
                0 <= k < dims.len() ==> 1 <= #[trigger] dims[k] <= 1_073_741_824 {
                lemma_product_of_some(dims, i + 1);
            }
        }
    } else {
        assert(done =~= dims);
    }
}

proof fn lemma_dims_len(d: Dialect, dims: Seq<u64>)
    ensures
        dims_bytes(d.order, dims).len() == 8 * dims.len(),
    decreases dims.len(),
{
    lemma_uint_bytes_lens();
    if dims.len() > 0 {
        lemma_dims_len(d, dims.skip(1));
    }
}

/// Written dimensions behind their number are accepted exactly if they may be those of a tensor and
/// the input goes that far. They are then read in their order, with ones behind them.
pub proof fn law_shapes_are_read(
    d: Dialect,
    name: Seq<char>,
    dims: Seq<u64>,
    s: Seq<u8>,
    pos: int,
)
    requires
        dims.len() < 0x1_0000_0000,
        stands_at(s, pos, uint_bytes(d.order, dims.len(), 4) + dims_bytes(d.order, dims)),
    ensures
        ({
            let end = pos + 4 + 8 * dims.len();
            let r = shape_at(d, name, s, pos);
            &&& r is Ok <==> fit_dims(dims) && end <= s.len()
            &&& match r {
                Ok((shape, p)) => {
                    &&& p == end
                    &&& shape.len() == 4
                    &&& forall|k: int| 0 <= k < 4 ==> #[trigger] shape[k] == dim(dims, k)
                },
                Err(e) => {
                    ||| e matches GGUFError::Tensor(of, fault) && of == name && dims_fault(
                        dims,
                        fault,
                    )
                    ||| e == GGUFError::<Seq<char>>::Read(ReadError::UnexpectedEof) && end
                        > s.len()
                },
            }
        }),
{
    lemma_ranges();
    lemma_uint_bytes_lens();
    lemma_stands_split(s, pos, uint_bytes(d.order, dims.len(), 4), dims_bytes(d.order, dims));
    lemma_uint_read(d.order, dims.len(), 4, s, pos);
    if pos + 4 <= s.len() && 1 <= dims.len() <= 4 {
        assert(dims.skip(0) =~= dims);
        assert(dims.take(0) =~= Seq::empty());
        lemma_dims(d, name, dims, 0, s, pos + 4);
        lemma_count(dims);
        assert forall|k: int| 0 <= k < 4 implies #[trigger] padded(dims)[k] == dim(dims, k) by {
            law_padded(dims, k);
        }
    }
}

/// Whether a written tensor description is one of a tensor, if tensor data is aligned to `alignment`:
/// its type has a layout, its rows are whole blocks, and its data is aligned.
pub open spec fn fit_tensor(alignment: u64, t: RawTensor) -> bool {
    &&& fit_dims(t.dims)
    &&& ggml_type_of(t.kind) matches Some(kind)
    &&& layout_of(kind) matches Some((block, _))
    &&& t.dims[0] % block == 0
    &&& t.offset % alignment == 0
}

/// Whether the tensor is the one that is written: its size is that of its blocks.
pub open spec fn told_tensor(t: RawTensor, v: TensorView) -> bool {
    &&& v.name == decode_utf8(t.name)
    &&& v.kind == t.kind
    &&& v.offset == t.offset
    &&& v.shape.len() == 4
    &&& forall|k: int| 0 <= k < 4 ==> #[trigger] v.shape[k] == dim(t.dims, k)
    &&& ggml_type_of(t.kind) matches Some(kind)
    &&& layout_of(kind) matches Some((block, block_bytes))
    &&& v.size * block == count(t.dims) * block_bytes
    &&& v.size > 0
}

/// Whether the error says what is wrong with the description of the tensor `name`: with its
/// dimensions, or with its type, or with its rows, or with where its data stands.
pub open spec fn tensor_fault(
    alignment: u64,
    name: Seq<char>,
    t: RawTensor,
    e: GGUFError<Seq<char>>,
) -> bool {
    match e {
        GGUFError::InvalidTensorType => fit_dims(t.dims) && ggml_type_of(t.kind) is None,
        GGUFError::UnsupportedTensorType => fit_dims(t.dims) && ggml_type_of(t.kind) is Some
            && layout_of(ggml_type_of(t.kind)->0) is None,
        GGUFError::Tensor(of, TensorFault::RowWidth { row, block }) => {
            &&& of == name
            &&& fit_dims(t.dims)
            &&& row == t.dims[0]
            &&& ggml_type_of(t.kind) matches Some(kind)
            &&& layout_of(kind) matches Some((size, _))
            &&& block == size
            &&& row % block != 0
        },
        GGUFError::Tensor(of, TensorFault::Unaligned { offset, alignment: to }) => {
            &&& of == name
            &&& fit_dims(t.dims)
            &&& ggml_type_of(t.kind) matches Some(kind)
            &&& layout_of(kind) matches Some((size, _))
            &&& t.dims[0] % size == 0
            &&& offset == t.offset
            &&& to == alignment
            &&& offset % alignment != 0
        },
        GGUFError::Tensor(of, fault) => of == name && dims_fault(t.dims, fault),
        _ => false,
    }
}

proof fn lemma_size(shape: Seq<u64>, dims: Seq<u64>, block: u64, block_bytes: u64)
    requires
        fit_dims(dims),
        shape.len() == 4,
        forall|k: int| 0 <= k < 4 ==> #[trigger] shape[k] == dim(dims, k),
        1 <= block,
        1 <= block_bytes <= 8 * block,
        shape[0] % block == 0,
    ensures
        0 < byte_size(shape, block, block_bytes) <= u64::MAX,
        byte_size(shape, block, block_bytes) * block == count(dims) * block_bytes,
{
    assert(shape =~= padded(dims)) by {
        assert forall|k: int| 0 <= k < 4 implies shape[k] == padded(dims)[k] by {
            law_padded(dims, k);
        }
    }
    lemma_padded(dims);
    lemma_count(dims);
    lemma_byte_size(shape, block, block_bytes);
    let (a, b, c, d) = (shape[0] as int, shape[1] as int, shape[2] as int, shape[3] as int);
    let rows = b * c * d;
    let blocks = a / block as int;
    assert(blocks * block == a) by (nonlinear_arith)
        requires
            a % (block as int) == 0,
            block >= 1,
            blocks == a / block as int,
    ;
    assert((blocks * block_bytes * rows) * block == (blocks * block) * rows * block_bytes)
        by (nonlinear_arith);
    assert(a * rows == a * b * c * d) by (nonlinear_arith)
        requires
            rows == b * c * d,
    ;
    assert(byte_size(shape, block, block_bytes) == blocks * block_bytes * rows);
}

/// A written tensor description is accepted exactly if it is one of a tensor and the input goes that
/// far. It is then read as it is written. Otherwise it is refused for what is wrong with it, or
/// because the input ends.
pub proof fn law_descriptions_are_read(
    d: Dialect,
    alignment: u64,
    t: RawTensor,
    s: Seq<u8>,
    pos: int,
)
    requires
        alignment > 0,
        t.dims.len() < 0x1_0000_0000,
        stands_at(s, pos, description_bytes(d.order, t)),
    ensures
        description_bytes(d.order, t).len() == 16 + 8 * t.dims.len(),
        ({
            let end = pos + 16 + 8 * t.dims.len();
            let name = decode_utf8(t.name);
            let r = description_at(d, alignment, name, s, pos);
            &&& r is Ok <==> fit_tensor(alignment, t) && end <= s.len()
            &&& match r {
                Ok((v, p)) => p == end && told_tensor(t, v),
                Err(e) => {
                    ||| tensor_fault(alignment, name, t, e)
                    ||| e == GGUFError::<Seq<char>>::Read(ReadError::UnexpectedEof) && end
                        > s.len()
                },
            }
        }),
{
    let name = decode_utf8(t.name);
    let first = uint_bytes(d.order, t.dims.len(), 4);
    let second = dims_bytes(d.order, t.dims);
    let third = uint_bytes(d.order, t.kind as nat, 4);
    let fourth = uint_bytes(d.order, t.offset as nat, 8);
    lemma_ranges();
    lemma_uint_bytes_lens();
    lemma_dims_len(d, t.dims);
    assert(first + (second + (third + fourth)) =~= (first + second) + (third + fourth));
    lemma_stands_split(s, pos, first + second, third + fourth);
    law_shapes_are_read(d, name, t.dims, s, pos);
    if let Ok((shape, p)) = shape_at(d, name, s, pos) {
        lemma_stands_split(s, p, third, fourth);
        lemma_uint_read(d.order, t.kind as nat, 4, s, p);
        if p + 4 <= s.len() {
            lemma_uint_read(d.order, t.offset as nat, 8, s, p + 4);
        }
        assert(shape[0] == dim(t.dims, 0));
        if let Some(kind) = ggml_type_of(t.kind) {
            if let Some((block, block_bytes)) = layout_of(kind) {
                lemma_layout_bounds(kind);
                if shape[0] % block == 0 {
                    lemma_size(shape, t.dims, block, block_bytes);
                }
            }
        }
    }
}

/// Whether tensor number `j` has that name.
pub open spec fn is_named(tensors: Seq<RawTensor>, j: int, name: Seq<char>) -> bool {
    0 <= j < tensors.len() && decode_utf8(tensors[j].name) == name
}

/// Whether one of the first `n` tensors has that name.
pub open spec fn named(tensors: Seq<RawTensor>, n: int, name: Seq<char>) -> bool {
    exists|j: int| j < n && #[trigger] is_named(tensors, j, name)
}

/// Whether the description of tensor number `j` may stand behind those that stand there.
pub open spec fn fit_description(alignment: u64, tensors: Seq<RawTensor>, j: int) -> bool {
    &&& fit_text(StringContext::TensorName, tensors[j].name)
    &&& !named(tensors, j, decode_utf8(tensors[j].name))
    &&& fit_tensor(alignment, tensors[j])
}

/// Whether the first tensors are those that are written, in their order.
pub open spec fn told_tensors(tensors: Seq<RawTensor>, views: Seq<TensorView>) -> bool {
    &&& views.len() <= tensors.len()
    &&& forall|j: int| 0 <= j < views.len() ==> told_tensor(tensors[j], #[trigger] views[j])
}

/// Whether the error says what is wrong with the description of tensor number `j`, the first that is
/// wrong: with its name, or that its name stands there already, or with the rest.
pub open spec fn description_fault(
    alignment: u64,
    tensors: Seq<RawTensor>,
    j: int,
    e: GGUFError<Seq<char>>,
) -> bool {
    let name = decode_utf8(tensors[j].name);
    let sound = fit_text(StringContext::TensorName, tensors[j].name);
    &&& 0 <= j < tensors.len()
    &&& forall|k: int| 0 <= k < j ==> #[trigger] fit_description(alignment, tensors, k)
    &&& match e {
        GGUFError::Read(r) => text_fault(StringContext::TensorName, tensors[j].name, r),
        GGUFError::DuplicateTensor(of) => sound && of == name && named(tensors, j, name),
        _ => sound && !named(tensors, j, name) && tensor_fault(alignment, name, tensors[j], e),
    }
}

/// What reading the descriptions from number `i` on comes to, which take the bytes up to `end`.
pub open spec fn descriptions_read(
    alignment: u64,
    tensors: Seq<RawTensor>,
    i: int,
    available: int,
    end: int,
    r: Result<(Seq<TensorView>, int), GGUFError<Seq<char>>>,
) -> bool {
    &&& r is Ok <==> {
        &&& forall|j: int|
            i <= j < tensors.len() ==> #[trigger] fit_description(alignment, tensors, j)
        &&& end <= available
        &&& i < tensors.len() ==> end <= 134_217_728
    }
    &&& match r {
        Ok((views, p)) => p == end && told_tensors(tensors, views) && views.len()
            == tensors.len(),
        Err(e) => {
            ||| exists|j: int| #[trigger] description_fault(alignment, tensors, j, e)
            ||| e is HeaderTooLarge && end > 134_217_728
            ||| e == GGUFError::<Seq<char>>::Read(ReadError::UnexpectedEof) && end > available
        },
    }
}

proof fn lemma_names(tensors: Seq<RawTensor>, done: Seq<TensorView>, name: Seq<char>)
    requires
        told_tensors(tensors, done),
    ensures
        has_name(done, name) <==> named(tensors, done.len() as int, name),
{
    if has_name(done, name) {
        let j = choose|j: int| 0 <= j < done.len() && (#[trigger] done[j]).name == name;
        assert(is_named(tensors, j, name));
    }
    if named(tensors, done.len() as int, name) {
        let j = choose|j: int| j < done.len() && #[trigger] is_named(tensors, j, name);
        assert(done[j].name == name);
    }
}

proof fn lemma_descriptions(
    d: Dialect,
    alignment: u64,
    tensors: Seq<RawTensor>,
    done: Seq<TensorView>,
    s: Seq<u8>,
    pos: int,
)
    requires
        alignment > 0,
        forall|j: int| 0 <= j < tensors.len() ==> written_tensor(d.wide, #[trigger] tensors[j]),
        told_tensors(tensors, done),
        forall|j: int| 0 <= j < done.len() ==> #[trigger] fit_description(alignment, tensors, j),
        stands_at(s, pos, tensors_bytes(d.order, d.wide, tensors.skip(done.len() as int))),
    ensures
        descriptions_read(
            alignment,
            tensors,
            done.len() as int,
            s.len() as int,
            pos + tensors_bytes(d.order, d.wide, tensors.skip(done.len() as int)).len(),
            tensors_at(d, alignment, tensors.len(), done, s, pos),
        ),
    decreases tensors.len() - done.len(),
{
    let i = done.len() as int;
    let raws = tensors.skip(i);
    if i < tensors.len() {
        lemma_ranges();
        let t = tensors[i];
        assert(raws[0] == t);
        let front = text_bytes(d.order, d.wide, t.name);
        let middle = description_bytes(d.order, t);
        let tail = raws.skip(1);
        assert(tail =~= tensors.skip(i + 1));
        let back = tensors_bytes(d.order, d.wide, tail);
        lemma_stands_split(s, pos, front, middle + back);
        law_texts_are_read(d, StringContext::TensorName, t.name, s, pos);
        let r = tensors_at(d, alignment, tensors.len(), done, s, pos);
        lemma_names(tensors, done, decode_utf8(t.name));
        match string_at(d, StringContext::TensorName, s, pos) {
            Ok((name, p)) => {
                lemma_stands_split(s, p, middle, back);
                law_descriptions_are_read(d, alignment, t, s, p);
                if has_name(done, name) {
                    assert(!fit_description(alignment, tensors, i));
                    assert(description_fault(alignment, tensors, i, r->Err_0));
                } else {
                    match description_at(d, alignment, name, s, p) {
                        Ok((tensor, q)) => if q <= MAX_HEADER_BYTES {
                            assert(fit_description(alignment, tensors, i));
                            lemma_descriptions(d, alignment, tensors, done.push(tensor), s, q);
                        },
                        Err(e) => {
                            assert(!fit_tensor(alignment, t) ==> !fit_description(
                                alignment,
                                tensors,
                                i,
                            ));
                            if tensor_fault(alignment, name, t, e) {
                                assert(description_fault(alignment, tensors, i, r->Err_0));
                            }
                        },
                    }
                }
            },
            Err(e) => {
                assert(!fit_text(StringContext::TensorName, t.name) ==> !fit_description(
                    alignment,
                    tensors,
                    i,
                ));
                if text_fault(StringContext::TensorName, t.name, e) {
                    assert(description_fault(alignment, tensors, i, r->Err_0));
                }
            },
        }
    }
}

/// Written tensor descriptions are accepted exactly if each may stand there behind the others and all
/// of them end within the input and the cap. They are then read as they are written. Otherwise they
/// are refused for what is wrong with one of them, or because the input or the cap ends.
pub proof fn law_tensors_are_read(
    d: Dialect,
    alignment: u64,
    tensors: Seq<RawTensor>,
    s: Seq<u8>,
    pos: int,
)
    requires
        alignment > 0,
        forall|j: int| 0 <= j < tensors.len() ==> written_tensor(d.wide, #[trigger] tensors[j]),
        stands_at(s, pos, tensors_bytes(d.order, d.wide, tensors)),
    ensures
        descriptions_read(
            alignment,
            tensors,
            0,
            s.len() as int,
            pos + tensors_bytes(d.order, d.wide, tensors).len(),
            tensors_at(d, alignment, tensors.len(), Seq::empty(), s, pos),
        ),
{
    assert(tensors.skip(0) =~= tensors);
    lemma_descriptions(d, alignment, tensors, Seq::empty(), s, pos);
}

} // verus!
