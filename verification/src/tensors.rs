//! Tensor descriptions, and where their data stands.
use crate::constants::{MAX_DIMENSION, MAX_ELEMENTS, MAX_HEADER_BYTES, MAX_TENSORS};
use crate::error::{GGUFError, StringContext, TensorFault};
use crate::grammar::{
    byte_size, check_ranges, data_ranges, description_at, dims_at, first_overlap, first_range_fault,
    has_name, padded, product, range_leq, range_order, shape_at, sorted_ranges, tensor_size,
    tensors_at, total_elements, Dialect, InputBounds,
};
use crate::progress::{description_stop, dims_stop, shape_stop, tensors_stop};
use crate::reader::CountingReader;
use crate::types::{ggml_type_layout, layout_of, GGMLType};
use crate::value::{tensor_views, Tensor, TensorView};
use vstd::hash_set::StringHashSet;
use vstd::prelude::*;
use vstd::relations::{sorted_by, total_ordering};

verus! {

/// The shapes that are read: four dimensions, none of them zero or too large, and not too many
/// elements.
pub open spec fn sound_shape(shape: Seq<u64>) -> bool {
    &&& shape.len() == 4
    &&& forall|i: int| 0 <= i < 4 ==> 1 <= #[trigger] shape[i] <= MAX_DIMENSION
    &&& product(shape) <= MAX_ELEMENTS
}

/// Filling up with ones keeps the product.
pub proof fn lemma_padded(dims: Seq<u64>)
    requires
        dims.len() <= 4,
    ensures
        padded(dims).len() == 4,
        product(padded(dims)) == product(dims),
    decreases 4 - dims.len(),
{
    if dims.len() == 4 {
        assert(padded(dims) =~= dims);
    } else {
        let more = dims.push(1);
        assert(padded(dims) =~= padded(more));
        lemma_padded(more);
        assert(more.drop_last() =~= dims);
        assert(product(dims) * 1 == product(dims));
    }
}

/// The product of four numbers.
pub proof fn lemma_product_of_four(shape: Seq<u64>)
    requires
        shape.len() == 4,
    ensures
        product(shape) == shape[0] * (shape[1] * shape[2] * shape[3]),
{
    let none = Seq::<u64>::empty();
    let one = none.push(shape[0]);
    let two = one.push(shape[1]);
    let three = two.push(shape[2]);
    assert(three.push(shape[3]) =~= shape);
    assert(shape.drop_last() =~= three);
    assert(three.drop_last() =~= two);
    assert(two.drop_last() =~= one);
    assert(one.drop_last() =~= none);
    let (a, b, c, d) = (shape[0] as nat, shape[1] as nat, shape[2] as nat, shape[3] as nat);
    assert(product(none) == 1);
    assert(product(one) == product(none) * a);
    assert(1 * a == a);
    assert(product(two) == a * b);
    assert(product(three) == a * b * c);
    assert(a * b * c * d == a * (b * c * d)) by (nonlinear_arith);
}

/// Every layout stores at least one byte and at most eight bytes to an element.
pub proof fn lemma_layout_bounds(kind: GGMLType)
    ensures
        layout_of(kind) matches Some((block, block_bytes)) ==> 1 <= block <= 256 && 1 <= block_bytes
            <= 8 * block,
{
}

/// The partial products of a sound shape.
pub proof fn lemma_sound_products(shape: Seq<u64>)
    requires
        sound_shape(shape),
    ensures
        1 <= shape[1] * shape[2] <= MAX_ELEMENTS,
        1 <= shape[1] * shape[2] * shape[3] <= MAX_ELEMENTS,
        shape[0] * (shape[1] * shape[2] * shape[3]) == product(shape),
{
    lemma_product_of_four(shape);
    let (a, b, c, d) = (shape[0] as int, shape[1] as int, shape[2] as int, shape[3] as int);
    let rows = b * c * d;
    assert(b * c >= 1) by (nonlinear_arith)
        requires
            b >= 1,
            c >= 1,
    ;
    assert(b * c <= b * c * d) by (nonlinear_arith)
        requires
            b * c >= 1,
            d >= 1,
    ;
    assert(rows <= a * rows) by (nonlinear_arith)
        requires
            a >= 1,
            rows >= 1,
    ;
}

/// The bytes of a tensor: some, and no more than eight to an element.
pub proof fn lemma_byte_size(shape: Seq<u64>, block: u64, block_bytes: u64)
    requires
        sound_shape(shape),
        1 <= block,
        1 <= block_bytes <= 8 * block,
        shape[0] % block == 0,
    ensures
        1 <= byte_size(shape, block, block_bytes) <= 8 * product(shape),
        0 <= (shape[0] / block) * block_bytes <= 8 * MAX_DIMENSION,
{
    lemma_sound_products(shape);
    let a = shape[0] as int;
    let rows = shape[1] * shape[2] * shape[3];
    let blocks = a / block as int;
    assert(blocks * block == a) by (nonlinear_arith)
        requires
            a % (block as int) == 0,
            block >= 1,
            blocks == a / block as int,
    ;
    assert(blocks >= 1) by (nonlinear_arith)
        requires
            blocks * block == a,
            a >= 1,
            block >= 1,
    ;
    assert(blocks * block_bytes <= 8 * a) by (nonlinear_arith)
        requires
            blocks * block == a,
            block_bytes <= 8 * block,
            blocks >= 1,
    ;
    assert(blocks * block_bytes >= 1) by (nonlinear_arith)
        requires
            blocks >= 1,
            block_bytes >= 1,
    ;
    let row_bytes = blocks * block_bytes;
    assert(row_bytes * rows <= (8 * a) * rows) by (nonlinear_arith)
        requires
            row_bytes <= 8 * a,
            rows >= 1,
    ;
    assert(row_bytes * rows >= 1) by (nonlinear_arith)
        requires
            row_bytes >= 1,
            rows >= 1,
    ;
    assert((8 * a) * rows == 8 * (a * rows)) by (nonlinear_arith);
}

/// The number of elements of a tensor.
fn element_count(shape: &Vec<u64>) -> (n: u64)
    requires
        sound_shape(shape@),
    ensures
        n == product(shape@),
{
    proof {
        lemma_sound_products(shape@);
    }
    let rows: u64 = shape[1] * shape[2] * shape[3];
    shape[0] * rows
}

impl Dialect {
    /// Reads the shape of the tensor `name`.
    pub fn read_shape(&self, name: &String, reader: &mut CountingReader<'_>) -> (r: Result<
        Vec<u64>,
        GGUFError,
    >)
        requires
            old(reader).wf(),
        ensures
            final(reader).wf(),
            final(reader).source() == old(reader).source(),
            final(reader).count() == shape_stop(*self, old(reader).source(), old(reader).count()),
            match (r, shape_at(*self, name@, old(reader).source(), old(reader).count())) {
                (Ok(v), Ok((shape, end))) => {
                    &&& v@ == shape
                    &&& sound_shape(shape)
                    &&& final(reader).count() == end
                },
                (Err(e), Err(f)) => e@ == f,
                _ => false,
            },
    {
        let ghost source = reader.source();
        let ghost expected = shape_at(*self, name@, source, reader.count());
        let count: u32 = match self.read_u32(reader) {
            Ok(count) => count,
            Err(e) => return Err(GGUFError::Read(e)),
        };
        if count == 0 || count > 4 {
            return Err(GGUFError::Tensor(name.clone(), TensorFault::DimensionCount(count)));
        }
        let ghost all = dims_at(*self, name@, count as nat, Seq::empty(), source, reader.count());
        let mut shape: Vec<u64> = Vec::new();
        let mut elements: u64 = 1;
        let mut i: u32 = 0;
        while i < count
            invariant
                i <= count <= 4,
                shape@.len() == i,
                elements == product(shape@),
                forall|k: int| 0 <= k < i ==> 1 <= #[trigger] shape@[k] <= MAX_DIMENSION,
                reader.wf(),
                reader.source() == source,
                source == old(reader).source(),
                expected == shape_at(*self, name@, source, old(reader).count()),
                all matches Err(e) ==> expected == Err::<(Seq<u64>, int), _>(e),
                all == dims_at(*self, name@, count as nat, shape@, source, reader.count()),
                shape_stop(*self, source, old(reader).count()) == dims_stop(
                    *self,
                    count as nat,
                    shape@,
                    source,
                    reader.count(),
                ),
            decreases count - i,
        {
            let dim: u64 = match self.read_u64(reader) {
                Ok(dim) => dim,
                Err(e) => return Err(GGUFError::Read(e)),
            };
            if dim == 0 {
                return Err(GGUFError::Tensor(name.clone(), TensorFault::ZeroDimension));
            }
            if dim > MAX_DIMENSION {
                return Err(GGUFError::Tensor(name.clone(), TensorFault::DimensionTooLarge(dim)));
            }
            elements = match elements.checked_mul(dim) {
                Some(elements) => elements,
                None => return Err(
                    GGUFError::Tensor(name.clone(), TensorFault::ElementOverflow),
                ),
            };
            let ghost before = shape@;
            shape.push(dim);
            i = i + 1;
            proof {
                assert(shape@.drop_last() =~= before);
            }
        }
        if elements > MAX_ELEMENTS {
            return Err(GGUFError::Tensor(name.clone(), TensorFault::TooManyElements(elements)));
        }
        let ghost dims = shape@;
        proof {
            lemma_padded(dims);
        }
        while i < 4
            invariant
                dims.len() <= i <= 4,
                shape@ == dims + Seq::new((i - dims.len()) as nat, |k: int| 1u64),
            decreases 4 - i,
        {
            shape.push(1);
            i = i + 1;
            proof {
                assert(shape@ =~= dims + Seq::new((i - dims.len()) as nat, |k: int| 1u64));
            }
        }
        proof {
            assert(shape@ =~= padded(dims));
        }
        Ok(shape)
    }

    /// Reads the description of the tensor `name`.
    pub fn read_description(
        &self,
        alignment: u64,
        name: String,
        reader: &mut CountingReader<'_>,
    ) -> (r: Result<Tensor, GGUFError>)
        requires
            old(reader).wf(),
            alignment > 0,
        ensures
            final(reader).wf(),
            final(reader).source() == old(reader).source(),
            final(reader).count() == description_stop(
                *self,
                name@,
                old(reader).source(),
                old(reader).count(),
            ),
            match (
                r,
                description_at(*self, alignment, name@, old(reader).source(), old(reader).count()),
            ) {
                (Ok(t), Ok((tensor, end))) => {
                    &&& t@ == tensor
                    &&& sound_shape(tensor.shape)
                    &&& tensor.size > 0
                    &&& final(reader).count() == end
                },
                (Err(e), Err(f)) => e@ == f,
                _ => false,
            },
    {
        let shape = match self.read_shape(&name, reader) {
            Ok(shape) => shape,
            Err(e) => return Err(e),
        };
        let kind: u32 = match self.read_u32(reader) {
            Ok(kind) => kind,
            Err(e) => return Err(GGUFError::Read(e)),
        };
        let offset: u64 = match self.read_u64(reader) {
            Ok(offset) => offset,
            Err(e) => return Err(GGUFError::Read(e)),
        };
        match tensor_byte_size(&name, kind, offset, &shape, alignment) {
            Ok(size) => Ok(Tensor { name, kind, offset, size, shape }),
            Err(e) => Err(e),
        }
    }
}

/// The bytes that a tensor's data takes, if type, shape and offset go together.
pub fn tensor_byte_size(
    name: &String,
    kind: u32,
    offset: u64,
    shape: &Vec<u64>,
    alignment: u64,
) -> (r: Result<u64, GGUFError>)
    requires
        sound_shape(shape@),
        alignment > 0,
    ensures
        match (r, tensor_size(name@, kind, offset, shape@, alignment)) {
            (Ok(v), Ok(size)) => v == size && size > 0,
            (Err(e), Err(f)) => e@ == f,
            _ => false,
        },
{
    let ggml_type = match GGMLType::try_from(kind) {
        Ok(t) => t,
        Err(e) => return Err(e),
    };
    let (block_size, type_size): (u64, u64) = match ggml_type_layout(ggml_type) {
        Ok(layout) => layout,
        Err(e) => return Err(e),
    };
    proof {
        lemma_layout_bounds(ggml_type);
    }
    let row_elems: u64 = shape[0];
    if row_elems % block_size != 0 {
        return Err(
            GGUFError::Tensor(
                name.clone(),
                TensorFault::RowWidth { row: row_elems, block: block_size },
            ),
        );
    }
    if offset % alignment != 0 {
        return Err(GGUFError::Tensor(name.clone(), TensorFault::Unaligned { offset, alignment }));
    }
    proof {
        lemma_byte_size(shape@, block_size, type_size);
        lemma_sound_products(shape@);
    }
    let row_count: u64 = shape[1] * shape[2] * shape[3];
    let row_size: u64 = (row_elems / block_size) * type_size;
    Ok(row_size * row_count)
}

/// The tensors that are read: of a sound shape, with data.
pub open spec fn sound_tensors(tensors: Seq<TensorView>) -> bool {
    forall|i: int|
        0 <= i < tensors.len() ==> sound_shape((#[trigger] tensors[i]).shape) && tensors[i].size > 0
}

/// No more elements than the caps on one tensor and on the number of tensors allow.
pub proof fn lemma_total_elements(tensors: Seq<TensorView>)
    requires
        sound_tensors(tensors),
    ensures
        total_elements(tensors) <= tensors.len() * MAX_ELEMENTS,
    decreases tensors.len(),
{
    if tensors.len() > 0 {
        let fewer = tensors.drop_last();
        assert forall|i: int| 0 <= i < fewer.len() implies sound_shape((#[trigger] fewer[i]).shape)
            && fewer[i].size > 0 by {
            assert(fewer[i] == tensors[i]);
        }
        lemma_total_elements(fewer);
        assert(sound_shape(tensors[tensors.len() - 1].shape));
    }
}

impl Dialect {
    /// Reads `n` tensor descriptions, and counts the elements of all of them.
    pub fn read_tensors(&self, alignment: u64, n: u64, reader: &mut CountingReader<'_>) -> (r:
        Result<(Vec<Tensor>, u64), GGUFError>)
        requires
            old(reader).wf(),
            alignment > 0,
            n <= MAX_TENSORS,
        ensures
            final(reader).wf(),
            final(reader).source() == old(reader).source(),
            final(reader).count() == tensors_stop(
                *self,
                alignment,
                n as nat,
                Seq::empty(),
                old(reader).source(),
                old(reader).count(),
            ),
            match (
                r,
                tensors_at(
                    *self,
                    alignment,
                    n as nat,
                    Seq::empty(),
                    old(reader).source(),
                    old(reader).count(),
                ),
            ) {
                (Ok((v, parameters)), Ok((tensors, end))) => {
                    &&& tensor_views(v@) == tensors
                    &&& sound_tensors(tensors)
                    &&& parameters == total_elements(tensors)
                    &&& final(reader).count() == end
                },
                (Err(e), Err(f)) => e@ == f,
                _ => false,
            },
    {
        let ghost source = reader.source();
        let ghost all = tensors_at(
            *self,
            alignment,
            n as nat,
            Seq::empty(),
            source,
            reader.count(),
        );
        let ghost stop = tensors_stop(
            *self,
            alignment,
            n as nat,
            Seq::empty(),
            source,
            reader.count(),
        );
        let mut tensors: Vec<Tensor> = Vec::new();
        let mut seen_tensor_names = StringHashSet::with_capacity(n as usize);
        let mut parameters: u64 = 0;
        let mut i: u64 = 0;
        proof {
            assert(tensor_views(tensors@) =~= Seq::empty());
        }
        while i < n
            invariant
                i <= n <= MAX_TENSORS,
                alignment > 0,
                tensors@.len() == i,
                sound_tensors(tensor_views(tensors@)),
                parameters == total_elements(tensor_views(tensors@)),
                forall|name: Seq<char>| #[trigger]
                    seen_tensor_names@.contains(name) <==> has_name(tensor_views(tensors@), name),
                reader.wf(),
                reader.source() == source,
                source == old(reader).source(),
                all == tensors_at(
                    *self,
                    alignment,
                    n as nat,
                    Seq::empty(),
                    source,
                    old(reader).count(),
                ),
                stop == tensors_stop(
                    *self,
                    alignment,
                    n as nat,
                    Seq::empty(),
                    source,
                    old(reader).count(),
                ),
                stop == tensors_stop(
                    *self,
                    alignment,
                    n as nat,
                    tensor_views(tensors@),
                    source,
                    reader.count(),
                ),
                all == tensors_at(
                    *self,
                    alignment,
                    n as nat,
                    tensor_views(tensors@),
                    source,
                    reader.count(),
                ),
            decreases n - i,
        {
            let name = match self.read_string_limited(reader, StringContext::TensorName) {
                Ok(name) => name,
                Err(e) => return Err(GGUFError::Read(e)),
            };
            proof {
                assert(seen_tensor_names@.contains(name@) <==> has_name(
                    tensor_views(tensors@),
                    name@,
                ));
            }
            let ghost seen_before = seen_tensor_names@;
            if !seen_tensor_names.insert(name.clone()) {
                return Err(GGUFError::DuplicateTensor(name));
            }
            let tensor = match self.read_description(alignment, name, reader) {
                Ok(tensor) => tensor,
                Err(e) => return Err(e),
            };
            let elements: u64 = element_count(&tensor.shape);
            if reader.bytes_read() > MAX_HEADER_BYTES {
                return Err(GGUFError::HeaderTooLarge);
            }
            let ghost before = tensor_views(tensors@);
            proof {
                lemma_total_elements(before);
            }
            parameters = parameters + elements;
            tensors.push(tensor);
            i = i + 1;
            proof {
                let after = tensor_views(tensors@);
                assert(after =~= before.push(tensor@));
                assert(after.drop_last() =~= before);
                assert forall|k: int| 0 <= k < after.len() implies sound_shape(
                    (#[trigger] after[k]).shape,
                ) && after[k].size > 0 by {
                    if k < before.len() {
                        assert(after[k] == before[k]);
                    }
                }
                assert forall|other: Seq<char>| #[trigger]
                    seen_tensor_names@.contains(other) <==> has_name(after, other) by {
                    assert(seen_before.contains(other) <==> has_name(before, other));
                    if has_name(before, other) {
                        let k = choose|k: int|
                            0 <= k < before.len() && (#[trigger] before[k]).name == other;
                        assert(after[k].name == other);
                    }
                    if other == tensor@.name {
                        assert(after[before.len() as int].name == other);
                    }
                    if has_name(after, other) && other != tensor@.name {
                        let k = choose|k: int|
                            0 <= k < after.len() && (#[trigger] after[k]).name == other;
                        assert(before[k].name == other);
                    }
                }
            }
        }
        Ok((tensors, parameters))
    }
}

/// Sorts by start, then by number, then by end: `slice::sort` on tuples of integers, whose order is
/// that of their first difference.
#[verifier::external_body]
fn sort_ranges(ranges: &mut Vec<(u64, usize, u64)>)
    ensures
        final(ranges)@.to_multiset() == old(ranges)@.to_multiset(),
        forall|i: int, j: int|
            0 <= i < j < final(ranges)@.len() ==> range_leq(
                #[trigger] final(ranges)@[i],
                #[trigger] final(ranges)@[j],
            ),
{
    ranges.sort();
}

/// [`range_order`] orders totally.
pub proof fn lemma_range_order()
    ensures
        total_ordering(range_order()),
{
}

/// Sorting keeps the ranges: what is sorted and holds the same ranges is [`sorted_ranges`].
proof fn lemma_sorted_is_sorted_ranges(
    sorted: Seq<(u64, usize, u64)>,
    tensors: Seq<TensorView>,
    start: int,
)
    requires
        sorted.to_multiset() == data_ranges(tensors, start).to_multiset(),
        forall|i: int, j: int|
            0 <= i < j < sorted.len() ==> range_leq(#[trigger] sorted[i], #[trigger] sorted[j]),
    ensures
        sorted == sorted_ranges(tensors, start),
{
    lemma_range_order();
    let ranges = data_ranges(tensors, start);
    ranges.lemma_sort_by_ensures(range_order());
    assert(sorted_by(sorted, range_order())) by {
        assert forall|i: int, j: int| 0 <= i < j < sorted.len() implies #[trigger] range_order()(
            sorted[i],
            sorted[j],
        ) by {
            assert(range_leq(sorted[i], sorted[j]));
        }
    }
    vstd::seq_lib::lemma_sorted_unique(sorted, sorted_ranges(tensors, start), range_order());
}

/// Each of the sorted ranges is that of the tensor whose number it holds, and each tensor's range is
/// among them.
pub proof fn lemma_sorted_ranges(tensors: Seq<TensorView>, start: int)
    requires
        tensors.len() <= usize::MAX,
    ensures
        ({
            let ranges = data_ranges(tensors, start);
            let sorted = sorted_ranges(tensors, start);
            &&& sorted.len() == tensors.len()
            &&& sorted.no_duplicates()
            &&& forall|k: int|
                0 <= k < sorted.len() ==> {
                    &&& (#[trigger] sorted[k]).1 < tensors.len()
                    &&& sorted[k] == ranges[sorted[k].1 as int]
                }
            &&& forall|i: int| 0 <= i < ranges.len() ==> sorted.contains(#[trigger] ranges[i])
            &&& forall|j: int, k: int|
                0 <= j < k < sorted.len() ==> range_leq(#[trigger] sorted[j], #[trigger] sorted[k])
        }),
{
    broadcast use vstd::seq_lib::group_to_multiset_ensures;

    lemma_range_order();
    let ranges = data_ranges(tensors, start);
    let sorted = sorted_ranges(tensors, start);
    ranges.lemma_sort_by_ensures(range_order());
    assert(ranges.to_multiset().len() == ranges.len());
    assert(sorted.to_multiset().len() == sorted.len());
    assert forall|i: int, j: int| 0 <= i < ranges.len() && 0 <= j < ranges.len() && i
        != j implies ranges[i] != ranges[j] by {
        assert(ranges[i].1 != ranges[j].1);
    }
    ranges.lemma_multiset_has_no_duplicates();
    sorted.lemma_multiset_has_no_duplicates_conv();
    assert forall|k: int| 0 <= k < sorted.len() implies {
        &&& (#[trigger] sorted[k]).1 < tensors.len()
        &&& sorted[k] == ranges[sorted[k].1 as int]
    } by {
        assert(sorted.contains(sorted[k]));
        assert(ranges.contains(sorted[k]));
        let i = choose|i: int| 0 <= i < ranges.len() && ranges[i] == sorted[k];
        assert(ranges[i].1 == i);
    }
    assert forall|i: int| 0 <= i < ranges.len() implies sorted.contains(#[trigger] ranges[i]) by {
        assert(ranges.contains(ranges[i]));
        assert(ranges.to_multiset().count(ranges[i]) > 0);
    }
    assert forall|j: int, k: int| 0 <= j < k < sorted.len() implies range_leq(
        #[trigger] sorted[j],
        #[trigger] sorted[k],
    ) by {
        assert(range_order()(sorted[j], sorted[k]));
    }
}

/// Checks that the tensors' data, which starts at `tensor_data_start`, stands inside the input and
/// that no two tensors' data overlaps.
pub fn validate_tensor_ranges(
    tensors: &Vec<Tensor>,
    tensor_data_start: u64,
    input_bounds: InputBounds,
) -> (r: Result<(), GGUFError>)
    ensures
        match (r, check_ranges(tensor_views(tensors@), tensor_data_start as int, input_bounds)) {
            (Ok(_), Ok(_)) => true,
            (Err(e), Err(f)) => e@ == f,
            _ => false,
        },
{
    let ghost views = tensor_views(tensors@);
    let ghost start = tensor_data_start as int;
    let ghost fault = first_range_fault(views, 0, start, input_bounds);
    let mut ranges: Vec<(u64, usize, u64)> = Vec::new();
    let mut i: usize = 0;
    while i < tensors.len()
        invariant
            i <= tensors@.len(),
            views == tensor_views(tensors@),
            start == tensor_data_start,
            fault == first_range_fault(views, 0, start, input_bounds),
            fault == first_range_fault(views, i as int, start, input_bounds),
            ranges@ == data_ranges(views, start).take(i as int),
        decreases tensors@.len() - i,
    {
        let tensor: &Tensor = &tensors[i];
        proof {
            assert(views[i as int] == tensor@);
        }
        let abs_start: u64 = match tensor_data_start.checked_add(tensor.offset) {
            Some(abs_start) => abs_start,
            None => return Err(
                GGUFError::Tensor(tensor.name.clone(), TensorFault::OffsetOverflow),
            ),
        };
        let abs_end: u64 = match abs_start.checked_add(tensor.size) {
            Some(abs_end) => abs_end,
            None => return Err(GGUFError::Tensor(tensor.name.clone(), TensorFault::RangeOverflow)),
        };
        if let InputBounds::Known(input_len) = input_bounds {
            if abs_end > input_len {
                return Err(
                    GGUFError::Tensor(
                        tensor.name.clone(),
                        TensorFault::PastEof { end: abs_end, file_size: input_len },
                    ),
                );
            }
        }
        ranges.push((abs_start, i, abs_end));
        i = i + 1;
        proof {
            assert(ranges@ =~= data_ranges(views, start).take(i as int));
        }
    }
    proof {
        assert(ranges@ =~= data_ranges(views, start));
    }
    sort_ranges(&mut ranges);
    proof {
        lemma_sorted_is_sorted_ranges(ranges@, views, start);
        lemma_sorted_ranges(views, start);
    }
    let ghost overlap = first_overlap(ranges@, 0);
    let mut k: usize = 0;
    while ranges.len() - k > 1
        invariant
            k <= ranges@.len() <= usize::MAX,
            views == tensor_views(tensors@),
            start == tensor_data_start,
            fault is None,
            fault == first_range_fault(views, 0, start, input_bounds),
            ranges@ == sorted_ranges(views, start),
            forall|j: int| 0 <= j < ranges@.len() ==> (#[trigger] ranges@[j]).1 < tensors@.len(),
            overlap == first_overlap(ranges@, 0),
            overlap == first_overlap(ranges@, k as int),
        decreases ranges@.len() - k,
    {
        if ranges[k].2 > ranges[k + 1].0 {
            let a: &Tensor = &tensors[ranges[k].1];
            let b: &Tensor = &tensors[ranges[k + 1].1];
            return Err(GGUFError::OverlappingTensors(a.name.clone(), b.name.clone()));
        }
        k = k + 1;
    }
    Ok(())
}

} // verus!
