//! Where tensor data stands.
use crate::container::ContainerView;
use crate::error::{GGUFError, TensorFault};
use crate::grammar::{
    align_up, alignment_of, check_ranges, data_ranges, first_overlap, first_range_fault, kvs_at,
    range_fault, range_leq, sorted_ranges, tensors_at, version_at, window, Dialect, InputBounds,
};
use crate::laws::contents::{law_alignment, law_decoded_contents, sound_tensor};
use crate::laws::streaming::{lemma_kvs_prefix, lemma_tensors_prefix, lemma_version_prefix};
use crate::tensors::lemma_sorted_ranges;
use crate::value::TensorView;
use vstd::prelude::*;

verus! {

/// The number of bytes of the input, its magic included, that its header takes.
pub open spec fn header_end(c: ContainerView) -> int {
    let s = window(c.bounds, c.input);
    let (version, pos) = version_at(c.order, s)->Ok_0;
    let d = Dialect {
        order: c.order,
        wide: version.wide_spec(),
        max_array_size: c.max_array_size,
    };
    let rest = s.skip(pos);
    let (kvs, p) = kvs_at(d, version.num_kv_spec() as nat, Map::empty(), rest, 0)->Ok_0;
    let (_, end) = tensors_at(
        d,
        alignment_of(kvs)->Ok_0,
        version.num_tensor_spec() as nat,
        Seq::empty(),
        rest,
        p,
    )->Ok_0;
    version.preamble_len_spec() + end
}

/// The place in the input, counted from its magic, at which the tensor-data section starts.
pub open spec fn data_start(c: ContainerView) -> int {
    align_up(header_end(c), alignment_of(c.header()->Ok_0.kvs)->Ok_0 as int)
}

/// Whether the data of the tensor fits between the start of the data section and the end of the
/// input.
pub open spec fn inside(t: TensorView, start: int, bounds: InputBounds) -> bool {
    &&& start + t.offset + t.size <= u64::MAX
    &&& bounds matches InputBounds::Known(len) ==> start + t.offset + t.size <= len
}

/// Whether the data of the two tensors has no byte in common.
pub open spec fn apart(a: TensorView, b: TensorView) -> bool {
    a.offset + a.size <= b.offset || b.offset + b.size <= a.offset
}

proof fn lemma_range_faults(tensors: Seq<TensorView>, i: int, start: int, bounds: InputBounds)
    requires
        0 <= i,
    ensures
        first_range_fault(tensors, i, start, bounds) is None <==> forall|k: int|
            i <= k < tensors.len() ==> inside(#[trigger] tensors[k], start, bounds),
    decreases tensors.len() - i,
{
    if i < tensors.len() {
        lemma_range_faults(tensors, i + 1, start, bounds);
        assert(range_fault(tensors[i], start, bounds) is None <==> inside(
            tensors[i],
            start,
            bounds,
        ));
    }
}

proof fn lemma_first_overlap(ranges: Seq<(u64, usize, u64)>, k: int)
    requires
        0 <= k,
    ensures
        first_overlap(ranges, k) is None <==> forall|j: int|
            k <= j < ranges.len() - 1 ==> (#[trigger] ranges[j]).2 <= ranges[j + 1].0,
    decreases ranges.len() - k,
{
    if k + 1 < ranges.len() {
        lemma_first_overlap(ranges, k + 1);
    }
}

/// Ranges in order of which none reaches into the next reach into none of those behind them.
proof fn lemma_no_overlap(ranges: Seq<(u64, usize, u64)>, j: int, k: int)
    requires
        0 <= j < k < ranges.len(),
        first_overlap(ranges, 0) is None,
        forall|i: int| 0 <= i < ranges.len() ==> (#[trigger] ranges[i]).0 <= ranges[i].2,
    ensures
        ranges[j].2 <= ranges[k].0,
    decreases k - j,
{
    lemma_first_overlap(ranges, 0);
    if j + 1 < k {
        lemma_no_overlap(ranges, j + 1, k);
        assert(ranges[j].2 <= ranges[j + 1].0);
        assert(ranges[j + 1].0 <= ranges[j + 1].2);
    }
}

/// Tensor data is accepted exactly if the data of every tensor lies inside the input and that of no
/// two tensors overlaps.
pub proof fn law_ranges(tensors: Seq<TensorView>, start: int, bounds: InputBounds)
    requires
        0 <= start,
        tensors.len() <= usize::MAX,
        forall|i: int| 0 <= i < tensors.len() ==> (#[trigger] tensors[i]).size > 0,
    ensures
        check_ranges(tensors, start, bounds) is Ok <==> {
            &&& forall|i: int|
                0 <= i < tensors.len() ==> inside(#[trigger] tensors[i], start, bounds)
            &&& forall|i: int, j: int|
                0 <= i < j < tensors.len() ==> apart(#[trigger] tensors[i], #[trigger] tensors[j])
        },
{
    lemma_range_faults(tensors, 0, start, bounds);
    if first_range_fault(tensors, 0, start, bounds) is None {
        let ranges = data_ranges(tensors, start);
        let sorted = sorted_ranges(tensors, start);
        lemma_sorted_ranges(tensors, start);
        lemma_first_overlap(sorted, 0);
        assert forall|i: int| 0 <= i < tensors.len() implies {
            &&& (#[trigger] ranges[i]).0 == start + tensors[i].offset
            &&& ranges[i].1 == i
            &&& ranges[i].2 == start + tensors[i].offset + tensors[i].size
        } by {
            assert(inside(tensors[i], start, bounds));
        }
        assert forall|k: int| 0 <= k < sorted.len() implies (#[trigger] sorted[k]).0
            < sorted[k].2 by {
            assert(sorted[k] == ranges[sorted[k].1 as int]);
        }
        if first_overlap(sorted, 0) is None {
            assert forall|i: int, j: int| 0 <= i < j < tensors.len() implies apart(
                #[trigger] tensors[i],
                #[trigger] tensors[j],
            ) by {
                assert(sorted.contains(ranges[i]));
                assert(sorted.contains(ranges[j]));
                let a = choose|a: int| 0 <= a < sorted.len() && sorted[a] == ranges[i];
                let b = choose|b: int| 0 <= b < sorted.len() && sorted[b] == ranges[j];
                assert(ranges[i].1 != ranges[j].1);
                if a < b {
                    lemma_no_overlap(sorted, a, b);
                } else {
                    lemma_no_overlap(sorted, b, a);
                }
            }
        } else {
            let k = choose|k: int|
                0 <= k < sorted.len() - 1 && (#[trigger] sorted[k]).2 > sorted[k + 1].0;
            let (a, b) = (sorted[k], sorted[k + 1]);
            assert(range_leq(a, b));
            assert(a == ranges[a.1 as int]);
            assert(b == ranges[b.1 as int]);
            let (i, j) = (a.1 as int, b.1 as int);
            assert(a != b);
            assert(!apart(tensors[i], tensors[j]));
            assert(!apart(tensors[j], tensors[i]));
        }
    }
}

/// Whether the data of tensor number `i` does not fit, that of those before it does, and `fault` says
/// why: it starts or ends behind all numbers, or ends behind the end of the input.
pub open spec fn first_misplaced(
    tensors: Seq<TensorView>,
    start: int,
    bounds: InputBounds,
    i: int,
    fault: TensorFault,
) -> bool {
    let end = start + tensors[i].offset + tensors[i].size;
    &&& 0 <= i < tensors.len()
    &&& forall|k: int| 0 <= k < i ==> inside(#[trigger] tensors[k], start, bounds)
    &&& match fault {
        TensorFault::OffsetOverflow => start + tensors[i].offset > u64::MAX,
        TensorFault::RangeOverflow => start + tensors[i].offset <= u64::MAX < end,
        TensorFault::PastEof { end: named, file_size } => {
            &&& bounds == InputBounds::Known(file_size)
            &&& named == end
            &&& end > file_size
        },
        _ => false,
    }
}

/// Whether tensor number `i` comes before number `j` in the order of where their data starts; of two
/// that start in one place the first comes first.
pub open spec fn starts_before(tensors: Seq<TensorView>, i: int, j: int) -> bool {
    tensors[i].offset < tensors[j].offset || (tensors[i].offset == tensors[j].offset && i < j)
}

/// Whether the data of tensor number `j` overlaps that of number `i`, the one that comes just before
/// it, and the data of no two tensors that come before it overlaps.
pub open spec fn overlapping(tensors: Seq<TensorView>, i: int, j: int) -> bool {
    &&& 0 <= i < tensors.len()
    &&& 0 <= j < tensors.len()
    &&& starts_before(tensors, i, j)
    &&& !apart(tensors[i], tensors[j])
    &&& forall|k: int|
        #![trigger tensors[k]]
        0 <= k < tensors.len() && starts_before(tensors, k, j) ==> k == i || starts_before(
            tensors,
            k,
            i,
        )
    &&& forall|k: int, l: int|
        #![trigger tensors[k], tensors[l]]
        0 <= k < tensors.len() && 0 <= l < tensors.len() && starts_before(tensors, k, j)
            && starts_before(tensors, l, j) && k != l ==> apart(tensors[k], tensors[l])
}

proof fn lemma_first_fault(tensors: Seq<TensorView>, i: int, start: int, bounds: InputBounds)
    requires
        0 <= i,
        forall|k: int| 0 <= k < i && k < tensors.len() ==> inside(#[trigger] tensors[k], start, bounds),
    ensures
        first_range_fault(tensors, i, start, bounds) matches Some((k, fault)) ==> first_misplaced(
            tensors,
            start,
            bounds,
            k,
            fault,
        ),
    decreases tensors.len() - i,
{
    if i < tensors.len() {
        if range_fault(tensors[i], start, bounds) is None {
            assert(inside(tensors[i], start, bounds));
            lemma_first_fault(tensors, i + 1, start, bounds);
        }
    }
}

proof fn lemma_overlap_found(ranges: Seq<(u64, usize, u64)>, k: int)
    requires
        0 <= k,
    ensures
        first_overlap(ranges, k) matches Some(j) ==> {
            &&& k <= j < ranges.len() - 1
            &&& ranges[j].2 > ranges[j + 1].0
            &&& first_overlap(ranges.take(j + 1), k) is None
        },
    decreases ranges.len() - k,
{
    if k + 1 < ranges.len() {
        lemma_overlap_found(ranges, k + 1);
        if let Some(j) = first_overlap(ranges, k) {
            assert(k + 1 < ranges.take(j + 1).len() ==> first_overlap(ranges.take(j + 1), k)
                == first_overlap(ranges.take(j + 1), k + 1));
        }
    }
}

/// What comes before the first range that is reached into.
proof fn lemma_before_the_overlap(
    tensors: Seq<TensorView>,
    start: int,
    bounds: InputBounds,
    n: int,
)
    requires
        0 <= start,
        tensors.len() <= usize::MAX,
        forall|i: int| 0 <= i < tensors.len() ==> (#[trigger] tensors[i]).size > 0,
        forall|i: int| 0 <= i < tensors.len() ==> inside(#[trigger] tensors[i], start, bounds),
        first_overlap(sorted_ranges(tensors, start), 0) == Some(n),
    ensures
        ({
            let sorted = sorted_ranges(tensors, start);
            let (i, j) = (sorted[n].1 as int, sorted[n + 1].1 as int);
            &&& 0 <= n < sorted.len() - 1
            &&& forall|k: int|
                #![trigger tensors[k]]
                0 <= k < tensors.len() && starts_before(tensors, k, j) ==> k == i || starts_before(
                    tensors,
                    k,
                    i,
                )
            &&& forall|k: int, l: int|
                #![trigger tensors[k], tensors[l]]
                0 <= k < tensors.len() && 0 <= l < tensors.len() && starts_before(tensors, k, j)
                    && starts_before(tensors, l, j) && k != l ==> apart(tensors[k], tensors[l])
        }),
{
    let ranges = data_ranges(tensors, start);
    let sorted = sorted_ranges(tensors, start);
    lemma_sorted_ranges(tensors, start);
    lemma_overlap_found(sorted, 0);
    let (i, j) = (sorted[n].1 as int, sorted[n + 1].1 as int);
    let front = sorted.take(n + 1);
    assert forall|k: int| 0 <= k < tensors.len() implies {
        &&& (#[trigger] ranges[k]).0 == start + tensors[k].offset
        &&& ranges[k].1 == k
        &&& ranges[k].2 == start + tensors[k].offset + tensors[k].size
    } by {
        assert(inside(tensors[k], start, bounds));
    }
    assert forall|k: int| 0 <= k < front.len() implies (#[trigger] front[k]).0 <= front[k].2 by {
        assert(sorted[k] == ranges[sorted[k].1 as int]);
    }
    assert(sorted[n] == ranges[i] && sorted[n + 1] == ranges[j]);
    assert forall|k: int|
        #![trigger tensors[k]]
        0 <= k < tensors.len() && starts_before(tensors, k, j) implies k == i || starts_before(
        tensors,
        k,
        i,
    ) by {
        let p = lemma_place_before(tensors, start, bounds, n, k);
        if p < n {
            assert(range_leq(sorted[p], sorted[n]));
        }
    }
    assert forall|k: int, l: int|
        #![trigger tensors[k], tensors[l]]
        0 <= k < tensors.len() && 0 <= l < tensors.len() && starts_before(tensors, k, j)
            && starts_before(tensors, l, j) && k != l implies apart(tensors[k], tensors[l]) by {
        let p = lemma_place_before(tensors, start, bounds, n, k);
        let q = lemma_place_before(tensors, start, bounds, n, l);
        assert(front[p] == ranges[k] && front[q] == ranges[l]);
        if p < q {
            lemma_no_overlap(front, p, q);
        } else {
            assert(p != q);
            lemma_no_overlap(front, q, p);
        }
    }
}

/// The place among the sorted ranges of a tensor that comes before the one at place `n + 1`.
proof fn lemma_place_before(
    tensors: Seq<TensorView>,
    start: int,
    bounds: InputBounds,
    n: int,
    k: int,
) -> (p: int)
    requires
        0 <= start,
        tensors.len() <= usize::MAX,
        forall|i: int| 0 <= i < tensors.len() ==> inside(#[trigger] tensors[i], start, bounds),
        0 <= n < sorted_ranges(tensors, start).len() - 1,
        0 <= k < tensors.len(),
        starts_before(tensors, k, sorted_ranges(tensors, start)[n + 1].1 as int),
    ensures
        0 <= p <= n,
        sorted_ranges(tensors, start)[p] == data_ranges(tensors, start)[k],
{
    let ranges = data_ranges(tensors, start);
    let sorted = sorted_ranges(tensors, start);
    lemma_sorted_ranges(tensors, start);
    let j = sorted[n + 1].1 as int;
    assert(sorted[n + 1] == ranges[j]);
    assert(inside(tensors[k], start, bounds));
    assert(inside(tensors[j], start, bounds));
    assert(sorted.contains(ranges[k]));
    let p = choose|p: int| 0 <= p < sorted.len() && sorted[p] == ranges[k];
    if p > n + 1 {
        assert(range_leq(sorted[n + 1], sorted[p]));
    }
    p
}

/// Tensor data that is refused names the first tensor whose data does not fit and says why, or, where
/// all fit, the first tensor, in the order of where they start, whose data overlaps that of the one
/// before it, behind that one.
pub proof fn law_ranges_refused(tensors: Seq<TensorView>, start: int, bounds: InputBounds)
    requires
        0 <= start,
        tensors.len() <= usize::MAX,
        forall|i: int| 0 <= i < tensors.len() ==> (#[trigger] tensors[i]).size > 0,
    ensures
        check_ranges(tensors, start, bounds) matches Err(e) ==> match e {
            GGUFError::Tensor(name, fault) => exists|i: int| #[trigger]
                first_misplaced(tensors, start, bounds, i, fault) && tensors[i].name == name,
            GGUFError::OverlappingTensors(a, b) => {
                &&& forall|i: int|
                    0 <= i < tensors.len() ==> inside(#[trigger] tensors[i], start, bounds)
                &&& exists|i: int, j: int| #[trigger]
                    overlapping(tensors, i, j) && tensors[i].name == a && tensors[j].name == b
            },
            _ => false,
        },
{
    lemma_first_fault(tensors, 0, start, bounds);
    lemma_range_faults(tensors, 0, start, bounds);
    if first_range_fault(tensors, 0, start, bounds) is None {
        let ranges = data_ranges(tensors, start);
        let sorted = sorted_ranges(tensors, start);
        lemma_sorted_ranges(tensors, start);
        lemma_overlap_found(sorted, 0);
        if let Some(k) = first_overlap(sorted, 0) {
            let (a, b) = (sorted[k], sorted[k + 1]);
            let (i, j) = (a.1 as int, b.1 as int);
            assert(range_leq(a, b));
            assert(a == ranges[i] && b == ranges[j]);
            assert(inside(tensors[i], start, bounds));
            assert(inside(tensors[j], start, bounds));
            assert(a != b);
            lemma_before_the_overlap(tensors, start, bounds, k);
            assert(overlapping(tensors, i, j));
        }
    }
}

/// The tensor data of a header that is decoded starts behind the header, at the next multiple of
/// the alignment. The data of each tensor is aligned, lies inside the input if its length is known,
/// and has no byte in common with that of any other tensor.
pub proof fn law_tensor_data(c: ContainerView)
    ensures
        c.header() matches Ok(m) ==> {
            &&& alignment_of(m.kvs) matches Ok(alignment)
            &&& 0 < header_end(c) <= data_start(c) < header_end(c) + alignment
            &&& header_end(c) <= 4 + window(c.bounds, c.input).len()
            &&& data_start(c) % (alignment as int) == 0
            &&& forall|i: int|
                0 <= i < m.tensors.len() ==> {
                    &&& inside(#[trigger] m.tensors[i], data_start(c), c.bounds)
                    &&& (data_start(c) + m.tensors[i].offset) % (alignment as int) == 0
                }
            &&& forall|i: int, j: int|
                0 <= i < j < m.tensors.len() ==> apart(
                    #[trigger] m.tensors[i],
                    #[trigger] m.tensors[j],
                )
        },
{
    if let Ok(m) = c.header() {
        law_decoded_contents(c);
        law_alignment(m.kvs);
        let s = window(c.bounds, c.input);
        let (version, pos) = version_at(c.order, s)->Ok_0;
        let d = Dialect {
            order: c.order,
            wide: version.wide_spec(),
            max_array_size: c.max_array_size,
        };
        let rest = s.skip(pos);
        let num_kv = version.num_kv_spec() as nat;
        let num_tensor = version.num_tensor_spec() as nat;
        let alignment = alignment_of(m.kvs)->Ok_0;
        lemma_version_prefix(c.order, s, Seq::empty());
        lemma_kvs_prefix(d, num_kv, Map::empty(), rest, Seq::empty(), 0);
        let (kvs, p) = kvs_at(d, num_kv, Map::empty(), rest, 0)->Ok_0;
        lemma_tensors_prefix(d, alignment, num_tensor, Seq::empty(), rest, Seq::empty(), p);
        let a = alignment as int;
        let end = header_end(c);
        let start = data_start(c);
        lemma_align_up(end, a);
        law_ranges(m.tensors, start, c.bounds);
        assert forall|i: int| 0 <= i < m.tensors.len() implies {
            &&& inside(#[trigger] m.tensors[i], start, c.bounds)
            &&& (start + m.tensors[i].offset) % a == 0
        } by {
            assert(sound_tensor(alignment, m.tensors[i]));
            let offset = m.tensors[i].offset as int;
            vstd::arithmetic::div_mod::lemma_add_mod_noop(start, offset, a);
        }
    }
}

/// Rounding up gives the next multiple.
pub proof fn lemma_align_up(n: int, a: int)
    requires
        0 <= n,
        0 < a,
    ensures
        n <= align_up(n, a) < n + a,
        align_up(n, a) % a == 0,
{
    let q = (n + a - 1) / a;
    assert(q * a + (n + a - 1) % a == n + a - 1) by (nonlinear_arith)
        requires
            a > 0,
            q == (n + a - 1) / a,
    ;
    assert(0 <= (n + a - 1) % a < a);
    assert((q * a) % a == 0) by (nonlinear_arith)
        requires
            a > 0,
    ;
}

} // verus!
