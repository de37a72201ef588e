//! What written headers are read as, and why they are refused.
use crate::container::ContainerView;
use crate::endian::ByteOrder;
use crate::error::{GGUFError, ReadError, TensorFault};
use crate::grammar::{
    align_up, alignment_of, body, check_ranges, header, kvs_at, tensors_at, version_at,
    versioned_body, window, Dialect, InputBounds, ModelView,
};
use crate::laws::contents::{asks_for, law_alignment, law_alignment_refused};
use crate::laws::descriptions::{
    count, description_fault, descriptions_read, fit_description, law_tensors_are_read, told_tensor,
    told_tensors,
};
use crate::laws::encoding::{
    input_of, lemma_ranges, lemma_stands_split, lemma_uint_bytes_lens, lemma_uint_read, pairs_bytes,
    preamble_bytes, raw_bytes, raw_width, stands_at, tensors_bytes, uint_bytes, written, RawHeader,
    RawPair, RawScalar, RawTensor, RawValue,
};
use crate::laws::placement::{
    apart, first_misplaced, inside, law_ranges, law_ranges_refused, lemma_align_up, overlapping,
};
use crate::laws::reading::{
    cut_short, fit_pair, has_key, key_of, keyed, law_metadata_is_read, pair_fault, pairs_read,
    told_pairs, told_value,
};
use crate::laws::streaming::law_more_input_changes_nothing;
use crate::laws::tables::law_value_type_numbers;
use crate::tensors::lemma_layout_bounds;
use crate::types::{ggml_type_of, layout_of, Version};
use crate::value::{TensorView, ValueView};
use vstd::prelude::*;
use vstd::utf8::decode_utf8;

verus! {

/// Whether the version is the one that is written, with the counts that are written.
pub open spec fn told_version(h: RawHeader, v: Version) -> bool {
    match v {
        Version::V1(x) => h.version == 1 && x.num_tensor == h.num_tensor && x.num_kv == h.num_kv,
        Version::V2(x) => h.version == 2 && x.num_tensor == h.num_tensor && x.num_kv == h.num_kv,
        Version::V3(x) => h.version == 3 && x.num_tensor == h.num_tensor && x.num_kv == h.num_kv,
    }
}

/// Whether an unsigned number `n` is written.
pub open spec fn writes_number(pair: RawPair, n: u64) -> bool {
    &&& pair.kind == 0 || pair.kind == 2 || pair.kind == 4 || pair.kind == 10
    &&& pair.value matches RawValue::Scalar(RawScalar::Number { n: m, .. })
    &&& m == n
}

/// Whether the alignment `a` is asked for: by an unsigned number under `general.alignment`, or by
/// not writing such a pair.
pub open spec fn asked(pairs: Seq<RawPair>, a: u64) -> bool {
    let key = "general.alignment"@;
    if keyed(pairs, pairs.len() as int, key) {
        exists|j: int| #[trigger] has_key(pairs, j, key) && writes_number(pairs[j], a)
    } else {
        a == 32
    }
}

/// The bytes that the data of a written tensor takes: those of a block for each block of elements.
pub open spec fn data_len(t: RawTensor) -> int {
    match ggml_type_of(t.kind) {
        Some(kind) => match layout_of(kind) {
            Some((block, block_bytes)) => count(t.dims) * block_bytes / block as int,
            None => 0,
        },
        None => 0,
    }
}

/// Whether the data of a written tensor ends within the input and within what numbers can say.
pub open spec fn data_inside(t: RawTensor, start: int, bounds: InputBounds) -> bool {
    &&& start + t.offset + data_len(t) <= u64::MAX
    &&& bounds matches InputBounds::Known(len) ==> start + t.offset + data_len(t) <= len
}

/// Whether the data of two written tensors has no byte in common.
pub open spec fn data_apart(a: RawTensor, b: RawTensor) -> bool {
    a.offset + data_len(a) <= b.offset || b.offset + data_len(b) <= a.offset
}

/// Whether `start` is the first place behind the header, at a multiple of `a`, for tensor data.
pub open spec fn data_starts(order: ByteOrder, h: RawHeader, a: u64, start: int) -> bool {
    let end = 4 + raw_bytes(order, h).len();
    end <= start < end + a && start % (a as int) == 0
}

/// Whether the input has room for the header, as far as is known.
pub open spec fn has_room(order: ByteOrder, h: RawHeader, bounds: InputBounds) -> bool {
    match bounds {
        InputBounds::Unknown => false,
        InputBounds::Known(len) => 4 + raw_bytes(order, h).len() <= len,
        InputBounds::TrustedUnbounded => true,
    }
}

/// Whether a written header that asks for the alignment `a`, and whose tensor data starts at
/// `start`, is one: its counts are within their caps, each pair and each description may stand where
/// it stands, the alignment can be had, and the data of each tensor has a place of its own.
pub open spec fn acceptable(
    order: ByteOrder,
    h: RawHeader,
    a: u64,
    start: int,
    bounds: InputBounds,
) -> bool {
    let kvs_len = pairs_bytes(order, h.wide(), h.pairs).len();
    &&& has_room(order, h, bounds)
    &&& h.num_tensor <= 100_000
    &&& h.num_kv <= 100_000
    &&& forall|j: int| 0 <= j < h.pairs.len() ==> #[trigger] fit_pair(h.pairs, j)
    &&& kvs_len <= 67_108_864
    &&& 0 < a <= 65_536
    &&& a % 8 == 0
    &&& forall|j: int| 0 <= j < h.tensors.len() ==> #[trigger] fit_description(a, h.tensors, j)
    &&& h.tensors.len() > 0 ==> kvs_len + tensors_bytes(order, h.wide(), h.tensors).len()
        <= 134_217_728
    &&& forall|j: int|
        0 <= j < h.tensors.len() ==> data_inside(#[trigger] h.tensors[j], start, bounds)
    &&& forall|i: int, j: int|
        0 <= i < j < h.tensors.len() ==> data_apart(#[trigger] h.tensors[i], #[trigger] h.tensors[j])
}

/// Whether the model is what is written.
pub open spec fn told_header(
    order: ByteOrder,
    h: RawHeader,
    max_array_size: u64,
    m: ModelView,
) -> bool {
    &&& m.order == order
    &&& told_version(h, m.version)
    &&& told_pairs(max_array_size, h.pairs, h.pairs.len() as int, m.kvs)
    &&& told_tensors(h.tensors, m.tensors)
    &&& m.tensors.len() == h.tensors.len()
}

/// Whether the error says where the data of a written tensor, the first such, has no place.
pub open spec fn place_fault(
    h: RawHeader,
    start: int,
    bounds: InputBounds,
    j: int,
    e: GGUFError<Seq<char>>,
) -> bool {
    &&& 0 <= j < h.tensors.len()
    &&& forall|k: int| 0 <= k < j ==> data_inside(#[trigger] h.tensors[k], start, bounds)
    &&& match e {
        GGUFError::Tensor(name, fault) => {
            let from = start + h.tensors[j].offset;
            let to = from + data_len(h.tensors[j]);
            &&& name == decode_utf8(h.tensors[j].name)
            &&& match fault {
                TensorFault::OffsetOverflow => from > u64::MAX,
                TensorFault::RangeOverflow => from <= u64::MAX < to,
                TensorFault::PastEof { end, file_size } => end == to && bounds
                    == InputBounds::Known(file_size) && end > file_size,
                _ => false,
            }
        },
        _ => false,
    }
}

/// Whether the error names two written tensors whose data overlaps.
pub open spec fn overlap_fault(h: RawHeader, i: int, j: int, e: GGUFError<Seq<char>>) -> bool {
    &&& 0 <= i < h.tensors.len()
    &&& 0 <= j < h.tensors.len()
    &&& i != j
    &&& h.tensors[i].offset <= h.tensors[j].offset
    &&& !data_apart(h.tensors[i], h.tensors[j])
    &&& e == GGUFError::OverlappingTensors(
        decode_utf8(h.tensors[i].name),
        decode_utf8(h.tensors[j].name),
    )
}

/// Whether the metadata of the written header is sound.
pub open spec fn sound_metadata(order: ByteOrder, h: RawHeader) -> bool {
    &&& h.num_tensor <= 100_000
    &&& h.num_kv <= 100_000
    &&& forall|j: int| 0 <= j < h.pairs.len() ==> #[trigger] fit_pair(h.pairs, j)
    &&& pairs_bytes(order, h.wide(), h.pairs).len() <= 67_108_864
}

/// Whether the tensor descriptions of the written header are sound as well, if it asks for the
/// alignment `a`.
pub open spec fn sound_descriptions(order: ByteOrder, h: RawHeader, a: u64) -> bool {
    &&& sound_metadata(order, h)
    &&& 0 < a <= 65_536
    &&& a % 8 == 0
    &&& forall|j: int| 0 <= j < h.tensors.len() ==> #[trigger] fit_description(a, h.tensors, j)
}

/// Whether the error says what is wrong with the written header: with its counts, with its metadata,
/// with its alignment, with its tensor descriptions or with where tensor data stands. What comes first
/// is found first.
pub open spec fn header_fault(
    order: ByteOrder,
    h: RawHeader,
    a: u64,
    start: int,
    max_array_size: u64,
    bounds: InputBounds,
    e: GGUFError<Seq<char>>,
) -> bool {
    let counted = h.num_tensor <= 100_000 && h.num_kv <= 100_000;
    let aligned = 0 < a <= 65_536 && a % 8 == 0;
    ||| match e {
        GGUFError::InputLengthRequired => bounds is Unknown,
        GGUFError::InputTooShort(len) => bounds == InputBounds::Known(len) && len < 4,
        GGUFError::TooManyTensors(n) => n == h.num_tensor && n > 100_000,
        GGUFError::TooManyKv(n) => h.num_tensor <= 100_000 && n == h.num_kv && n > 100_000,
        GGUFError::AlignmentZero => sound_metadata(order, h) && a == 0,
        GGUFError::AlignmentNotMultipleOfEight(n) => sound_metadata(order, h) && n == a && n % 8
            != 0,
        GGUFError::AlignmentTooLarge(n) => sound_metadata(order, h) && n == a && n % 8 == 0 && n
            > 65_536,
        GGUFError::Read(ReadError::MetadataTooLarge) => counted && pairs_bytes(
            order,
            h.wide(),
            h.pairs,
        ).len() > 67_108_864,
        GGUFError::HeaderTooLarge => pairs_bytes(order, h.wide(), h.pairs).len() + tensors_bytes(
            order,
            h.wide(),
            h.tensors,
        ).len() > 134_217_728,
        GGUFError::Read(r) => cut_short(r) && bounds is Known && !has_room(order, h, bounds),
        _ => false,
    }
    ||| counted && exists|j: int| #[trigger] pair_fault(max_array_size, h.pairs, j, e)
    ||| sound_metadata(order, h) && aligned && exists|j: int| #[trigger]
        description_fault(a, h.tensors, j, e)
    ||| sound_descriptions(order, h, a) && exists|j: int| #[trigger]
        place_fault(h, start, bounds, j, e)
    ||| sound_descriptions(order, h, a) && (forall|j: int|
        0 <= j < h.tensors.len() ==> data_inside(#[trigger] h.tensors[j], start, bounds))
        && exists|i: int, j: int| #[trigger] overlap_fault(h, i, j, e)
}

/// Whether decoding a written header came to what it has to come to: the header if it is acceptable, as
/// it is written, and something that is wrong with it if not.
pub open spec fn judged(
    order: ByteOrder,
    h: RawHeader,
    a: u64,
    start: int,
    max_array_size: u64,
    bounds: InputBounds,
    r: Result<ModelView, GGUFError<Seq<char>>>,
) -> bool {
    &&& r is Ok <==> acceptable(order, h, a, start, bounds)
    &&& match r {
        Ok(m) => told_header(order, h, max_array_size, m),
        Err(e) => header_fault(order, h, a, start, max_array_size, bounds, e),
    }
}

/// What is refused before the metadata is looked at.
proof fn lemma_refused_early(
    order: ByteOrder,
    h: RawHeader,
    a: u64,
    start: int,
    max_array_size: u64,
    bounds: InputBounds,
    e: GGUFError<Seq<char>>,
)
    requires
        match e {
            GGUFError::InputLengthRequired => bounds is Unknown,
            GGUFError::InputTooShort(len) => bounds == InputBounds::Known(len) && len < 4,
            GGUFError::TooManyTensors(n) => n == h.num_tensor && n > 100_000,
            GGUFError::TooManyKv(n) => h.num_tensor <= 100_000 && n == h.num_kv && n > 100_000,
            GGUFError::Read(ReadError::UnexpectedEof) => bounds is Known && !has_room(
                order,
                h,
                bounds,
            ),
            _ => false,
        },
    ensures
        judged(order, h, a, start, max_array_size, bounds, Err(e)),
{
}

proof fn lemma_version(order: ByteOrder, h: RawHeader, s: Seq<u8>)
    requires
        written(h),
        1 <= h.version <= 3,
        stands_at(s, 0, preamble_bytes(order, h)),
    ensures
        preamble_bytes(order, h).len() == 4 + 2 * raw_width(h.wide()),
        match version_at(order, s) {
            Ok((v, p)) => {
                &&& told_version(h, v)
                &&& p == preamble_bytes(order, h).len() <= s.len()
                &&& v.wide_spec() == h.wide()
                &&& v.preamble_len_spec() == 4 + p
            },
            Err(e) => e == GGUFError::<Seq<char>>::Read(ReadError::UnexpectedEof)
                && preamble_bytes(order, h).len() > s.len(),
        },
{
    lemma_ranges();
    lemma_uint_bytes_lens();
    let width = raw_width(h.wide());
    let first = uint_bytes(order, h.version as nat, 4);
    let second = uint_bytes(order, h.num_tensor as nat, width);
    let third = uint_bytes(order, h.num_kv as nat, width);
    lemma_stands_split(s, 0, first, second + third);
    lemma_uint_read(order, h.version as nat, 4, s, 0);
    if 4 <= s.len() {
        lemma_stands_split(s, 4, second, third);
        lemma_uint_read(order, h.num_tensor as nat, width, s, 4);
        if 4 + width <= s.len() {
            lemma_uint_read(order, h.num_kv as nat, width, s, 4 + width as int);
        }
    }
}

proof fn lemma_asked(max_array_size: u64, pairs: Seq<RawPair>, kvs: Map<Seq<char>, ValueView>, a: u64)
    requires
        told_pairs(max_array_size, pairs, pairs.len() as int, kvs),
        forall|j: int| 0 <= j < pairs.len() ==> #[trigger] fit_pair(pairs, j),
    ensures
        asked(pairs, a) <==> asks_for(kvs, a),
{
    let key = "general.alignment"@;
    assert(kvs.contains_key(key) <==> keyed(pairs, pairs.len() as int, key));
    if kvs.contains_key(key) {
        let j = choose|j: int| j < pairs.len() && #[trigger] has_key(pairs, j, key);
        assert(told_value(max_array_size, pairs[j], kvs[key_of(pairs[j])]));
        law_value_type_numbers(pairs[j].kind);
        assert(asks_for(kvs, a) <==> writes_number(pairs[j], a));
        assert forall|k: int| #[trigger] has_key(pairs, k, key) implies k == j by {
            assert(fit_pair(pairs, k));
            assert(fit_pair(pairs, j));
            if k < j {
                assert(keyed(pairs, j, key_of(pairs[j])));
            }
            if j < k {
                assert(keyed(pairs, k, key_of(pairs[k])));
            }
        }
    }
}

proof fn lemma_data_len(t: RawTensor, v: TensorView)
    requires
        told_tensor(t, v),
    ensures
        v.size == data_len(t),
{
    let kind = ggml_type_of(t.kind)->0;
    lemma_layout_bounds(kind);
    let (block, _) = layout_of(kind)->0;
    vstd::arithmetic::div_mod::lemma_div_by_multiple(v.size as int, block as int);
}

/// Where the data of written tensors stands is accepted exactly if each has a place of its own.
proof fn lemma_places(h: RawHeader, views: Seq<TensorView>, start: int, bounds: InputBounds)
    requires
        0 <= start,
        views.len() == h.tensors.len() <= usize::MAX,
        told_tensors(h.tensors, views),
    ensures
        check_ranges(views, start, bounds) is Ok <==> {
            &&& forall|j: int|
                0 <= j < h.tensors.len() ==> data_inside(#[trigger] h.tensors[j], start, bounds)
            &&& forall|i: int, j: int|
                0 <= i < j < h.tensors.len() ==> data_apart(
                    #[trigger] h.tensors[i],
                    #[trigger] h.tensors[j],
                )
        },
        check_ranges(views, start, bounds) matches Err(e) ==> {
            ||| exists|j: int| #[trigger] place_fault(h, start, bounds, j, e)
            ||| (forall|j: int|
                0 <= j < h.tensors.len() ==> data_inside(#[trigger] h.tensors[j], start, bounds))
                && exists|i: int, j: int| #[trigger] overlap_fault(h, i, j, e)
        },
{
    let r = check_ranges(views, start, bounds);
    assert forall|j: int| 0 <= j < views.len() implies {
        &&& (#[trigger] views[j]).size > 0
        &&& views[j].size == data_len(h.tensors[j])
        &&& views[j].offset == h.tensors[j].offset
    } by {
        lemma_data_len(h.tensors[j], views[j]);
    }
    law_ranges(views, start, bounds);
    law_ranges_refused(views, start, bounds);
    if r is Ok {
        assert forall|j: int| 0 <= j < h.tensors.len() implies data_inside(
            #[trigger] h.tensors[j],
            start,
            bounds,
        ) by {
            assert(inside(views[j], start, bounds));
        }
        assert forall|i: int, j: int| 0 <= i < j < h.tensors.len() implies data_apart(
            #[trigger] h.tensors[i],
            #[trigger] h.tensors[j],
        ) by {
            assert(apart(views[i], views[j]));
        }
    }
    if forall|j: int| 0 <= j < h.tensors.len() ==> data_inside(
        #[trigger] h.tensors[j],
        start,
        bounds,
    ) {
        assert forall|j: int| 0 <= j < views.len() implies inside(
            #[trigger] views[j],
            start,
            bounds,
        ) by {
            assert(data_inside(h.tensors[j], start, bounds));
        }
    }
    if forall|i: int, j: int|
        0 <= i < j < h.tensors.len() ==> data_apart(
            #[trigger] h.tensors[i],
            #[trigger] h.tensors[j],
        ) {
        assert forall|i: int, j: int| 0 <= i < j < views.len() implies apart(
            #[trigger] views[i],
            #[trigger] views[j],
        ) by {
            assert(data_apart(h.tensors[i], h.tensors[j]));
        }
    }
    if let Err(e) = r {
        match e {
            GGUFError::Tensor(name, fault) => {
                let i = choose|i: int| #[trigger]
                    first_misplaced(views, start, bounds, i, fault) && views[i].name == name;
                assert(told_tensor(h.tensors[i], views[i]));
                assert forall|k: int| 0 <= k < i implies data_inside(
                    #[trigger] h.tensors[k],
                    start,
                    bounds,
                ) by {
                    assert(inside(views[k], start, bounds));
                }
                assert(place_fault(h, start, bounds, i, e));
            },
            GGUFError::OverlappingTensors(a, b) => {
                let (i, j) = choose|i: int, j: int| #[trigger]
                    overlapping(views, i, j) && views[i].name == a && views[j].name == b;
                assert(told_tensor(h.tensors[i], views[i]));
                assert(told_tensor(h.tensors[j], views[j]));
                assert forall|k: int| 0 <= k < h.tensors.len() implies data_inside(
                    #[trigger] h.tensors[k],
                    start,
                    bounds,
                ) by {
                    assert(inside(views[k], start, bounds));
                }
                assert(overlap_fault(h, i, j, e));
            },
            _ => {},
        }
    }
}

/// Two multiples of a number that are less than that number apart are one.
proof fn lemma_same_multiple(x: int, y: int, a: int)
    requires
        a > 0,
        x % a == 0,
        y % a == 0,
        -a < x - y < a,
    ensures
        x == y,
{
    let (p, q) = (x / a, y / a);
    vstd::arithmetic::div_mod::lemma_fundamental_div_mod(x, a);
    vstd::arithmetic::div_mod::lemma_fundamental_div_mod(y, a);
    assert(p == q) by (nonlinear_arith)
        requires
            -a < a * p - a * q < a,
            a > 0,
    ;
}

/// What is refused for its metadata.
proof fn lemma_judge_metadata(
    order: ByteOrder,
    h: RawHeader,
    a: u64,
    start: int,
    max_array_size: u64,
    bounds: InputBounds,
    available: nat,
    r: Result<(Map<Seq<char>, ValueView>, int), GGUFError<Seq<char>>>,
)
    requires
        h.num_tensor <= 100_000,
        h.num_kv <= 100_000,
        h.num_kv == h.pairs.len(),
        !(bounds is Unknown),
        pairs_bytes(order, h.wide(), h.pairs).len() > available ==> !has_room(order, h, bounds),
        has_room(order, h, bounds) ==> pairs_bytes(order, h.wide(), h.pairs).len() <= available,
        pairs_read(
            max_array_size,
            h.pairs,
            0,
            available as int,
            pairs_bytes(order, h.wide(), h.pairs).len() as int,
            r,
        ),
        r is Err,
    ensures
        judged(order, h, a, start, max_array_size, bounds, Err(r->Err_0)),
{
}

/// What is refused for its alignment.
proof fn lemma_judge_alignment(
    order: ByteOrder,
    h: RawHeader,
    a: u64,
    start: int,
    max_array_size: u64,
    bounds: InputBounds,
    e: GGUFError<Seq<char>>,
)
    requires
        sound_metadata(order, h),
        match e {
            GGUFError::AlignmentZero => a == 0,
            GGUFError::AlignmentNotMultipleOfEight(n) => n == a && n % 8 != 0,
            GGUFError::AlignmentTooLarge(n) => n == a && n % 8 == 0 && n > 65_536,
            _ => false,
        },
    ensures
        judged(order, h, a, start, max_array_size, bounds, Err(e)),
{
}

/// What is refused for its tensor descriptions.
proof fn lemma_judge_descriptions(
    order: ByteOrder,
    h: RawHeader,
    a: u64,
    start: int,
    max_array_size: u64,
    bounds: InputBounds,
    available: nat,
    r: Result<(Seq<TensorView>, int), GGUFError<Seq<char>>>,
)
    requires
        sound_metadata(order, h),
        0 < a <= 65_536,
        a % 8 == 0,
        !(bounds is Unknown),
        pairs_bytes(order, h.wide(), h.pairs).len() + tensors_bytes(
            order,
            h.wide(),
            h.tensors,
        ).len() <= available <==> has_room(order, h, bounds),
        descriptions_read(
            a,
            h.tensors,
            0,
            available as int,
            pairs_bytes(order, h.wide(), h.pairs).len() as int + tensors_bytes(
                order,
                h.wide(),
                h.tensors,
            ).len(),
            r,
        ),
        r is Err,
    ensures
        judged(order, h, a, start, max_array_size, bounds, Err(r->Err_0)),
{
}

/// What is accepted, or refused for where tensor data stands.
proof fn lemma_judge_places(
    order: ByteOrder,
    h: RawHeader,
    a: u64,
    start: int,
    max_array_size: u64,
    bounds: InputBounds,
    views: Seq<TensorView>,
)
    requires
        sound_descriptions(order, h, a),
        has_room(order, h, bounds),
        h.tensors.len() > 0 ==> pairs_bytes(order, h.wide(), h.pairs).len() + tensors_bytes(
            order,
            h.wide(),
            h.tensors,
        ).len() <= 134_217_728,
        0 <= start,
        views.len() == h.tensors.len() <= usize::MAX,
        told_tensors(h.tensors, views),
    ensures
        match check_ranges(views, start, bounds) {
            Ok(_) => acceptable(order, h, a, start, bounds),
            Err(e) => judged(order, h, a, start, max_array_size, bounds, Err(e)),
        },
{
    lemma_places(h, views, start, bounds);
}

/// What is left of a written header behind its preamble.
proof fn lemma_body(
    order: ByteOrder,
    h: RawHeader,
    a: u64,
    start: int,
    max_array_size: u64,
    bounds: InputBounds,
    version: Version,
    rest: Seq<u8>,
)
    requires
        written(h),
        1 <= h.version <= 3,
        h.num_tensor <= 100_000,
        h.num_kv <= 100_000,
        asked(h.pairs, a),
        a > 0 ==> data_starts(order, h, a, start),
        told_version(h, version),
        version.wide_spec() == h.wide(),
        version.preamble_len_spec() == 4 + preamble_bytes(order, h).len(),
        stands_at(
            rest,
            0,
            pairs_bytes(order, h.wide(), h.pairs) + tensors_bytes(order, h.wide(), h.tensors),
        ),
        !(bounds is Unknown),
        pairs_bytes(order, h.wide(), h.pairs).len() + tensors_bytes(
            order,
            h.wide(),
            h.tensors,
        ).len() <= rest.len() <==> has_room(order, h, bounds),
    ensures
        judged(
            order,
            h,
            a,
            start,
            max_array_size,
            bounds,
            body(Dialect { order, wide: version.wide_spec(), max_array_size }, version, bounds, rest),
        ),
{
    let wide = h.wide();
    let d = Dialect { order, wide, max_array_size };
    let front = pairs_bytes(order, wide, h.pairs);
    let back = tensors_bytes(order, wide, h.tensors);
    let r = body(d, version, bounds, rest);
    lemma_stands_split(rest, 0, front, back);
    law_metadata_is_read(d, h.pairs, rest);
    let first = kvs_at(d, h.pairs.len(), Map::empty(), rest, 0);
    match first {
        Err(e) => {
            lemma_judge_metadata(order, h, a, start, max_array_size, bounds, rest.len(), first);
        },
        Ok((kvs, p)) => {
            lemma_asked(max_array_size, h.pairs, kvs, a);
            law_alignment(kvs);
            law_alignment_refused(kvs, a);
            assert(asks_for(kvs, a));
            if 0 < a <= 65_536 && a % 8 == 0 {
                assert(alignment_of(kvs) == Ok::<u64, GGUFError<Seq<char>>>(a));
                law_tensors_are_read(d, a, h.tensors, rest, p);
                let second = tensors_at(d, a, h.tensors.len(), Seq::empty(), rest, p);
                match second {
                    Err(e) => {
                        lemma_judge_descriptions(
                            order,
                            h,
                            a,
                            start,
                            max_array_size,
                            bounds,
                            rest.len(),
                            second,
                        );
                    },
                    Ok((views, end)) => {
                        let total = 4 + raw_bytes(order, h).len() as int;
                        assert(version.preamble_len_spec() + end == total);
                        lemma_align_up(total, a as int);
                        lemma_same_multiple(align_up(total, a as int), start, a as int);
                        lemma_places(h, views, start, bounds);
                        lemma_judge_places(order, h, a, start, max_array_size, bounds, views);
                        if let Ok(m) = r {
                            assert(told_header(order, h, max_array_size, m));
                        }
                    },
                }
            } else {
                lemma_judge_alignment(order, h, a, start, max_array_size, bounds, r->Err_0);
            }
        },
    }
}

/// A written header, whatever follows it, is accepted exactly if it is acceptable, and is then read as
/// it is written. Otherwise it is refused for something that is wrong with it.
pub proof fn law_headers_are_read(
    order: ByteOrder,
    h: RawHeader,
    a: u64,
    start: int,
    tail: Seq<u8>,
    max_array_size: u64,
    bounds: InputBounds,
)
    requires
        written(h),
        1 <= h.version <= 3,
        asked(h.pairs, a),
        a > 0 ==> data_starts(order, h, a, start),
    ensures
        judged(
            order,
            h,
            a,
            start,
            max_array_size,
            bounds,
            input_of(order, h, tail, max_array_size, bounds).header(),
        ),
{
    let input = raw_bytes(order, h) + tail;
    let r = input_of(order, h, tail, max_array_size, bounds).header();
    assert(r == header(order, max_array_size, bounds, input));
    let short = bounds matches InputBounds::Known(len) && len < 4;
    if bounds is Unknown || short {
        lemma_refused_early(order, h, a, start, max_array_size, bounds, r->Err_0);
    } else {
        let s = window(bounds, input);
        lemma_in_window(order, h, tail, bounds);
        lemma_version(order, h, s);
        match version_at(order, s) {
            Err(e) => lemma_refused_early(order, h, a, start, max_array_size, bounds, e),
            Ok((version, pos)) => {
                assert(r == versioned_body(order, max_array_size, bounds, version, s, pos));
                assert(version.num_tensor_spec() == h.num_tensor);
                assert(version.num_kv_spec() == h.num_kv);
                if h.num_tensor <= 100_000 && h.num_kv <= 100_000 {
                    lemma_body(order, h, a, start, max_array_size, bounds, version, s.skip(pos));
                } else {
                    lemma_refused_early(order, h, a, start, max_array_size, bounds, r->Err_0);
                }
            },
        }
    }
}

/// Where the parts of a written header stand in what may be read of the input.
proof fn lemma_in_window(order: ByteOrder, h: RawHeader, tail: Seq<u8>, bounds: InputBounds)
    requires
        !(bounds is Unknown),
        !(bounds matches InputBounds::Known(len) && len < 4),
    ensures
        ({
            let s = window(bounds, raw_bytes(order, h) + tail);
            let front = preamble_bytes(order, h);
            &&& raw_bytes(order, h).len() <= s.len() <==> has_room(order, h, bounds)
            &&& stands_at(s, 0, front)
            &&& front.len() <= s.len() ==> stands_at(
                s.skip(front.len() as int),
                0,
                pairs_bytes(order, h.wide(), h.pairs) + tensors_bytes(order, h.wide(), h.tensors),
            )
        }),
{
    let whole = raw_bytes(order, h);
    let input = whole + tail;
    let s = window(bounds, input);
    let front = preamble_bytes(order, h);
    let back = pairs_bytes(order, h.wide(), h.pairs) + tensors_bytes(order, h.wide(), h.tensors);
    assert forall|i: int| 0 <= i < whole.len() && i < s.len() implies s[0 + i]
        == #[trigger] whole[i] by {
        assert(input[i] == whole[i]);
    }
    lemma_stands_split(s, 0, front, back);
    if front.len() <= s.len() {
        let rest = s.skip(front.len() as int);
        assert forall|i: int| 0 <= i < back.len() && i < rest.len() implies rest[0 + i]
            == #[trigger] back[i] by {
            assert(s[front.len() + i] == back[i]);
        }
    }
}

/// A written header whose `general.alignment` is no unsigned number is refused.
pub proof fn law_alignment_of_another_type(
    order: ByteOrder,
    h: RawHeader,
    tail: Seq<u8>,
    max_array_size: u64,
    bounds: InputBounds,
)
    requires
        written(h),
        1 <= h.version <= 3,
        forall|a: u64| !#[trigger] asked(h.pairs, a),
    ensures
        input_of(order, h, tail, max_array_size, bounds).header() is Err,
{
    let c = input_of(order, h, tail, max_array_size, bounds);
    if let Ok(m) = c.header() {
        let s = window(bounds, raw_bytes(order, h) + tail);
        let pairs = pairs_bytes(order, h.wide(), h.pairs);
        lemma_in_window(order, h, tail, bounds);
        lemma_version(order, h, s);
        let rest = s.skip(preamble_bytes(order, h).len() as int);
        lemma_stands_split(rest, 0, pairs, tensors_bytes(order, h.wide(), h.tensors));
        law_metadata_is_read(
            Dialect { order, wide: h.wide(), max_array_size },
            h.pairs,
            rest,
        );
        assert forall|j: int| 0 <= j < h.pairs.len() implies #[trigger] fit_pair(h.pairs, j) by {}
        law_alignment(m.kvs);
        let a = alignment_of(m.kvs)->Ok_0;
        lemma_asked(max_array_size, h.pairs, m.kvs, a);
        assert(asked(h.pairs, a));
    }
}

/// A version that is none of the three is refused by its number, read as a signed one.
pub proof fn law_other_versions(
    order: ByteOrder,
    h: RawHeader,
    tail: Seq<u8>,
    max_array_size: u64,
)
    requires
        !(1 <= h.version <= 3),
    ensures
        input_of(
            order,
            h,
            tail,
            max_array_size,
            InputBounds::TrustedUnbounded,
        ).header() matches Err(GGUFError::InvalidVersion(n)) && (n == h.version || n == h.version
            - 0x1_0000_0000),
{
    lemma_ranges();
    lemma_uint_bytes_lens();
    let input = raw_bytes(order, h) + tail;
    let first = uint_bytes(order, h.version as nat, 4);
    assert forall|i: int| 0 <= i < first.len() && i < input.len() implies input[0 + i]
        == #[trigger] first[i] by {}
    lemma_uint_read(order, h.version as nat, 4, input, 0);
}

/// A container that was decoded has the version that is written in front of its header, be it that the
/// rest was refused. Its input is used up; all else stays.
pub proof fn law_decoded_version(
    order: ByteOrder,
    h: RawHeader,
    tail: Seq<u8>,
    max_array_size: u64,
    bounds: InputBounds,
)
    requires
        written(h),
        1 <= h.version <= 3,
        has_room(order, h, bounds),
    ensures
        ({
            let c = input_of(order, h, tail, max_array_size, bounds).decoded();
            &&& told_version(h, c.version)
            &&& c.input.len() == 0
            &&& c.order == order
            &&& c.max_array_size == max_array_size
            &&& c.bounds == bounds
        }),
{
    lemma_in_window(order, h, tail, bounds);
    lemma_version(order, h, window(bounds, raw_bytes(order, h) + tail));
}

/// The first bytes of a written header, without the last ones, are no header.
pub proof fn law_parts_of_headers(
    order: ByteOrder,
    h: RawHeader,
    n: int,
    max_array_size: u64,
    bounds: InputBounds,
)
    requires
        written(h),
        1 <= h.version <= 3,
        0 <= n < raw_bytes(order, h).len(),
    ensures
        ContainerView::fresh(
            order,
            raw_bytes(order, h).take(n),
            max_array_size,
            bounds,
        ).header() is Err,
{
    let whole = raw_bytes(order, h);
    let c = ContainerView::fresh(order, whole.take(n), max_array_size, bounds);
    if let Ok(m) = c.header() {
        let s = window(bounds, whole.take(n));
        let front = preamble_bytes(order, h);
        let pairs = pairs_bytes(order, h.wide(), h.pairs);
        let tensors = tensors_bytes(order, h.wide(), h.tensors);
        assert forall|i: int| 0 <= i < whole.len() && i < s.len() implies s[0 + i]
            == #[trigger] whole[i] by {
            assert(whole.take(n)[i] == whole[i]);
        }
        lemma_stands_split(s, 0, front, pairs + tensors);
        lemma_version(order, h, s);
        let rest = s.skip(front.len() as int);
        assert forall|i: int| 0 <= i < (pairs + tensors).len() && i < rest.len() implies rest[0 + i]
            == #[trigger] (pairs + tensors)[i] by {
            assert(s[front.len() + i] == (pairs + tensors)[i]);
        }
        lemma_stands_split(rest, 0, pairs, tensors);
        let d = Dialect { order, wide: h.wide(), max_array_size };
        law_metadata_is_read(d, h.pairs, rest);
        law_alignment(m.kvs);
        let a = alignment_of(m.kvs)->Ok_0;
        law_tensors_are_read(d, a, h.tensors, rest, pairs.len() as int);
    }
}

/// As long as some of an acceptable header is missing, and may still come, more is wanted.
pub proof fn law_more_is_wanted(
    order: ByteOrder,
    h: RawHeader,
    a: u64,
    start: int,
    n: int,
    max_array_size: u64,
    bounds: InputBounds,
)
    requires
        written(h),
        1 <= h.version <= 3,
        asked(h.pairs, a),
        data_starts(order, h, a, start),
        acceptable(order, h, a, start, bounds),
        0 <= n < raw_bytes(order, h).len(),
    ensures
        ContainerView::fresh(
            order,
            raw_bytes(order, h).take(n),
            max_array_size,
            bounds,
        ).wants_more(),
{
    let whole = raw_bytes(order, h);
    let c = ContainerView::fresh(order, whole.take(n), max_array_size, bounds);
    law_parts_of_headers(order, h, n, max_array_size, bounds);
    if !c.wants_more() {
        law_more_input_changes_nothing(c, whole.skip(n));
        assert(whole.take(n) + whole.skip(n) =~= whole + Seq::empty());
        law_headers_are_read(order, h, a, start, Seq::empty(), max_array_size, bounds);
    }
}

/// A header that is decoded is the one that is written.
pub proof fn law_read_as_written(
    order: ByteOrder,
    h: RawHeader,
    tail: Seq<u8>,
    max_array_size: u64,
    bounds: InputBounds,
)
    requires
        written(h),
        1 <= h.version <= 3,
    ensures
        input_of(order, h, tail, max_array_size, bounds).header() matches Ok(m) ==> told_header(
            order,
            h,
            max_array_size,
            m,
        ),
{
    if input_of(order, h, tail, max_array_size, bounds).header() is Ok {
        if forall|a: u64| !#[trigger] asked(h.pairs, a) {
            law_alignment_of_another_type(order, h, tail, max_array_size, bounds);
        }
        let a = choose|a: u64| #[trigger] asked(h.pairs, a);
        let end = 4 + raw_bytes(order, h).len() as int;
        let start = align_up(end, a as int);
        if a > 0 {
            lemma_align_up(end, a as int);
        }
        law_headers_are_read(order, h, a, start, tail, max_array_size, bounds);
    }
}

} // verus!
