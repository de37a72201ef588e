//! What is said of a model in a few words.
use crate::endian::ByteOrder;
use crate::grammar::{total_elements, InputBounds, ModelView};
use crate::laws::descriptions::{count, dim, told_tensor, told_tensors};
use crate::laws::encoding::{input_of, written, RawHeader, RawScalar, RawTensor, RawValue};
use crate::laws::headers::{law_read_as_written, writes_number};
use crate::laws::measures::law_parameter_count;
use crate::laws::reading::{has_key, key_of, keyed, told_value};
use crate::laws::tables::law_value_type_numbers;
use crate::text::{file_type_text, human_number_text};
use crate::value::{MetadataScalar, TensorView, ValueView};
use vstd::prelude::*;
use vstd::utf8::decode_utf8;

verus! {

/// A text under `general.architecture` is the family, and without one the family is unknown,
/// whatever else the metadata holds.
pub proof fn law_family(m: ModelView, name: Seq<char>)
    ensures
        m.kvs.contains_key("general.architecture"@) && m.kvs["general.architecture"@]
            == ValueView::Scalar(MetadataScalar::String(name)) ==> m.family() == name,
        !m.kvs.contains_key("general.architecture"@) ==> m.family() == "unknown"@,
        m.kvs.contains_key("general.architecture"@) && !(m.kvs["general.architecture"@] matches
            ValueView::Scalar(MetadataScalar::String(_))) ==> m.family() == "unknown"@,
{
}

/// The family is that of `general.architecture` alone: neither other metadata nor tensors nor the
/// version nor the byte order change it.
pub proof fn law_family_depends_on_one_key(m: ModelView, other: ModelView)
    requires
        m.kvs.contains_key("general.architecture"@) == other.kvs.contains_key(
            "general.architecture"@,
        ),
        m.kvs.contains_key("general.architecture"@) ==> m.kvs["general.architecture"@]
            == other.kvs["general.architecture"@],
    ensures
        m.family() == other.family(),
{
}

/// The whole number that a metadata value is, if it is one.
pub open spec fn whole_number(v: ValueView) -> Option<int> {
    match v {
        ValueView::Scalar(MetadataScalar::Uint8(n)) => Some(n as int),
        ValueView::Scalar(MetadataScalar::Uint16(n)) => Some(n as int),
        ValueView::Scalar(MetadataScalar::Uint32(n)) => Some(n as int),
        ValueView::Scalar(MetadataScalar::Uint64(n)) => Some(n as int),
        ValueView::Scalar(MetadataScalar::Int8(n)) => Some(n as int),
        ValueView::Scalar(MetadataScalar::Int16(n)) => Some(n as int),
        ValueView::Scalar(MetadataScalar::Int32(n)) => Some(n as int),
        ValueView::Scalar(MetadataScalar::Int64(n)) => Some(n as int),
        _ => None,
    }
}

/// Whole numbers that are not negative are natural numbers of the same value, and nothing else is.
pub proof fn law_natural_numbers(v: ValueView)
    ensures
        match v.as_u64() {
            Some(n) => whole_number(v) == Some(n as int),
            None => whole_number(v) is None || whole_number(v)->0 < 0,
        },
{
}

/// A natural number under `general.file_type` is shown as that file type, and without one the file
/// type is unknown, whatever else the metadata holds.
pub proof fn law_file_type(m: ModelView, n: u64)
    ensures
        m.kvs.contains_key("general.file_type"@) && whole_number(m.kvs["general.file_type"@])
            == Some(n as int) ==> m.file_type() == file_type_text(n),
        !m.kvs.contains_key("general.file_type"@) ==> m.file_type() == "unknown"@,
        m.kvs.contains_key("general.file_type"@) && (whole_number(m.kvs["general.file_type"@])
            is None || whole_number(m.kvs["general.file_type"@])->0 < 0) ==> m.file_type()
            == "unknown"@,
{
    let v = m.kvs["general.file_type"@];
    law_natural_numbers(v);
}

/// The file type is that of `general.file_type` alone.
pub proof fn law_file_type_depends_on_one_key(m: ModelView, other: ModelView)
    requires
        m.kvs.contains_key("general.file_type"@) == other.kvs.contains_key("general.file_type"@),
        m.kvs.contains_key("general.file_type"@) ==> m.kvs["general.file_type"@]
            == other.kvs["general.file_type"@],
    ensures
        m.file_type() == other.file_type(),
{
}

/// The parameters that are shown are those of all tensors together, and unknown where there are
/// none.
pub proof fn law_parameters(m: ModelView)
    ensures
        m.parameters() == total_elements(m.tensors),
        m.tensors.len() == 0 ==> m.parameters_text() == "unknown"@,
        0 < total_elements(m.tensors) <= u64::MAX ==> m.parameters_text() == human_number_text(
            total_elements(m.tensors) as u64,
        ),
{
}

/// Neither metadata nor the version nor the byte order change the parameters that are shown.
pub proof fn law_parameters_depend_on_tensors(m: ModelView, other: ModelView)
    requires
        m.tensors == other.tensors,
    ensures
        m.parameters_text() == other.parameters_text(),
{
}

/// A text that is written under `general.architecture` is the family of the model that is decoded, and
/// where no such key is written the family is unknown.
pub proof fn law_family_is_read(
    order: ByteOrder,
    h: RawHeader,
    tail: Seq<u8>,
    max_array_size: u64,
    bounds: InputBounds,
    j: int,
)
    requires
        written(h),
        1 <= h.version <= 3,
    ensures
        input_of(order, h, tail, max_array_size, bounds).header() matches Ok(m) ==> {
            let key = "general.architecture"@;
            &&& has_key(h.pairs, j, key) && h.pairs[j].kind == 8 ==> {
                &&& h.pairs[j].value matches RawValue::Scalar(RawScalar::Text(text))
                &&& m.family() == decode_utf8(text)
            }
            &&& has_key(h.pairs, j, key) && h.pairs[j].kind != 8 ==> m.family() == "unknown"@
            &&& !keyed(h.pairs, h.pairs.len() as int, key) ==> m.family() == "unknown"@
        },
{
    let key = "general.architecture"@;
    law_read_as_written(order, h, tail, max_array_size, bounds);
    if let Ok(m) = input_of(order, h, tail, max_array_size, bounds).header() {
        assert(m.kvs.contains_key(key) <==> keyed(h.pairs, h.pairs.len() as int, key));
        if has_key(h.pairs, j, key) {
            assert(told_value(max_array_size, h.pairs[j], m.kvs[key_of(h.pairs[j])]));
            law_value_type_numbers(h.pairs[j].kind);
        }
    }
}

/// An unsigned number that is written under `general.file_type` is the one whose file type is shown,
/// and where no such key is written the file type is unknown.
pub proof fn law_file_type_is_read(
    order: ByteOrder,
    h: RawHeader,
    tail: Seq<u8>,
    max_array_size: u64,
    bounds: InputBounds,
    j: int,
    n: u64,
)
    requires
        written(h),
        1 <= h.version <= 3,
    ensures
        input_of(order, h, tail, max_array_size, bounds).header() matches Ok(m) ==> {
            let key = "general.file_type"@;
            &&& has_key(h.pairs, j, key) && writes_number(h.pairs[j], n) ==> m.file_type()
                == file_type_text(n)
            &&& !keyed(h.pairs, h.pairs.len() as int, key) ==> m.file_type() == "unknown"@
        },
{
    let key = "general.file_type"@;
    law_read_as_written(order, h, tail, max_array_size, bounds);
    if let Ok(m) = input_of(order, h, tail, max_array_size, bounds).header() {
        assert(m.kvs.contains_key(key) <==> keyed(h.pairs, h.pairs.len() as int, key));
        if has_key(h.pairs, j, key) {
            assert(told_value(max_array_size, h.pairs[j], m.kvs[key_of(h.pairs[j])]));
            law_value_type_numbers(h.pairs[j].kind);
        }
    }
}

/// The products of the dimensions of written tensors, added up.
pub open spec fn counts(tensors: Seq<RawTensor>) -> int
    decreases tensors.len(),
{
    if tensors.len() == 0 {
        0
    } else {
        counts(tensors.drop_last()) + count(tensors.last().dims)
    }
}

proof fn lemma_counts(tensors: Seq<RawTensor>, views: Seq<TensorView>)
    requires
        views.len() == tensors.len(),
        told_tensors(tensors, views),
    ensures
        total_elements(views) == counts(tensors),
    decreases tensors.len(),
{
    if tensors.len() > 0 {
        let (x, y) = (tensors.drop_last(), views.drop_last());
        assert forall|j: int| 0 <= j < y.len() implies told_tensor(x[j], #[trigger] y[j]) by {
            assert(told_tensor(tensors[j], views[j]));
        }
        lemma_counts(x, y);
        let (t, v) = (tensors.last(), views.last());
        assert(told_tensor(t, v)) by {
            assert(views[views.len() - 1] == v);
        }
        assert(v.shape[0] == dim(t.dims, 0));
        assert(v.shape[1] == dim(t.dims, 1));
        assert(v.shape[2] == dim(t.dims, 2));
        assert(v.shape[3] == dim(t.dims, 3));
        law_parameter_count(y, v);
        assert(y.push(v) =~= views);
    } else {
        assert(views =~= Seq::empty());
    }
}

/// A model that is decoded has as many parameters as the products of the written dimensions add up to,
/// whatever the types of its tensors.
pub proof fn law_parameters_are_read(
    order: ByteOrder,
    h: RawHeader,
    tail: Seq<u8>,
    max_array_size: u64,
    bounds: InputBounds,
)
    requires
        written(h),
        1 <= h.version <= 3,
    ensures
        input_of(order, h, tail, max_array_size, bounds).header() matches Ok(m) ==> m.parameters()
            == counts(h.tensors),
{
    law_read_as_written(order, h, tail, max_array_size, bounds);
    if let Ok(m) = input_of(order, h, tail, max_array_size, bounds).header() {
        lemma_counts(h.tensors, m.tensors);
    }
}

} // verus!
