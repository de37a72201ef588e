//! The numbers and names of tensor types, value types and file types.
use crate::text::file_type_text;
use crate::types::{
    ggml_type_of, layout_of, lemma_ggml_type_codes, lemma_value_type_codes, value_type_of, GGMLType,
    MetadataValueType,
};
use vstd::prelude::*;

verus! {

/// The value types in the order of their numbers.
pub open spec fn value_types() -> Seq<MetadataValueType> {
    seq![
        MetadataValueType::Uint8,
        MetadataValueType::Int8,
        MetadataValueType::Uint16,
        MetadataValueType::Int16,
        MetadataValueType::Uint32,
        MetadataValueType::Int32,
        MetadataValueType::Float32,
        MetadataValueType::Bool,
        MetadataValueType::String,
        MetadataValueType::Array,
        MetadataValueType::Uint64,
        MetadataValueType::Int64,
        MetadataValueType::Float64,
    ]
}

/// The tensor types in the order of their numbers.
pub open spec fn tensor_types() -> Seq<GGMLType> {
    seq![
        GGMLType::F32,
        GGMLType::F16,
        GGMLType::Q4_0,
        GGMLType::Q4_1,
        GGMLType::Q4_2,
        GGMLType::Q4_3,
        GGMLType::Q5_0,
        GGMLType::Q5_1,
        GGMLType::Q8_0,
        GGMLType::Q8_1,
        GGMLType::Q2_K,
        GGMLType::Q3_K,
        GGMLType::Q4_K,
        GGMLType::Q5_K,
        GGMLType::Q6_K,
        GGMLType::Q8_K,
        GGMLType::IQ2_XXS,
        GGMLType::IQ2_XS,
        GGMLType::IQ3_XXS,
        GGMLType::IQ1_S,
        GGMLType::IQ4_NL,
        GGMLType::IQ3_S,
        GGMLType::IQ2_S,
        GGMLType::IQ4_XS,
        GGMLType::I8,
        GGMLType::I16,
        GGMLType::I32,
        GGMLType::I64,
        GGMLType::F64,
        GGMLType::IQ1_M,
        GGMLType::BF16,
        GGMLType::Q4_0_4_4,
        GGMLType::Q4_0_4_8,
        GGMLType::Q4_0_8_8,
        GGMLType::TQ1_0,
        GGMLType::TQ2_0,
        GGMLType::IQ4_NL_4_4,
        GGMLType::IQ4_NL_4_8,
        GGMLType::IQ4_NL_8_8,
        GGMLType::MXFP4,
        GGMLType::Count,
    ]
}

/// The numbers of the value types are their places, and no other number stands for one.
pub proof fn law_value_type_numbers(code: u32)
    ensures
        value_types().len() == 13,
        value_type_of(code) == if code < 13 {
            Some(value_types()[code as int])
        } else {
            None
        },
{
    if code < 13 {
        lemma_value_type_codes(value_types()[code as int]);
    } else {
        assert forall|t: MetadataValueType| t.code_spec() != code by {
            lemma_value_type_codes(t);
        }
    }
}

/// The numbers of the tensor types are their places. The two types that were withdrawn early and
/// the end marker are not read back, and no other number stands for a type.
pub proof fn law_tensor_type_numbers(code: u32)
    ensures
        tensor_types().len() == 41,
        code < 41 ==> tensor_types()[code as int].code_spec() == code,
        ggml_type_of(code) == if code < 40 && code != 4 && code != 5 {
            Some(tensor_types()[code as int])
        } else {
            None
        },
{
    if code < 40 && code != 4 && code != 5 {
        lemma_ggml_type_codes(tensor_types()[code as int]);
    } else {
        assert forall|t: GGMLType| !(t.readable() && #[trigger] t.code_spec() == code) by {
            if t.readable() {
                lemma_ggml_type_codes(t);
            }
        }
    }
}

/// The names of the tensor types in the order of their numbers, without marks.
pub open spec fn tensor_type_names() -> Seq<Seq<char>> {
    seq![
        "F32"@,
        "F16"@,
        "Q4_0"@,
        "Q4_1"@,
        "Q4_2"@,
        "Q4_3"@,
        "Q5_0"@,
        "Q5_1"@,
        "Q8_0"@,
        "Q8_1"@,
        "Q2_K"@,
        "Q3_K"@,
        "Q4_K"@,
        "Q5_K"@,
        "Q6_K"@,
        "Q8_K"@,
        "IQ2_XXS"@,
        "IQ2_XS"@,
        "IQ3_XXS"@,
        "IQ1_S"@,
        "IQ4_NL"@,
        "IQ3_S"@,
        "IQ2_S"@,
        "IQ4_XS"@,
        "I8"@,
        "I16"@,
        "I32"@,
        "I64"@,
        "F64"@,
        "IQ1_M"@,
        "BF16"@,
        "Q4_0_4_4"@,
        "Q4_0_4_8"@,
        "Q4_0_8_8"@,
        "TQ1_0"@,
        "TQ2_0"@,
        "IQ4_NL_4_4"@,
        "IQ4_NL_4_8"@,
        "IQ4_NL_8_8"@,
        "MXFP4"@,
        "Count"@,
    ]
}

/// A tensor type is shown by its name, and those that were removed with a mark behind it: all that
/// have no layout but the end marker.
pub proof fn law_tensor_type_names(i: int)
    requires
        0 <= i < 41,
    ensures
        tensor_type_names().len() == 41,
        tensor_types()[i].name_spec() == tensor_type_names()[i] + if layout_of(
            tensor_types()[i],
        ) is None && i < 40 {
            " (UNSUPPORTED)"@
        } else {
            Seq::empty()
        },
{
    reveal_strlit(" (UNSUPPORTED)");
    reveal_strlit("Q4_2");
    reveal_strlit("Q4_2 (UNSUPPORTED)");
    reveal_strlit("Q4_3");
    reveal_strlit("Q4_3 (UNSUPPORTED)");
    reveal_strlit("Q4_0_4_4");
    reveal_strlit("Q4_0_4_4 (UNSUPPORTED)");
    reveal_strlit("Q4_0_4_8");
    reveal_strlit("Q4_0_4_8 (UNSUPPORTED)");
    reveal_strlit("Q4_0_8_8");
    reveal_strlit("Q4_0_8_8 (UNSUPPORTED)");
    reveal_strlit("IQ4_NL_4_4");
    reveal_strlit("IQ4_NL_4_4 (UNSUPPORTED)");
    reveal_strlit("IQ4_NL_4_8");
    reveal_strlit("IQ4_NL_4_8 (UNSUPPORTED)");
    reveal_strlit("IQ4_NL_8_8");
    reveal_strlit("IQ4_NL_8_8 (UNSUPPORTED)");
    let bare = tensor_type_names()[i];
    assert(bare + Seq::<char>::empty() =~= bare);
    let marked = bare + " (UNSUPPORTED)"@;
    assert(i == 4 ==> marked =~= "Q4_2 (UNSUPPORTED)"@);
    assert(i == 5 ==> marked =~= "Q4_3 (UNSUPPORTED)"@);
    assert(i == 31 ==> marked =~= "Q4_0_4_4 (UNSUPPORTED)"@);
    assert(i == 32 ==> marked =~= "Q4_0_4_8 (UNSUPPORTED)"@);
    assert(i == 33 ==> marked =~= "Q4_0_8_8 (UNSUPPORTED)"@);
    assert(i == 36 ==> marked =~= "IQ4_NL_4_4 (UNSUPPORTED)"@);
    assert(i == 37 ==> marked =~= "IQ4_NL_4_8 (UNSUPPORTED)"@);
    assert(i == 38 ==> marked =~= "IQ4_NL_8_8 (UNSUPPORTED)"@);
}

/// The numbers of the tensor types that most tensors have, by the number of the file type. Three
/// file types are not among them: all of one type, of two types, and unknown.
pub open spec fn main_types() -> Map<u64, int> {
    map![
        1u64 => 1int,
        2u64 => 2int,
        3u64 => 3int,
        5u64 => 4int,
        6u64 => 5int,
        7u64 => 8int,
        8u64 => 6int,
        9u64 => 7int,
        10u64 => 10int,
        11u64 => 11int,
        12u64 => 12int,
        13u64 => 13int,
        14u64 => 14int,
        15u64 => 16int,
        16u64 => 17int,
        17u64 => 18int,
        18u64 => 19int,
        19u64 => 20int,
        20u64 => 21int,
        21u64 => 22int,
        22u64 => 23int,
        23u64 => 29int,
        24u64 => 30int,
    ]
}

/// A file type is shown as what most of its tensors are: the name of that tensor type, with its
/// mark, stands in it.
pub proof fn law_file_type_names(n: u64)
    ensures
        main_types().contains_key(n) ==> 0 <= main_types()[n] < 41 && file_type_text(n)
            == "Mostly "@ + tensor_types()[main_types()[n]].name_spec(),
        n == 0 ==> file_type_text(n) == "All "@ + GGMLType::F32.name_spec(),
        n == 4 ==> file_type_text(n) == "Mostly "@ + GGMLType::Q4_1.name_spec() + " Some "@
            + GGMLType::F16.name_spec(),
        n > 24 ==> file_type_text(n) == "unknown"@,
        n <= 24 ==> n == 0 || n == 4 || main_types().contains_key(n),
{
    reveal_strlit("Mostly ");
    reveal_strlit("All ");
    reveal_strlit(" Some ");
    reveal_strlit("BF16");
    reveal_strlit("F16");
    reveal_strlit("F32");
    reveal_strlit("IQ1_M");
    reveal_strlit("IQ1_S");
    reveal_strlit("IQ2_S");
    reveal_strlit("IQ2_XS");
    reveal_strlit("IQ2_XXS");
    reveal_strlit("IQ3_S");
    reveal_strlit("IQ3_XXS");
    reveal_strlit("IQ4_NL");
    reveal_strlit("IQ4_XS");
    reveal_strlit("Q2_K");
    reveal_strlit("Q3_K");
    reveal_strlit("Q4_0");
    reveal_strlit("Q4_1");
    reveal_strlit("Q4_2 (UNSUPPORTED)");
    reveal_strlit("Q4_3 (UNSUPPORTED)");
    reveal_strlit("Q4_K");
    reveal_strlit("Q5_0");
    reveal_strlit("Q5_1");
    reveal_strlit("Q5_K");
    reveal_strlit("Q6_K");
    reveal_strlit("Q8_0");
    reveal_strlit("All F32");
    reveal_strlit("Mostly F16");
    reveal_strlit("Mostly Q4_0");
    reveal_strlit("Mostly Q4_1");
    reveal_strlit("Mostly Q4_1 Some F16");
    reveal_strlit("Mostly Q4_2 (UNSUPPORTED)");
    reveal_strlit("Mostly Q4_3 (UNSUPPORTED)");
    reveal_strlit("Mostly Q8_0");
    reveal_strlit("Mostly Q5_0");
    reveal_strlit("Mostly Q5_1");
    reveal_strlit("Mostly Q2_K");
    reveal_strlit("Mostly Q3_K");
    reveal_strlit("Mostly Q4_K");
    reveal_strlit("Mostly Q5_K");
    reveal_strlit("Mostly Q6_K");
    reveal_strlit("Mostly IQ2_XXS");
    reveal_strlit("Mostly IQ2_XS");
    reveal_strlit("Mostly IQ3_XXS");
    reveal_strlit("Mostly IQ1_S");
    reveal_strlit("Mostly IQ4_NL");
    reveal_strlit("Mostly IQ3_S");
    reveal_strlit("Mostly IQ2_S");
    reveal_strlit("Mostly IQ4_XS");
    reveal_strlit("Mostly IQ1_M");
    reveal_strlit("Mostly BF16");
    assert("Mostly "@ + "F16"@ =~= "Mostly F16"@);
    assert("Mostly "@ + "Q4_0"@ =~= "Mostly Q4_0"@);
    assert("Mostly "@ + "Q4_1"@ =~= "Mostly Q4_1"@);
    assert("Mostly "@ + "Q4_2 (UNSUPPORTED)"@ =~= "Mostly Q4_2 (UNSUPPORTED)"@);
    assert("Mostly "@ + "Q4_3 (UNSUPPORTED)"@ =~= "Mostly Q4_3 (UNSUPPORTED)"@);
    assert("Mostly "@ + "Q8_0"@ =~= "Mostly Q8_0"@);
    assert("Mostly "@ + "Q5_0"@ =~= "Mostly Q5_0"@);
    assert("Mostly "@ + "Q5_1"@ =~= "Mostly Q5_1"@);
    assert("Mostly "@ + "Q2_K"@ =~= "Mostly Q2_K"@);
    assert("Mostly "@ + "Q3_K"@ =~= "Mostly Q3_K"@);
    assert("Mostly "@ + "Q4_K"@ =~= "Mostly Q4_K"@);
    assert("Mostly "@ + "Q5_K"@ =~= "Mostly Q5_K"@);
    assert("Mostly "@ + "Q6_K"@ =~= "Mostly Q6_K"@);
    assert("Mostly "@ + "IQ2_XXS"@ =~= "Mostly IQ2_XXS"@);
    assert("Mostly "@ + "IQ2_XS"@ =~= "Mostly IQ2_XS"@);
    assert("Mostly "@ + "IQ3_XXS"@ =~= "Mostly IQ3_XXS"@);
    assert("Mostly "@ + "IQ1_S"@ =~= "Mostly IQ1_S"@);
    assert("Mostly "@ + "IQ4_NL"@ =~= "Mostly IQ4_NL"@);
    assert("Mostly "@ + "IQ3_S"@ =~= "Mostly IQ3_S"@);
    assert("Mostly "@ + "IQ2_S"@ =~= "Mostly IQ2_S"@);
    assert("Mostly "@ + "IQ4_XS"@ =~= "Mostly IQ4_XS"@);
    assert("Mostly "@ + "IQ1_M"@ =~= "Mostly IQ1_M"@);
    assert("Mostly "@ + "BF16"@ =~= "Mostly BF16"@);
    assert("All "@ + "F32"@ =~= "All F32"@);
    assert("Mostly "@ + "Q4_1"@ + " Some "@ + "F16"@ =~= "Mostly Q4_1 Some F16"@);
}

/// A type whose elements stand by themselves takes as many bits to an element as its name says; all
/// others have blocks of 32 or 256 elements.
pub proof fn law_plain_layouts(kind: GGMLType)
    ensures
        layout_of(kind) matches Some((block, _)) ==> block == 1 || block == 32 || block == 256,
        kind is I8 ==> layout_of(kind) == Some((1u64, 8u64 / 8)),
        kind is F16 || kind is BF16 || kind is I16 ==> layout_of(kind) == Some((1u64, 16u64 / 8)),
        kind is F32 || kind is I32 ==> layout_of(kind) == Some((1u64, 32u64 / 8)),
        kind is F64 || kind is I64 ==> layout_of(kind) == Some((1u64, 64u64 / 8)),
{
}

} // verus!
