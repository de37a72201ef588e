//! Value types, tensor types and versions: the numbers that a header writes for them.
use crate::error::{GGUFError, ReadError};
use vstd::prelude::*;
use vstd::std_specs::convert::TryFromSpecImpl;

verus! {

/// Metadata value type in GGUF files.
///
/// The type of a metadata value in the key-value store, which decides how its bytes are read.
#[derive(Debug, Clone, Copy, PartialEq, Eq, Structural)]
pub enum MetadataValueType {
    Uint8,
    Int8,
    Uint16,
    Int16,
    Uint32,
    Int32,
    Float32,
    Bool,
    String,
    Array,
    Uint64,
    Int64,
    Float64,
}

impl MetadataValueType {
    /// The number that stands for this type in a header.
    pub open spec fn code_spec(self) -> u32 {
        match self {
            MetadataValueType::Uint8 => 0,
            MetadataValueType::Int8 => 1,
            MetadataValueType::Uint16 => 2,
            MetadataValueType::Int16 => 3,
            MetadataValueType::Uint32 => 4,
            MetadataValueType::Int32 => 5,
            MetadataValueType::Float32 => 6,
            MetadataValueType::Bool => 7,
            MetadataValueType::String => 8,
            MetadataValueType::Array => 9,
            MetadataValueType::Uint64 => 10,
            MetadataValueType::Int64 => 11,
            MetadataValueType::Float64 => 12,
        }
    }

    /// The number that stands for this type in a header.
    #[verifier::when_used_as_spec(code_spec)]
    pub fn code(self) -> (code: u32)
        ensures
            code == self.code_spec(),
    {
        match self {
            MetadataValueType::Uint8 => 0,
            MetadataValueType::Int8 => 1,
            MetadataValueType::Uint16 => 2,
            MetadataValueType::Int16 => 3,
            MetadataValueType::Uint32 => 4,
            MetadataValueType::Int32 => 5,
            MetadataValueType::Float32 => 6,
            MetadataValueType::Bool => 7,
            MetadataValueType::String => 8,
            MetadataValueType::Array => 9,
            MetadataValueType::Uint64 => 10,
            MetadataValueType::Int64 => 11,
            MetadataValueType::Float64 => 12,
        }
    }

    /// Whether values of this type are unsigned integers.
    pub open spec fn is_unsigned_spec(self) -> bool {
        self is Uint8 || self is Uint16 || self is Uint32 || self is Uint64
    }

    /// Whether values of this type are unsigned integers.
    pub fn is_unsigned(self) -> (unsigned: bool)
        ensures
            unsigned == self.is_unsigned_spec(),
    {
        match self {
            MetadataValueType::Uint8
            | MetadataValueType::Uint16
            | MetadataValueType::Uint32
            | MetadataValueType::Uint64 => true,
            _ => false,
        }
    }
}

/// The value type that `code` stands for: the one with that number, if there is one.
pub open spec fn value_type_of(code: u32) -> Option<MetadataValueType> {
    if exists|t: MetadataValueType| t.code_spec() == code {
        Some(choose|t: MetadataValueType| t.code_spec() == code)
    } else {
        None
    }
}

/// No two value types share a number, and the numbers are those up to 12.
pub proof fn lemma_value_type_codes(t: MetadataValueType)
    ensures
        t.code_spec() <= 12,
        value_type_of(t.code_spec()) == Some(t),
{
    let chosen = choose|u: MetadataValueType| u.code_spec() == t.code_spec();
    assert(chosen.code_spec() == t.code_spec());
}

impl TryFromSpecImpl<u32> for MetadataValueType {
    open spec fn obeys_try_from_spec() -> bool {
        true
    }

    open spec fn try_from_spec(value: u32) -> Result<Self, ReadError> {
        match value_type_of(value) {
            Some(t) => Ok(t),
            None => Err(ReadError::UnsupportedValueType),
        }
    }
}

impl TryFrom<u32> for MetadataValueType {
    type Error = ReadError;

    fn try_from(value: u32) -> (r: Result<Self, ReadError>)
        ensures
            r is Ok <==> value <= 12,
            r matches Ok(t) ==> t.code_spec() == value,
            r matches Err(e) ==> e == ReadError::<String>::UnsupportedValueType,
    {
        let t = match value {
            0 => MetadataValueType::Uint8,
            1 => MetadataValueType::Int8,
            2 => MetadataValueType::Uint16,
            3 => MetadataValueType::Int16,
            4 => MetadataValueType::Uint32,
            5 => MetadataValueType::Int32,
            6 => MetadataValueType::Float32,
            7 => MetadataValueType::Bool,
            8 => MetadataValueType::String,
            9 => MetadataValueType::Array,
            10 => MetadataValueType::Uint64,
            11 => MetadataValueType::Int64,
            12 => MetadataValueType::Float64,
            _ => {
                proof {
                    assert forall|t: MetadataValueType| t.code_spec() != value by {
                        lemma_value_type_codes(t);
                    }
                }
                return Err(ReadError::UnsupportedValueType);
            },
        };
        proof {
            lemma_value_type_codes(t);
        }
        Ok(t)
    }
}

/// GGML type of a tensor in the GGUF file.
///
/// The quantization format of the tensor's data. Most types are quantized formats that compress
/// floating-point values to reduce the memory footprint.
#[derive(Debug, Clone, Copy, PartialEq, Eq, Structural)]
#[allow(non_camel_case_types)]
pub enum GGMLType {
    F32,
    F16,
    Q4_0,
    Q4_1,
    Q4_2,
    Q4_3,
    Q5_0,
    Q5_1,
    Q8_0,
    Q8_1,
    Q2_K,
    Q3_K,
    Q4_K,
    Q5_K,
    Q6_K,
    Q8_K,
    IQ2_XXS,
    IQ2_XS,
    IQ3_XXS,
    IQ1_S,
    IQ4_NL,
    IQ3_S,
    IQ2_S,
    IQ4_XS,
    I8,
    I16,
    I32,
    I64,
    F64,
    IQ1_M,
    BF16,
    Q4_0_4_4,
    Q4_0_4_8,
    Q4_0_8_8,
    TQ1_0,
    TQ2_0,
    IQ4_NL_4_4,
    IQ4_NL_4_8,
    IQ4_NL_8_8,
    MXFP4,
    Count,
}

impl GGMLType {
    /// The number that stands for this type in a header.
    pub open spec fn code_spec(self) -> u32 {
        match self {
            GGMLType::F32 => 0,
            GGMLType::F16 => 1,
            GGMLType::Q4_0 => 2,
            GGMLType::Q4_1 => 3,
            GGMLType::Q4_2 => 4,
            GGMLType::Q4_3 => 5,
            GGMLType::Q5_0 => 6,
            GGMLType::Q5_1 => 7,
            GGMLType::Q8_0 => 8,
            GGMLType::Q8_1 => 9,
            GGMLType::Q2_K => 10,
            GGMLType::Q3_K => 11,
            GGMLType::Q4_K => 12,
            GGMLType::Q5_K => 13,
            GGMLType::Q6_K => 14,
            GGMLType::Q8_K => 15,
            GGMLType::IQ2_XXS => 16,
            GGMLType::IQ2_XS => 17,
            GGMLType::IQ3_XXS => 18,
            GGMLType::IQ1_S => 19,
            GGMLType::IQ4_NL => 20,
            GGMLType::IQ3_S => 21,
            GGMLType::IQ2_S => 22,
            GGMLType::IQ4_XS => 23,
            GGMLType::I8 => 24,
            GGMLType::I16 => 25,
            GGMLType::I32 => 26,
            GGMLType::I64 => 27,
            GGMLType::F64 => 28,
            GGMLType::IQ1_M => 29,
            GGMLType::BF16 => 30,
            GGMLType::Q4_0_4_4 => 31,
            GGMLType::Q4_0_4_8 => 32,
            GGMLType::Q4_0_8_8 => 33,
            GGMLType::TQ1_0 => 34,
            GGMLType::TQ2_0 => 35,
            GGMLType::IQ4_NL_4_4 => 36,
            GGMLType::IQ4_NL_4_8 => 37,
            GGMLType::IQ4_NL_8_8 => 38,
            GGMLType::MXFP4 => 39,
            GGMLType::Count => 40,
        }
    }

    /// The number that stands for this type in a header.
    #[verifier::when_used_as_spec(code_spec)]
    pub fn code(self) -> (code: u32)
        ensures
            code == self.code_spec(),
    {
        match self {
            GGMLType::F32 => 0,
            GGMLType::F16 => 1,
            GGMLType::Q4_0 => 2,
            GGMLType::Q4_1 => 3,
            GGMLType::Q4_2 => 4,
            GGMLType::Q4_3 => 5,
            GGMLType::Q5_0 => 6,
            GGMLType::Q5_1 => 7,
            GGMLType::Q8_0 => 8,
            GGMLType::Q8_1 => 9,
            GGMLType::Q2_K => 10,
            GGMLType::Q3_K => 11,
            GGMLType::Q4_K => 12,
            GGMLType::Q5_K => 13,
            GGMLType::Q6_K => 14,
            GGMLType::Q8_K => 15,
            GGMLType::IQ2_XXS => 16,
            GGMLType::IQ2_XS => 17,
            GGMLType::IQ3_XXS => 18,
            GGMLType::IQ1_S => 19,
            GGMLType::IQ4_NL => 20,
            GGMLType::IQ3_S => 21,
            GGMLType::IQ2_S => 22,
            GGMLType::IQ4_XS => 23,
            GGMLType::I8 => 24,
            GGMLType::I16 => 25,
            GGMLType::I32 => 26,
            GGMLType::I64 => 27,
            GGMLType::F64 => 28,
            GGMLType::IQ1_M => 29,
            GGMLType::BF16 => 30,
            GGMLType::Q4_0_4_4 => 31,
            GGMLType::Q4_0_4_8 => 32,
            GGMLType::Q4_0_8_8 => 33,
            GGMLType::TQ1_0 => 34,
            GGMLType::TQ2_0 => 35,
            GGMLType::IQ4_NL_4_4 => 36,
            GGMLType::IQ4_NL_4_8 => 37,
            GGMLType::IQ4_NL_8_8 => 38,
            GGMLType::MXFP4 => 39,
            GGMLType::Count => 40,
        }
    }

    /// Whether a header may name this type: the two types that were withdrawn early and the end
    /// marker have a number that is not read back.
    pub open spec fn readable(self) -> bool {
        !(self is Q4_2 || self is Q4_3 || self is Count)
    }

    /// The type's name, with a mark at the types that are no longer supported.
    pub open spec fn name_spec(self) -> Seq<char> {
        match self {
            GGMLType::F32 => "F32"@,
            GGMLType::F16 => "F16"@,
            GGMLType::Q4_0 => "Q4_0"@,
            GGMLType::Q4_1 => "Q4_1"@,
            GGMLType::Q4_2 => "Q4_2 (UNSUPPORTED)"@,
            GGMLType::Q4_3 => "Q4_3 (UNSUPPORTED)"@,
            GGMLType::Q5_0 => "Q5_0"@,
            GGMLType::Q5_1 => "Q5_1"@,
            GGMLType::Q8_0 => "Q8_0"@,
            GGMLType::Q8_1 => "Q8_1"@,
            GGMLType::Q2_K => "Q2_K"@,
            GGMLType::Q3_K => "Q3_K"@,
            GGMLType::Q4_K => "Q4_K"@,
            GGMLType::Q5_K => "Q5_K"@,
            GGMLType::Q6_K => "Q6_K"@,
            GGMLType::Q8_K => "Q8_K"@,
            GGMLType::IQ2_XXS => "IQ2_XXS"@,
            GGMLType::IQ2_XS => "IQ2_XS"@,
            GGMLType::IQ3_XXS => "IQ3_XXS"@,
            GGMLType::IQ1_S => "IQ1_S"@,
            GGMLType::IQ4_NL => "IQ4_NL"@,
            GGMLType::IQ3_S => "IQ3_S"@,
            GGMLType::IQ2_S => "IQ2_S"@,
            GGMLType::IQ4_XS => "IQ4_XS"@,
            GGMLType::I8 => "I8"@,
            GGMLType::I16 => "I16"@,
            GGMLType::I32 => "I32"@,
            GGMLType::I64 => "I64"@,
            GGMLType::F64 => "F64"@,
            GGMLType::IQ1_M => "IQ1_M"@,
            GGMLType::BF16 => "BF16"@,
            GGMLType::Q4_0_4_4 => "Q4_0_4_4 (UNSUPPORTED)"@,
            GGMLType::Q4_0_4_8 => "Q4_0_4_8 (UNSUPPORTED)"@,
            GGMLType::Q4_0_8_8 => "Q4_0_8_8 (UNSUPPORTED)"@,
            GGMLType::TQ1_0 => "TQ1_0"@,
            GGMLType::TQ2_0 => "TQ2_0"@,
            GGMLType::IQ4_NL_4_4 => "IQ4_NL_4_4 (UNSUPPORTED)"@,
            GGMLType::IQ4_NL_4_8 => "IQ4_NL_4_8 (UNSUPPORTED)"@,
            GGMLType::IQ4_NL_8_8 => "IQ4_NL_8_8 (UNSUPPORTED)"@,
            GGMLType::MXFP4 => "MXFP4"@,
            GGMLType::Count => "Count"@,
        }
    }

    /// The type's name, with a mark at the types that are no longer supported.
    pub fn name(&self) -> (name: String)
        ensures
            name@ == self.name_spec(),
    {
        let name: &str = match *self {
            GGMLType::F32 => "F32",
            GGMLType::F16 => "F16",
            GGMLType::Q4_0 => "Q4_0",
            GGMLType::Q4_1 => "Q4_1",
            GGMLType::Q4_2 => "Q4_2 (UNSUPPORTED)",
            GGMLType::Q4_3 => "Q4_3 (UNSUPPORTED)",
            GGMLType::Q5_0 => "Q5_0",
            GGMLType::Q5_1 => "Q5_1",
            GGMLType::Q8_0 => "Q8_0",
            GGMLType::Q8_1 => "Q8_1",
            GGMLType::Q2_K => "Q2_K",
            GGMLType::Q3_K => "Q3_K",
            GGMLType::Q4_K => "Q4_K",
            GGMLType::Q5_K => "Q5_K",
            GGMLType::Q6_K => "Q6_K",
            GGMLType::Q8_K => "Q8_K",
            GGMLType::IQ2_XXS => "IQ2_XXS",
            GGMLType::IQ2_XS => "IQ2_XS",
            GGMLType::IQ3_XXS => "IQ3_XXS",
            GGMLType::IQ1_S => "IQ1_S",
            GGMLType::IQ4_NL => "IQ4_NL",
            GGMLType::IQ3_S => "IQ3_S",
            GGMLType::IQ2_S => "IQ2_S",
            GGMLType::IQ4_XS => "IQ4_XS",
            GGMLType::I8 => "I8",
            GGMLType::I16 => "I16",
            GGMLType::I32 => "I32",
            GGMLType::I64 => "I64",
            GGMLType::F64 => "F64",
            GGMLType::IQ1_M => "IQ1_M",
            GGMLType::BF16 => "BF16",
            GGMLType::Q4_0_4_4 => "Q4_0_4_4 (UNSUPPORTED)",
            GGMLType::Q4_0_4_8 => "Q4_0_4_8 (UNSUPPORTED)",
            GGMLType::Q4_0_8_8 => "Q4_0_8_8 (UNSUPPORTED)",
            GGMLType::TQ1_0 => "TQ1_0",
            GGMLType::TQ2_0 => "TQ2_0",
            GGMLType::IQ4_NL_4_4 => "IQ4_NL_4_4 (UNSUPPORTED)",
            GGMLType::IQ4_NL_4_8 => "IQ4_NL_4_8 (UNSUPPORTED)",
            GGMLType::IQ4_NL_8_8 => "IQ4_NL_8_8 (UNSUPPORTED)",
            GGMLType::MXFP4 => "MXFP4",
            GGMLType::Count => "Count",
        };
        name.to_owned()
    }
}

/// The tensor type that `code` stands for: the readable one with that number, if there is one.
pub open spec fn ggml_type_of(code: u32) -> Option<GGMLType> {
    if exists|t: GGMLType| t.readable() && t.code_spec() == code {
        Some(choose|t: GGMLType| t.readable() && t.code_spec() == code)
    } else {
        None
    }
}

/// No two tensor types share a number, and the readable ones are below 40.
pub proof fn lemma_ggml_type_codes(t: GGMLType)
    requires
        t.readable(),
    ensures
        t.code_spec() < 40,
        t.code_spec() != 4,
        t.code_spec() != 5,
        ggml_type_of(t.code_spec()) == Some(t),
{
    let chosen = choose|u: GGMLType| u.readable() && u.code_spec() == t.code_spec();
    assert(chosen.code_spec() == t.code_spec());
}

impl TryFromSpecImpl<u32> for GGMLType {
    open spec fn obeys_try_from_spec() -> bool {
        true
    }

    open spec fn try_from_spec(value: u32) -> Result<Self, GGUFError> {
        match ggml_type_of(value) {
            Some(t) => Ok(t),
            None => Err(GGUFError::InvalidTensorType),
        }
    }
}

impl TryFrom<u32> for GGMLType {
    type Error = GGUFError;

    fn try_from(value: u32) -> (r: Result<Self, GGUFError>)
        ensures
            r is Ok <==> value < 40 && value != 4 && value != 5,
            r matches Ok(t) ==> t.code_spec() == value,
            r matches Err(e) ==> e == GGUFError::<String>::InvalidTensorType,
    {
        let t = match value {
            0 => GGMLType::F32,
            1 => GGMLType::F16,
            2 => GGMLType::Q4_0,
            3 => GGMLType::Q4_1,
            6 => GGMLType::Q5_0,
            7 => GGMLType::Q5_1,
            8 => GGMLType::Q8_0,
            9 => GGMLType::Q8_1,
            10 => GGMLType::Q2_K,
            11 => GGMLType::Q3_K,
            12 => GGMLType::Q4_K,
            13 => GGMLType::Q5_K,
            14 => GGMLType::Q6_K,
            15 => GGMLType::Q8_K,
            16 => GGMLType::IQ2_XXS,
            17 => GGMLType::IQ2_XS,
            18 => GGMLType::IQ3_XXS,
            19 => GGMLType::IQ1_S,
            20 => GGMLType::IQ4_NL,
            21 => GGMLType::IQ3_S,
            22 => GGMLType::IQ2_S,
            23 => GGMLType::IQ4_XS,
            24 => GGMLType::I8,
            25 => GGMLType::I16,
            26 => GGMLType::I32,
            27 => GGMLType::I64,
            28 => GGMLType::F64,
            29 => GGMLType::IQ1_M,
            30 => GGMLType::BF16,
            31 => GGMLType::Q4_0_4_4,
            32 => GGMLType::Q4_0_4_8,
            33 => GGMLType::Q4_0_8_8,
            34 => GGMLType::TQ1_0,
            35 => GGMLType::TQ2_0,
            36 => GGMLType::IQ4_NL_4_4,
            37 => GGMLType::IQ4_NL_4_8,
            38 => GGMLType::IQ4_NL_8_8,
            39 => GGMLType::MXFP4,
            _ => {
                proof {
                    assert forall|t: GGMLType| !(t.readable() && t.code_spec() == value) by {
                        if t.readable() {
                            lemma_ggml_type_codes(t);
                        }
                    }
                }
                return Err(GGUFError::InvalidTensorType);
            },
        };
        proof {
            lemma_ggml_type_codes(t);
        }
        Ok(t)
    }
}

/// How a tensor type stores its elements: so many elements to a block, so many bytes to a block.
/// The types that were removed have no layout.
pub open spec fn layout_of(kind: GGMLType) -> Option<(u64, u64)> {
    match kind {
        GGMLType::F32 => Some((1, 4)),
        GGMLType::F16 => Some((1, 2)),
        GGMLType::Q4_0 => Some((32, 18)),
        GGMLType::Q4_1 => Some((32, 20)),
        GGMLType::Q5_0 => Some((32, 22)),
        GGMLType::Q5_1 => Some((32, 24)),
        GGMLType::Q8_0 => Some((32, 34)),
        GGMLType::Q8_1 => Some((32, 40)),
        GGMLType::Q2_K => Some((256, 84)),
        GGMLType::Q3_K => Some((256, 110)),
        GGMLType::Q4_K => Some((256, 144)),
        GGMLType::Q5_K => Some((256, 176)),
        GGMLType::Q6_K => Some((256, 210)),
        GGMLType::Q8_K => Some((256, 292)),
        GGMLType::IQ2_XXS => Some((256, 66)),
        GGMLType::IQ2_XS => Some((256, 74)),
        GGMLType::IQ3_XXS => Some((256, 98)),
        GGMLType::IQ1_S => Some((256, 50)),
        GGMLType::IQ4_NL => Some((32, 18)),
        GGMLType::IQ3_S => Some((256, 110)),
        GGMLType::IQ2_S => Some((256, 82)),
        GGMLType::IQ4_XS => Some((256, 136)),
        GGMLType::I8 => Some((1, 1)),
        GGMLType::I16 => Some((1, 2)),
        GGMLType::I32 => Some((1, 4)),
        GGMLType::I64 => Some((1, 8)),
        GGMLType::F64 => Some((1, 8)),
        GGMLType::IQ1_M => Some((256, 56)),
        GGMLType::BF16 => Some((1, 2)),
        GGMLType::TQ1_0 => Some((256, 54)),
        GGMLType::TQ2_0 => Some((256, 66)),
        GGMLType::MXFP4 => Some((32, 17)),
        _ => None,
    }
}

/// The block size in elements and the type size in bytes of a tensor type.
pub fn ggml_type_layout(kind: GGMLType) -> (r: Result<(u64, u64), GGUFError>)
    ensures
        match r {
            Ok(layout) => layout_of(kind) == Some(layout),
            Err(e) => layout_of(kind) is None && e == GGUFError::<String>::UnsupportedTensorType,
        },
{
    let (block_size, type_size): (u64, u64) = match kind {
        GGMLType::F32 => (1, 4),
        GGMLType::F16 => (1, 2),
        GGMLType::Q4_0 => (32, 2 + 32 / 2),
        GGMLType::Q4_1 => (32, 2 + 2 + 32 / 2),
        GGMLType::Q4_2 => (0, 0),
        GGMLType::Q4_3 => (0, 0),
        GGMLType::Q5_0 => (32, 2 + 4 + 32 / 2),
        GGMLType::Q5_1 => (32, 2 + 2 + 4 + 32 / 2),
        GGMLType::Q8_0 => (32, 2 + 32),
        GGMLType::Q8_1 => (32, 4 + 4 + 32),
        GGMLType::Q2_K => (BLOCK, BLOCK / 16 + BLOCK / 4 + 2 + 2),
        GGMLType::Q3_K => (BLOCK, BLOCK / 8 + BLOCK / 4 + 12 + 2),
        GGMLType::Q4_K => (BLOCK, 2 + 2 + 12 + BLOCK / 2),
        GGMLType::Q5_K => (BLOCK, 2 + 2 + 12 + BLOCK / 8 + BLOCK / 2),
        GGMLType::Q6_K => (BLOCK, BLOCK / 2 + BLOCK / 4 + BLOCK / 16 + 2),
        GGMLType::Q8_K => (BLOCK, 4 + BLOCK + BLOCK / 16 * 2),
        GGMLType::IQ2_XXS => (BLOCK, 2 + BLOCK / 8 * 2),
        GGMLType::IQ2_XS => (BLOCK, 2 + BLOCK / 8 * 2 + BLOCK / 32),
        GGMLType::IQ3_XXS => (BLOCK, 2 + 3 * (BLOCK / 8)),
        GGMLType::IQ1_S => (BLOCK, 2 + BLOCK / 8 + BLOCK / 16),
        GGMLType::IQ4_NL => (32, 2 + 16),
        GGMLType::IQ3_S => (BLOCK, 2 + 13 * (BLOCK / 32) + BLOCK / 64),
        GGMLType::IQ2_S => (BLOCK, 2 + BLOCK / 4 + BLOCK / 16),
        GGMLType::IQ4_XS => (BLOCK, 2 + 2 + BLOCK / 64 + BLOCK / 2),
        GGMLType::I8 => (1, 1),
        GGMLType::I16 => (1, 2),
        GGMLType::I32 => (1, 4),
        GGMLType::I64 => (1, 8),
        GGMLType::F64 => (1, 8),
        GGMLType::IQ1_M => (BLOCK, BLOCK / 8 + BLOCK / 16 + BLOCK / 32),
        GGMLType::BF16 => (1, 2),
        GGMLType::Q4_0_4_4 => (0, 0),
        GGMLType::Q4_0_4_8 => (0, 0),
        GGMLType::Q4_0_8_8 => (0, 0),
        GGMLType::TQ1_0 => (BLOCK, 2 + BLOCK / 64 + (BLOCK - 4 * (BLOCK / 64)) / 5),
        GGMLType::TQ2_0 => (BLOCK, 2 + BLOCK / 4),
        GGMLType::IQ4_NL_4_4 => (0, 0),
        GGMLType::IQ4_NL_4_8 => (0, 0),
        GGMLType::IQ4_NL_8_8 => (0, 0),
        GGMLType::MXFP4 => (32, 17),
        GGMLType::Count => (0, 0),
    };
    if block_size == 0 || type_size == 0 {
        return Err(GGUFError::UnsupportedTensorType);
    }
    Ok((block_size, type_size))
}

/// Elements in a block of the types whose names end in `K`.
const BLOCK: u64 = 256;

/// Version 1 of the GGUF file: 32-bit counts and sizes.
#[derive(Debug, Clone, Copy, PartialEq, Eq, Structural)]
pub struct V1 {
    pub num_tensor: u32,
    pub num_kv: u32,
}

/// Version 2 of the GGUF file: 64-bit counts and sizes.
#[derive(Debug, Clone, Copy, PartialEq, Eq, Structural)]
pub struct V2 {
    pub num_tensor: u64,
    pub num_kv: u64,
}

/// Version 3 of the GGUF file: 64-bit counts and sizes.
#[derive(Debug, Clone, Copy, PartialEq, Eq, Structural)]
pub struct V3 {
    pub num_tensor: u64,
    pub num_kv: u64,
}

impl Default for V1 {
    fn default() -> (v: Self)
        ensures
            v.num_tensor == 0,
            v.num_kv == 0,
    {
        V1 { num_tensor: 0, num_kv: 0 }
    }
}

impl Default for V2 {
    fn default() -> (v: Self)
        ensures
            v.num_tensor == 0,
            v.num_kv == 0,
    {
        V2 { num_tensor: 0, num_kv: 0 }
    }
}

impl Default for V3 {
    fn default() -> (v: Self)
        ensures
            v.num_tensor == 0,
            v.num_kv == 0,
    {
        V3 { num_tensor: 0, num_kv: 0 }
    }
}

/// Version of the GGUF file, with the counts that its header declares.
#[derive(Debug, Clone, Copy, PartialEq, Eq, Structural)]
pub enum Version {
    V1(V1),
    V2(V2),
    V3(V3),
}

impl Version {
    /// The number of key-value pairs that the header declares.
    pub open spec fn num_kv_spec(self) -> u64 {
        match self {
            Version::V1(v1) => v1.num_kv as u64,
            Version::V2(v2) => v2.num_kv,
            Version::V3(v3) => v3.num_kv,
        }
    }

    /// The number of tensors that the header declares.
    pub open spec fn num_tensor_spec(self) -> u64 {
        match self {
            Version::V1(v1) => v1.num_tensor as u64,
            Version::V2(v2) => v2.num_tensor,
            Version::V3(v3) => v3.num_tensor,
        }
    }

    /// Whether sizes take eight bytes rather than four.
    pub open spec fn wide_spec(self) -> bool {
        !(self is V1)
    }

    /// `v1`, `v2` or `v3`.
    pub open spec fn name_spec(self) -> Seq<char> {
        match self {
            Version::V1(_) => "v1"@,
            Version::V2(_) => "v2"@,
            Version::V3(_) => "v3"@,
        }
    }

    /// The bytes that magic, version and counts take in front of the metadata.
    pub open spec fn preamble_len_spec(self) -> u64 {
        if self.wide_spec() {
            24
        } else {
            16
        }
    }

    /// The number of key-value pairs that the header declares.
    pub fn num_kv(&self) -> (n: u64)
        ensures
            n == self.num_kv_spec(),
    {
        match self {
            Version::V1(v1) => v1.num_kv as u64,
            Version::V2(v2) => v2.num_kv,
            Version::V3(v3) => v3.num_kv,
        }
    }

    /// The number of tensors that the header declares.
    pub fn num_tensor(&self) -> (n: u64)
        ensures
            n == self.num_tensor_spec(),
    {
        match self {
            Version::V1(v1) => v1.num_tensor as u64,
            Version::V2(v2) => v2.num_tensor,
            Version::V3(v3) => v3.num_tensor,
        }
    }

    /// Whether sizes take eight bytes rather than four.
    pub fn wide(&self) -> (wide: bool)
        ensures
            wide == self.wide_spec(),
    {
        match self {
            Version::V1(_) => false,
            Version::V2(_) | Version::V3(_) => true,
        }
    }

    /// `v1`, `v2` or `v3`.
    pub fn name(&self) -> (name: String)
        ensures
            name@ == self.name_spec(),
    {
        match self {
            Version::V1(_) => "v1".to_owned(),
            Version::V2(_) => "v2".to_owned(),
            Version::V3(_) => "v3".to_owned(),
        }
    }

    /// The bytes that magic, version and counts take in front of the metadata.
    pub fn preamble_len(&self) -> (len: u64)
        ensures
            len == self.preamble_len_spec(),
    {
        if self.wide() {
            4 + 4 + 8 + 8
        } else {
            4 + 4 + 4 + 4
        }
    }
}

} // verus!
