//! Decoding of GGUF (GGML Universal Format) headers: key-value metadata and tensor information.
//!
//! GGUF files hold quantized machine learning models. A [`GGUFContainer`] is made of the bytes of
//! a file, or of those that have arrived so far, and gives a [`GGUFModel`]. Versions 1, 2 and 3 and
//! both byte orders are read.
//!
//! [`grammar`] says which bytes hold which header, as functions from bytes to contents; every
//! reading function is proved to agree with it. [`laws`] holds what follows for all headers.
pub mod constants;
pub mod container;
pub mod endian;
pub mod error;
pub mod grammar;
pub mod laws;
pub mod message;
pub mod metadata;
pub mod model;
pub mod open;
pub mod progress;
pub mod reader;
pub mod tensors;
pub mod text;
pub mod types;
pub mod value;

pub use constants::{
    DEFAULT_MAX_HELPER_INPUT_BYTES, FILE_MAGIC_GGJT, FILE_MAGIC_GGLA, FILE_MAGIC_GGMF,
    FILE_MAGIC_GGML, FILE_MAGIC_GGUF_BE, FILE_MAGIC_GGUF_LE, GGUF_VERSION_V1, GGUF_VERSION_V2,
    GGUF_VERSION_V3,
};
pub use container::{detect_magic, GGUFContainer};
pub use endian::ByteOrder;
pub use error::{GGUFError, Helper, ReadError, StringContext, TensorFault};
pub use grammar::InputBounds;
pub use metadata::{Metadata, MetadataEntry};
pub use model::{validate_counts, GGUFModel};
pub use open::{
    get_gguf_container, get_gguf_container_array_size, get_gguf_container_array_size_with_limit,
    CheckedFile, FileRequest, SizedFile,
};
pub use text::{file_type, human_number};
pub use types::{ggml_type_layout, GGMLType, MetadataValueType, Version, V1, V2, V3};
pub use value::{MetadataScalar, MetadataValue, Tensor};
