//! Decoded GGUF models.
use crate::constants::{MAX_HEADER_BYTES, MAX_KV, MAX_METADATA_BYTES, MAX_TENSORS};
use crate::endian::ByteOrder;
use crate::error::{GGUFError, StringContext};
use crate::grammar::{
    body, check_counts, description_at, kvs_at, string_at, tensors_at, total_elements,
    typed_value_at, Dialect, InputBounds, ModelView,
};
use crate::metadata::Metadata;
use crate::reader::CountingReader;
use crate::tensors::validate_tensor_ranges;
use crate::text::{file_type, file_type_text, human_number, human_number_text};
use crate::types::Version;
use crate::value::{tensor_views, MetadataScalar, MetadataValue, Tensor, TensorView, ValueView};
use vstd::prelude::*;

verus! {

impl ModelView {
    /// The value of `general.architecture`, or `unknown` where there is no such text.
    pub open spec fn family(self) -> Seq<char> {
        let key = "general.architecture"@;
        match self.kvs[key] {
            ValueView::Scalar(MetadataScalar::String(name)) if self.kvs.contains_key(key) => name,
            _ => "unknown"@,
        }
    }

    /// What `general.file_type` stands for, or `unknown` where there is no such number.
    pub open spec fn file_type(self) -> Seq<char> {
        let key = "general.file_type"@;
        match self.kvs[key].as_u64() {
            Some(ft) if self.kvs.contains_key(key) => file_type_text(ft),
            _ => "unknown"@,
        }
    }

    /// The number of elements for human readers, or `unknown` where there are none.
    pub open spec fn parameters_text(self) -> Seq<char> {
        if self.parameters() > 0 {
            human_number_text(self.parameters() as u64)
        } else {
            "unknown"@
        }
    }
}

/// Decoded GGUF model containing metadata and tensors.
///
/// [`crate::container::GGUFContainer::decode`] gives one.
pub struct GGUFModel {
    order: ByteOrder,
    version: Version,
    metadata: Metadata,
    tensors: Vec<Tensor>,
    parameters: u64,
}

impl View for GGUFModel {
    type V = ModelView;

    closed spec fn view(&self) -> ModelView {
        ModelView {
            order: self.order,
            version: self.version,
            kvs: self.metadata@,
            tensors: tensor_views(self.tensors@),
        }
    }
}

/// Metadata that is read ends within its cap.
pub proof fn lemma_kvs_end(
    d: Dialect,
    n: nat,
    done: Map<Seq<char>, ValueView>,
    s: Seq<u8>,
    pos: int,
)
    requires
        pos <= MAX_METADATA_BYTES,
    ensures
        kvs_at(d, n, done, s, pos) matches Ok((_, end)) ==> end <= MAX_METADATA_BYTES,
    decreases n,
{
    if n > 0 {
        if let Ok((key, p)) = string_at(d, StringContext::MetadataKey, s, pos) {
            if let Ok((value, q)) = typed_value_at(d, s, p) {
                if q <= MAX_METADATA_BYTES {
                    lemma_kvs_end(d, (n - 1) as nat, done.insert(key, value), s, q);
                }
            }
        }
    }
}

/// Tensor descriptions that are read end within the header's cap.
pub proof fn lemma_tensors_end(
    d: Dialect,
    alignment: u64,
    n: nat,
    done: Seq<TensorView>,
    s: Seq<u8>,
    pos: int,
)
    requires
        pos <= MAX_HEADER_BYTES,
    ensures
        tensors_at(d, alignment, n, done, s, pos) matches Ok((_, end)) ==> end <= MAX_HEADER_BYTES,
    decreases n - done.len(),
{
    if done.len() < n {
        if let Ok((name, p)) = string_at(d, StringContext::TensorName, s, pos) {
            if let Ok((tensor, q)) = description_at(d, alignment, name, s, p) {
                if q <= MAX_HEADER_BYTES {
                    lemma_tensors_end(d, alignment, n, done.push(tensor), s, q);
                }
            }
        }
    }
}

/// Checks that a header declares no more tensors and pairs than the caps allow.
pub fn validate_counts(num_tensors: u64, num_kv: u64) -> (r: Result<(), GGUFError>)
    ensures
        match (r, check_counts(num_tensors, num_kv)) {
            (Ok(_), Ok(_)) => true,
            (Err(e), Err(f)) => e@ == f,
            _ => false,
        },
{
    if num_tensors > MAX_TENSORS {
        return Err(GGUFError::TooManyTensors(num_tensors));
    }
    if num_kv > MAX_KV {
        return Err(GGUFError::TooManyKv(num_kv));
    }
    Ok(())
}

impl GGUFModel {
    #[verifier::type_invariant]
    spec fn counted(self) -> bool {
        self.parameters == total_elements(tensor_views(self.tensors@))
    }

    /// Decodes the metadata and the tensor descriptions with which `input` starts.
    pub(crate) fn decode(
        dialect: &Dialect,
        version: Version,
        input_bounds: InputBounds,
        input: &[u8],
    ) -> (r: Result<GGUFModel, GGUFError>)
        requires
            version.num_tensor_spec() <= MAX_TENSORS,
        ensures
            match (r, body(*dialect, version, input_bounds, input@)) {
                (Ok(m), Ok(model)) => m@ == model,
                (Err(e), Err(f)) => e@ == f,
                _ => false,
            },
    {
        let mut reader = CountingReader::new(input);
        let metadata = match Metadata::read(dialect, version.num_kv(), &mut reader) {
            Ok(metadata) => metadata,
            Err(e) => return Err(e),
        };
        proof {
            lemma_kvs_end(*dialect, version.num_kv_spec() as nat, Map::empty(), input@, 0);
        }
        let alignment: u64 = match metadata.alignment() {
            Ok(alignment) => alignment,
            Err(e) => return Err(e),
        };
        proof {
            lemma_tensors_end(
                *dialect,
                alignment,
                version.num_tensor_spec() as nat,
                Seq::empty(),
                input@,
                reader.count(),
            );
        }
        let (tensors, parameters): (Vec<Tensor>, u64) = match dialect.read_tensors(
            alignment,
            version.num_tensor(),
            &mut reader,
        ) {
            Ok(read) => read,
            Err(e) => return Err(e),
        };
        let header_len: u64 = version.preamble_len() + reader.bytes_read();
        proof {
            let n = header_len + alignment - 1;
            assert(0 <= n / alignment as int * alignment <= n) by (nonlinear_arith)
                requires
                    alignment > 0,
                    n >= 0,
            ;
        }
        let tensor_data_start: u64 = (header_len + (alignment - 1)) / alignment * alignment;
        match validate_tensor_ranges(&tensors, tensor_data_start, input_bounds) {
            Ok(_) => Ok(GGUFModel { order: dialect.order, version, metadata, tensors, parameters }),
            Err(e) => Err(e),
        }
    }

    /// Get the version of the decoded GGUF model.
    ///
    /// Returns one of: "v1", "v2", or "v3".
    pub fn get_version(&self) -> (name: String)
        ensures
            name@ == self@.version.name_spec(),
    {
        self.version.name()
    }

    /// Get the number of key-value pairs in the GGUF file.
    pub fn num_kv(&self) -> (n: u64)
        ensures
            n == self@.version.num_kv_spec(),
    {
        self.version.num_kv()
    }

    /// Get the number of tensors in the GGUF file.
    ///
    /// Returns the total count of tensors stored in the model.
    pub fn num_tensor(&self) -> (n: u64)
        ensures
            n == self@.version.num_tensor_spec(),
    {
        self.version.num_tensor()
    }

    /// Get the model family/architecture of the GGUF file.
    ///
    /// Returns the value of `general.architecture` metadata key,
    /// or "unknown" if not present.
    ///
    /// Common values include: "llama", "phi", "mistral", "qwen", etc.
    pub fn model_family(&self) -> (family: String)
        ensures
            family@ == self@.family(),
    {
        match self.metadata.get("general.architecture") {
            Some(MetadataValue::Scalar(MetadataScalar::String(arch))) => arch.clone(),
            _ => "unknown".to_owned(),
        }
    }

    /// Get the estimated number of parameters in the model.
    ///
    /// Returns a human-readable string (e.g., "7B", "13B", "192").
    /// Returns "unknown" if parameters cannot be determined.
    pub fn model_parameters(&self) -> (text: String)
        ensures
            text@ == self@.parameters_text(),
    {
        proof {
            use_type_invariant(self);
        }
        if self.parameters > 0 {
            human_number(self.parameters)
        } else {
            "unknown".to_owned()
        }
    }

    /// Get the quantization file type of the GGUF file.
    ///
    /// Returns a human-readable description of the quantization method
    /// (e.g., "All F32", "Mostly Q4_0", "Mostly BF16").
    /// Returns "unknown" if not present.
    pub fn file_type(&self) -> (text: String)
        ensures
            text@ == self@.file_type(),
    {
        match self.metadata.get("general.file_type") {
            Some(v) => match v.as_u64() {
                Some(ft) => file_type(ft),
                None => "unknown".to_owned(),
            },
            None => "unknown".to_owned(),
        }
    }

    /// Get the key-value metadata of the GGUF file.
    ///
    /// Common keys include:
    /// - `general.architecture`: Model architecture (e.g., "llama")
    /// - `general.name`: Model name
    /// - `tokenizer.ggml.tokens`: Tokenizer vocabulary
    pub fn metadata(&self) -> (metadata: &Metadata)
        ensures
            metadata@ == self@.kvs,
    {
        &self.metadata
    }

    /// Get the tensors of the GGUF file.
    ///
    /// Returns a reference to the vector of tensors, each containing
    /// name, type, offset, size, and shape information.
    pub fn tensors(&self) -> (tensors: &Vec<Tensor>)
        ensures
            tensor_views(tensors@) == self@.tensors,
    {
        &self.tensors
    }
}

} // verus!
