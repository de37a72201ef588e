//! Containers: inputs that are ready to be decoded.
use crate::endian::{front_i32_le, ByteOrder};
use crate::error::{GGUFError, ReadError};
use crate::constants::{
    FILE_MAGIC_GGUF_BE, FILE_MAGIC_GGUF_LE, GGUF_VERSION_V1, GGUF_VERSION_V2, GGUF_VERSION_V3,
};
use crate::grammar::{
    check_bounds, header, order_of_magic, version_at, window, Dialect, InputBounds,
};
use crate::model::{validate_counts, GGUFModel};
use crate::reader::CountingReader;
use crate::types::{Version, V1, V2, V3};
use vstd::prelude::*;
use vstd::slice::slice_subrange;

verus! {

/// What a container holds.
#[verifier::ext_equal]
pub struct ContainerView {
    pub order: ByteOrder,
    pub version: Version,
    /// The bytes behind the magic.
    pub input: Seq<u8>,
    pub max_array_size: u64,
    pub bounds: InputBounds,
}

impl ContainerView {
    /// A container that has not been decoded.
    pub open spec fn fresh(
        order: ByteOrder,
        input: Seq<u8>,
        max_array_size: u64,
        bounds: InputBounds,
    ) -> ContainerView {
        ContainerView {
            order,
            version: Version::V1(V1 { num_tensor: 0, num_kv: 0 }),
            input,
            max_array_size,
            bounds,
        }
    }

    /// What decoding gives.
    pub open spec fn header(self) -> Result<crate::grammar::ModelView, GGUFError<Seq<char>>> {
        header(self.order, self.max_array_size, self.bounds, self.input)
    }

    /// The container after it has been decoded: its input is used up, unless the bounds were
    /// lacking, and its version is the one that was read, if one could be read.
    pub open spec fn decoded(self) -> ContainerView {
        if self.bounds is Unknown {
            self
        } else {
            ContainerView {
                version: match (
                    check_bounds(self.bounds),
                    version_at(self.order, window(self.bounds, self.input)),
                ) {
                    (Ok(_), Ok((version, _))) => version,
                    _ => self.version,
                },
                input: Seq::empty(),
                ..self
            }
        }
    }

    /// Whether the input ends too early, and there may be more of it.
    pub open spec fn wants_more(self) -> bool {
        &&& self.header() matches Err(e)
        &&& e.is_eof()
        &&& self.bounds matches InputBounds::Known(len) ==> self.input.len() < len - 4
    }
}

/// The byte order that a magic announces.
pub fn detect_magic(magic: [u8; 4]) -> (r: Result<ByteOrder, GGUFError>)
    ensures
        match r {
            Ok(order) => order_of_magic(magic@) == Some(order),
            Err(e) => order_of_magic(magic@) is None && e@ == GGUFError::<Seq<char>>::InvalidMagic,
        },
{
    proof {
        assert(magic@.take(4) =~= magic@);
    }
    match front_i32_le(magic.as_slice()) {
        Ok(number) => if number == FILE_MAGIC_GGUF_LE {
            Ok(ByteOrder::LE)
        } else if number == FILE_MAGIC_GGUF_BE {
            Ok(ByteOrder::BE)
        } else {
            Err(GGUFError::InvalidMagic)
        },
        Err(_) => Err(GGUFError::InvalidMagic),
    }
}

/// Reads the version and the counts with which `input`, the bytes behind a magic, starts; the
/// number is that of the bytes that they take.
fn read_version(order: ByteOrder, input: &[u8]) -> (r: Result<(Version, usize), GGUFError>)
    ensures
        match (r, version_at(order, input@)) {
            (Ok((version, pos)), Ok((v, p))) => version == v && pos == p && p <= input@.len(),
            (Err(e), Err(f)) => e@ == f,
            _ => false,
        },
{
    let mut reader = CountingReader::new(input);
    let dialect = Dialect { order, wide: true, max_array_size: 0 };
    let number: i32 = match dialect.read_i32(&mut reader) {
        Ok(number) => number,
        Err(e) => return Err(GGUFError::Read(e)),
    };
    let version = if number == GGUF_VERSION_V1 {
        let num_tensor: u32 = match dialect.read_u32(&mut reader) {
            Ok(n) => n,
            Err(e) => return Err(GGUFError::Read(e)),
        };
        let num_kv: u32 = match dialect.read_u32(&mut reader) {
            Ok(n) => n,
            Err(e) => return Err(GGUFError::Read(e)),
        };
        Version::V1(V1 { num_tensor, num_kv })
    } else if number == GGUF_VERSION_V2 || number == GGUF_VERSION_V3 {
        let num_tensor: u64 = match dialect.read_u64(&mut reader) {
            Ok(n) => n,
            Err(e) => return Err(GGUFError::Read(e)),
        };
        let num_kv: u64 = match dialect.read_u64(&mut reader) {
            Ok(n) => n,
            Err(e) => return Err(GGUFError::Read(e)),
        };
        if number == GGUF_VERSION_V2 {
            Version::V2(V2 { num_tensor, num_kv })
        } else {
            Version::V3(V3 { num_tensor, num_kv })
        }
    } else {
        return Err(GGUFError::InvalidVersion(number));
    };
    Ok((version, reader.bytes_read() as usize))
}

/// A GGUF input behind its magic, with what decoding it needs to know.
///
/// [`crate::open::get_gguf_container`] opens a file.
pub struct GGUFContainer {
    bo: ByteOrder,
    version: Version,
    input: Vec<u8>,
    max_array_size: u64,
    input_bounds: InputBounds,
}

impl View for GGUFContainer {
    type V = ContainerView;

    closed spec fn view(&self) -> ContainerView {
        ContainerView {
            order: self.bo,
            version: self.version,
            input: self.input@,
            max_array_size: self.max_array_size,
            bounds: self.input_bounds,
        }
    }
}

impl GGUFContainer {
    /// Create a new `GGUFContainer` from an input that starts with a magic.
    ///
    /// For checked decoding of untrusted inputs, callers should also provide the total input
    /// length via [`GGUFContainer::with_input_len`]. Callers that intentionally want to parse an
    /// unbounded/trusted stream must opt in explicitly with
    /// [`GGUFContainer::allow_unbounded_input`].
    ///
    /// * `input` - The bytes of the file, or its first bytes
    /// * `max_array_size` - Maximum size for array metadata values
    pub fn new(input: Vec<u8>, max_array_size: u64) -> (r: Result<Self, GGUFError>)
        ensures
            match r {
                Ok(c) => {
                    &&& input@.len() >= 4
                    &&& order_of_magic(input@.take(4)) matches Some(order)
                    &&& c@ == ContainerView::fresh(
                        order,
                        input@.skip(4),
                        max_array_size,
                        InputBounds::Unknown,
                    )
                },
                Err(e) => if input@.len() < 4 {
                    e@ == GGUFError::<Seq<char>>::Read(ReadError::UnexpectedEof)
                } else {
                    &&& order_of_magic(input@.take(4)) is None
                    &&& e@ == GGUFError::<Seq<char>>::InvalidMagic
                },
            },
    {
        let mut magic = input;
        if magic.len() < 4 {
            return Err(GGUFError::Read(ReadError::UnexpectedEof));
        }
        let rest = magic.split_off(4);
        proof {
            assert(magic@ =~= input@.take(4));
            assert(rest@ =~= input@.skip(4));
            assert([magic@[0], magic@[1], magic@[2], magic@[3]]@ =~= magic@);
        }
        match detect_magic([magic[0], magic[1], magic[2], magic[3]]) {
            Ok(order) => Ok(Self::new_after_magic(order, rest, max_array_size)),
            Err(e) => Err(e),
        }
    }

    /// Create a new `GGUFContainer` from an input whose magic has been read.
    pub fn new_after_magic(bo: ByteOrder, input: Vec<u8>, max_array_size: u64) -> (c: Self)
        ensures
            c@ == ContainerView::fresh(bo, input@, max_array_size, InputBounds::Unknown),
    {
        GGUFContainer {
            bo,
            version: Version::V1(V1::default()),
            input,
            max_array_size,
            input_bounds: InputBounds::Unknown,
        }
    }

    /// Says how many bytes the whole input has, its magic included.
    pub fn with_input_len(self, input_len: u64) -> (c: Self)
        ensures
            c@ == (ContainerView { bounds: InputBounds::Known(input_len), ..self@ }),
    {
        GGUFContainer { input_bounds: InputBounds::Known(input_len), ..self }
    }

    /// Explicitly opt into decoding a trusted unbounded input.
    ///
    /// This disables EOF-based tensor range validation. Prefer
    /// [`GGUFContainer::with_input_len`] for untrusted inputs.
    pub fn allow_unbounded_input(self) -> (c: Self)
        ensures
            c@ == (ContainerView { bounds: InputBounds::TrustedUnbounded, ..self@ }),
    {
        GGUFContainer { input_bounds: InputBounds::TrustedUnbounded, ..self }
    }

    /// Adds bytes that have become available.
    pub fn extend_input(&mut self, bytes: &[u8])
        ensures
            final(self)@ == (ContainerView { input: old(self)@.input + bytes@, ..old(self)@ }),
    {
        self.input.extend_from_slice(bytes);
    }

    /// Get the version of the GGUF container.
    ///
    /// Returns the default version ("v1") before decoding.
    /// After successful decode, returns the actual file version ("v1", "v2", or "v3").
    pub fn get_version(&self) -> (name: String)
        ensures
            name@ == self@.version.name_spec(),
    {
        self.version.name()
    }

    /// The number of key-value pairs that the version announces.
    pub fn num_kv(&self) -> (n: u64)
        ensures
            n == self@.version.num_kv_spec(),
    {
        self.version.num_kv()
    }

    /// The number of tensors that the version announces.
    pub fn num_tensor(&self) -> (n: u64)
        ensures
            n == self@.version.num_tensor_spec(),
    {
        self.version.num_tensor()
    }

    /// Decodes the input as far as it has become available; the version is the one that was read.
    fn attempt(&self) -> (r: (Option<Version>, Result<GGUFModel, GGUFError>))
        requires
            !(self@.bounds is Unknown),
        ensures
            match r.0 {
                Some(version) => self@.decoded().version == version,
                None => self@.decoded().version == self@.version,
            },
            match (r.1, self@.header()) {
                (Ok(m), Ok(model)) => m@ == model,
                (Err(e), Err(f)) => e@ == f,
                _ => false,
            },
    {
        let readable = match self.input_bounds {
            InputBounds::Known(total_len) => {
                if total_len < 4 {
                    return (None, Err(GGUFError::InputTooShort(total_len)));
                }
                if total_len - 4 < self.input.len() as u64 {
                    let readable = slice_subrange(
                        self.input.as_slice(),
                        0,
                        (total_len - 4) as usize,
                    );
                    proof {
                        assert(readable@ =~= self@.input.take(total_len - 4));
                    }
                    readable
                } else {
                    self.input.as_slice()
                }
            },
            _ => self.input.as_slice(),
        };
        let (version, pos): (Version, usize) = match read_version(self.bo, readable) {
            Ok(read) => read,
            Err(e) => return (None, Err(e)),
        };
        if let Err(e) = validate_counts(version.num_tensor(), version.num_kv()) {
            return (Some(version), Err(e));
        }
        let dialect = Dialect {
            order: self.bo,
            wide: version.wide(),
            max_array_size: self.max_array_size,
        };
        let rest = slice_subrange(readable, pos, readable.len());
        proof {
            assert(rest@ =~= readable@.skip(pos as int));
        }
        (Some(version), GGUFModel::decode(&dialect, version, self.input_bounds, rest))
    }

    /// Decode the GGUF input and return a `GGUFModel`.
    ///
    /// # Errors
    ///
    /// Returns an error if:
    /// - The file has an invalid or unsupported GGUF version
    /// - The file contains malformed data
    /// - The input ends too early
    /// - The caller used [`GGUFContainer::new`] without either
    ///   [`GGUFContainer::with_input_len`] or
    ///   [`GGUFContainer::allow_unbounded_input`]
    pub fn decode(&mut self) -> (r: Result<GGUFModel, GGUFError>)
        ensures
            final(self)@ == old(self)@.decoded(),
            match (r, old(self)@.header()) {
                (Ok(m), Ok(model)) => m@ == model,
                (Err(e), Err(f)) => e@ == f,
                _ => false,
            },
    {
        if let InputBounds::Unknown = self.input_bounds {
            return Err(GGUFError::InputLengthRequired);
        }
        let (version, result) = self.attempt();
        self.finish(version);
        result
    }

    /// Decodes the input as far as it has become available, unless it ends too early and there may
    /// be more of it: then the container stays as it is.
    pub fn try_decode(&mut self) -> (r: Option<Result<GGUFModel, GGUFError>>)
        ensures
            match r {
                None => old(self)@.wants_more() && final(self)@ == old(self)@,
                Some(result) => {
                    &&& !old(self)@.wants_more()
                    &&& final(self)@ == old(self)@.decoded()
                    &&& match (result, old(self)@.header()) {
                        (Ok(m), Ok(model)) => m@ == model,
                        (Err(e), Err(f)) => e@ == f,
                        _ => false,
                    }
                },
            },
    {
        if let InputBounds::Unknown = self.input_bounds {
            return Some(Err(GGUFError::InputLengthRequired));
        }
        let (version, result) = self.attempt();
        let growing = match self.input_bounds {
            InputBounds::Known(total_len) => total_len >= 4 && (self.input.len() as u64)
                < total_len - 4,
            _ => true,
        };
        if let Err(e) = &result {
            if growing && e.is_eof() {
                return None;
            }
        }
        self.finish(version);
        Some(result)
    }

    /// Uses up the input, and sets the version if one is given.
    fn finish(&mut self, version: Option<Version>)
        ensures
            final(self)@ == (ContainerView {
                input: Seq::empty(),
                version: match version {
                    Some(v) => v,
                    None => old(self)@.version,
                },
                ..old(self)@
            }),
    {
        self.input = Vec::new();
        if let Some(v) = version {
            self.version = v;
        }
    }
}

} // verus!
