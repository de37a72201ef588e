//! Opening files: what has to be looked up, in which order, and what follows from it.
//!
//! Nothing here touches a file. A [`FileRequest`] is told whether there is a file and how long it
//! is, the [`SizedFile`] that it gives is told the first four bytes, and the [`CheckedFile`] that
//! this gives makes a container, either of the whole file or of a file that is read piece by piece.
use crate::constants::{DEFAULT_MAX_ARRAY_SIZE, DEFAULT_MAX_HELPER_INPUT_BYTES};
use crate::container::{detect_magic, ContainerView, GGUFContainer};
use crate::endian::ByteOrder;
use crate::error::{GGUFError, Helper, ReadError};
use crate::grammar::{order_of_magic, InputBounds};
use vstd::prelude::*;

verus! {

/// A file that is to be opened.
pub struct FileRequest {
    /// Who opens the file.
    pub helper: Helper,
    pub path: String,
    /// So many items of an array are kept.
    pub max_array_size: u64,
    /// The file may have so many bytes, if there is a cap.
    pub max_input_bytes: Option<u64>,
    /// The byte order that the file had when it was opened before.
    pub expected: Option<ByteOrder>,
}

impl FileRequest {
    /// Whether a file without room for a magic is refused before its magic is asked for.
    pub open spec fn has_floor(self) -> bool {
        match self.helper {
            Helper::File => false,
            Helper::Mmap => true,
            Helper::Async => self.expected is None || self.max_input_bytes is None,
        }
    }

    /// What is wrong with a file of that length, `None` being a file that is not there.
    pub open spec fn length_fault(self, found: Option<u64>) -> Option<GGUFError<Seq<char>>> {
        match found {
            None => Some(
                GGUFError::FileNotFound(
                    match self.helper {
                        Helper::File => None,
                        _ => Some(self.path@),
                    },
                ),
            ),
            Some(len) => if self.max_input_bytes matches Some(cap) && len > cap {
                Some(
                    GGUFError::FileTooLarge {
                        helper: self.helper,
                        len,
                        cap: self.max_input_bytes->0,
                    },
                )
            } else if self.has_floor() && len < 4 {
                Some(GGUFError::FileTooSmall)
            } else {
                None
            },
        }
    }

    /// Takes in what was found at the path: the length of the file, or that there is none.
    pub fn found(self, input_len: Option<u64>) -> (r: Result<SizedFile, GGUFError>)
        ensures
            match (r, self.length_fault(input_len)) {
                (Ok(sized), None) => input_len matches Some(len) && sized == (SizedFile {
                    max_array_size: self.max_array_size,
                    input_len: len,
                    expected: self.expected,
                }),
                (Err(e), Some(f)) => e@ == f,
                _ => false,
            },
    {
        let len: u64 = match input_len {
            Some(len) => len,
            None => return Err(
                GGUFError::FileNotFound(
                    match self.helper {
                        Helper::File => None,
                        _ => Some(self.path),
                    },
                ),
            ),
        };
        if let Some(cap) = self.max_input_bytes {
            if len > cap {
                return Err(GGUFError::FileTooLarge { helper: self.helper, len, cap });
            }
        }
        let floor = match self.helper {
            Helper::File => false,
            Helper::Mmap => true,
            Helper::Async => self.expected.is_none() || self.max_input_bytes.is_none(),
        };
        if floor && len < 4 {
            return Err(GGUFError::FileTooSmall);
        }
        Ok(
            SizedFile {
                max_array_size: self.max_array_size,
                input_len: len,
                expected: self.expected,
            },
        )
    }

    /// The request for the snapshot of a file that is decoded at once.
    ///
    /// A file larger than `max_snapshot_bytes` is refused.
    pub fn mmap(path: &str, max_array_size: u64, max_snapshot_bytes: u64) -> (request: FileRequest)
        ensures
            request.helper == Helper::Mmap,
            request.path@ == path@,
            request.max_array_size == max_array_size,
            request.max_input_bytes == Some(max_snapshot_bytes),
            request.expected is None,
    {
        FileRequest {
            helper: Helper::Mmap,
            path: path.to_owned(),
            max_array_size,
            max_input_bytes: Some(max_snapshot_bytes),
            expected: None,
        }
    }

    /// The request for a file that is opened now and decoded later: piece by piece, or, where there
    /// is a cap, from a snapshot.
    pub fn asynchronous(path: &str, snapshot_cap: Option<u64>) -> (request: FileRequest)
        ensures
            request.helper == Helper::Async,
            request.path@ == path@,
            request.max_array_size == DEFAULT_MAX_ARRAY_SIZE,
            request.max_input_bytes == snapshot_cap,
            request.expected is None,
    {
        FileRequest {
            helper: Helper::Async,
            path: path.to_owned(),
            max_array_size: DEFAULT_MAX_ARRAY_SIZE,
            max_input_bytes: snapshot_cap,
            expected: None,
        }
    }

    /// Override the max metadata array size.
    pub fn with_max_array_size(self, max_array_size: u64) -> (request: FileRequest)
        ensures
            request == (FileRequest { max_array_size, ..self }),
    {
        FileRequest { max_array_size, ..self }
    }

    /// The request for the same file, of which the byte order is already known.
    pub fn expecting(self, order: ByteOrder) -> (request: FileRequest)
        ensures
            request == (FileRequest { expected: Some(order), ..self }),
    {
        FileRequest { expected: Some(order), ..self }
    }
}

/// What is wrong with a magic, if a file of byte order `expected` was opened before.
pub open spec fn magic_fault(expected: Option<ByteOrder>, magic: Seq<u8>) -> Option<
    GGUFError<Seq<char>>,
> {
    match order_of_magic(magic) {
        None => Some(GGUFError::InvalidMagic),
        Some(order) => if expected matches Some(before) && before != order {
            Some(GGUFError::ByteOrderChanged)
        } else {
            None
        },
    }
}

/// The byte order that a magic announces, if it is the expected one.
fn check_magic(expected: Option<ByteOrder>, magic: [u8; 4]) -> (r: Result<ByteOrder, GGUFError>)
    ensures
        match (r, magic_fault(expected, magic@)) {
            (Ok(order), None) => order_of_magic(magic@) == Some(order),
            (Err(e), Some(f)) => e@ == f,
            _ => false,
        },
{
    let order = match detect_magic(magic) {
        Ok(order) => order,
        Err(e) => return Err(e),
    };
    if let Some(before) = expected {
        if before != order {
            return Err(GGUFError::ByteOrderChanged);
        }
    }
    Ok(order)
}

/// A file whose length has been accepted.
pub struct SizedFile {
    pub max_array_size: u64,
    pub input_len: u64,
    pub expected: Option<ByteOrder>,
}

impl SizedFile {
    /// Takes in the first four bytes of the file.
    pub fn magic(self, magic: [u8; 4]) -> (r: Result<CheckedFile, GGUFError>)
        ensures
            match (r, magic_fault(self.expected, magic@)) {
                (Ok(checked), None) => {
                    &&& order_of_magic(magic@) matches Some(order)
                    &&& checked == (CheckedFile {
                        order,
                        max_array_size: self.max_array_size,
                        input_len: self.input_len,
                        expected: self.expected,
                    })
                },
                (Err(e), Some(f)) => e@ == f,
                _ => false,
            },
    {
        match check_magic(self.expected, magic) {
            Ok(order) => Ok(
                CheckedFile {
                    order,
                    max_array_size: self.max_array_size,
                    input_len: self.input_len,
                    expected: self.expected,
                },
            ),
            Err(e) => Err(e),
        }
    }
}

/// A file whose length and magic have been accepted.
pub struct CheckedFile {
    pub order: ByteOrder,
    pub max_array_size: u64,
    pub input_len: u64,
    pub expected: Option<ByteOrder>,
}

impl CheckedFile {
    /// What is wrong with a snapshot: the file may have changed since its magic was read.
    pub open spec fn snapshot_fault(self, bytes: Seq<u8>) -> Option<GGUFError<Seq<char>>> {
        if bytes.len() < 4 {
            Some(
                match self.expected {
                    Some(_) => GGUFError::FileTooSmall,
                    None => GGUFError::Read(ReadError::UnexpectedEof),
                },
            )
        } else {
            magic_fault(self.expected, bytes.take(4))
        }
    }

    /// The number of bytes that a snapshot takes.
    pub fn snapshot_len(&self) -> (r: Result<usize, GGUFError>)
        ensures
            match r {
                Ok(len) => len == self.input_len,
                Err(e) => self.input_len > usize::MAX && e@
                    == GGUFError::<Seq<char>>::SnapshotTooLarge,
            },
    {
        if self.input_len > usize::MAX as u64 {
            return Err(GGUFError::SnapshotTooLarge);
        }
        Ok(self.input_len as usize)
    }

    /// The container of a file that has been read whole.
    pub fn snapshot(self, bytes: Vec<u8>) -> (r: Result<GGUFContainer, GGUFError>)
        ensures
            match (r, self.snapshot_fault(bytes@)) {
                (Ok(c), None) => {
                    &&& order_of_magic(bytes@.take(4)) matches Some(order)
                    &&& c@ == ContainerView::fresh(
                        order,
                        bytes@.skip(4),
                        self.max_array_size,
                        InputBounds::Known(self.input_len),
                    )
                },
                (Err(e), Some(f)) => e@ == f,
                _ => false,
            },
    {
        if let Some(_) = self.expected {
            if bytes.len() < 4 {
                return Err(GGUFError::FileTooSmall);
            }
            let magic = [bytes[0], bytes[1], bytes[2], bytes[3]];
            proof {
                assert(magic@ =~= bytes@.take(4));
            }
            if let Err(e) = check_magic(self.expected, magic) {
                return Err(e);
            }
        }
        match GGUFContainer::new(bytes, self.max_array_size) {
            Ok(container) => Ok(container.with_input_len(self.input_len)),
            Err(e) => Err(e),
        }
    }

    /// The container of a file that is read piece by piece; none of it has been read but the magic.
    pub fn stream(self) -> (c: GGUFContainer)
        ensures
            c@ == ContainerView::fresh(
                self.order,
                Seq::empty(),
                self.max_array_size,
                InputBounds::Known(self.input_len),
            ),
    {
        GGUFContainer::new_after_magic(self.order, Vec::new(), self.max_array_size).with_input_len(
            self.input_len,
        )
    }
}

/// The request for the container of a file, truncating all arrays to length 3.
///
/// The file is refused if it does not exist, is larger than the default cap, or does not start
/// with a GGUF magic (ggml, ggmf, ggjt and ggla files do not).
pub fn get_gguf_container(file: &str) -> (request: FileRequest)
    ensures
        request.helper == Helper::File,
        request.path@ == file@,
        request.max_array_size == 3,
        request.max_input_bytes == Some(DEFAULT_MAX_HELPER_INPUT_BYTES),
        request.expected is None,
{
    get_gguf_container_array_size_with_limit(
        file,
        DEFAULT_MAX_ARRAY_SIZE,
        DEFAULT_MAX_HELPER_INPUT_BYTES,
    )
}

/// The request for the container of a file with the provided max array size.
///
/// * `file` - Path to the GGUF file
/// * `max_array_size` - Maximum number of elements to read from array metadata
pub fn get_gguf_container_array_size(file: &str, max_array_size: u64) -> (request: FileRequest)
    ensures
        request.helper == Helper::File,
        request.path@ == file@,
        request.max_array_size == max_array_size,
        request.max_input_bytes == Some(DEFAULT_MAX_HELPER_INPUT_BYTES),
        request.expected is None,
{
    get_gguf_container_array_size_with_limit(file, max_array_size, DEFAULT_MAX_HELPER_INPUT_BYTES)
}

/// The request for the container of a file with the provided max array size, of a file that may
/// have `max_input_bytes` bytes.
pub fn get_gguf_container_array_size_with_limit(
    file: &str,
    max_array_size: u64,
    max_input_bytes: u64,
) -> (request: FileRequest)
    ensures
        request.helper == Helper::File,
        request.path@ == file@,
        request.max_array_size == max_array_size,
        request.max_input_bytes == Some(max_input_bytes),
        request.expected is None,
{
    FileRequest {
        helper: Helper::File,
        path: file.to_owned(),
        max_array_size,
        max_input_bytes: Some(max_input_bytes),
        expected: None,
    }
}

} // verus!
