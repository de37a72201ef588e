//! Files that are opened.
use crate::endian::ByteOrder;
use crate::error::{GGUFError, Helper, ReadError};
use crate::laws::encoding::{law_magic, magic_bytes};
use crate::open::{magic_fault, CheckedFile, FileRequest};
use vstd::prelude::*;

verus! {

/// A file that is there is accepted exactly if it is within the cap, if there is one, and has room
/// for a magic. A file without that room is accepted as well where it is read by the plain helper,
/// or where its snapshot is taken after it has been opened before.
pub proof fn law_file_lengths(request: FileRequest, len: u64)
    ensures
        request.length_fault(Some(len)) is None <==> {
            &&& forall|cap: u64| request.max_input_bytes == Some(cap) ==> len <= cap
            &&& len >= 4 || request.helper == Helper::File || (request.helper == Helper::Async
                && request.expected is Some && request.max_input_bytes is Some)
        },
{
    if let Some(cap) = request.max_input_bytes {
        assert(request.max_input_bytes == Some(cap));
    }
}

/// A file that is refused for its length is either larger than the cap, which is then named with
/// the length, or smaller than a magic.
pub proof fn law_file_lengths_refused(request: FileRequest, len: u64)
    ensures
        request.length_fault(Some(len)) matches Some(e) ==> match e {
            GGUFError::FileTooLarge { helper, len: found, cap } => {
                &&& helper == request.helper
                &&& found == len
                &&& request.max_input_bytes == Some(cap)
                &&& cap < len
            },
            GGUFError::FileTooSmall => {
                &&& len < 4
                &&& request.max_input_bytes matches Some(cap) ==> len <= cap
            },
            _ => false,
        },
{
}

/// A file that is not there is refused whatever else is asked for; all helpers but the plain one
/// name the path.
pub proof fn law_missing_files(request: FileRequest)
    ensures
        request.length_fault(None) matches Some(GGUFError::FileNotFound(path)) && (
        request.helper == Helper::File ==> path is None) && (request.helper != Helper::File ==> path
            == Some(request.path@)),
{
}

/// Neither the path nor the size of arrays decides whether a file is accepted.
pub proof fn law_lengths_alone_decide(request: FileRequest, other: FileRequest, len: u64)
    requires
        request.helper == other.helper,
        request.max_input_bytes == other.max_input_bytes,
        request.expected is Some <==> other.expected is Some,
    ensures
        request.length_fault(Some(len)) == other.length_fault(Some(len)),
{
}

/// Four bytes are accepted exactly if they are a magic, of the byte order that is expected where
/// one is. Other bytes are no magic; a magic of another byte order is a change.
pub proof fn law_magics_accepted(expected: Option<ByteOrder>, magic: Seq<u8>, order: ByteOrder)
    requires
        magic.len() == 4,
    ensures
        magic == magic_bytes(order) && (expected is None || expected == Some(order))
            ==> magic_fault(expected, magic) is None,
        magic == magic_bytes(order) && expected is Some && expected != Some(order) ==> magic_fault(
            expected,
            magic,
        ) == Some(GGUFError::<Seq<char>>::ByteOrderChanged),
        magic != magic_bytes(ByteOrder::LE) && magic != magic_bytes(ByteOrder::BE) ==> magic_fault(
            expected,
            magic,
        ) == Some(GGUFError::<Seq<char>>::InvalidMagic),
{
    law_magic(magic, ByteOrder::LE);
    law_magic(magic, ByteOrder::BE);
}

/// A snapshot is accepted exactly if its first four bytes are; what follows them decides nothing.
/// One without a magic is too small if the file was opened before, and ends too early otherwise.
pub proof fn law_snapshots(file: CheckedFile, magic: Seq<u8>, rest: Seq<u8>)
    ensures
        magic.len() == 4 ==> file.snapshot_fault(magic + rest) == magic_fault(file.expected, magic),
        magic.len() < 4 && file.expected is Some ==> file.snapshot_fault(magic) == Some(
            GGUFError::<Seq<char>>::FileTooSmall,
        ),
        magic.len() < 4 && file.expected is None ==> file.snapshot_fault(magic) == Some(
            GGUFError::<Seq<char>>::Read(ReadError::UnexpectedEof),
        ),
{
    if magic.len() == 4 {
        assert((magic + rest).take(4) =~= magic);
    }
}

} // verus!
