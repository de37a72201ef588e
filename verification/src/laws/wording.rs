//! Errors in words.
use crate::error::{GGUFError, Helper, ReadError, StringContext, TensorFault};
use crate::laws::digits::{law_decimal, number_of};
use crate::message::{quoted, signed_text};
use crate::text::decimal_text;
use vstd::prelude::*;

verus! {

/// `front`, the number in decimal, `back`.
pub open spec fn around(front: Seq<char>, n: int, back: Seq<char>) -> Seq<char> {
    front + decimal_text(n as nat) + back
}

/// `front`, the first number, `middle`, the second number, `back`.
pub open spec fn between(
    front: Seq<char>,
    n: int,
    middle: Seq<char>,
    m: int,
    back: Seq<char>,
) -> Seq<char> {
    front + decimal_text(n as nat) + middle + decimal_text(m as nat) + back
}

/// No two numbers are written alike.
pub proof fn law_decimal_is_unique(n: nat, m: nat)
    ensures
        decimal_text(n) == decimal_text(m) ==> n == m,
{
    law_decimal(n);
    law_decimal(m);
    assert(decimal_text(n) == decimal_text(m) ==> number_of(decimal_text(n)) == number_of(
        decimal_text(m),
    ));
}

/// An error that names the number that was found names that number and the cap, and is worded alike
/// for all of them.
pub proof fn law_numbers_above_caps() -> (words: Seq<Seq<char>>)
    ensures
        words.len() == 10,
        forall|n: u64| #[trigger]
            GGUFError::<Seq<char>>::TooManyTensors(n).text() == between(
                words[0],
                n as int,
                words[1],
                100_000,
                Seq::empty(),
            ),
        forall|n: u64| #[trigger]
            GGUFError::<Seq<char>>::TooManyKv(n).text() == between(
                words[2],
                n as int,
                words[1],
                100_000,
                Seq::empty(),
            ),
        forall|n: u64| #[trigger]
            GGUFError::<Seq<char>>::AlignmentTooLarge(n).text() == between(
                words[3],
                n as int,
                words[1],
                65_536,
                Seq::empty(),
            ),
        forall|n: u64| #[trigger]
            ReadError::<Seq<char>>::ArrayTooLong(n).text() == between(
                words[4],
                n as int,
                words[1],
                1_000_000,
                Seq::empty(),
            ),
        forall|n: u64| #[trigger]
            TensorFault::DimensionTooLarge(n).text() == between(
                words[5],
                n as int,
                words[6],
                1_073_741_824,
                Seq::empty(),
            ),
        forall|n: u64| #[trigger]
            TensorFault::TooManyElements(n).text() == between(
                words[7],
                n as int,
                words[6],
                1_099_511_627_776,
                Seq::empty(),
            ),
        ReadError::<Seq<char>>::MetadataTooLarge.text() == around(words[8], 67_108_864, " bytes"@),
        GGUFError::<Seq<char>>::HeaderTooLarge.text() == around(words[9], 134_217_728, " bytes"@),
{
    let words = seq![
        "tensor count "@,
        " exceeds cap "@,
        "kv count "@,
        "general.alignment "@,
        "array length "@,
        " dimension "@,
        " exceeds "@,
        " element count "@,
        "metadata section exceeds cap "@,
        "GGUF header exceeds cap "@,
    ];
    assert forall|n: u64| #[trigger]
        GGUFError::<Seq<char>>::TooManyTensors(n).text() == between(
            words[0],
            n as int,
            words[1],
            100_000,
            Seq::empty(),
        ) by {
        assert(GGUFError::<Seq<char>>::TooManyTensors(n).text() =~= between(
            words[0],
            n as int,
            words[1],
            100_000,
            Seq::empty(),
        ));
    }
    assert forall|n: u64| #[trigger]
        GGUFError::<Seq<char>>::TooManyKv(n).text() == between(
            words[2],
            n as int,
            words[1],
            100_000,
            Seq::empty(),
        ) by {
        assert(GGUFError::<Seq<char>>::TooManyKv(n).text() =~= between(
            words[2],
            n as int,
            words[1],
            100_000,
            Seq::empty(),
        ));
    }
    assert forall|n: u64| #[trigger]
        GGUFError::<Seq<char>>::AlignmentTooLarge(n).text() == between(
            words[3],
            n as int,
            words[1],
            65_536,
            Seq::empty(),
        ) by {
        assert(GGUFError::<Seq<char>>::AlignmentTooLarge(n).text() =~= between(
            words[3],
            n as int,
            words[1],
            65_536,
            Seq::empty(),
        ));
    }
    assert forall|n: u64| #[trigger]
        ReadError::<Seq<char>>::ArrayTooLong(n).text() == between(
            words[4],
            n as int,
            words[1],
            1_000_000,
            Seq::empty(),
        ) by {
        assert(ReadError::<Seq<char>>::ArrayTooLong(n).text() =~= between(
            words[4],
            n as int,
            words[1],
            1_000_000,
            Seq::empty(),
        ));
    }
    assert forall|n: u64| #[trigger]
        TensorFault::DimensionTooLarge(n).text() == between(
            words[5],
            n as int,
            words[6],
            1_073_741_824,
            Seq::empty(),
        ) by {
        assert(TensorFault::DimensionTooLarge(n).text() =~= between(
            words[5],
            n as int,
            words[6],
            1_073_741_824,
            Seq::empty(),
        ));
    }
    assert forall|n: u64| #[trigger]
        TensorFault::TooManyElements(n).text() == between(
            words[7],
            n as int,
            words[6],
            1_099_511_627_776,
            Seq::empty(),
        ) by {
        assert(TensorFault::TooManyElements(n).text() =~= between(
            words[7],
            n as int,
            words[6],
            1_099_511_627_776,
            Seq::empty(),
        ));
    }
    words
}

/// A number that is refused stands between the same words whatever it is.
pub proof fn law_numbers_refused() -> (words: Seq<Seq<char>>)
    ensures
        words.len() == 10,
        forall|n: u64| #[trigger]
            GGUFError::<Seq<char>>::InputTooShort(n).text() == around(words[0], n as int, words[1]),
        forall|n: u64| #[trigger]
            GGUFError::<Seq<char>>::AlignmentNotMultipleOfEight(n).text() == around(
                words[2],
                n as int,
                words[3],
            ),
        forall|n: u8| #[trigger]
            ReadError::<Seq<char>>::InvalidBool(n).text() == around(words[4], n as int, words[5]),
        forall|n: u32| #[trigger]
            TensorFault::DimensionCount(n).text() == around(words[6], n as int, words[7]),
        forall|n: i32| #[trigger]
            GGUFError::<Seq<char>>::InvalidVersion(n).text() == words[8] + signed_text(n as int)
                + words[9],
{
    seq![
        "input length "@,
        " is smaller than GGUF magic"@,
        "general.alignment "@,
        " is not a multiple of 8"@,
        "invalid bool value "@,
        "; expected 0 or 1"@,
        " declares "@,
        " dimensions (must be 1..=4)"@,
        "invalid version "@,
        ", only support version: 1 | 2 | 3"@,
    ]
}

/// Of two numbers that do not go together both are named, each in its place.
pub proof fn law_pairs_of_numbers() -> (words: Seq<Seq<char>>)
    ensures
        words.len() == 8,
        forall|row: u64, block: u64|
            #[trigger] (TensorFault::RowWidth { row, block }).text() == between(
                words[0],
                row as int,
                words[1],
                block as int,
                Seq::empty(),
            ),
        forall|offset: u64, alignment: u64|
            #[trigger] (TensorFault::Unaligned { offset, alignment }).text() == between(
                words[2],
                offset as int,
                words[3],
                alignment as int,
                Seq::empty(),
            ),
        forall|end: u64, file_size: u64|
            #[trigger] (TensorFault::PastEof { end, file_size }).text() == between(
                words[4],
                end as int,
                words[5],
                file_size as int,
                Seq::empty(),
            ),
        forall|helper: Helper, len: u64, cap: u64|
            #[trigger] (GGUFError::<Seq<char>>::FileTooLarge { helper, len, cap }).text()
                == between(words[6], len as int, helper.cap_text(), cap as int, words[7]),
{
    let words = seq![
        " row width "@,
        " is not divisible by block size "@,
        " offset "@,
        " is not aligned to "@,
        " extends past EOF: end="@,
        " file_size="@,
        "file size "@,
        " bytes"@,
    ];
    assert forall|row: u64, block: u64|
        #[trigger] (TensorFault::RowWidth { row, block }).text() == between(
            words[0],
            row as int,
            words[1],
            block as int,
            Seq::empty(),
        ) by {
        assert((TensorFault::RowWidth { row, block }).text() =~= between(
            words[0],
            row as int,
            words[1],
            block as int,
            Seq::empty(),
        ));
    }
    assert forall|offset: u64, alignment: u64|
        #[trigger] (TensorFault::Unaligned { offset, alignment }).text() == between(
            words[2],
            offset as int,
            words[3],
            alignment as int,
            Seq::empty(),
        ) by {
        assert((TensorFault::Unaligned { offset, alignment }).text() =~= between(
            words[2],
            offset as int,
            words[3],
            alignment as int,
            Seq::empty(),
        ));
    }
    assert forall|end: u64, file_size: u64|
        #[trigger] (TensorFault::PastEof { end, file_size }).text() == between(
            words[4],
            end as int,
            words[5],
            file_size as int,
            Seq::empty(),
        ) by {
        assert((TensorFault::PastEof { end, file_size }).text() =~= between(
            words[4],
            end as int,
            words[5],
            file_size as int,
            Seq::empty(),
        ));
    }
    words
}

/// A string that is refused is called by its place, and an item that could not be skipped
/// by its number, in front of what is wrong with it.
pub proof fn law_strings_refused() -> (words: Seq<Seq<char>>)
    ensures
        words.len() == 6,
        forall|context: StringContext| #[trigger]
            ReadError::<Seq<char>>::EmptyString(context).text() == context.text() + words[0],
        forall|context: StringContext, len: u64|
            #[trigger] (ReadError::<Seq<char>>::StringTooLong { context, len }).text()
                == context.text() + between(
                words[1],
                len as int,
                words[2],
                context.cap() as int,
                Seq::empty(),
            ),
        forall|context: StringContext, fault: Seq<char>| #[trigger]
            ReadError::<Seq<char>>::InvalidUtf8(context, fault).text() == context.text() + words[3]
                + fault,
        forall|n: u64, source: Box<ReadError<Seq<char>>>| #[trigger]
            ReadError::<Seq<char>>::SkippedArrayItem(n, source).text() == around(
                words[4],
                n as int,
                words[5],
            ) + source.text(),
{
    let words = seq![
        " has zero length"@,
        " length "@,
        " exceeds cap "@,
        " is not valid UTF-8: "@,
        "failed to skip array item "@,
        ": "@,
    ];
    assert forall|context: StringContext, len: u64|
        #[trigger] (ReadError::<Seq<char>>::StringTooLong { context, len }).text()
            == context.text() + between(
            words[1],
            len as int,
            words[2],
            context.cap() as int,
            Seq::empty(),
        ) by {
        assert((ReadError::<Seq<char>>::StringTooLong { context, len }).text() =~= context.text()
            + between(words[1], len as int, words[2], context.cap() as int, Seq::empty()));
    }
    words
}

/// A name stands between the same words whatever it is, and what is wrong with a tensor follows its
/// name.
pub proof fn law_names_in_errors() -> (words: Seq<Seq<char>>)
    ensures
        words.len() == 7,
        forall|key: Seq<char>| #[trigger]
            GGUFError::DuplicateKey(key).text() == words[0] + key,
        forall|name: Seq<char>| #[trigger]
            GGUFError::DuplicateTensor(name).text() == words[1] + name,
        forall|name: Seq<char>, fault: TensorFault| #[trigger]
            GGUFError::Tensor(name, fault).text() == words[2] + name + fault.text(),
        forall|a: Seq<char>, b: Seq<char>| #[trigger]
            GGUFError::OverlappingTensors(a, b).text() == words[3] + a + words[4] + b + words[5],
        forall|path: Seq<char>| #[trigger]
            GGUFError::FileNotFound(Some(path)).text() == words[6] + path,
        forall|e: ReadError<Seq<char>>| #[trigger] GGUFError::Read(e).text() == e.text(),
{
    seq![
        "duplicate metadata key "@,
        "duplicate tensor name "@,
        "tensor "@,
        "tensors "@,
        " and "@,
        " have overlapping data ranges"@,
        "file not found: "@,
    ]
}

/// Where names are quoted, every name out of a header is, in its place, and nothing else changes.
pub proof fn law_quoted_names(e: GGUFError<Seq<char>>)
    ensures
        match (e, e.with_quoted_names()) {
            (GGUFError::DuplicateKey(a), GGUFError::DuplicateKey(x)) => x == quoted(a),
            (GGUFError::DuplicateTensor(a), GGUFError::DuplicateTensor(x)) => x == quoted(a),
            (GGUFError::Tensor(a, f), GGUFError::Tensor(x, g)) => x == quoted(a) && f == g,
            (GGUFError::OverlappingTensors(a, b), GGUFError::OverlappingTensors(x, y)) => x
                == quoted(a) && y == quoted(b),
            (x, y) => x == y && !(x is DuplicateKey || x is DuplicateTensor || x is Tensor
                || x is OverlappingTensors),
        },
{
}

} // verus!
