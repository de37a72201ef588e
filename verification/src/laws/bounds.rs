//! Inputs whose length is known, trusted or lacking.
use crate::container::ContainerView;
use crate::error::{GGUFError, ReadError};
use crate::grammar::{alignment_of, window, InputBounds, ModelView};
use crate::laws::contents::{law_decoded_contents, sound_tensor};
use crate::laws::placement::{data_start, inside, law_ranges, law_tensor_data};
use crate::laws::streaming::law_more_input_changes_nothing;
use vstd::prelude::*;

verus! {

/// What lies behind the length that was given is never read.
pub proof fn law_nothing_behind_the_length(c: ContainerView, len: u64)
    requires
        c.bounds == InputBounds::Known(len),
        4 <= len,
        c.input.len() > len - 4,
    ensures
        (ContainerView { input: c.input.take(len - 4), ..c }).header() == c.header(),
{
    assert(window(c.bounds, c.input.take(len - 4)) =~= window(c.bounds, c.input));
}

/// An input that is decoded with its length is decoded to the same header without it: the length
/// only refuses inputs.
pub proof fn law_length_only_refuses(c: ContainerView)
    requires
        c.bounds is Known,
        c.header() is Ok,
    ensures
        (ContainerView { bounds: InputBounds::TrustedUnbounded, ..c }).header() == c.header(),
{
    let u = ContainerView { bounds: InputBounds::TrustedUnbounded, ..c };
    let s = window(c.bounds, c.input);
    let rest = c.input.skip(s.len() as int);
    assert(c.input =~= s + rest);
    let v = ContainerView { input: s, ..u };
    law_decoded_contents(c);
    law_tensor_data(c);
    let m = c.header()->Ok_0;
    let start = data_start(c);
    assert forall|i: int| 0 <= i < m.tensors.len() implies inside(
        #[trigger] m.tensors[i],
        start,
        u.bounds,
    ) by {
        assert(inside(m.tensors[i], start, c.bounds));
    }
    assert forall|i: int| 0 <= i < m.tensors.len() implies (#[trigger] m.tensors[i]).size > 0 by {
        assert(sound_tensor(alignment_of(m.kvs)->Ok_0, m.tensors[i]));
    }
    law_ranges(m.tensors, start, u.bounds);
    assert(v.header() == c.header());
    law_more_input_changes_nothing(v, rest);
}

/// Decoding uses up the input: decoding once more fails for want of input, unless it fails for the
/// length that was given.
pub proof fn law_decoding_twice(c: ContainerView)
    requires
        !(c.bounds is Unknown),
    ensures
        c.decoded().header() == match c.bounds {
            InputBounds::Known(len) if len < 4 => Err::<ModelView, GGUFError<Seq<char>>>(
                GGUFError::InputTooShort(len),
            ),
            _ => Err(GGUFError::Read(ReadError::UnexpectedEof)),
        },
        c.decoded().decoded() == c.decoded(),
{
    if !(c.bounds matches InputBounds::Known(len) && len < 4) {
        assert(window(c.bounds, Seq::<u8>::empty()) =~= Seq::empty());
    }
}

/// Without a length and without leave to go without one, nothing is decoded and nothing changes.
pub proof fn law_bounds_required(c: ContainerView)
    requires
        c.bounds is Unknown,
    ensures
        c.header() == Err::<ModelView, GGUFError<Seq<char>>>(GGUFError::InputLengthRequired),
        c.decoded() == c,
{
}

} // verus!
