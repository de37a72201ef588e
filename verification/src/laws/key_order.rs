//! Metadata in the order of its keys.
use crate::metadata::{bytes_before, in_key_order, text_before};
use crate::value::ValueView;
use vstd::prelude::*;
use vstd::utf8::encode_utf8;

verus! {

proof fn lemma_bytes_before(a: Seq<u8>, b: Seq<u8>)
    ensures
        !(bytes_before(a, b) && bytes_before(b, a)),
    decreases b.len(),
{
    if a.len() > 0 && b.len() > 0 {
        lemma_bytes_before(a.skip(1), b.skip(1));
    }
}

/// No two texts come before each other, and none comes before itself.
pub proof fn law_text_order(a: Seq<char>, b: Seq<char>)
    ensures
        !(text_before(a, b) && text_before(b, a)),
        !text_before(a, a),
{
    lemma_bytes_before(encode_utf8(a), encode_utf8(b));
    lemma_bytes_before(encode_utf8(a), encode_utf8(a));
}

/// Whether `a` and `b` have their first `k` bytes in common, and `a` then ends or goes on with the
/// smaller byte.
pub open spec fn parts_at(a: Seq<u8>, b: Seq<u8>, k: int) -> bool {
    &&& 0 <= k <= a.len()
    &&& k < b.len()
    &&& forall|i: int| 0 <= i < k ==> #[trigger] a[i] == b[i]
    &&& k < a.len() ==> a[k] < b[k]
}

/// Byte sequences are ordered by the first byte in which they differ, and a part comes before the
/// whole.
pub proof fn law_byte_order(a: Seq<u8>, b: Seq<u8>)
    ensures
        bytes_before(a, b) <==> exists|k: int| parts_at(a, b, k),
    decreases b.len(),
{
    if a.len() > 0 && b.len() > 0 {
        let (x, y) = (a.skip(1), b.skip(1));
        law_byte_order(x, y);
        if bytes_before(a, b) {
            if a[0] < b[0] {
                assert(parts_at(a, b, 0));
            } else {
                let k = choose|k: int| parts_at(x, y, k);
                assert forall|i: int| 0 <= i < k + 1 implies #[trigger] a[i] == b[i] by {
                    if i > 0 {
                        assert(x[i - 1] == y[i - 1]);
                    }
                }
                assert(parts_at(a, b, k + 1));
            }
        }
        if exists|k: int| parts_at(a, b, k) {
            let k = choose|k: int| parts_at(a, b, k);
            if k > 0 {
                assert(a[0] == b[0]);
                assert forall|i: int| 0 <= i < k - 1 implies #[trigger] x[i] == y[i] by {
                    assert(a[i + 1] == b[i + 1]);
                }
                assert(parts_at(x, y, k - 1));
            }
        }
    } else if b.len() > 0 {
        assert(parts_at(a, b, 0));
    }
}

/// Texts are ordered by the bytes that encode them.
pub proof fn law_texts_by_bytes(a: Seq<char>, b: Seq<char>)
    ensures
        text_before(a, b) <==> exists|k: int| parts_at(encode_utf8(a), encode_utf8(b), k),
{
    law_byte_order(encode_utf8(a), encode_utf8(b));
}

/// Metadata in the order of its keys lists each key once with its value, and nothing else; of two keys
/// the one that parts with the smaller byte, or ends first, stands in front.
pub proof fn law_key_order(
    kvs: Map<Seq<char>, ValueView>,
    pairs: Seq<(Seq<char>, ValueView)>,
    i: int,
    j: int,
    key: Seq<char>,
)
    requires
        in_key_order(kvs, pairs),
        0 <= i < j < pairs.len(),
    ensures
        pairs.len() == kvs.len(),
        kvs.contains_key(pairs[i].0) && kvs[pairs[i].0] == pairs[i].1,
        pairs[i].0 != pairs[j].0,
        exists|k: int| parts_at(encode_utf8(pairs[i].0), encode_utf8(pairs[j].0), k),
        kvs.contains_key(key) ==> exists|k: int|
            0 <= k < pairs.len() && (#[trigger] pairs[k]).0 == key,
{
    law_texts_by_bytes(pairs[i].0, pairs[j].0);
    law_text_order(pairs[i].0, pairs[j].0);
}

proof fn lemma_key_order(
    kvs: Map<Seq<char>, ValueView>,
    x: Seq<(Seq<char>, ValueView)>,
    y: Seq<(Seq<char>, ValueView)>,
    i: nat,
)
    requires
        in_key_order(kvs, x),
        in_key_order(kvs, y),
        i <= x.len(),
    ensures
        x.take(i as int) == y.take(i as int),
    decreases i,
{
    if i > 0 {
        let n = i - 1;
        lemma_key_order(kvs, x, y, n as nat);
        assert forall|k: int| 0 <= k < n implies x[k] == y[k] by {
            assert(x.take(n)[k] == y.take(n)[k]);
        }
        assert(kvs.contains_key(x[n].0));
        assert(kvs.contains_key(y[n].0));
        let j = choose|j: int| 0 <= j < y.len() && (#[trigger] y[j]).0 == x[n].0;
        let k = choose|k: int| 0 <= k < x.len() && (#[trigger] x[k]).0 == y[n].0;
        law_text_order(x[n].0, y[n].0);
        if j < n {
            assert(text_before(x[j].0, x[n].0));
        } else if k < n {
            assert(text_before(y[k].0, y[n].0));
            law_text_order(y[n].0, y[n].0);
        } else if j > n && k > n {
            assert(text_before(y[n].0, y[j].0));
            assert(text_before(x[n].0, x[k].0));
        }
        assert(x.take(i as int) =~= x.take(n).push(x[n]));
        assert(y.take(i as int) =~= y.take(n).push(y[n]));
    }
}

/// There is one way only to list metadata in the order of its keys.
pub proof fn law_key_order_is_unique(
    kvs: Map<Seq<char>, ValueView>,
    x: Seq<(Seq<char>, ValueView)>,
    y: Seq<(Seq<char>, ValueView)>,
)
    requires
        in_key_order(kvs, x),
        in_key_order(kvs, y),
    ensures
        x == y,
{
    lemma_key_order(kvs, x, y, x.len());
    assert(x.take(x.len() as int) =~= x);
    assert(y.take(x.len() as int) =~= y);
}

} // verus!
