//! The key-value metadata of a header.
use crate::constants::{GGUF_DEFAULT_ALIGNMENT, MAX_ALIGNMENT, MAX_METADATA_BYTES};
use crate::error::{GGUFError, ReadError, StringContext};
use crate::grammar::{alignment_of, kvs_at, Dialect};
use crate::progress::kvs_stop;
use crate::reader::CountingReader;
use crate::value::{MetadataValue, ValueView};
use vstd::hash_map::StringHashMap;
use vstd::prelude::*;
use vstd::utf8::encode_utf8;

verus! {

/// A key with its value.
#[derive(Debug, PartialEq, Eq)]
pub struct MetadataEntry {
    pub key: String,
    pub value: MetadataValue,
}

impl View for MetadataEntry {
    type V = (Seq<char>, ValueView);

    open spec fn view(&self) -> (Seq<char>, ValueView) {
        (self.key@, self.value@)
    }
}

/// What a sequence of entries holds.
pub open spec fn entry_views(entries: Seq<MetadataEntry>) -> Seq<(Seq<char>, ValueView)> {
    entries.map_values(|entry: MetadataEntry| entry@)
}

/// The pairs as a map.
pub open spec fn collected(pairs: Seq<(Seq<char>, ValueView)>) -> Map<Seq<char>, ValueView>
    decreases pairs.len(),
{
    if pairs.len() == 0 {
        Map::empty()
    } else {
        collected(pairs.drop_last()).insert(pairs.last().0, pairs.last().1)
    }
}

/// Whether no key stands twice.
pub open spec fn distinct_keys(pairs: Seq<(Seq<char>, ValueView)>) -> bool {
    forall|i: int, j: int|
        0 <= i < j < pairs.len() ==> (#[trigger] pairs[i]).0 != (#[trigger] pairs[j]).0
}

/// Pairs of which no key stands twice are all in the map, and nothing else is.
pub proof fn lemma_collected(pairs: Seq<(Seq<char>, ValueView)>)
    requires
        distinct_keys(pairs),
    ensures
        collected(pairs).dom().finite(),
        collected(pairs).len() == pairs.len(),
        forall|i: int|
            0 <= i < pairs.len() ==> collected(pairs).contains_key((#[trigger] pairs[i]).0)
                && collected(pairs)[pairs[i].0] == pairs[i].1,
        forall|key: Seq<char>| #[trigger]
            collected(pairs).contains_key(key) ==> exists|i: int|
                0 <= i < pairs.len() && (#[trigger] pairs[i]).0 == key,
    decreases pairs.len(),
{
    if pairs.len() > 0 {
        let fewer = pairs.drop_last();
        let last = pairs.len() - 1;
        assert forall|i: int, j: int| 0 <= i < j < fewer.len() implies (#[trigger] fewer[i]).0 != (
        #[trigger] fewer[j]).0 by {
            assert(pairs[i].0 != pairs[j].0);
        }
        lemma_collected(fewer);
        if collected(fewer).contains_key(pairs[last].0) {
            let i = choose|i: int| 0 <= i < fewer.len() && (#[trigger] fewer[i]).0 == pairs[last].0;
            assert(pairs[i].0 == pairs[last].0);
        }
        assert forall|i: int| 0 <= i < pairs.len() implies collected(pairs).contains_key(
            (#[trigger] pairs[i]).0,
        ) && collected(pairs)[pairs[i].0] == pairs[i].1 by {
            if i < last {
                assert(fewer[i] == pairs[i]);
                assert(pairs[i].0 != pairs[last].0);
            }
        }
        assert forall|key: Seq<char>| #[trigger] collected(pairs).contains_key(key) implies exists|
            i: int,
        |
            0 <= i < pairs.len() && (#[trigger] pairs[i]).0 == key by {
            if key == pairs[last].0 {
            } else {
                let i = choose|i: int| 0 <= i < fewer.len() && (#[trigger] fewer[i]).0 == key;
                assert(pairs[i].0 == key);
            }
        }
    }
}

/// Whether `a` comes before `b` in the order of byte sequences: by the first byte that differs, and
/// a part before the whole.
pub open spec fn bytes_before(a: Seq<u8>, b: Seq<u8>) -> bool
    decreases b.len(),
{
    if b.len() == 0 {
        false
    } else if a.len() == 0 {
        true
    } else {
        a[0] < b[0] || (a[0] == b[0] && bytes_before(a.skip(1), b.skip(1)))
    }
}

/// Whether `a` comes before `b` in the order of texts, which is that of their bytes.
pub open spec fn text_before(a: Seq<char>, b: Seq<char>) -> bool {
    bytes_before(encode_utf8(a), encode_utf8(b))
}

/// Whether the pairs are those of the map, in the order of their keys.
pub open spec fn in_key_order(
    kvs: Map<Seq<char>, ValueView>,
    pairs: Seq<(Seq<char>, ValueView)>,
) -> bool {
    &&& pairs.len() == kvs.len()
    &&& forall|i: int|
        0 <= i < pairs.len() ==> kvs.contains_key((#[trigger] pairs[i]).0) && kvs[pairs[i].0]
            == pairs[i].1
    &&& forall|i: int, j: int|
        0 <= i < j < pairs.len() ==> text_before((#[trigger] pairs[i]).0, (#[trigger] pairs[j]).0)
    &&& forall|key: Seq<char>| #[trigger]
        kvs.contains_key(key) ==> exists|i: int|
            0 <= i < pairs.len() && (#[trigger] pairs[i]).0 == key
}

/// Sorts by text, then by number: `slice::sort` on tuples, whose order is that of their first
/// difference; texts are ordered by their bytes.
#[verifier::external_body]
fn sort_keys(keys: &mut Vec<(String, usize)>)
    ensures
        final(keys)@.to_multiset() == old(keys)@.to_multiset(),
        forall|i: int, j: int|
            0 <= i < j < final(keys)@.len() ==> {
                let (a, b) = (#[trigger] final(keys)@[i], #[trigger] final(keys)@[j]);
                text_before(a.0@, b.0@) || (a.0@ == b.0@ && a.1 <= b.1)
            },
{
    keys.sort();
}

/// Whether `index` leads from each key among the entries, and from no other, to its only place.
spec fn indexes(index: Map<Seq<char>, usize>, entries: Seq<MetadataEntry>) -> bool {
    &&& forall|i: int|
        0 <= i < entries.len() ==> index.contains_key((#[trigger] entries[i]).key@)
            && index[entries[i].key@] == i
    &&& forall|key: Seq<char>| #[trigger]
        index.contains_key(key) ==> index[key] < entries.len() && entries[index[key] as int].key@
            == key
}

/// Whether `order` holds the numbers of all entries, in the order of their keys.
spec fn orders(order: Seq<usize>, entries: Seq<MetadataEntry>) -> bool {
    &&& order.len() == entries.len()
    &&& forall|i: int| 0 <= i < order.len() ==> #[trigger] order[i] < entries.len()
    &&& forall|i: int, j: int|
        0 <= i < j < order.len() ==> text_before(
            entries[(#[trigger] order[i]) as int].key@,
            entries[(#[trigger] order[j]) as int].key@,
        )
    &&& forall|k: int| 0 <= k < entries.len() ==> #[trigger] holds_number(order, k)
}

/// Whether `k` is among the numbers.
spec fn holds_number(order: Seq<usize>, k: int) -> bool {
    exists|i: int| 0 <= i < order.len() && #[trigger] order[i] == k
}

proof fn lemma_index_finds(index: Map<Seq<char>, usize>, entries: Seq<MetadataEntry>)
    requires
        indexes(index, entries),
    ensures
        distinct_keys(entry_views(entries)),
        collected(entry_views(entries)).len() == entries.len(),
        forall|key: Seq<char>|
            #![trigger collected(entry_views(entries)).contains_key(key)]
            #![trigger index.contains_key(key)]
            collected(entry_views(entries)).contains_key(key) <==> index.contains_key(key),
        forall|key: Seq<char>| #[trigger]
            index.contains_key(key) ==> collected(entry_views(entries))[key]
                == entries[index[key] as int].value@,
{
    let kvs = entry_views(entries);
    assert forall|i: int, j: int| 0 <= i < j < kvs.len() implies (#[trigger] kvs[i]).0 != (
    #[trigger] kvs[j]).0 by {
        assert(index[entries[i].key@] == i);
        assert(index[entries[j].key@] == j);
    }
    lemma_collected(kvs);
    assert forall|key: Seq<char>| #[trigger] index.contains_key(key) implies collected(
        kvs,
    ).contains_key(key) && collected(kvs)[key] == entries[index[key] as int].value@ by {
        assert(kvs[index[key] as int].0 == key);
    }
    assert forall|key: Seq<char>| #[trigger]
        collected(kvs).contains_key(key) implies index.contains_key(key) by {
        let i = choose|i: int| 0 <= i < kvs.len() && (#[trigger] kvs[i]).0 == key;
        assert(entries[i].key@ == key);
    }
}

/// The metadata of a header: a map from keys to values.
pub struct Metadata {
    entries: Vec<MetadataEntry>,
    index: StringHashMap<usize>,
    order: Vec<usize>,
}

impl View for Metadata {
    type V = Map<Seq<char>, ValueView>;

    closed spec fn view(&self) -> Map<Seq<char>, ValueView> {
        collected(entry_views(self.entries@))
    }
}

/// Sorting the numbered keys keeps each with its entry, leaves out none, and puts no two at one
/// place.
proof fn lemma_sorted_keys(
    unsorted: Seq<(String, usize)>,
    sorted: Seq<(String, usize)>,
    entries: Seq<MetadataEntry>,
)
    requires
        distinct_keys(entry_views(entries)),
        unsorted.len() == entries.len(),
        forall|k: int|
            0 <= k < unsorted.len() ==> (#[trigger] unsorted[k]).0@ == entries[k].key@
                && unsorted[k].1 == k,
        sorted.to_multiset() == unsorted.to_multiset(),
        forall|i: int, j: int|
            0 <= i < j < sorted.len() ==> {
                let (a, b) = (#[trigger] sorted[i], #[trigger] sorted[j]);
                text_before(a.0@, b.0@) || (a.0@ == b.0@ && a.1 <= b.1)
            },
    ensures
        sorted.len() == entries.len(),
        forall|k: int|
            0 <= k < sorted.len() ==> (#[trigger] sorted[k]).1 < entries.len() && sorted[k].0@
                == entries[sorted[k].1 as int].key@,
        forall|i: int, j: int|
            0 <= i < j < sorted.len() ==> text_before(
                (#[trigger] sorted[i]).0@,
                (#[trigger] sorted[j]).0@,
            ),
        forall|k: int| #![trigger unsorted[k]] 0 <= k < entries.len() ==> sorted.contains(unsorted[k]),
{
    broadcast use vstd::seq_lib::group_to_multiset_ensures;

    assert(unsorted.to_multiset().len() == unsorted.len());
    assert(sorted.to_multiset().len() == sorted.len());
    assert forall|k: int| 0 <= k < sorted.len() implies unsorted.contains(#[trigger] sorted[k]) by {
        assert(sorted.contains(sorted[k]));
        assert(sorted.to_multiset().count(sorted[k]) > 0);
    }
    assert forall|k: int| 0 <= k < sorted.len() implies (#[trigger] sorted[k]).1 < entries.len()
        && sorted[k] == unsorted[sorted[k].1 as int] by {
        let i = choose|i: int| 0 <= i < unsorted.len() && unsorted[i] == sorted[k];
        assert(unsorted[i].1 == i);
    }
    assert forall|a: int, b: int| 0 <= a < unsorted.len() && 0 <= b < unsorted.len() && a
        != b implies unsorted[a] != unsorted[b] by {
        assert(unsorted[a].1 != unsorted[b].1);
    }
    unsorted.lemma_multiset_has_no_duplicates();
    sorted.lemma_multiset_has_no_duplicates_conv();
    let kvs = entry_views(entries);
    assert forall|i: int, j: int| 0 <= i < j < sorted.len() implies text_before(
        (#[trigger] sorted[i]).0@,
        (#[trigger] sorted[j]).0@,
    ) by {
        let (a, b) = (sorted[i].1 as int, sorted[j].1 as int);
        assert(sorted[i] == unsorted[a] && sorted[j] == unsorted[b]);
        assert(a != b);
        assert(kvs[a].0 != kvs[b].0);
    }
    assert forall|k: int|
        #![trigger unsorted[k]]
        0 <= k < entries.len() implies sorted.contains(unsorted[k]) by {
        assert(unsorted.contains(unsorted[k]));
        assert(unsorted.to_multiset().count(unsorted[k]) > 0);
    }
}

/// The numbers of the entries in the order of their keys.
fn key_order(entries: &Vec<MetadataEntry>) -> (order: Vec<usize>)
    requires
        distinct_keys(entry_views(entries@)),
    ensures
        orders(order@, entries@),
{
    let mut keys: Vec<(String, usize)> = Vec::new();
    let mut i: usize = 0;
    while i < entries.len()
        invariant
            i <= entries@.len(),
            keys@.len() == i,
            forall|k: int|
                0 <= k < i ==> (#[trigger] keys@[k]).0@ == entries@[k].key@ && keys@[k].1 == k,
        decreases entries@.len() - i,
    {
        keys.push((entries[i].key.clone(), i));
        i = i + 1;
    }
    let ghost unsorted = keys@;
    sort_keys(&mut keys);
    proof {
        lemma_sorted_keys(unsorted, keys@, entries@);
    }
    let mut order: Vec<usize> = Vec::new();
    let mut j: usize = 0;
    while j < keys.len()
        invariant
            j <= keys@.len(),
            order@.len() == j,
            forall|k: int| 0 <= k < j ==> #[trigger] order@[k] == keys@[k].1,
        decreases keys@.len() - j,
    {
        order.push(keys[j].1);
        j = j + 1;
    }
    proof {
        assert forall|k: int| 0 <= k < entries@.len() implies #[trigger] holds_number(order@, k) by {
            assert(keys@.contains(unsorted[k]));
            let i = choose|i: int| 0 <= i < keys@.len() && keys@[i] == unsorted[k];
            assert(order@[i] == k);
        }
    }
    order
}

impl Metadata {
    #[verifier::type_invariant]
    spec fn indexed(self) -> bool {
        &&& indexes(self.index@, self.entries@)
        &&& orders(self.order@, self.entries@)
    }

    /// The number of pairs.
    pub fn len(&self) -> (n: usize)
        ensures
            n == self@.len(),
    {
        proof {
            use_type_invariant(self);
            lemma_index_finds(self.index@, self.entries@);
        }
        self.entries.len()
    }

    /// Whether there are no pairs.
    pub fn is_empty(&self) -> (empty: bool)
        ensures
            empty == (self@.len() == 0),
    {
        self.len() == 0
    }

    /// The pairs in the order of their keys.
    pub fn entries(&self) -> (entries: Vec<&MetadataEntry>)
        ensures
            in_key_order(self@, entries@.map_values(|entry: &MetadataEntry| entry@)),
    {
        proof {
            use_type_invariant(self);
            lemma_index_finds(self.index@, self.entries@);
            lemma_collected(entry_views(self.entries@));
        }
        let mut entries: Vec<&MetadataEntry> = Vec::new();
        let mut i: usize = 0;
        while i < self.order.len()
            invariant
                i <= self.order@.len(),
                orders(self.order@, self.entries@),
                entries@.len() == i,
                forall|k: int|
                    0 <= k < i ==> *(#[trigger] entries@[k]) == self.entries@[self.order@[k] as int],
            decreases self.order@.len() - i,
        {
            entries.push(&self.entries[self.order[i]]);
            i = i + 1;
        }
        proof {
            let all = entry_views(self.entries@);
            let pairs = entries@.map_values(|entry: &MetadataEntry| entry@);
            assert forall|k: int| 0 <= k < pairs.len() implies self@.contains_key(
                (#[trigger] pairs[k]).0,
            ) && self@[pairs[k].0] == pairs[k].1 by {
                assert(pairs[k] == all[self.order@[k] as int]);
            }
            assert forall|j: int, k: int| 0 <= j < k < pairs.len() implies text_before(
                (#[trigger] pairs[j]).0,
                (#[trigger] pairs[k]).0,
            ) by {
                assert(pairs[j] == all[self.order@[j] as int]);
                assert(pairs[k] == all[self.order@[k] as int]);
            }
            assert forall|key: Seq<char>| #[trigger] self@.contains_key(key) implies exists|i: int|
                0 <= i < pairs.len() && (#[trigger] pairs[i]).0 == key by {
                let k = choose|k: int| 0 <= k < all.len() && (#[trigger] all[k]).0 == key;
                assert(self.entries@[k].key@ == key);
                assert(holds_number(self.order@, k));
                let i = choose|i: int| 0 <= i < self.order@.len() && #[trigger] self.order@[i] == k;
                assert(pairs[i].0 == key);
            }
        }
        entries
    }

    /// The value under `key`.
    pub fn get(&self, key: &str) -> (r: Option<&MetadataValue>)
        ensures
            match r {
                Some(v) => self@.contains_key(key@) && self@[key@] == v@,
                None => !self@.contains_key(key@),
            },
    {
        proof {
            use_type_invariant(self);
            lemma_index_finds(self.index@, self.entries@);
        }
        match self.index.get(key) {
            Some(i) => Some(&self.entries[*i].value),
            None => None,
        }
    }

    /// Whether there is a value under `key`.
    pub fn contains_key(&self, key: &str) -> (found: bool)
        ensures
            found == self@.contains_key(key@),
    {
        proof {
            use_type_invariant(self);
            lemma_index_finds(self.index@, self.entries@);
        }
        self.index.contains_key(key)
    }

    /// Reads `n` pairs.
    pub fn read(dialect: &Dialect, n: u64, reader: &mut CountingReader<'_>) -> (r: Result<
        Metadata,
        GGUFError,
    >)
        requires
            old(reader).wf(),
        ensures
            final(reader).wf(),
            final(reader).source() == old(reader).source(),
            final(reader).count() == kvs_stop(
                *dialect,
                n as nat,
                Map::empty(),
                old(reader).source(),
                old(reader).count(),
            ),
            match (
                r,
                kvs_at(
                    *dialect,
                    n as nat,
                    Map::empty(),
                    old(reader).source(),
                    old(reader).count(),
                ),
            ) {
                (Ok(m), Ok((kvs, end))) => m@ == kvs && final(reader).count() == end,
                (Err(e), Err(f)) => e@ == f,
                _ => false,
            },
    {
        let ghost source = reader.source();
        let ghost all = kvs_at(*dialect, n as nat, Map::empty(), source, reader.count());
        let ghost stop = kvs_stop(*dialect, n as nat, Map::empty(), source, reader.count());
        let mut entries: Vec<MetadataEntry> = Vec::new();
        let mut index: StringHashMap<usize> = StringHashMap::new();
        let mut i: u64 = 0;
        proof {
            assert(entry_views(entries@) =~= Seq::empty());
        }
        while i < n
            invariant
                i <= n,
                entries@.len() == i,
                indexes(index@, entries@),
                reader.wf(),
                reader.source() == source,
                source == old(reader).source(),
                all == kvs_at(*dialect, n as nat, Map::empty(), source, old(reader).count()),
                stop == kvs_stop(*dialect, n as nat, Map::empty(), source, old(reader).count()),
                stop == kvs_stop(
                    *dialect,
                    (n - i) as nat,
                    collected(entry_views(entries@)),
                    source,
                    reader.count(),
                ),
                all == kvs_at(
                    *dialect,
                    (n - i) as nat,
                    collected(entry_views(entries@)),
                    source,
                    reader.count(),
                ),
            decreases n - i,
        {
            let key = match dialect.read_string_limited(reader, StringContext::MetadataKey) {
                Ok(key) => key,
                Err(e) => return Err(GGUFError::Read(e)),
            };
            proof {
                lemma_index_finds(index@, entries@);
            }
            if index.contains_key(key.as_str()) {
                return Err(GGUFError::DuplicateKey(key));
            }
            let value = match dialect.read_typed_value(reader) {
                Ok(value) => value,
                Err(e) => return Err(GGUFError::Read(e)),
            };
            if reader.bytes_read() > MAX_METADATA_BYTES {
                return Err(GGUFError::Read(ReadError::MetadataTooLarge));
            }
            let ghost before = entries@;
            index.insert(key.clone(), entries.len());
            entries.push(MetadataEntry { key, value });
            i = i + 1;
            proof {
                let pairs = entry_views(entries@);
                assert(pairs =~= entry_views(before).push((key@, value@)));
                assert(pairs.drop_last() =~= entry_views(before));
                assert forall|k: int| 0 <= k < entries@.len() implies index@.contains_key(
                    (#[trigger] entries@[k]).key@,
                ) && index@[entries@[k].key@] == k by {
                    if k < before.len() {
                        assert(entries@[k] == before[k]);
                    }
                }
            }
        }
        proof {
            lemma_index_finds(index@, entries@);
        }
        let order = key_order(&entries);
        Ok(Metadata { entries, index, order })
    }

    /// The alignment of tensor data that the metadata asks for.
    pub fn alignment(&self) -> (r: Result<u64, GGUFError>)
        ensures
            match (r, alignment_of(self@)) {
                (Ok(a), Ok(b)) => a == b,
                (Err(e), Err(f)) => e@ == f,
                _ => false,
            },
    {
        let raw: u64 = match self.get("general.alignment") {
            Some(v) => {
                if !v.value_type().is_unsigned() {
                    return Err(GGUFError::AlignmentType);
                }
                match v.as_u64() {
                    Some(raw) => raw,
                    None => return Err(GGUFError::AlignmentType),
                }
            },
            None => GGUF_DEFAULT_ALIGNMENT,
        };
        if raw == 0 {
            return Err(GGUFError::AlignmentZero);
        }
        if raw % 8 != 0 {
            return Err(GGUFError::AlignmentNotMultipleOfEight(raw));
        }
        if raw > MAX_ALIGNMENT {
            return Err(GGUFError::AlignmentTooLarge(raw));
        }
        Ok(raw)
    }
}

} // verus!
