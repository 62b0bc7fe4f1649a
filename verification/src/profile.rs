//! The EIP profile: a histogram that counts how often each instruction
//! pointer was reported, and its form on disk.

use std::collections::HashMap;
use vstd::bytes::{spec_u64_from_le_bytes, spec_u64_to_le_bytes};
use vstd::prelude::*;
use vstd::std_specs::iter::IteratorSpec;

verus! {

broadcast use vstd::std_specs::hash::group_hash_axioms;

/// The error type of the crate `bincode`. Nothing is known of a value of it.
#[verifier::external_type_specification]
#[verifier::external_body]
pub struct ExBincodeErrorKind(bincode::ErrorKind);

/// The bytes of the entries in the given order: for each entry the key and
/// then the count, each as eight bytes, least significant byte first.
pub open spec fn entries_bytes(pairs: Seq<(u64, u64)>) -> Seq<u8>
    decreases pairs.len(),
{
    if pairs.len() == 0 {
        Seq::empty()
    } else {
        spec_u64_to_le_bytes(pairs[0].0) + spec_u64_to_le_bytes(pairs[0].1) + entries_bytes(
            pairs.drop_first(),
        )
    }
}

/// The form on disk of the entries in the given order: their number as
/// eight bytes, least significant byte first, and then the entries.
pub open spec fn encoding(pairs: Seq<(u64, u64)>) -> Seq<u8> {
    spec_u64_to_le_bytes(pairs.len() as u64) + entries_bytes(pairs)
}

/// The pairs are the entries of the map, each exactly once, in some order.
pub open spec fn lists(pairs: Seq<(u64, u64)>, map: Map<u64, u64>) -> bool {
    &&& pairs.len() <= u64::MAX
    &&& forall|i: int| 0 <= i < pairs.len() ==> map.contains_pair(pairs[i].0, pairs[i].1)
    &&& forall|i: int, j: int| 0 <= i < j < pairs.len() ==> pairs[i].0 != pairs[j].0
    &&& forall|key: u64|
        map.contains_key(key) ==> exists|i: int| 0 <= i < pairs.len() && pairs[i].0 == key
}

/// The bytes are a form on disk of the map: the encoding of its entries in
/// some order.
pub open spec fn is_encoding(bytes: Seq<u8>, map: Map<u64, u64>) -> bool {
    exists|pairs: Seq<(u64, u64)>| lists(pairs, map) && bytes == encoding(pairs)
}

/// The first `count` entries that the bytes hold.
pub open spec fn entries_in(bytes: Seq<u8>, count: nat) -> Seq<(u64, u64)>
    decreases count,
{
    if count == 0 {
        Seq::empty()
    } else {
        seq![
            (
                spec_u64_from_le_bytes(bytes.subrange(0, 8)),
                spec_u64_from_le_bytes(bytes.subrange(8, 16)),
            ),
        ] + entries_in(bytes.skip(16), (count - 1) as nat)
    }
}

/// The map that holds the pairs; where a key comes twice, the later pair
/// stays.
pub open spec fn map_of(pairs: Seq<(u64, u64)>) -> Map<u64, u64>
    decreases pairs.len(),
{
    if pairs.len() == 0 {
        Map::empty()
    } else {
        map_of(pairs.drop_last()).insert(pairs.last().0, pairs.last().1)
    }
}

/// The number of entries that the bytes announce in their first eight
/// bytes.
pub open spec fn announced(bytes: Seq<u8>) -> nat {
    spec_u64_from_le_bytes(bytes.subrange(0, 8)) as nat
}

/// The map that the bytes stand for: they begin with the number of entries
/// and hold at least that many entries of sixteen bytes; what follows the
/// entries is ignored. Bytes that are too short stand for nothing.
pub open spec fn decoded(bytes: Seq<u8>) -> Option<Map<u64, u64>> {
    if bytes.len() >= 8 && 8 + 16 * announced(bytes) <= bytes.len() {
        Some(map_of(entries_in(bytes.skip(8), announced(bytes))))
    } else {
        None
    }
}

/// Calls `bincode::serialize` on the map. The call succeeds: the crate
/// counts the size without a limit, writes into a vector, and fails for a
/// map only where the map cannot tell its length, which a hash map can. The
/// bytes are, as the crate writes a map with its default options for this
/// function (integers of fixed width, least significant byte first): the
/// number of entries as eight bytes, then each entry as its key and its
/// count, eight bytes each, in the order in which the map hands its entries
/// out. That order is not determined. This is taken on trust.
#[verifier::external_body]
fn bincode_serialize(hits: &HashMap<u64, u64>) -> (bytes: Result<Vec<u8>, bincode::Error>)
    ensures
        bytes is Ok,
        bytes matches Ok(written) ==> is_encoding(written@, hits@),
{
    bincode::serialize(hits)
}

/// Calls `bincode::deserialize` for a map from `u64` to `u64`. It succeeds
/// exactly where the bytes begin with a number of entries, as eight bytes,
/// least significant byte first, and hold at least that many entries of
/// sixteen bytes behind it; bytes behind the entries are allowed. The map
/// holds the entries, a later one replacing an earlier one with the same
/// key. This is taken on trust.
#[verifier::external_body]
fn bincode_deserialize(bytes: &[u8]) -> (map: Result<HashMap<u64, u64>, bincode::Error>)
    ensures
        map is Ok <==> decoded(bytes@) is Some,
        map matches Ok(read) ==> decoded(bytes@) == Some(read@),
{
    bincode::deserialize(bytes)
}

/// Why a profile could not be written or read.
#[derive(Debug, Clone, Copy, PartialEq, Eq, Structural)]
pub enum ProfileError {
    /// The histogram could not be turned into bytes.
    Unwritable,
    /// The bytes are too short for the entries that they announce.
    Malformed,
}

/// How often each instruction pointer was reported.
#[derive(Debug)]
pub struct Profile {
    pub hits: HashMap<u64, u64>,
}

impl View for Profile {
    type V = Map<u64, u64>;

    open spec fn view(&self) -> Map<u64, u64> {
        self.hits@
    }
}

/// The count that a histogram holds for an instruction pointer: 0 where it
/// has no entry.
pub open spec fn count_of(hits: Map<u64, u64>, eip: u64) -> u64 {
    if hits.contains_key(eip) {
        hits[eip]
    } else {
        0
    }
}

impl Profile {
    /// An empty histogram.
    pub fn new() -> (profile: Profile)
        ensures
            profile@ == Map::<u64, u64>::empty(),
    {
        Profile { hits: HashMap::new() }
    }

    /// How often `eip` was recorded.
    pub fn count(&self, eip: u64) -> (count: u64)
        ensures
            count == count_of(self@, eip),
    {
        match self.hits.get(&eip) {
            Some(count) => *count,
            None => 0,
        }
    }

    /// Counts `eip` once more. Returns whether it was counted: a count that
    /// has reached the largest number stays as it is.
    pub fn record(&mut self, eip: u64) -> (counted: bool)
        ensures
            counted == (count_of(old(self)@, eip) < u64::MAX),
            counted ==> final(self)@ == old(self)@.insert(
                eip,
                (count_of(old(self)@, eip) + 1) as u64,
            ),
            !counted ==> final(self)@ == old(self)@,
    {
        let count = self.count(eip);
        if count < u64::MAX {
            self.hits.insert(eip, count + 1);
            true
        } else {
            false
        }
    }

    /// Turns the histogram into the bytes that are written to disk. This
    /// succeeds for every histogram. The order of the entries in the bytes
    /// is not determined; whatever the order, the bytes are an encoding of
    /// this histogram and stand for it when they are read again.
    pub fn encode(&self) -> (bytes: Result<Vec<u8>, ProfileError>)
        ensures
            bytes is Ok,
            bytes matches Ok(written) ==> is_encoding(written@, self@) && decoded(written@) == Some(
                self@,
            ),
    {
        let written = bincode_serialize(&self.hits);
        proof {
            if written is Ok {
                lemma_reload_gives_histogram(self@, written->Ok_0@);
            }
        }
        written_bytes(written)
    }

    /// Reads a histogram from the bytes that were written to disk. Fails
    /// exactly where the bytes are shorter than the number of entries in
    /// their first eight bytes demands.
    pub fn decode(bytes: &[u8]) -> (profile: Result<Profile, ProfileError>)
        ensures
            profile is Ok <==> decoded(bytes@) is Some,
            profile matches Ok(read) ==> decoded(bytes@) == Some(read@),
            profile matches Err(error) ==> error == ProfileError::Malformed,
    {
        read_profile(bincode_deserialize(bytes))
    }
}

/// What `encode` returns for what the serializer returned: the bytes, or
/// the error `Unwritable` in place of the serializer's own.
pub fn written_bytes(written: Result<Vec<u8>, bincode::Error>) -> (bytes: Result<
    Vec<u8>,
    ProfileError,
>)
    ensures
        written matches Ok(inner) ==> bytes == Ok::<Vec<u8>, ProfileError>(inner),
        written is Err ==> bytes == Err::<Vec<u8>, ProfileError>(ProfileError::Unwritable),
{
    match written {
        Ok(inner) => Ok(inner),
        Err(_) => Err(ProfileError::Unwritable),
    }
}

/// What `decode` returns for what the deserializer returned: the histogram,
/// or the error `Malformed` in place of the deserializer's own.
pub fn read_profile(read: Result<HashMap<u64, u64>, bincode::Error>) -> (profile: Result<
    Profile,
    ProfileError,
>)
    ensures
        read matches Ok(hits) ==> (profile matches Ok(inner) && inner.hits == hits),
        read is Err ==> (profile matches Err(error) && error == ProfileError::Malformed),
{
    match read {
        Ok(hits) => Ok(Profile { hits }),
        Err(_) => Err(ProfileError::Malformed),
    }
}

/// The entries take sixteen bytes each.
pub proof fn lemma_entries_bytes_len(pairs: Seq<(u64, u64)>)
    ensures
        entries_bytes(pairs).len() == 16 * pairs.len(),
    decreases pairs.len(),
{
    vstd::bytes::lemma_auto_spec_u64_to_from_le_bytes();
    if pairs.len() > 0 {
        lemma_entries_bytes_len(pairs.drop_first());
    }
}

/// The entries that were written are the entries that are read, in the
/// same order.
pub proof fn lemma_entries_read_back(pairs: Seq<(u64, u64)>)
    ensures
        entries_in(entries_bytes(pairs), pairs.len()) == pairs,
    decreases pairs.len(),
{
    vstd::bytes::lemma_auto_spec_u64_to_from_le_bytes();
    if pairs.len() > 0 {
        let bytes = entries_bytes(pairs);
        let rest = pairs.drop_first();
        lemma_entries_read_back(rest);
        lemma_entries_bytes_len(rest);
        assert(bytes.subrange(0, 8) =~= spec_u64_to_le_bytes(pairs[0].0));
        assert(bytes.subrange(8, 16) =~= spec_u64_to_le_bytes(pairs[0].1));
        assert(bytes.skip(16) =~= entries_bytes(rest));
        assert(seq![pairs[0]] + rest =~= pairs);
    } else {
        assert(entries_in(entries_bytes(pairs), 0) =~= pairs);
    }
}

/// The map of pairs holds the keys of the pairs and no others, and under
/// each key the count of the last pair with that key.
pub proof fn lemma_map_of_pairs(pairs: Seq<(u64, u64)>)
    ensures
        forall|key: u64| #[trigger]
            map_of(pairs).contains_key(key) <==> exists|i: int|
                0 <= i < pairs.len() && pairs[i].0 == key,
        forall|i: int|
            0 <= i < pairs.len() && (forall|j: int| i < j < pairs.len() ==> pairs[j].0
                != pairs[i].0) ==> #[trigger] map_of(pairs)[pairs[i].0] == pairs[i].1,
    decreases pairs.len(),
{
    if pairs.len() > 0 {
        let front = pairs.drop_last();
        lemma_map_of_pairs(front);
        assert forall|key: u64| #[trigger]
            map_of(pairs).contains_key(key) <==> exists|i: int|
                0 <= i < pairs.len() && pairs[i].0 == key by {
            if map_of(pairs).contains_key(key) {
                if key == pairs.last().0 {
                    assert(pairs[pairs.len() - 1].0 == key);
                } else {
                    assert(map_of(front).contains_key(key));
                    let i = choose|i: int| 0 <= i < front.len() && front[i].0 == key;
                    assert(pairs[i].0 == key);
                }
            }
            if exists|i: int| 0 <= i < pairs.len() && pairs[i].0 == key {
                let i = choose|i: int| 0 <= i < pairs.len() && pairs[i].0 == key;
                if i < front.len() {
                    assert(front[i].0 == key);
                    assert(map_of(front).contains_key(key));
                }
            }
        }
        assert forall|i: int|
            0 <= i < pairs.len() && (forall|j: int| i < j < pairs.len() ==> pairs[j].0
                != pairs[i].0) implies #[trigger] map_of(pairs)[pairs[i].0] == pairs[i].1 by {
            if i < front.len() {
                assert(front[i] == pairs[i]);
                assert(pairs[pairs.len() - 1].0 != pairs[i].0);
                assert forall|j: int| i < j < front.len() implies front[j].0 != front[i].0 by {
                    assert(front[j] == pairs[j]);
                }
                assert(map_of(front)[front[i].0] == front[i].1);
            }
        }
    }
}

/// The serialized form reloaded is the histogram: whatever order the
/// entries were written in, the bytes stand for the map with the same keys
/// and the same counts.
pub proof fn lemma_reload_gives_histogram(map: Map<u64, u64>, bytes: Seq<u8>)
    requires
        is_encoding(bytes, map),
    ensures
        decoded(bytes) == Some(map),
{
    let pairs = choose|pairs: Seq<(u64, u64)>| lists(pairs, map) && bytes == encoding(pairs);
    vstd::bytes::lemma_auto_spec_u64_to_from_le_bytes();
    lemma_entries_bytes_len(pairs);
    lemma_entries_read_back(pairs);
    lemma_map_of_pairs(pairs);
    assert(bytes.subrange(0, 8) =~= spec_u64_to_le_bytes(pairs.len() as u64));
    assert(announced(bytes) == pairs.len());
    assert(bytes.skip(8) =~= entries_bytes(pairs));
    let read = map_of(pairs);
    assert forall|key: u64| read.contains_key(key) <==> map.contains_key(key) by {
        if read.contains_key(key) {
            let i = choose|i: int| 0 <= i < pairs.len() && pairs[i].0 == key;
            assert(map.contains_pair(pairs[i].0, pairs[i].1));
        }
    }
    assert forall|key: u64| read.contains_key(key) implies read[key] == map[key] by {
        let i = choose|i: int| 0 <= i < pairs.len() && pairs[i].0 == key;
        assert(map.contains_pair(pairs[i].0, pairs[i].1));
        assert(read[pairs[i].0] == pairs[i].1);
    }
    assert(read =~= map);
}

/// The order of two entries: by key, and by count where the keys are equal.
pub open spec fn pair_le(a: (u64, u64), b: (u64, u64)) -> bool {
    a.0 < b.0 || (a.0 == b.0 && a.1 <= b.1)
}

/// Calls the sort of the standard library on a vector of pairs of numbers.
/// Afterwards the vector holds the same pairs, each as often as before, in
/// ascending order; pairs are ordered by their first number, then by their
/// second. This is taken on trust.
#[verifier::external_body]
fn sort_pairs(pairs: &mut Vec<(u64, u64)>)
    ensures
        final(pairs)@.to_multiset() == old(pairs)@.to_multiset(),
        forall|i: int, j: int|
            0 <= i <= j < final(pairs)@.len() ==> pair_le(
                #[trigger] final(pairs)@[i],
                #[trigger] final(pairs)@[j],
            ),
{
    pairs.sort();
}

/// The keys ascend strictly.
pub open spec fn keys_ascend(pairs: Seq<(u64, u64)>) -> bool {
    forall|i: int, j: int| 0 <= i < j < pairs.len() ==> pairs[i].0 < pairs[j].0
}

/// The keys never descend.
pub open spec fn keys_ordered(pairs: Seq<(u64, u64)>) -> bool {
    forall|i: int, j: int| 0 <= i <= j < pairs.len() ==> pairs[i].0 <= pairs[j].0
}

/// A rearrangement of a list of the entries of a map is again such a list.
proof fn lemma_rearranged_lists(raw: Seq<(u64, u64)>, sorted: Seq<(u64, u64)>, map: Map<u64, u64>)
    requires
        lists(raw, map),
        sorted.to_multiset() == raw.to_multiset(),
    ensures
        lists(sorted, map),
        sorted.no_duplicates(),
{
    broadcast use vstd::seq_lib::group_to_multiset_ensures;

    assert(raw.no_duplicates());
    raw.lemma_multiset_has_no_duplicates();
    sorted.lemma_multiset_has_no_duplicates_conv();
    assert(sorted.len() == raw.len()) by {
        sorted.to_multiset_ensures();
        raw.to_multiset_ensures();
    }
    assert forall|i: int| 0 <= i < sorted.len() implies map.contains_pair(
        sorted[i].0,
        sorted[i].1,
    ) by {
        assert(sorted.contains(sorted[i]));
        assert(raw.to_multiset().count(sorted[i]) > 0);
        assert(raw.contains(sorted[i]));
        let k = choose|k: int| 0 <= k < raw.len() && raw[k] == sorted[i];
        assert(map.contains_pair(raw[k].0, raw[k].1));
    }
    assert forall|i: int, j: int| 0 <= i < j < sorted.len() implies sorted[i].0
        != sorted[j].0 by {
        assert(map.contains_pair(sorted[i].0, sorted[i].1));
        assert(map.contains_pair(sorted[j].0, sorted[j].1));
        if sorted[i].0 == sorted[j].0 {
            assert(sorted[i] == sorted[j]);
        }
    }
    assert forall|key: u64| map.contains_key(key) implies exists|i: int|
        0 <= i < sorted.len() && sorted[i].0 == key by {
        let k = choose|k: int| 0 <= k < raw.len() && raw[k].0 == key;
        assert(raw.contains(raw[k]));
        assert(sorted.to_multiset().count(raw[k]) > 0);
        assert(sorted.contains(raw[k]));
        let i = choose|i: int| 0 <= i < sorted.len() && sorted[i] == raw[k];
        assert(sorted[i].0 == key);
    }
}

impl Profile {
    /// The entries of the histogram in ascending order of the instruction
    /// pointer.
    pub fn sorted_records(&self) -> (records: Vec<(u64, u64)>)
        ensures
            lists(records@, self@),
            keys_ascend(records@),
    {
        let mut records: Vec<(u64, u64)> = Vec::new();
        let ghost handed = self.hits.iter().remaining();
        for pair in it: self.hits.iter()
            invariant
                it.seq() == handed,
                handed == self.hits.iter().remaining(),
                records@.len() == it.index(),
                forall|k: int|
                    0 <= k < records@.len() ==> records@[k] == (*handed[k].0, *handed[k].1),
        {
            let (eip, count) = pair;
            records.push((*eip, *count));
        }
        proof {
            let raw = records@;
            assert(raw.len() == self@.dom().len());
            assert(raw.len() <= u64::MAX) by {
                assert(self.hits.len() == self@.len());
            }
            assert forall|i: int| 0 <= i < raw.len() implies self@.contains_pair(
                raw[i].0,
                raw[i].1,
            ) by {
                assert(self@.contains_key(*handed[i].0));
            }
            assert forall|i: int, j: int| 0 <= i < j < raw.len() implies raw[i].0
                != raw[j].0 by {
                assert(self@.contains_key(*handed[i].0));
                assert(self@.contains_key(*handed[j].0));
                if raw[i].0 == raw[j].0 {
                    assert(self@[*handed[i].0] == *handed[i].1);
                    assert(self@[*handed[j].0] == *handed[j].1);
                    assert(handed[i] == handed[j]);
                }
            }
            assert forall|key: u64| self@.contains_key(key) implies exists|i: int|
                0 <= i < raw.len() && raw[i].0 == key by {
                assert(handed.contains((&key, &self@[key])));
                let i = choose|i: int| 0 <= i < handed.len() && handed[i] == (&key, &self@[key]);
                assert(raw[i].0 == key);
            }
            assert(lists(raw, self@));
        }
        let ghost raw = records@;
        sort_pairs(&mut records);
        proof {
            lemma_rearranged_lists(raw, records@, self@);
            assert forall|i: int, j: int| 0 <= i < j < records@.len() implies records@[i].0
                < records@[j].0 by {
                assert(pair_le(records@[i], records@[j]));
            }
        }
        records
    }
}

} // verus!
