//! Association lists of string pairs, read as maps.
//!
//! Both the translation cache and the credential store keep their entries
//! in a vector of `(key, value)` strings whose keys are pairwise distinct;
//! contracts speak of the map those entries denote.
use vstd::prelude::*;

verus! {

/// The map an association list denotes: later entries win, though with
/// distinct keys the order never matters.
pub open spec fn entries_map(entries: Seq<(String, String)>) -> Map<Seq<char>, Seq<char>>
    decreases entries.len(),
{
    if entries.len() == 0 {
        Map::empty()
    } else {
        entries_map(entries.drop_last()).insert(entries.last().0@, entries.last().1@)
    }
}

/// No two entries share a key.
pub open spec fn distinct_keys(entries: Seq<(String, String)>) -> bool {
    forall|i: int, j: int|
        0 <= i < j < entries.len() ==> (#[trigger] entries[i]).0@ != (#[trigger] entries[j]).0@
}

/// A key is in the map exactly when some entry holds it, and the map's
/// value is the value of the last entry holding it.
#[verifier::rlimit(50)]
pub proof fn lemma_entries_map_get(entries: Seq<(String, String)>, k: Seq<char>)
    ensures
        entries_map(entries).dom().contains(k) <==> exists|i: int|
            0 <= i < entries.len() && (#[trigger] entries[i]).0@ == k,
        forall|i: int|
            0 <= i < entries.len() && (#[trigger] entries[i]).0@ == k && (forall|j: int|
                i < j < entries.len() ==> (#[trigger] entries[j]).0@ != k) ==> entries_map(
                entries,
            )[k] == entries[i].1@,
    decreases entries.len(),
{
    if entries.len() == 0 {
    } else {
        let n = entries.len() as int;
        let prefix = entries.drop_last();
        lemma_entries_map_get(prefix, k);
        assert(forall|i: int| 0 <= i < prefix.len() ==> #[trigger] prefix[i] == entries[i]);
        assert(entries[n - 1] == entries.last());
        if entries.last().0@ == k {
            assert(entries_map(entries).dom().contains(k));
            assert(entries_map(entries)[k] == entries.last().1@);
            assert forall|i: int|
                0 <= i < n && (#[trigger] entries[i]).0@ == k && (forall|j: int|
                    i < j < n ==> (#[trigger] entries[j]).0@ != k) implies entries_map(entries)[k]
                == entries[i].1@ by {
                if i < n - 1 {
                    assert(entries[n - 1].0@ != k);
                    assert(false);
                }
            }
        } else {
            assert forall|i: int|
                0 <= i < n && (#[trigger] entries[i]).0@ == k implies entries_map(
                entries,
            ).dom().contains(k) by {
                assert(i != n - 1);
                assert(prefix[i].0@ == k);
                assert(entries_map(prefix).dom().contains(k));
            }
            assert forall|i: int|
                0 <= i < n && (#[trigger] entries[i]).0@ == k && (forall|j: int|
                    i < j < n ==> (#[trigger] entries[j]).0@ != k) implies entries_map(entries)[k]
                == entries[i].1@ by {
                assert(i != n - 1);
                assert(prefix[i].0@ == k);
                assert(forall|j: int| i < j < prefix.len() ==> (#[trigger] prefix[j]).0@ != k);
                assert(entries_map(prefix)[k] == prefix[i].1@);
                assert(entries_map(prefix).dom().contains(k));
                assert(entries_map(entries)[k] == entries_map(prefix)[k]);
            }
        }
    }
}

/// Appending an entry inserts its pair into the map.
pub proof fn lemma_entries_map_push(entries: Seq<(String, String)>, e: (String, String))
    ensures
        entries_map(entries.push(e)) == entries_map(entries).insert(e.0@, e.1@),
{
    assert(entries.push(e).drop_last() =~= entries);
    assert(entries.push(e).last() == e);
}

/// With distinct keys, removing an entry removes exactly its key from the
/// map, no entry with that key remains, and the keys stay distinct.
pub proof fn lemma_entries_map_remove(entries: Seq<(String, String)>, i: int)
    requires
        distinct_keys(entries),
        0 <= i < entries.len(),
    ensures
        entries_map(entries.remove(i)) == entries_map(entries).remove(entries[i].0@),
        distinct_keys(entries.remove(i)),
        forall|j: int|
            0 <= j < entries.remove(i).len() ==> (#[trigger] entries.remove(i)[j]).0@
                != entries[i].0@,
    decreases entries.len(),
{
    let n = entries.len() as int;
    let k = entries[i].0@;
    let shorter = entries.remove(i);
    assert(forall|j: int| 0 <= j < i ==> #[trigger] shorter[j] == entries[j]);
    assert(forall|j: int| i <= j < n - 1 ==> #[trigger] shorter[j] == entries[j + 1]);
    if i == n - 1 {
        assert(shorter =~= entries.drop_last());
        lemma_entries_map_get(shorter, k);
        assert(forall|j: int| 0 <= j < n - 1 ==> (#[trigger] entries[j]).0@ != k);
        assert(!entries_map(shorter).dom().contains(k));
        assert(entries_map(entries) == entries_map(shorter).insert(k, entries.last().1@));
        assert(entries_map(entries).remove(k) =~= entries_map(shorter));
    } else {
        let last = entries.last();
        let prefix = entries.drop_last();
        assert(shorter.last() == last);
        assert(shorter.drop_last() =~= prefix.remove(i));
        assert(forall|a: int, b: int|
            0 <= a < b < prefix.len() ==> (#[trigger] prefix[a]).0@ != (#[trigger] prefix[b]).0@);
        lemma_entries_map_remove(prefix, i);
        assert(entries_map(shorter) == entries_map(prefix.remove(i)).insert(last.0@, last.1@));
        assert(prefix[i] == entries[i]);
        assert(last.0@ != k);
        assert(entries_map(prefix.remove(i)).insert(last.0@, last.1@) =~= entries_map(
            prefix,
        ).insert(last.0@, last.1@).remove(k));
    }
}

} // verus!
