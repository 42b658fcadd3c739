//! Report metadata: a map from keys to counts, kept as a vector of entries.
use vstd::prelude::*;

verus! {

/// One metadata entry of a report.
#[derive(Debug, Clone)]
pub struct MetadataEntry {
    pub key: String,
    pub value: u64,
}

/// The map that a sequence of entries stands for: a later entry for a key
/// overrides an earlier one.
pub open spec fn metadata_map(s: Seq<MetadataEntry>) -> Map<Seq<char>, u64>
    decreases s.len(),
{
    if s.len() == 0 {
        Map::empty()
    } else {
        metadata_map(s.drop_last()).insert(s.last().key@, s.last().value)
    }
}

/// The entries of `s` whose key is not `k`.
pub open spec fn without_key(s: Seq<MetadataEntry>, k: Seq<char>) -> Seq<MetadataEntry>
    decreases s.len(),
{
    if s.len() == 0 {
        s
    } else if s.last().key@ == k {
        without_key(s.drop_last(), k)
    } else {
        without_key(s.drop_last(), k).push(s.last())
    }
}

/// The value of the last entry for `k`.
pub open spec fn last_value(s: Seq<MetadataEntry>, k: Seq<char>) -> Option<u64>
    decreases s.len(),
{
    if s.len() == 0 {
        None
    } else if s.last().key@ == k {
        Some(s.last().value)
    } else {
        last_value(s.drop_last(), k)
    }
}

/// The value that a map gives `k`, if any.
pub open spec fn map_get(m: Map<Seq<char>, u64>, k: Seq<char>) -> Option<u64> {
    if m.dom().contains(k) {
        Some(m[k])
    } else {
        None
    }
}

pub proof fn lemma_without_key(s: Seq<MetadataEntry>, k: Seq<char>)
    ensures
        metadata_map(without_key(s, k)) == metadata_map(s).remove(k),
    decreases s.len(),
{
    if s.len() > 0 {
        lemma_without_key(s.drop_last(), k);
        if s.last().key@ == k {
            assert(metadata_map(s).remove(k) =~= metadata_map(s.drop_last()).remove(k));
        } else {
            let w = without_key(s.drop_last(), k);
            assert(w.push(s.last()).drop_last() =~= w);
            assert(metadata_map(without_key(s, k)) =~= metadata_map(s).remove(k));
        }
    } else {
        assert(metadata_map(s).remove(k) =~= Map::<Seq<char>, u64>::empty());
    }
}

pub proof fn lemma_last_value(s: Seq<MetadataEntry>, k: Seq<char>)
    ensures
        last_value(s, k) == map_get(metadata_map(s), k),
    decreases s.len(),
{
    if s.len() > 0 {
        lemma_last_value(s.drop_last(), k);
    }
}

/// Sets the value of `key` in `entries`, as `BTreeMap::insert` does.
pub fn insert_entry(entries: &mut Vec<MetadataEntry>, key: &str, value: u64)
    ensures
        metadata_map(final(entries)@) == metadata_map(old(entries)@).insert(key@, value),
{
    let k = key.to_owned();
    let mut kept: Vec<MetadataEntry> = Vec::new();
    let mut i: usize = 0;
    assert(entries@.take(0) =~= Seq::<MetadataEntry>::empty());
    while i < entries.len()
        invariant
            i <= entries.len(),
            k@ == key@,
            kept@ == without_key(entries@.take(i as int), key@),
        decreases entries.len() - i,
    {
        assert(entries@.take(i + 1).drop_last() =~= entries@.take(i as int));
        if entries[i].key != k {
            kept.push(MetadataEntry { key: entries[i].key.clone(), value: entries[i].value });
        }
        i = i + 1;
    }
    assert(entries@.take(entries.len() as int) =~= entries@);
    proof {
        lemma_without_key(entries@, key@);
    }
    let ghost before = entries@;
    kept.push(MetadataEntry { key: k, value });
    *entries = kept;
    assert(entries@.drop_last() =~= without_key(before, key@));
    assert(metadata_map(entries@) =~= metadata_map(before).insert(key@, value));
}

/// The value of `key` in `entries`, as `BTreeMap::get` gives it.
pub fn lookup_entry(entries: &Vec<MetadataEntry>, key: &str) -> (r: Option<u64>)
    ensures
        r == map_get(metadata_map(entries@), key@),
{
    let k = key.to_owned();
    proof {
        lemma_last_value(entries@, key@);
    }
    let mut j = entries.len();
    assert(entries@.take(j as int) =~= entries@);
    while j > 0
        invariant
            j <= entries.len(),
            k@ == key@,
            last_value(entries@, key@) == map_get(metadata_map(entries@), key@),
            last_value(entries@, key@) == last_value(entries@.take(j as int), key@),
        decreases j,
    {
        assert(entries@.take(j as int).drop_last() =~= entries@.take(j - 1));
        if entries[j - 1].key == k {
            assert(entries@.take(j as int).last() == entries@[j - 1]);
            assert(entries@[j - 1].key@ == key@);
            return Some(entries[j - 1].value);
        }
        j = j - 1;
    }
    None
}


/// A read gives back what a write wrote: after setting `key` to `value`,
/// `key` reads `value` and every other key reads what it read before.
pub proof fn lemma_read_after_write(m: Map<Seq<char>, u64>, key: Seq<char>, value: u64, other: Seq<char>)
    ensures
        map_get(m.insert(key, value), key) == Some(value),
        other != key ==> map_get(m.insert(key, value), other) == map_get(m, other),
{
}

} // verus!
