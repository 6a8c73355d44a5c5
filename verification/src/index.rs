//! The md5-keyed index of a manifest: records in first-occurrence order,
//! with a later record for the same digest overwriting the earlier one.

use vstd::prelude::*;
use crate::record::{HashdeepLine, RecordView};
use crate::text::str_eq;

verus! {

/// No two records carry the same md5 digest.
pub open spec fn unique_md5s(s: Seq<RecordView>) -> bool {
    forall|i: int, j: int| 0 <= i < j < s.len() ==> s[i].md5 != s[j].md5
}

/// The mapping from md5 digest to record that a record sequence denotes,
/// later records overwriting earlier ones with the same digest.
pub open spec fn map_of(s: Seq<RecordView>) -> Map<Seq<char>, RecordView>
    decreases s.len(),
{
    if s.len() == 0 {
        Map::empty()
    } else {
        map_of(s.drop_last()).insert(s.last().md5, s.last())
    }
}

/// Position of the first record whose md5 digest is `k`, if any.
pub open spec fn find_md5(s: Seq<RecordView>, k: Seq<char>) -> Option<int>
    decreases s.len(),
{
    if s.len() == 0 {
        None
    } else if s[0].md5 == k {
        Some(0int)
    } else {
        match find_md5(s.drop_first(), k) {
            Some(i) => Some(i + 1),
            None => None,
        }
    }
}

/// The record sequence after resolving duplicate digests: each record
/// keeps the position of the first record with its digest, and a later
/// record's data overwrites an earlier one's.
pub open spec fn dedup_records(s: Seq<RecordView>) -> Seq<RecordView>
    decreases s.len(),
{
    if s.len() == 0 {
        Seq::empty()
    } else {
        let prev = dedup_records(s.drop_last());
        let r = s.last();
        match find_md5(prev, r.md5) {
            Some(i) => prev.update(i, r),
            None => prev.push(r),
        }
    }
}

/// What `find_md5` returns: the position of the first record with digest
/// `k`, or `None` when no record carries it.
pub proof fn lemma_find_md5(s: Seq<RecordView>, k: Seq<char>)
    ensures
        match find_md5(s, k) {
            Some(i) => 0 <= i < s.len() && s[i].md5 == k && forall|j: int|
                0 <= j < i ==> s[j].md5 != k,
            None => forall|j: int| 0 <= j < s.len() ==> s[j].md5 != k,
        },
    decreases s.len(),
{
    if s.len() > 0 && s[0].md5 != k {
        lemma_find_md5(s.drop_first(), k);
        assert(forall|j: int| 0 <= j < s.len() - 1 ==> s.drop_first()[j] == s[j + 1]);
        match find_md5(s.drop_first(), k) {
            Some(i) => {
                assert(forall|j: int| 1 <= j < i + 1 ==> s[j] == s.drop_first()[j - 1]);
            },
            None => {
                assert(forall|j: int| 1 <= j < s.len() ==> s[j] == s.drop_first()[j - 1]);
            },
        }
    }
}

/// A digest is a key of the mapping exactly when some record carries it.
pub proof fn lemma_map_of_contains(s: Seq<RecordView>, k: Seq<char>)
    ensures
        map_of(s).contains_key(k) <==> exists|i: int| 0 <= i < s.len() && s[i].md5 == k,
    decreases s.len(),
{
    if s.len() > 0 {
        lemma_map_of_contains(s.drop_last(), k);
        if map_of(s).contains_key(k) {
            if k == s.last().md5 {
                assert(s[s.len() - 1].md5 == k);
            } else {
                let i = choose|i: int| 0 <= i < s.len() - 1 && s.drop_last()[i].md5 == k;
                assert(s[i].md5 == k);
            }
        }
        if exists|i: int| 0 <= i < s.len() && s[i].md5 == k {
            let i = choose|i: int| 0 <= i < s.len() && s[i].md5 == k;
            if i < s.len() - 1 {
                assert(s.drop_last()[i].md5 == k);
            }
        }
    }
}

/// Under unique digests, the mapping sends each record's digest to that
/// record.
pub proof fn lemma_map_of_index(s: Seq<RecordView>)
    requires
        unique_md5s(s),
    ensures
        forall|i: int|
            0 <= i < s.len() ==> map_of(s).contains_key(s[i].md5) && map_of(s)[s[i].md5] == s[i],
    decreases s.len(),
{
    if s.len() > 0 {
        assert(forall|i: int, j: int|
            0 <= i < j < s.len() - 1 ==> s.drop_last()[i].md5 != s.drop_last()[j].md5);
        lemma_map_of_index(s.drop_last());
        assert(forall|i: int|
            0 <= i < s.len() - 1 ==> s[i] == s.drop_last()[i] && s[i].md5 != s.last().md5);
    }
}

/// Overwriting the record at position `i` with one carrying the same
/// digest is, on the mapping, one insertion under that digest.
pub proof fn lemma_map_of_update(s: Seq<RecordView>, i: int, r: RecordView)
    requires
        unique_md5s(s),
        0 <= i < s.len(),
        s[i].md5 == r.md5,
    ensures
        map_of(s.update(i, r)) == map_of(s).insert(r.md5, r),
    decreases s.len(),
{
    let u = s.update(i, r);
    if i == s.len() - 1 {
        assert(u.drop_last() =~= s.drop_last());
        assert(u.last() == r);
        assert(map_of(u) =~= map_of(s).insert(r.md5, r));
    } else {
        assert(u.drop_last() =~= s.drop_last().update(i, r));
        assert(u.last() == s.last());
        assert(forall|a: int, b: int|
            0 <= a < b < s.len() - 1 ==> s.drop_last()[a].md5 != s.drop_last()[b].md5);
        lemma_map_of_update(s.drop_last(), i, r);
        assert(s.last().md5 != r.md5);
        assert(map_of(u) =~= map_of(s).insert(r.md5, r));
    }
}

/// Resolving duplicates leaves a sequence with unique digests that
/// denotes the same mapping as the original sequence.
pub proof fn lemma_dedup_records(s: Seq<RecordView>)
    ensures
        unique_md5s(dedup_records(s)),
        map_of(dedup_records(s)) == map_of(s),
    decreases s.len(),
{
    if s.len() > 0 {
        lemma_dedup_records(s.drop_last());
        let prev = dedup_records(s.drop_last());
        let r = s.last();
        lemma_find_md5(prev, r.md5);
        match find_md5(prev, r.md5) {
            Some(i) => {
                let d = prev.update(i, r);
                assert(forall|a: int| 0 <= a < d.len() ==> d[a].md5 == prev[a].md5);
                assert(unique_md5s(d));
                lemma_map_of_update(prev, i, r);
                assert(map_of(d) =~= map_of(s));
            },
            None => {
                let d = prev.push(r);
                assert(forall|a: int| 0 <= a < prev.len() ==> d[a] == prev[a]);
                assert(unique_md5s(d));
                assert(d.drop_last() =~= prev);
                assert(d.last() == r);
                assert(map_of(d) =~= map_of(s));
            },
        }
    }
}

/// Under unique digests the mapping has exactly one key per record.
pub proof fn lemma_map_of_len(s: Seq<RecordView>)
    requires
        unique_md5s(s),
    ensures
        map_of(s).dom().finite(),
        map_of(s).dom().len() == s.len(),
    decreases s.len(),
{
    if s.len() > 0 {
        assert(forall|a: int, b: int|
            0 <= a < b < s.len() - 1 ==> s.drop_last()[a].md5 != s.drop_last()[b].md5);
        lemma_map_of_len(s.drop_last());
        lemma_map_of_contains(s.drop_last(), s.last().md5);
        assert(forall|j: int| 0 <= j < s.len() - 1 ==> s.drop_last()[j].md5 != s.last().md5);
        assert(!map_of(s.drop_last()).contains_key(s.last().md5));
        assert(map_of(s).dom() =~= map_of(s.drop_last()).dom().insert(s.last().md5));
    }
}

/// Deterministic indexing: two mappings built from the same record
/// sequence have the same keys and send each key to the same record.
pub proof fn lemma_indexing_deterministic(
    s: Seq<RecordView>,
    m1: Map<Seq<char>, RecordView>,
    m2: Map<Seq<char>, RecordView>,
)
    requires
        m1 == map_of(s),
        m2 == map_of(s),
    ensures
        m1.dom() == m2.dom(),
        forall|k: Seq<char>| m1.dom().contains(k) ==> m1[k] == m2[k],
{
}

/// Last write wins: when no later record shares the digest of the record
/// at position `i`, the mapping sends that digest to exactly that record.
pub proof fn lemma_last_write_wins(s: Seq<RecordView>, i: int)
    requires
        0 <= i < s.len(),
        forall|j: int| i < j < s.len() ==> s[j].md5 != s[i].md5,
    ensures
        map_of(s).contains_key(s[i].md5),
        map_of(s)[s[i].md5] == s[i],
    decreases s.len(),
{
    if i < s.len() - 1 {
        assert(forall|j: int| i < j < s.len() - 1 ==> s.drop_last()[j].md5 != s.drop_last()[i].md5);
        lemma_last_write_wins(s.drop_last(), i);
        assert(s.last().md5 != s[i].md5);
    }
}

/// A manifest's records, indexed by md5 digest.  Records keep the
/// position of the first record carrying their digest; a later record
/// with the same digest has overwritten the earlier one's data.
pub struct ManifestIndex {
    entries: Vec<HashdeepLine>,
}

impl View for ManifestIndex {
    type V = Seq<RecordView>;

    closed spec fn view(&self) -> Seq<RecordView> {
        self.entries.deep_view()
    }
}

impl ManifestIndex {
    #[verifier::type_invariant]
    spec fn inv(&self) -> bool {
        unique_md5s(self@)
    }

    /// The mapping this index denotes.
    pub open spec fn as_map(&self) -> Map<Seq<char>, RecordView> {
        map_of(self@)
    }

    /// Number of records, which equals the number of keys of the mapping.
    pub fn len(&self) -> (n: usize)
        ensures
            n == self@.len(),
            n == self.as_map().dom().len(),
    {
        proof {
            use_type_invariant(self);
            lemma_map_of_len(self@);
        }
        self.entries.len()
    }

    /// The records in index order; their digests are pairwise distinct.
    pub fn records(&self) -> (r: &Vec<HashdeepLine>)
        ensures
            r.deep_view() == self@,
            unique_md5s(self@),
    {
        proof {
            use_type_invariant(self);
        }
        &self.entries
    }

    /// Looks a digest up, as the mapping describes it.
    pub fn get(&self, md5: &str) -> (r: Option<&HashdeepLine>)
        ensures
            match r {
                Some(rec) => self.as_map().contains_key(md5@) && rec@ == self.as_map()[md5@],
                None => !self.as_map().contains_key(md5@),
            },
    {
        proof {
            use_type_invariant(self);
            lemma_map_of_index(self@);
            lemma_map_of_contains(self@, md5@);
        }
        match find_entry(&self.entries, md5) {
            Some(j) => {
                proof {
                    lemma_find_md5(self@, md5@);
                }
                Some(&self.entries[j])
            },
            None => {
                proof {
                    lemma_find_md5(self@, md5@);
                }
                None
            },
        }
    }
}

/// A record vector's deep view holds, position by position, the views of
/// its records.
proof fn lemma_entries_deep_view(v: Vec<HashdeepLine>)
    ensures
        v.deep_view().len() == v@.len(),
        forall|a: int| 0 <= a < v@.len() ==> v.deep_view()[a] == v@[a]@,
{
}

/// Finds the first record whose md5 digest equals `key`, as `find_md5`
/// describes it.
fn find_entry(entries: &Vec<HashdeepLine>, key: &str) -> (r: Option<usize>)
    ensures
        match r {
            Some(j) => find_md5(entries.deep_view(), key@) == Some(j as int),
            None => find_md5(entries.deep_view(), key@) is None,
        },
{
    let ghost s = entries.deep_view();
    proof {
        lemma_entries_deep_view(*entries);
    }
    let mut j: usize = 0;
    while j < entries.len()
        invariant
            j <= entries.len(),
            forall|a: int| 0 <= a < j ==> s[a].md5 != key@,
        decreases entries.len() - j,
    {
        if str_eq(entries[j].md5.as_str(), key) {
            proof {
                assert(s[j as int].md5 == entries@[j as int].md5@);
                lemma_find_md5(s, key@);
            }
            return Some(j);
        }
        proof {
            assert(s[j as int].md5 == entries@[j as int].md5@);
        }
        j = j + 1;
    }
    proof {
        lemma_find_md5(s, key@);
    }
    None
}

/// Converts a record sequence into its md5-keyed index.  The mapping is
/// the one `map_of` gives the sequence: later duplicates overwrite
/// earlier ones, nothing is filtered, and an empty or unusual digest is a
/// key like any other.
pub fn hashdeep_lines_to_hashmap(hashdeep_lines: Vec<HashdeepLine>) -> (r: ManifestIndex)
    ensures
        r@ == dedup_records(hashdeep_lines.deep_view()),
        r.as_map() == map_of(hashdeep_lines.deep_view()),
{
    let ghost s = hashdeep_lines.deep_view();
    let mut entries: Vec<HashdeepLine> = Vec::new();
    let mut i: usize = 0;
    while i < hashdeep_lines.len()
        invariant
            i <= hashdeep_lines.len(),
            entries.deep_view() =~= dedup_records(s.take(i as int)),
        decreases hashdeep_lines.len() - i,
    {
        let rec = hashdeep_lines[i].clone();
        proof {
            assert(s.take(i + 1).drop_last() =~= s.take(i as int));
            assert(s.take(i + 1).last() == rec@);
        }
        let ghost before = entries.deep_view();
        let ghost vbefore = entries@;
        proof {
            lemma_entries_deep_view(entries);
        }
        match find_entry(&entries, rec.md5.as_str()) {
            Some(j) => {
                proof {
                    lemma_find_md5(before, rec.md5@);
                }
                entries.set(j, rec);
                proof {
                    lemma_entries_deep_view(entries);
                    assert(entries@ == vbefore.update(j as int, rec));
                    assert(entries.deep_view() =~= before.update(j as int, rec@));
                }
            },
            None => {
                entries.push(rec);
                proof {
                    lemma_entries_deep_view(entries);
                    assert(entries@ == vbefore.push(rec));
                    assert(entries.deep_view() =~= before.push(rec@));
                }
            },
        }
        i = i + 1;
    }
    proof {
        assert(s.take(hashdeep_lines.len() as int) =~= s);
        lemma_dedup_records(s);
    }
    ManifestIndex { entries }
}

} // verus!
