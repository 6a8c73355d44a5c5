//! Classification of one manifest index against another, and the totals
//! that one comparison pass accumulates.

use vstd::prelude::*;
use crate::index::ManifestIndex;
use crate::record::{HashdeepLine, RecordView};
use crate::text::str_eq;

verus! {

/// How one comparison record stands relative to the base index.
#[derive(Clone, Copy, Debug, PartialEq, Eq, Structural)]
pub enum Classification {
    NotInBase,
    SameSize,
    DifferentSize,
}

/// The class of a record against a base mapping: absent digest, present
/// with the same size string, or present with a different one.  Sizes
/// are compared as raw strings, exactly as the manifest records them.
pub open spec fn classify_spec(base: Map<Seq<char>, RecordView>, r: RecordView) -> Classification {
    if !base.contains_key(r.md5) {
        Classification::NotInBase
    } else if base[r.md5].size == r.size {
        Classification::SameSize
    } else {
        Classification::DifferentSize
    }
}

/// How many records of `s` fall in class `c` against `base`.
pub open spec fn count_class(
    base: Map<Seq<char>, RecordView>,
    s: Seq<RecordView>,
    c: Classification,
) -> nat
    decreases s.len(),
{
    if s.len() == 0 {
        0
    } else {
        count_class(base, s.drop_last(), c) + (if classify_spec(base, s.last()) == c {
            1nat
        } else {
            0nat
        })
    }
}

/// The totals of one comparison pass.
#[derive(Clone, Copy, Debug, PartialEq, Eq, Structural)]
pub struct CompareStats {
    pub not_in_base: usize,
    pub different_size: usize,
    pub same_size: usize,
}

/// Classification is complete: every record falls in exactly one class,
/// so the three counts add up to the number of records examined.
pub proof fn lemma_classification_complete(base: Map<Seq<char>, RecordView>, s: Seq<RecordView>)
    ensures
        count_class(base, s, Classification::NotInBase) + count_class(
            base,
            s,
            Classification::SameSize,
        ) + count_class(base, s, Classification::DifferentSize) == s.len(),
    decreases s.len(),
{
    if s.len() > 0 {
        lemma_classification_complete(base, s.drop_last());
    }
}

/// Classifies one record against a base index.
pub fn classify_record(base: &ManifestIndex, rec: &HashdeepLine) -> (c: Classification)
    ensures
        c == classify_spec(base.as_map(), rec@),
{
    match base.get(rec.md5.as_str()) {
        None => Classification::NotInBase,
        Some(b) => {
            if str_eq(b.size.as_str(), rec.size.as_str()) {
                Classification::SameSize
            } else {
                Classification::DifferentSize
            }
        },
    }
}

/// One forward comparison pass: classifies every record of `comp_map`
/// against `base_map` and totals the three classes.  The totals cover
/// the whole comparison index, one count per record.
pub fn compare_hashdeep_hashmaps(base_map: &ManifestIndex, comp_map: &ManifestIndex) -> (stats:
    CompareStats)
    ensures
        stats.not_in_base == count_class(base_map.as_map(), comp_map@, Classification::NotInBase),
        stats.same_size == count_class(base_map.as_map(), comp_map@, Classification::SameSize),
        stats.different_size == count_class(
            base_map.as_map(),
            comp_map@,
            Classification::DifferentSize,
        ),
        stats.not_in_base + stats.same_size + stats.different_size == comp_map@.len(),
        comp_map@.len() == comp_map.as_map().dom().len(),
{
    let ghost base = base_map.as_map();
    let ghost s = comp_map@;
    let records = comp_map.records();
    let mut stats = CompareStats { not_in_base: 0, different_size: 0, same_size: 0 };
    let mut i: usize = 0;
    while i < records.len()
        invariant
            i <= records.len(),
            stats.not_in_base == count_class(base, s.take(i as int), Classification::NotInBase),
            stats.same_size == count_class(base, s.take(i as int), Classification::SameSize),
            stats.different_size == count_class(
                base,
                s.take(i as int),
                Classification::DifferentSize,
            ),
            stats.not_in_base + stats.same_size + stats.different_size == i,
        decreases records.len() - i,
    {
        proof {
            assert(s.take(i + 1).drop_last() =~= s.take(i as int));
            assert(s.take(i + 1).last() == s[i as int]);
            assert(s[i as int] == records@[i as int]@);
        }
        match classify_record(base_map, &records[i]) {
            Classification::NotInBase => {
                stats.not_in_base = stats.not_in_base + 1;
            },
            Classification::SameSize => {
                stats.same_size = stats.same_size + 1;
            },
            Classification::DifferentSize => {
                stats.different_size = stats.different_size + 1;
            },
        }
        i = i + 1;
    }
    proof {
        assert(s.take(records.len() as int) =~= s);
        crate::index::lemma_map_of_len(s);
    }
    stats
}

} // verus!
