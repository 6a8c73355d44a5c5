use hashdeep_compare::compare::{
    classify_record, compare_hashdeep_hashmaps, Classification, CompareStats,
};
use hashdeep_compare::index::hashdeep_lines_to_hashmap;
use hashdeep_compare::parse::parse_hashdeep_lines;
use hashdeep_compare::record::HashdeepLine;

fn record(size: &str, md5: &str, filename: &str) -> HashdeepLine {
    HashdeepLine::new(
        &format!("{},{},{}", size, md5, filename),
        &vec!["size".to_string(), "md5".to_string(), "filename".to_string()],
    )
    .unwrap()
}

fn manifest(rows: &[&str]) -> Vec<String> {
    let mut lines = vec![
        "%%%% HASHDEEP-1.0".to_string(),
        "%%%% size,md5,filename".to_string(),
        "## Invoked from: /home/user".to_string(),
        "## $ hashdeep -l .".to_string(),
        "## ".to_string(),
    ];
    for row in rows {
        lines.push(row.to_string());
    }
    lines
}

#[test]
fn duplicate_md5_keeps_later_record() {
    let records = vec![record("10", "aaa111", "first"), record("12", "aaa111", "second")];
    let index = hashdeep_lines_to_hashmap(records);
    assert_eq!(index.len(), 1);
    let kept = index.get("aaa111").unwrap();
    assert_eq!(kept.filename, "second");
    assert_eq!(kept.size, "12");
}

#[test]
fn indexing_twice_gives_identical_mappings() {
    let lines = manifest(&["10,aaa111,x", "20,bbb222,y", "30,aaa111,z"]);
    let first = hashdeep_lines_to_hashmap(parse_hashdeep_lines(&lines).unwrap());
    let second = hashdeep_lines_to_hashmap(parse_hashdeep_lines(&lines).unwrap());
    assert_eq!(first.len(), second.len());
    assert_eq!(first.records(), second.records());
    for key in ["aaa111", "bbb222", "ccc333"] {
        assert_eq!(first.get(key), second.get(key));
    }
    assert_eq!(first.get("aaa111").unwrap().filename, "z");
}

#[test]
fn index_lookup_reports_absence() {
    let index = hashdeep_lines_to_hashmap(vec![record("10", "aaa111", "x")]);
    assert!(index.get("bbb222").is_none());
    assert!(index.get("").is_none());
}

#[test]
fn empty_digest_is_a_key_like_any_other() {
    let index = hashdeep_lines_to_hashmap(vec![record("10", "", "nameless")]);
    assert_eq!(index.len(), 1);
    assert_eq!(index.get("").unwrap().filename, "nameless");
}

#[test]
fn classify_record_covers_all_classes() {
    let base = hashdeep_lines_to_hashmap(vec![record("10", "aaa111", "x")]);
    assert_eq!(
        classify_record(&base, &record("10", "aaa111", "x2")),
        Classification::SameSize
    );
    assert_eq!(
        classify_record(&base, &record("99", "aaa111", "x2")),
        Classification::DifferentSize
    );
    assert_eq!(
        classify_record(&base, &record("10", "ccc333", "z")),
        Classification::NotInBase
    );
}

#[test]
fn forward_comparison_scenario() {
    let base = hashdeep_lines_to_hashmap(
        parse_hashdeep_lines(&manifest(&["10,aaa111,x", "20,bbb222,y"])).unwrap(),
    );
    let comp = hashdeep_lines_to_hashmap(
        parse_hashdeep_lines(&manifest(&["10,aaa111,x2", "5,ccc333,z"])).unwrap(),
    );
    let stats = compare_hashdeep_hashmaps(&base, &comp);
    assert_eq!(
        stats,
        CompareStats { not_in_base: 1, different_size: 0, same_size: 1 }
    );
}

#[test]
fn size_mismatch_scenario() {
    let base = hashdeep_lines_to_hashmap(vec![record("10", "aaa111", "x")]);
    let comp = hashdeep_lines_to_hashmap(vec![record("99", "aaa111", "x")]);
    let stats = compare_hashdeep_hashmaps(&base, &comp);
    assert_eq!(
        stats,
        CompareStats { not_in_base: 0, different_size: 1, same_size: 0 }
    );
}

#[test]
fn sizes_are_compared_as_raw_strings() {
    let base = hashdeep_lines_to_hashmap(vec![record("010", "aaa111", "x")]);
    let comp = hashdeep_lines_to_hashmap(vec![record("10", "aaa111", "x")]);
    let stats = compare_hashdeep_hashmaps(&base, &comp);
    assert_eq!(stats.different_size, 1);
    assert_eq!(stats.same_size, 0);
}

#[test]
fn reversal_swaps_the_arguments() {
    let a = hashdeep_lines_to_hashmap(vec![record("10", "aaa111", "x")]);
    let b = hashdeep_lines_to_hashmap(vec![
        record("10", "aaa111", "x2"),
        record("5", "ccc333", "z"),
    ]);
    let forward = compare_hashdeep_hashmaps(&a, &b);
    let reversed = compare_hashdeep_hashmaps(&b, &a);
    assert_eq!(forward.not_in_base, 1);
    assert_eq!(reversed.not_in_base, 0);
    assert_ne!(forward.not_in_base, reversed.not_in_base);
    assert_eq!(forward.same_size, 1);
    assert_eq!(reversed.same_size, 1);
}

#[test]
fn classification_counts_add_up() {
    let base = hashdeep_lines_to_hashmap(vec![
        record("10", "aaa111", "x"),
        record("20", "bbb222", "y"),
    ]);
    let comp = hashdeep_lines_to_hashmap(vec![
        record("10", "aaa111", "x"),
        record("99", "bbb222", "y"),
        record("5", "ccc333", "z"),
        record("7", "ddd444", "w"),
    ]);
    let stats = compare_hashdeep_hashmaps(&base, &comp);
    assert_eq!(
        stats.not_in_base + stats.different_size + stats.same_size,
        comp.len()
    );
    assert_eq!(
        stats,
        CompareStats { not_in_base: 2, different_size: 1, same_size: 1 }
    );
}

#[test]
fn comparing_empty_indexes_yields_zero_totals() {
    let empty = hashdeep_lines_to_hashmap(Vec::new());
    let other = hashdeep_lines_to_hashmap(vec![record("10", "aaa111", "x")]);
    let stats = compare_hashdeep_hashmaps(&other, &empty);
    assert_eq!(
        stats,
        CompareStats { not_in_base: 0, different_size: 0, same_size: 0 }
    );
    let stats = compare_hashdeep_hashmaps(&empty, &other);
    assert_eq!(
        stats,
        CompareStats { not_in_base: 1, different_size: 0, same_size: 0 }
    );
}
