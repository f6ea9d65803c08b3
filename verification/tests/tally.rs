use linetally::lang::Language;
use linetally::tally::{map_to_vec, merge_tallies, tally_observations, LangResult, Tally};

#[test]
fn fresh_counters_start_at_zero() {
    let c = LangResult::new();
    assert_eq!(c.file_cnt, 0);
    assert_eq!(c.line_cnt, 0);
}

#[test]
fn recording_accumulates_per_language() {
    let mut t = Tally::new();
    assert!(t.record(Language::Rust, 10));
    assert!(t.record(Language::Rust, 5));
    assert!(t.record(Language::Python, 7));

    let rust = t.get(Language::Rust).unwrap();
    assert_eq!(rust.file_cnt, 2);
    assert_eq!(rust.line_cnt, 15);
    let python = t.get(Language::Python).unwrap();
    assert_eq!(python.file_cnt, 1);
    assert_eq!(python.line_cnt, 7);
    assert!(t.get(Language::Go).is_none());
}

#[test]
fn recording_refuses_counter_overflow_and_changes_nothing() {
    let mut t = Tally::new();
    assert!(t.record(Language::Rust, u64::MAX));
    assert!(!t.record(Language::Rust, 1));
    let rust = t.get(Language::Rust).unwrap();
    assert_eq!(rust.file_cnt, 1);
    assert_eq!(rust.line_cnt, u64::MAX);
}

#[test]
fn merging_sums_counters_pointwise() {
    let mut a = Tally::new();
    assert!(a.record(Language::Rust, 10));
    assert!(a.record(Language::Python, 3));
    let mut b = Tally::new();
    assert!(b.record(Language::Rust, 4));
    assert!(b.record(Language::Go, 8));

    assert!(a.try_merge(&b));
    let rust = a.get(Language::Rust).unwrap();
    assert_eq!(rust.file_cnt, 2);
    assert_eq!(rust.line_cnt, 14);
    assert_eq!(a.get(Language::Python).unwrap().line_cnt, 3);
    assert_eq!(a.get(Language::Go).unwrap().line_cnt, 8);
}

#[test]
fn merging_refuses_counter_overflow_and_changes_nothing() {
    let mut a = Tally::new();
    assert!(a.record(Language::Rust, u64::MAX - 1));
    let mut b = Tally::new();
    assert!(b.record(Language::Rust, 2));
    assert!(!a.try_merge(&b));
    let rust = a.get(Language::Rust).unwrap();
    assert_eq!(rust.file_cnt, 1);
    assert_eq!(rust.line_cnt, u64::MAX - 1);
}

fn tally_of(obs: &[(Language, u64)]) -> Tally {
    tally_observations(&obs.to_vec()).unwrap()
}

#[test]
fn partitioning_work_does_not_change_the_merged_totals() {
    // One run of counted files, split among workers three ways.
    let obs = [
        (Language::Rust, 10),
        (Language::Python, 3),
        (Language::Rust, 4),
        (Language::Go, 8),
        (Language::Python, 1),
    ];

    let single = {
        let t = tally_of(&obs);
        map_to_vec(&t)
    };

    let split_a = merge_tallies(&vec![tally_of(&obs[..2]), tally_of(&obs[2..])]).unwrap();
    let split_b = merge_tallies(&vec![
        tally_of(&obs[4..]),
        tally_of(&obs[2..4]),
        tally_of(&obs[..2]),
    ])
    .unwrap();

    for t in [&split_a, &split_b] {
        for lang in [Language::Rust, Language::Python, Language::Go] {
            let merged = t.get(lang).unwrap();
            let single_t = tally_of(&obs);
            let alone = single_t.get(lang).unwrap();
            assert_eq!(merged.file_cnt, alone.file_cnt);
            assert_eq!(merged.line_cnt, alone.line_cnt);
        }
    }
    assert_eq!(map_to_vec(&split_a), single);
}

#[test]
fn a_single_pass_that_overflows_yields_nothing() {
    let obs = vec![(Language::Rust, u64::MAX), (Language::Rust, 1)];
    assert!(tally_observations(&obs).is_none());
}

#[test]
fn merging_tallies_that_overflow_yields_nothing() {
    let mut a = Tally::new();
    assert!(a.record(Language::Rust, u64::MAX));
    let mut b = Tally::new();
    assert!(b.record(Language::Rust, 1));
    assert!(merge_tallies(&vec![a, b]).is_none());
}

#[test]
fn result_rows_come_sorted_by_line_count_descending() {
    let mut t = Tally::new();
    assert!(t.record(Language::Python, 5));
    assert!(t.record(Language::Rust, 100));
    assert!(t.record(Language::Go, 20));
    assert!(t.record(Language::Rust, 1));

    let rows = map_to_vec(&t);
    assert_eq!(rows.len(), 3);
    assert_eq!(rows[0].language, Language::Rust);
    assert_eq!(rows[0].num_files, 2);
    assert_eq!(rows[0].num_lines, 101);
    assert_eq!(rows[1].language, Language::Go);
    assert_eq!(rows[2].language, Language::Python);
}
