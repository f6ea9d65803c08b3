use linetally::filter::ExclusionFilter;
use linetally::lang::Language;
use linetally::lines::count_lines;
use linetally::output::{parse_format, Format, Output};
use linetally::tally::{map_to_vec, Tally};
use linetally::walk::{visit_entry, EntryAction};

// Run the walker's per-entry decisions over a flat list of in-memory
// files, the way the binary does over a real tree.
fn scan(filter: &ExclusionFilter, files: &[(&str, &[u8])]) -> Tally {
    let mut tally = Tally::new();
    for (name, contents) in files {
        match visit_entry(filter, name, false) {
            EntryAction::Count(lang) => {
                assert!(tally.record(lang, count_lines(contents)));
            }
            EntryAction::Prune | EntryAction::Ignore => {}
            EntryAction::Descend => unreachable!(),
        }
    }
    tally
}

#[test]
fn a_small_tree_scans_to_the_expected_totals() {
    let filter = ExclusionFilter::compile(&Vec::new()).unwrap();
    let tally = scan(&filter, &[("a.rs", b"x\ny\n"), ("b.py", b"z")]);

    let rust = tally.get(Language::Rust).unwrap();
    assert_eq!(rust.file_cnt, 1);
    assert_eq!(rust.line_cnt, 2);
    let python = tally.get(Language::Python).unwrap();
    assert_eq!(python.file_cnt, 1);
    assert_eq!(python.line_cnt, 1);

    let out = Output::new(map_to_vec(&tally), None).unwrap();
    assert_eq!(out.total_num_files, 2);
    assert_eq!(out.total_num_lines, 3);
    assert_eq!(out.languages.len(), 2);
    assert_eq!(out.languages[0].language, Language::Rust);
    assert_eq!(out.languages[1].language, Language::Python);
    assert!(out.elapsed_ms.is_none());
}

#[test]
fn excluded_files_contribute_nothing() {
    let filter = ExclusionFilter::compile(&vec![String::from("^b\\.py$")]).unwrap();
    let tally = scan(&filter, &[("a.rs", b"x\ny\n"), ("b.py", b"z")]);
    assert!(tally.get(Language::Python).is_none());
    let out = Output::new(map_to_vec(&tally), Some(17)).unwrap();
    assert_eq!(out.total_num_files, 1);
    assert_eq!(out.total_num_lines, 2);
    assert_eq!(out.elapsed_ms, Some(17));
}

#[test]
fn output_format_names_parse_and_anything_else_fails() {
    assert_eq!(parse_format("json").unwrap(), Format::Json);
    assert_eq!(parse_format("table").unwrap(), Format::Table);
    assert_eq!(parse_format("xml").unwrap_err(), "xml");
    assert_eq!(parse_format("").unwrap_err(), "");
    assert_eq!("json".parse::<Format>().unwrap(), Format::Json);
}

#[test]
fn totals_that_leave_u64_are_refused() {
    let mut t = Tally::new();
    assert!(t.record(Language::Rust, u64::MAX));
    assert!(t.record(Language::Python, 1));
    assert!(Output::new(map_to_vec(&t), None).is_none());
}
