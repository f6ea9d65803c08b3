use linetally::filter::ExclusionFilter;
use linetally::lang::Language;
use linetally::walk::{visit_entry, EntryAction};

#[test]
fn matching_names_are_excluded() {
    let filter = ExclusionFilter::compile(&vec![String::from("node_modules")]).unwrap();
    assert!(filter.should_exclude("node_modules"));
    // A regular expression matches anywhere in the name.
    assert!(filter.should_exclude("old_node_modules_backup"));
    assert!(!filter.should_exclude("src"));
    assert!(!filter.should_exclude("node-modules"));
}

#[test]
fn any_of_several_patterns_excludes() {
    let patterns = vec![String::from("^target$"), String::from("\\.min\\.js$")];
    let filter = ExclusionFilter::compile(&patterns).unwrap();
    assert!(filter.should_exclude("target"));
    assert!(filter.should_exclude("app.min.js"));
    assert!(!filter.should_exclude("target2"));
    assert!(!filter.should_exclude("min.js.map"));
}

#[test]
fn an_empty_pattern_set_excludes_nothing() {
    let filter = ExclusionFilter::compile(&Vec::new()).unwrap();
    assert!(!filter.should_exclude("anything"));
}

#[test]
fn an_invalid_pattern_fails_compilation_naming_it() {
    let err = match ExclusionFilter::compile(&vec![String::from("(")]) {
        Err(e) => e,
        Ok(_) => panic!("an unbalanced parenthesis compiled"),
    };
    assert!(err.contains("Invalid regex pattern '('"));
}

#[test]
fn an_excluded_directory_is_pruned_not_descended() {
    let filter = ExclusionFilter::compile(&vec![String::from("node_modules")]).unwrap();
    assert_eq!(visit_entry(&filter, "node_modules", true), EntryAction::Prune);
    assert_eq!(visit_entry(&filter, "node_modules", false), EntryAction::Prune);
    assert_eq!(visit_entry(&filter, "src", true), EntryAction::Descend);
}

#[test]
fn unexcluded_files_are_counted_or_passed_over() {
    let filter = ExclusionFilter::compile(&Vec::new()).unwrap();
    assert_eq!(
        visit_entry(&filter, "main.rs", false),
        EntryAction::Count(Language::Rust)
    );
    assert_eq!(visit_entry(&filter, "README", false), EntryAction::Ignore);
    assert_eq!(visit_entry(&filter, "data.xyz123", false), EntryAction::Ignore);
}
