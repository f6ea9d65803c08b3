use linetally::lines::{count_lines, LineCounter};

#[test]
fn test_empty() {
    let input = "";
    let res = count_lines(input.as_bytes());
    assert_eq!(res, 0);
}

#[test]
fn test_ends_with_newline() {
    let input = "this\nis\na\ntest\n";
    let res = count_lines(input.as_bytes());
    assert_eq!(res, 4);
}

#[test]
fn test_ends_with_no_newline() {
    let input = "this\nis\na\ntest";
    let res = count_lines(input.as_bytes());
    assert_eq!(res, 4);
}

#[test]
fn count_matches_newlines_plus_final_partial_line() {
    // Non-empty streams: newline count, plus one if the last byte is
    // not a newline.
    let cases: Vec<(&str, u64)> = vec![
        ("\n", 1),
        ("a", 1),
        ("a\n", 1),
        ("a\nb", 2),
        ("a\nb\nc\n", 3),
        ("a\nb\nc", 3),
        ("\n\n\n", 3),
    ];
    for (input, want) in cases {
        assert_eq!(count_lines(input.as_bytes()), want);
    }
}

#[test]
fn trailing_newline_changes_nothing_its_absence_counts_once() {
    // Two streams that differ only in a final trailing newline report
    // the same count.
    assert_eq!(count_lines(b"x\ny\n"), count_lines(b"x\ny"));
    // Dropping the final line's text as well drops one line.
    assert_eq!(count_lines(b"x\ny") - 1, count_lines(b"x\n"));
}

#[test]
fn incremental_counter_is_chunking_independent() {
    let whole = count_lines(b"this\nis\na\ntest");

    let mut counter = LineCounter::new();
    counter.push_chunk(b"this\ni");
    counter.push_chunk(b"");
    counter.push_chunk(b"s\na\ntes");
    counter.push_chunk(b"t");
    assert_eq!(counter.finish(), whole);

    let mut byte_at_a_time = LineCounter::new();
    for b in b"this\nis\na\ntest" {
        byte_at_a_time.push_chunk(&[*b]);
    }
    assert_eq!(byte_at_a_time.finish(), whole);
}

#[test]
fn empty_counter_finishes_at_zero() {
    let counter = LineCounter::new();
    assert_eq!(counter.finish(), 0);
}
