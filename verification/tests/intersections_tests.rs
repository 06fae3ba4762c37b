use cargo_scout::clippy::Span;
use cargo_scout::git::Section;
use cargo_scout::intersections::{files_match, lines_in_range};

type TestSection = (&'static str, u32, u32);

#[test]
fn test_files_match() {
    let files_to_test = vec![
        (("foo.rs", 1, 10), ("foo.rs", 5, 12)),
        (("bar.rs", 1, 10), ("bar.rs", 5, 12)),
        (("foo/bar/baz.rs", 1, 10), ("foo/bar/baz.rs", 5, 12)),
        (("foo\\bar\\baz.rs", 1, 10), ("foo/bar/baz.rs", 9, 12)),
        (("foo/1.rs", 1, 10), ("foo/1.rs", 5, 12)),
    ];
    assert_all_files_match(files_to_test);
}

#[test]
fn test_files_dont_match() {
    let files_to_test = vec![
        (("foo.rs", 1, 10), ("foo1.rs", 5, 12)),
        (("bar.rs", 1, 10), ("baz.rs", 5, 12)),
        (("bar.rs", 1, 10), ("bar.js", 5, 12)),
        (("foo/bar/baz.rs", 1, 10), ("/foo/bar/baz.rs", 5, 12)),
        (("foo\\\\bar\\baz.rs", 1, 10), ("foo/bar/baz.rs", 9, 12)),
        (("foo/1.rs", 1, 10), ("foo/2.rs", 5, 12)),
    ];
    assert_no_files_match(files_to_test);
}

#[test]
fn test_lines_in_range_simple() {
    let ranges_to_test = vec![
        (("foo.rs", 1, 10), ("foo.rs", 5, 12)),
        (("foo.rs", 1, 10), ("foo.rs", 5, 11)),
        (("foo.rs", 1, 10), ("foo.rs", 10, 19)),
        (("foo.rs", 1, 10), ("foo.rs", 9, 12)),
        (("foo.rs", 8, 16), ("foo.rs", 5, 12)),
    ];
    assert_all_in_range(ranges_to_test);
}

#[test]
fn test_lines_not_in_range_simple() {
    let ranges_to_test = vec![
        (("foo.rs", 1, 10), ("foo.rs", 11, 12)),
        (("foo.rs", 2, 10), ("foo.rs", 0, 1)),
        (("foo.rs", 15, 20), ("foo.rs", 21, 30)),
        (("foo.rs", 15, 20), ("foo.rs", 10, 14)),
        (("foo.rs", 1, 1), ("foo.rs", 2, 2)),
    ];
    assert_all_not_in_range(ranges_to_test);
}

#[test]
fn test_overlap_matches_canonical_formula() {
    // disjoint-before, disjoint-after, exact match, proper containment in
    // either direction, partial overlap in either direction, single-line
    // interval touching a range boundary
    let cases: Vec<(u32, u32, u32, u32)> = vec![
        (1, 4, 6, 9),
        (6, 9, 1, 4),
        (3, 7, 3, 7),
        (2, 10, 4, 6),
        (4, 6, 2, 10),
        (1, 6, 4, 9),
        (4, 9, 1, 6),
        (5, 5, 5, 9),
        (5, 5, 1, 5),
        (5, 5, 6, 9),
    ];
    for (a1, a2, b1, b2) in cases {
        let canonical = a1 <= b2 && b1 <= a2;
        assert_eq!(canonical, in_range(("foo.rs", a1, a2), ("foo.rs", b1, b2)));
        // symmetry
        assert_eq!(
            in_range(("foo.rs", a1, a2), ("foo.rs", b1, b2)),
            in_range(("foo.rs", b1, b2), ("foo.rs", a1, a2))
        );
    }
}

fn assert_all_files_match(ranges: Vec<(TestSection, TestSection)>) {
    for range in ranges {
        let lint = range.0;
        let section = range.1;
        let clippy_lint = Span {
            file_name: String::from(lint.0),
            line_start: lint.1,
            line_end: lint.2,
        };
        let git_section = Section {
            file_name: String::from(section.0),
            line_start: section.1,
            line_end: section.2,
        };
        assert!(
            files_match(&clippy_lint, &git_section),
            "Expected files match for {} and {}",
            lint.0,
            section.0
        );
    }
}

fn assert_no_files_match(ranges: Vec<(TestSection, TestSection)>) {
    for range in ranges {
        let lint = range.0;
        let section = range.1;
        let clippy_lint = Span {
            file_name: String::from(lint.0),
            line_start: lint.1,
            line_end: lint.2,
        };
        let git_section = Section {
            file_name: String::from(section.0),
            line_start: section.1,
            line_end: section.2,
        };
        assert!(
            !files_match(&clippy_lint, &git_section),
            "Expected files not to match for {} and {}",
            lint.0,
            section.0
        );
    }
}

fn assert_all_in_range(ranges: Vec<(TestSection, TestSection)>) {
    for range in ranges {
        let lint = range.0;
        let section = range.1;
        assert!(
            in_range(lint, section),
            "Expected in range, found not in range for \n {:#?} and {:#?}",
            lint,
            section
        );
    }
}

fn assert_all_not_in_range(ranges: Vec<(TestSection, TestSection)>) {
    for range in ranges {
        let lint = range.0;
        let section = range.1;
        assert!(
            !in_range(lint, section),
            "Expected not in range, found in range for \n {:#?} and {:#?}",
            lint,
            section
        );
    }
}

fn in_range(lint: (&str, u32, u32), section: (&str, u32, u32)) -> bool {
    let clippy_lint = Span {
        file_name: String::from(lint.0),
        line_start: lint.1,
        line_end: lint.2,
    };

    let git_section = Section {
        file_name: String::from(section.0),
        line_start: section.1,
        line_end: section.2,
    };
    lines_in_range(&clippy_lint, &git_section)
}
