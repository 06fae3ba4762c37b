use cargo_scout::error::Error;
use cargo_scout::git::{get_diff_line_start, Parser, Section, SectionBuilder};

#[test]
fn git_test_set_verbose() {
    let mut parser = Parser::new();
    assert_eq!(false, parser.verbose);

    parser.set_verbose(true);
    assert_eq!(true, parser.verbose);

    parser.set_verbose(false);
    assert_eq!(false, parser.verbose);
}

#[test]
fn test_empty_diff() {
    // Setup
    let diff = r#""#;
    let expected_sections: Vec<Section> = vec![];
    let parser = Parser::new();
    // Run
    let actual_sections = parser.sections(diff).unwrap();
    // Assert
    assert_eq!(expected_sections, actual_sections);
}

#[test]
fn test_hunk_parse_two_runs() {
    // A context line between two added lines closes the first run, so the
    // two additions become two single-line sections.
    let diff = "+++ b/src/app.rs\n@@ -1,3 +1,4 @@\n line1\n+added1\n line2\n-removed\n+added2";
    let expected_sections = vec![
        Section {
            file_name: "src/app.rs".to_string(),
            line_start: 2,
            line_end: 2,
        },
        Section {
            file_name: "src/app.rs".to_string(),
            line_start: 4,
            line_end: 4,
        },
    ];
    let parser = Parser::new();
    let actual_sections = parser.sections(diff).unwrap();
    assert_eq!(expected_sections, actual_sections);
}

#[test]
fn test_diff_two_files() {
    let diff = "\
+++ b/src/first.rs
@@ -10,2 +12,4 @@ fn foo() {
 context
+one
+two
 context
+++ b/src/second.rs
@@ -1,0 +1,2 @@
+alpha
+beta
";
    let expected_sections = vec![
        Section {
            file_name: "src/first.rs".to_string(),
            line_start: 13,
            line_end: 14,
        },
        Section {
            file_name: "src/second.rs".to_string(),
            line_start: 1,
            line_end: 2,
        },
    ];
    let parser = Parser::new();
    let actual_sections = parser.sections(diff).unwrap();
    assert_eq!(expected_sections, actual_sections);
}

#[test]
fn test_trailing_addition_is_flushed() {
    let diff = "+++ b/a.rs\n@@ -1 +1 @@\n+only";
    let expected_sections = vec![Section {
        file_name: "a.rs".to_string(),
        line_start: 1,
        line_end: 1,
    }];
    let parser = Parser::new();
    assert_eq!(expected_sections, parser.sections(diff).unwrap());
}

#[test]
fn test_malformed_hunk_header_is_fatal() {
    let diff = "+++ b/a.rs\n@@ no numbers here @@\n+line";
    let parser = Parser::new();
    let result = parser.sections(diff);
    assert!(matches!(result, Err(Error::Git(_))));
}

#[test]
fn test_get_diff_line_start_values() {
    assert_eq!(
        Some(33),
        get_diff_line_start("@@ -33,6 +33,9 @@ version = \"0.1.0\"")
    );
    assert_eq!(Some(1), get_diff_line_start("@@ -1 +1 @@"));
    assert_eq!(Some(120), get_diff_line_start("@@ -98,0 +120,23 @@"));
    assert_eq!(None, get_diff_line_start("@@ no numbers @@"));
    assert_eq!(None, get_diff_line_start("@@ -1,2 +99999999999 @@"));
}

#[test]
fn test_section_builder_complete() {
    let mut builder = SectionBuilder::new();
    builder.file_name("foo.rs".to_string());
    builder.line_start(3);
    builder.line_end(7);
    let section = builder.build();
    assert_eq!(
        Some(Section {
            file_name: "foo.rs".to_string(),
            line_start: 3,
            line_end: 7,
        }),
        section
    );
}

#[test]
fn test_section_builder_incomplete() {
    let mut builder = SectionBuilder::new();
    builder.file_name("foo.rs".to_string());
    builder.line_start(3);
    assert_eq!(None, builder.build());

    assert_eq!(None, SectionBuilder::new().build());
}

#[test]
fn test_parsed_sections_are_well_formed() {
    // Every parsed section has line_start <= line_end.
    let diff = "\
+++ b/x.rs
@@ -1,1 +1,6 @@
+a
+b
+c
 mid
+d
+e
";
    let parser = Parser::new();
    for section in parser.sections(diff).unwrap() {
        assert!(section.line_start <= section.line_end);
        assert!(section.line_start >= 1);
    }
}
