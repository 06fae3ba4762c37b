use cargo_scout::vcs::{sections_from_hunks, ChangeKind, Git, Hunk, Section};

fn hunk(kind: ChangeKind, file_name: &str, new_start: u32, new_lines: u32) -> Hunk {
    Hunk {
        kind,
        file_name: file_name.to_string(),
        new_start,
        new_lines,
    }
}

#[test]
fn test_git_targets() {
    let git = Git::default();
    assert_eq!("HEAD", git.target_branch);

    let other = Git::with_target("other".to_string());
    assert_eq!("other", other.target_branch);
}

#[test]
fn test_sections_from_added_hunks() {
    let hunks = vec![
        hunk(ChangeKind::Added, "bar.rs", 1, 4),
        hunk(ChangeKind::Added, "foo.rs", 1, 6),
    ];
    let expected = vec![
        Section {
            file_name: "bar.rs".to_string(),
            line_start: 1,
            line_end: 5,
        },
        Section {
            file_name: "foo.rs".to_string(),
            line_start: 1,
            line_end: 7,
        },
    ];
    assert_eq!(expected, sections_from_hunks(&hunks));
}

#[test]
fn test_sections_keep_only_source_files() {
    let hunks = vec![
        hunk(ChangeKind::Added, "foo.rs", 1, 6),
        hunk(ChangeKind::Added, "bar.txt", 1, 4),
    ];
    let expected = vec![Section {
        file_name: "foo.rs".to_string(),
        line_start: 1,
        line_end: 7,
    }];
    assert_eq!(expected, sections_from_hunks(&hunks));
}

#[test]
fn test_sections_keep_only_lintable_change_kinds() {
    let hunks = vec![
        hunk(ChangeKind::Modified, "a.rs", 3, 1),
        hunk(ChangeKind::Untracked, "b.rs", 1, 4),
        hunk(ChangeKind::Other, "c.rs", 1, 4),
    ];
    let expected = vec![
        Section {
            file_name: "a.rs".to_string(),
            line_start: 3,
            line_end: 4,
        },
        Section {
            file_name: "b.rs".to_string(),
            line_start: 1,
            line_end: 5,
        },
    ];
    assert_eq!(expected, sections_from_hunks(&hunks));
}

#[test]
fn test_no_hunks_no_sections() {
    let hunks: Vec<Hunk> = vec![];
    assert!(sections_from_hunks(&hunks).is_empty());
}
