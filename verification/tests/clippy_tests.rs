use cargo_scout::clippy::{Lint as ReportLint, Message, Span};
use cargo_scout::linter::clippy::{keep_entry, lints_from_entries, Clippy};
use cargo_scout::linter::rustfmt::RustFmt;
use cargo_scout::linter::{Lint, Location};

#[test]
fn test_set_verbose() {
    let mut linter = Clippy::new();
    assert_eq!(false, linter.verbose);

    linter.set_verbose(true);
    assert_eq!(true, linter.verbose);

    linter.set_verbose(false);
    assert_eq!(false, linter.verbose);
}

#[test]
fn clippy_test_set_verbose() {
    let mut linter = Clippy::default();
    assert_eq!(false, linter.verbose);

    linter.set_verbose(true);
    assert_eq!(true, linter.verbose);

    linter.set_verbose(false);
    assert_eq!(false, linter.verbose);
}

#[test]
fn test_get_envs() {
    let mut linter = Clippy::new();
    let mut expected_envs: Vec<(&str, &str)> = vec![];
    assert_eq!(expected_envs, linter.get_envs());

    linter.set_verbose(true);
    expected_envs.push(("RUST_BACKTRACE", "full"));
    assert_eq!(expected_envs, linter.get_envs());
}

#[test]
fn clippy_test_get_envs() {
    let mut linter = Clippy::default();
    let mut expected_envs: Vec<(&str, &str)> = vec![];
    assert_eq!(expected_envs, linter.envs());

    linter.set_verbose(true);
    expected_envs.push(("RUST_BACKTRACE", "full"));
    assert_eq!(expected_envs, linter.envs());
}

#[test]
fn test_get_command_parameters() {
    let mut linter = Clippy::new();
    let expected_command_parameters = vec![
        "clippy",
        "--message-format",
        "json",
        "--",
        "-W",
        "clippy::pedantic",
    ];

    assert_eq!(expected_command_parameters, linter.get_command_parameters());

    linter.set_verbose(true);
    let verbose_expected_command_parameters = vec![
        "clippy",
        "--message-format",
        "json",
        "--verbose",
        "--",
        "-W",
        "clippy::pedantic",
    ];
    assert_eq!(
        verbose_expected_command_parameters,
        linter.get_command_parameters()
    );

    linter.set_verbose(false);
    linter.set_no_default_features(true);
    let no_default_features_command_parameters = vec![
        "clippy",
        "--message-format",
        "json",
        "--no-default-features",
        "--",
        "-W",
        "clippy::pedantic",
    ];
    assert_eq!(
        no_default_features_command_parameters,
        linter.get_command_parameters()
    );

    linter.set_no_default_features(false);
    linter.set_all_features(true);
    let all_features_command_parameters = vec![
        "clippy",
        "--message-format",
        "json",
        "--all-features",
        "--",
        "-W",
        "clippy::pedantic",
    ];
    assert_eq!(
        all_features_command_parameters,
        linter.get_command_parameters()
    );
}

#[test]
fn clippy_test_get_command_parameters() {
    let mut linter = Clippy::default();
    let expected_command_parameters = vec![
        "clippy",
        "--message-format",
        "json",
        "--tests",
        "--",
        "-W",
        "clippy::all",
        "-W",
        "clippy::pedantic",
    ];

    assert_eq!(expected_command_parameters, linter.command_parameters());

    linter.set_verbose(true);
    assert!(linter.command_parameters().contains(&"--verbose"));

    linter.set_verbose(false);
    linter.set_no_default_features(true);
    assert!(linter
        .command_parameters()
        .contains(&"--no-default-features"));

    linter.set_no_default_features(false);
    linter.set_all_features(true);
    assert!(linter.command_parameters().contains(&"--all-features"));

    linter.set_all_features(false);
    linter.set_features(Some(String::from("foo bar baz")));
    assert!(linter.command_parameters().contains(&"--features"));
    assert!(linter.command_parameters().contains(&"foo bar baz"));
}

#[test]
fn test_get_command_parameters_nightly() {
    let mut linter = Clippy::default();
    linter.set_preview(true);
    assert!(linter.command_parameters().contains(&"clippy-preview"));

    linter.set_verbose(true);
    assert!(linter.command_parameters().contains(&"--verbose"));

    linter.set_verbose(false);
    linter.set_all_features(true);
    assert!(linter.command_parameters().contains(&"--all-features"));

    linter.set_all_features(false);
    linter.set_no_default_features(true);
    assert!(linter
        .command_parameters()
        .contains(&"--no-default-features"));

    linter.set_no_default_features(false);
    linter.set_features(Some(String::from("foo bar baz")));
    assert!(linter.command_parameters().contains(&"--features"));
    assert!(linter.command_parameters().contains(&"foo bar baz"));
}

#[test]
fn test_get_nightly_parameters() {
    let mut linter = Clippy::new();
    let expected_command_parameters = vec![
        "+nightly",
        "clippy-preview",
        "-Z",
        "unstable-options",
        "--no-default-features",
        "--message-format",
        "json",
        "--",
        "-W",
        "clippy::pedantic",
    ];

    assert_eq!(expected_command_parameters, linter.get_nightly_parameters());

    linter.set_verbose(true);
    let verbose_expected_command_parameters = vec![
        "+nightly",
        "clippy-preview",
        "-Z",
        "unstable-options",
        "--no-default-features",
        "--message-format",
        "json",
        "--verbose",
        "--",
        "-W",
        "clippy::pedantic",
    ];
    assert_eq!(
        verbose_expected_command_parameters,
        linter.get_nightly_parameters()
    );

    linter.set_verbose(false);
    linter.set_all_features(true);
    let all_features_command_parameters = vec![
        "+nightly",
        "clippy-preview",
        "-Z",
        "unstable-options",
        "--no-default-features",
        "--message-format",
        "json",
        "--all-features",
        "--",
        "-W",
        "clippy::pedantic",
    ];
    assert_eq!(
        all_features_command_parameters,
        linter.get_nightly_parameters()
    );
}

#[test]
fn test_command_parameters() {
    assert_eq!(
        vec!["+nightly", "fmt", "--", "--emit", "json"],
        RustFmt::command_parameters()
    );
}

fn report_entry() -> ReportLint {
    ReportLint {
        package_id: "cargo-scout".to_string(),
        src_path: Some("test/foo/bar.rs".to_string()),
        message: Some(Message {
            rendered: "this is a test lint".to_string(),
            spans: vec![Span {
                file_name: "test/foo/baz.rs".to_string(),
                line_start: 10,
                line_end: 12,
            }],
        }),
    }
}

#[test]
fn test_keep_entry() {
    assert!(keep_entry(&report_entry()));

    let no_message = ReportLint {
        package_id: "cargo-scout".to_string(),
        src_path: None,
        message: None,
    };
    assert!(!keep_entry(&no_message));

    let no_spans = ReportLint {
        package_id: "cargo-scout".to_string(),
        src_path: None,
        message: Some(Message {
            rendered: "empty".to_string(),
            spans: vec![],
        }),
    };
    assert!(!keep_entry(&no_spans));
}

#[test]
fn test_lints_from_entries() {
    let expected_lints = vec![Lint {
        message: "this is a test lint".to_string(),
        location: Location {
            path: "test/foo/baz.rs".to_string(),
            lines: [10, 12],
        },
    }];

    let entries = vec![report_entry()];
    assert_eq!(expected_lints, lints_from_entries(&entries));
}

#[test]
fn test_lints_from_entries_flattens_spans() {
    let entries = vec![
        ReportLint {
            package_id: "p".to_string(),
            src_path: None,
            message: Some(Message {
                rendered: "two spans".to_string(),
                spans: vec![
                    Span {
                        file_name: "a.rs".to_string(),
                        line_start: 1,
                        line_end: 2,
                    },
                    Span {
                        file_name: "b.rs".to_string(),
                        line_start: 3,
                        line_end: 4,
                    },
                ],
            }),
        },
        ReportLint {
            package_id: "p".to_string(),
            src_path: None,
            message: None,
        },
    ];
    let expected = vec![
        Lint {
            message: "two spans".to_string(),
            location: Location {
                path: "a.rs".to_string(),
                lines: [1, 2],
            },
        },
        Lint {
            message: "two spans".to_string(),
            location: Location {
                path: "b.rs".to_string(),
                lines: [3, 4],
            },
        },
    ];
    assert_eq!(expected, lints_from_entries(&entries));
}
