//! The analysis-tool backend: the command lines and environment it is
//! invoked with, and the passage from its report entries to findings.
//! Running the tool and decoding its raw JSON happen at the caller's edge;
//! everything decided here is verified.

use vstd::prelude::*;

use crate::clippy::{Lint as ReportLint, LintV as ReportLintV, MessageV};
use crate::linter::{Lint, LintV, Location, LocationV};

verus! {

/// The analysis-tool backend and the flags of one invocation.
#[derive(Debug, PartialEq)]
pub struct Clippy {
    pub verbose: bool,
    pub no_default_features: bool,
    pub all_features: bool,
    pub features: Option<String>,
    pub preview: bool,
}

impl Default for Clippy {
    fn default() -> (r: Self)
        ensures
            !r.verbose,
            !r.no_default_features,
            !r.all_features,
            r.features is None,
            !r.preview,
    {
        Clippy {
            verbose: false,
            no_default_features: false,
            all_features: false,
            features: None,
            preview: false,
        }
    }
}

/// Appends one parameter, nothing else.
fn push_param<'a>(params: &mut Vec<&'a str>, p: &'a str)
    ensures
        final(params).deep_view() == old(params).deep_view().push(p@),
{
    let ghost pred = params.deep_view();
    params.push(p);
    proof {
        assert forall|t: int| 0 <= t < pred.len() implies params.deep_view()[t] == pred[t] by {}
        assert(params.deep_view() =~= pred.push(p@));
    }
}

/// The command line of a lint run: the subcommand and output format, then
/// one flag per option that is set, the features last, and the lint groups
/// after the `--` separator.
pub open spec fn spec_command_parameters(c: Clippy) -> Seq<Seq<char>> {
    (if c.preview {
        seq![
            "+nightly"@,
            "clippy-preview"@,
            "-Z"@,
            "unstable-options"@,
            "--message-format"@,
            "json"@,
        ]
    } else {
        seq!["clippy"@, "--message-format"@, "json"@]
    }) + (if c.verbose {
        seq!["--verbose"@]
    } else {
        Seq::empty()
    }) + (if c.no_default_features {
        seq!["--no-default-features"@]
    } else {
        Seq::empty()
    }) + (if c.all_features {
        seq!["--all-features"@]
    } else {
        Seq::empty()
    }) + (match c.features {
        Some(f) => seq!["--features"@, f@],
        None => Seq::empty(),
    }) + seq!["--tests"@, "--"@, "-W"@, "clippy::all"@, "-W"@, "clippy::pedantic"@]
}

/// The command line of a plain (non-preview) lint run, without the feature
/// selection flags of the newer form.
pub open spec fn spec_basic_parameters(c: Clippy) -> Seq<Seq<char>> {
    seq!["clippy"@, "--message-format"@, "json"@] + (if c.verbose {
        seq!["--verbose"@]
    } else {
        Seq::empty()
    }) + (if c.no_default_features {
        seq!["--no-default-features"@]
    } else {
        Seq::empty()
    }) + (if c.all_features {
        seq!["--all-features"@]
    } else {
        Seq::empty()
    }) + seq!["--"@, "-W"@, "clippy::pedantic"@]
}

/// The command line of a nightly preview lint run.
pub open spec fn spec_nightly_parameters(c: Clippy) -> Seq<Seq<char>> {
    seq![
        "+nightly"@,
        "clippy-preview"@,
        "-Z"@,
        "unstable-options"@,
        "--no-default-features"@,
        "--message-format"@,
        "json"@,
    ] + (if c.verbose {
        seq!["--verbose"@]
    } else {
        Seq::empty()
    }) + (if c.all_features {
        seq!["--all-features"@]
    } else {
        Seq::empty()
    }) + seq!["--"@, "-W"@, "clippy::pedantic"@]
}

impl Clippy {
    pub fn new() -> (r: Self)
        ensures
            !r.verbose,
            !r.no_default_features,
            !r.all_features,
            r.features is None,
            !r.preview,
    {
        Self {
            verbose: false,
            no_default_features: false,
            all_features: false,
            features: None,
            preview: false,
        }
    }

    pub fn set_verbose(&mut self, verbose: bool)
        ensures
            *final(self) == (Clippy { verbose, ..*old(self) }),
    {
        self.verbose = verbose;
    }

    pub fn set_no_default_features(&mut self, no_default_features: bool)
        ensures
            *final(self) == (Clippy { no_default_features, ..*old(self) }),
    {
        self.no_default_features = no_default_features;
    }

    pub fn set_all_features(&mut self, all_features: bool)
        ensures
            *final(self) == (Clippy { all_features, ..*old(self) }),
    {
        self.all_features = all_features;
    }

    pub fn set_features(&mut self, features: Option<String>)
        ensures
            *final(self) == (Clippy { features, ..*old(self) }),
    {
        self.features = features;
    }

    pub fn set_preview(&mut self, preview: bool)
        ensures
            *final(self) == (Clippy { preview, ..*old(self) }),
    {
        self.preview = preview;
    }

    /// The full command line for this configuration.
    pub fn command_parameters(&self) -> (r: Vec<&str>)
        ensures
            r.deep_view() == spec_command_parameters(*self),
    {
        let mut params: Vec<&str> = Vec::new();
        if self.preview {
            push_param(&mut params, "+nightly");
            push_param(&mut params, "clippy-preview");
            push_param(&mut params, "-Z");
            push_param(&mut params, "unstable-options");
            push_param(&mut params, "--message-format");
            push_param(&mut params, "json");
        } else {
            push_param(&mut params, "clippy");
            push_param(&mut params, "--message-format");
            push_param(&mut params, "json");
        }
        if self.verbose {
            push_param(&mut params, "--verbose");
        }
        if self.no_default_features {
            push_param(&mut params, "--no-default-features");
        }
        if self.all_features {
            push_param(&mut params, "--all-features");
        }
        if let Some(features) = &self.features {
            push_param(&mut params, "--features");
            push_param(&mut params, features.as_str());
        }
        push_param(&mut params, "--tests");
        push_param(&mut params, "--");
        push_param(&mut params, "-W");
        push_param(&mut params, "clippy::all");
        push_param(&mut params, "-W");
        push_param(&mut params, "clippy::pedantic");
        proof {
            assert(params.deep_view() =~= spec_command_parameters(*self));
        }
        params
    }

    /// The plain command line of the older front end.
    pub fn get_command_parameters(&self) -> (r: Vec<&str>)
        ensures
            r.deep_view() == spec_basic_parameters(*self),
    {
        let mut params: Vec<&str> = Vec::new();
        push_param(&mut params, "clippy");
        push_param(&mut params, "--message-format");
        push_param(&mut params, "json");
        if self.verbose {
            push_param(&mut params, "--verbose");
        }
        if self.no_default_features {
            push_param(&mut params, "--no-default-features");
        }
        if self.all_features {
            push_param(&mut params, "--all-features");
        }
        push_param(&mut params, "--");
        push_param(&mut params, "-W");
        push_param(&mut params, "clippy::pedantic");
        proof {
            assert(params.deep_view() =~= spec_basic_parameters(*self));
        }
        params
    }

    /// The nightly preview command line of the older front end.
    pub fn get_nightly_parameters(&self) -> (r: Vec<&str>)
        ensures
            r.deep_view() == spec_nightly_parameters(*self),
    {
        let mut params: Vec<&str> = Vec::new();
        push_param(&mut params, "+nightly");
        push_param(&mut params, "clippy-preview");
        push_param(&mut params, "-Z");
        push_param(&mut params, "unstable-options");
        push_param(&mut params, "--no-default-features");
        push_param(&mut params, "--message-format");
        push_param(&mut params, "json");
        if self.verbose {
            push_param(&mut params, "--verbose");
        }
        if self.all_features {
            push_param(&mut params, "--all-features");
        }
        push_param(&mut params, "--");
        push_param(&mut params, "-W");
        push_param(&mut params, "clippy::pedantic");
        proof {
            assert(params.deep_view() =~= spec_nightly_parameters(*self));
        }
        params
    }

    /// The environment of an invocation: a full backtrace when verbose.
    pub fn get_envs(&self) -> (r: Vec<(&str, &str)>)
        ensures
            self.verbose ==> r@.len() == 1 && r@[0].0@ == "RUST_BACKTRACE"@ && r@[0].1@
                == "full"@,
            !self.verbose ==> r@.len() == 0,
    {
        let mut envs: Vec<(&str, &str)> = Vec::new();
        if self.verbose {
            envs.push(("RUST_BACKTRACE", "full"));
        }
        envs
    }

    /// The environment of an invocation, as the newer front end asks for it.
    pub fn envs(&self) -> (r: Vec<(&str, &str)>)
        ensures
            self.verbose ==> r@.len() == 1 && r@[0].0@ == "RUST_BACKTRACE"@ && r@[0].1@
                == "full"@,
            !self.verbose ==> r@.len() == 0,
    {
        self.get_envs()
    }
}

/// A report entry carries a finding when it has a message with at least
/// one span.
pub open spec fn spec_keep_entry(l: ReportLintV) -> bool {
    match l.message {
        Some(m) => m.spans.len() > 0,
        None => false,
    }
}

/// Whether a report entry carries a finding: the older front end keeps
/// exactly these entries of the tool's report.
pub fn keep_entry(lint: &ReportLint) -> (r: bool)
    ensures
        r == spec_keep_entry(lint@),
{
    match &lint.message {
        Some(m) => m.spans.len() > 0,
        None => false,
    }
}

/// One finding per span of one report message.
pub open spec fn spec_findings_of_message(m: MessageV) -> Seq<LintV> {
    Seq::new(
        m.spans.len(),
        |i: int|
            LintV {
                message: m.rendered,
                location: LocationV {
                    path: m.spans[i].file_name,
                    line_start: m.spans[i].line_start,
                    line_end: m.spans[i].line_end,
                },
            },
    )
}

/// All the findings of a report, in report order: for each entry that has
/// a message, one finding per span of that message.
pub open spec fn spec_findings_of_report(ls: Seq<ReportLintV>) -> Seq<LintV>
    decreases ls.len(),
{
    if ls.len() == 0 {
        Seq::empty()
    } else {
        spec_findings_of_report(ls.drop_last()) + (match ls.last().message {
            Some(m) => spec_findings_of_message(m),
            None => Seq::empty(),
        })
    }
}

/// Turn the decoded entries of a tool report into findings: one per span,
/// carrying the message's rendered text and the span's path and range.
/// Entries without a message, or without spans, contribute nothing.
pub fn lints_from_entries(entries: &Vec<ReportLint>) -> (r: Vec<Lint>)
    ensures
        r.deep_view() == spec_findings_of_report(entries.deep_view()),
{
    let ghost ev = entries.deep_view();
    let mut out: Vec<Lint> = Vec::new();
    let mut i: usize = 0;
    while i < entries.len()
        invariant
            i <= entries.len(),
            ev == entries.deep_view(),
            ev.len() == entries.len(),
            out.deep_view() == spec_findings_of_report(ev.subrange(0, i as int)),
        decreases entries.len() - i,
    {
        match &entries[i].message {
            Some(m) => {
                let ghost mv = m@;
                let mut s: usize = 0;
                while s < m.spans.len()
                    invariant
                        s <= m.spans.len(),
                        mv == m@,
                        mv.spans.len() == m.spans.len(),
                        out.deep_view() == spec_findings_of_report(ev.subrange(0, i as int))
                            + spec_findings_of_message(mv).subrange(0, s as int),
                    decreases m.spans.len() - s,
                {
                    let sp = &m.spans[s];
                    let ghost pred = out.deep_view();
                    out.push(
                        Lint {
                            message: m.rendered.clone(),
                            location: Location {
                                path: sp.file_name.clone(),
                                lines: [sp.line_start, sp.line_end],
                            },
                        },
                    );
                    proof {
                        assert forall|t: int|
                            0 <= t < pred.len() implies #[trigger] out.deep_view()[t]
                            == pred[t] by {}
                        assert(mv.spans[s as int] == sp@);
                        assert(out.deep_view()[pred.len() as int] == spec_findings_of_message(
                            mv,
                        )[s as int]) by {
                            assert(out@[pred.len() as int]@.location.path == sp.file_name@);
                            assert(out@[pred.len() as int]@.location.line_start
                                == sp.line_start as int);
                        }
                        assert(out.deep_view() =~= spec_findings_of_report(
                            ev.subrange(0, i as int),
                        ) + spec_findings_of_message(mv).subrange(0, (s + 1) as int));
                    }
                    s = s + 1;
                }
                proof {
                    assert(spec_findings_of_message(mv).subrange(
                        0,
                        mv.spans.len() as int,
                    ) =~= spec_findings_of_message(mv));
                }
            },
            None => {},
        }
        proof {
            let prev = ev.subrange(0, i as int);
            let cur = ev.subrange(0, (i + 1) as int);
            assert(cur.drop_last() =~= prev);
            assert(cur.last() == ev[i as int]);
            assert(ev[i as int].message == (match entries[i as int].message {
                Some(m) => Some(m@),
                None => None::<MessageV>,
            }));
            match entries[i as int].message {
                Some(_) => {},
                None => {
                    assert(out.deep_view() =~= spec_findings_of_report(prev)
                        + Seq::<LintV>::empty());
                },
            }
            assert(out.deep_view() == spec_findings_of_report(cur));
        }
        i = i + 1;
    }
    proof {
        assert(ev.subrange(0, ev.len() as int) =~= ev);
    }
    out
}

} // verus!
