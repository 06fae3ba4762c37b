//! The correlation engine: decide whether a reported lint span overlaps a
//! changed-line section, and keep the lints whose spans do.
//!
//! Line ranges are closed and inclusive; two ranges overlap exactly when
//! one's start falls inside the other. Paths are compared after turning
//! every backslash into a forward slash, so Windows-style and POSIX-style
//! spellings of one path match.

use vstd::prelude::*;

use crate::clippy::{Lint, LintV, Span, SpanV};
use crate::git::{Section, SectionV};

verus! {

/// Two closed, inclusive intervals overlap when either one's start lies
/// inside the other.
pub open spec fn spec_overlaps(a_start: int, a_end: int, b_start: int, b_end: int) -> bool {
    (a_start <= b_start && b_start <= a_end) || (b_start <= a_start && a_start <= b_end)
}

/// A path with every backslash replaced by a forward slash.
pub open spec fn normalize_path(s: Seq<char>) -> Seq<char> {
    s.map_values(|c: char| if c == '\\' { '/' } else { c })
}

/// Paths are equal once their separators are normalized.
pub open spec fn paths_match(a: Seq<char>, b: Seq<char>) -> bool {
    normalize_path(a) == normalize_path(b)
}

/// A span hits a section when the paths match and the line ranges overlap.
pub open spec fn span_matches(sp: SpanV, sec: SectionV) -> bool {
    paths_match(sp.file_name, sec.file_name) && spec_overlaps(
        sp.line_start,
        sp.line_end,
        sec.line_start,
        sec.line_end,
    )
}

/// A lint hits a section when one of its message's spans does.
pub open spec fn lint_matches(l: LintV, sec: SectionV) -> bool {
    match l.message {
        Some(m) => exists|i: int| 0 <= i < m.spans.len() && span_matches(m.spans[i], sec),
        None => false,
    }
}

/// The lints of `lints`, in order, that hit `sec`.
pub open spec fn matching_lints(lints: Seq<LintV>, sec: SectionV) -> Seq<LintV>
    decreases lints.len(),
{
    if lints.len() == 0 {
        Seq::empty()
    } else {
        matching_lints(lints.drop_last(), sec) + if lint_matches(lints.last(), sec) {
            seq![lints.last()]
        } else {
            Seq::empty()
        }
    }
}

/// One block of matching lints per section, in section order.
pub open spec fn filter_lints(lints: Seq<LintV>, secs: Seq<SectionV>) -> Seq<LintV>
    decreases secs.len(),
{
    if secs.len() == 0 {
        Seq::empty()
    } else {
        filter_lints(lints, secs.drop_last()) + matching_lints(lints, secs.last())
    }
}

/// Overlap of valid closed intervals is symmetric: which of the two is
/// called the lint and which the section does not matter.
pub proof fn lemma_overlaps_symmetric(a_start: int, a_end: int, b_start: int, b_end: int)
    requires
        a_start <= a_end,
        b_start <= b_end,
    ensures
        spec_overlaps(a_start, a_end, b_start, b_end) == spec_overlaps(
            b_start,
            b_end,
            a_start,
            a_end,
        ),
{
}

/// On valid closed intervals the two-clause overlap test agrees with the
/// canonical interval-overlap formula: each starts no later than the
/// other ends.
pub proof fn lemma_overlaps_canonical(a_start: int, a_end: int, b_start: int, b_end: int)
    requires
        a_start <= a_end,
        b_start <= b_end,
    ensures
        spec_overlaps(a_start, a_end, b_start, b_end) == (a_start <= b_end && b_start <= a_end),
{
}

/// Filtering against no sections keeps nothing.
pub proof fn lemma_filter_lints_no_sections(lints: Seq<LintV>)
    ensures
        filter_lints(lints, Seq::empty()) == Seq::<LintV>::empty(),
{
}

/// Filtering an empty lint list yields nothing, however many sections.
pub proof fn lemma_filter_lints_no_lints(secs: Seq<SectionV>)
    ensures
        filter_lints(Seq::empty(), secs) == Seq::<LintV>::empty(),
    decreases secs.len(),
{
    if secs.len() > 0 {
        lemma_filter_lints_no_lints(secs.drop_last());
        assert(filter_lints(Seq::empty(), secs) =~= Seq::<LintV>::empty());
    }
}

/// The closed ranges of `clippy_lint` and `git_section` have a line in common.
// Check if clippy_lint and git_section have overlapped lines
pub fn lines_in_range(clippy_lint: &Span, git_section: &Section) -> (r: bool)
    ensures
        r == spec_overlaps(
            clippy_lint.line_start as int,
            clippy_lint.line_end as int,
            git_section.line_start as int,
            git_section.line_end as int,
        ),
{
    // If git_section.line_start is included in the clippy_lint span
    clippy_lint.line_start <= git_section.line_start && git_section.line_start
        <= clippy_lint.line_end
    // If clippy_lint.line_start is included in the git_section span
     || git_section.line_start <= clippy_lint.line_start && clippy_lint.line_start
        <= git_section.line_end
}

/// Compare two paths for equality with separators normalized: position `i`
/// of each path agrees once backslashes are read as forward slashes.
pub fn paths_match_exec(a: &str, b: &str) -> (r: bool)
    ensures
        r == paths_match(a@, b@),
{
    let n = a.unicode_len();
    let m = b.unicode_len();
    if n != m {
        proof {
            assert(normalize_path(a@).len() == a@.len());
            assert(normalize_path(b@).len() == b@.len());
        }
        return false;
    }
    let mut i: usize = 0;
    while i < n
        invariant
            n == a@.len(),
            n == b@.len(),
            i <= n,
            forall|j: int|
                0 <= j < i ==> #[trigger] normalize_path(a@)[j] == normalize_path(b@)[j],
        decreases n - i,
    {
        let ca = a.get_char(i);
        let cb = b.get_char(i);
        let na = if ca == '\\' { '/' } else { ca };
        let nb = if cb == '\\' { '/' } else { cb };
        if na != nb {
            proof {
                assert(normalize_path(a@)[i as int] == na);
                assert(normalize_path(b@)[i as int] == nb);
            }
            return false;
        }
        proof {
            assert(normalize_path(a@)[i as int] == normalize_path(b@)[i as int]);
        }
        i = i + 1;
    }
    proof {
        assert(normalize_path(a@) =~= normalize_path(b@));
    }
    true
}

/// The span's path and the section's path name the same file, up to the
/// direction of the separators.
pub fn files_match(clippy_lint: &Span, git_section: &Section) -> (r: bool)
    ensures
        r == paths_match(clippy_lint.file_name@, git_section.file_name@),
{
    // Git diff paths and clippy paths don't get along too well on Windows...
    paths_match_exec(clippy_lint.file_name.as_str(), git_section.file_name.as_str())
}

/// One of the lint's spans names the section's file and overlaps its range.
pub fn lint_in_section(lint: &Lint, diff: &Section) -> (r: bool)
    ensures
        r == lint_matches(lint@, diff@),
{
    match &lint.message {
        Some(m) => {
            let mut i: usize = 0;
            while i < m.spans.len()
                invariant
                    i <= m.spans.len(),
                    lint@.message == Some(m@),
                    forall|j: int| 0 <= j < i ==> !span_matches(#[trigger] m@.spans[j], diff@),
                decreases m.spans.len() - i,
            {
                let s = &m.spans[i];
                if files_match(s, diff) && lines_in_range(s, diff) {
                    proof {
                        assert(m@.spans[i as int] == s@);
                        assert(lint_matches(lint@, diff@)) by {
                            assert(lint@.message->0 == m@);
                            assert(0 <= (i as int) && (i as int) < lint@.message->0.spans.len());
                            assert(span_matches(lint@.message->0.spans[i as int], diff@));
                        }
                    }
                    return true;
                }
                proof {
                    assert(m@.spans[i as int] == s@);
                }
                i = i + 1;
            }
            false
        },
        None => false,
    }
}

/// Every lint that hits a section, grouped by section in the order the
/// sections are given; a lint that hits several sections is kept once per
/// section it hits.
pub fn get_lints_from_diff(lints: &[Lint], diffs: &[Section], _verbose: bool) -> (r: Vec<Lint>)
    ensures
        r.deep_view() == filter_lints(lints.deep_view(), diffs.deep_view()),
{
    let ghost lv: Seq<LintV> = lints.deep_view();
    let ghost dv: Seq<SectionV> = diffs.deep_view();
    let mut lints_in_diff: Vec<Lint> = Vec::new();
    let mut j: usize = 0;
    while j < diffs.len()
        invariant
            j <= diffs.len(),
            lv == lints.deep_view(),
            dv == diffs.deep_view(),
            dv.len() == diffs.len(),
            lv.len() == lints.len(),
            lints_in_diff.deep_view() == filter_lints(lv, dv.subrange(0, j as int)),
        decreases diffs.len() - j,
    {
        let diff = &diffs[j];
        let mut i: usize = 0;
        while i < lints.len()
            invariant
                i <= lints.len(),
                j < diffs.len(),
                lv == lints.deep_view(),
                dv == diffs.deep_view(),
                dv.len() == diffs.len(),
                lv.len() == lints.len(),
                diff@ == dv[j as int],
                lints_in_diff.deep_view() == filter_lints(lv, dv.subrange(0, j as int))
                    + matching_lints(lv.subrange(0, i as int), dv[j as int]),
            decreases lints.len() - i,
        {
            let l = &lints[i];
            let ghost pred = lints_in_diff.deep_view();
            let ghost prelen = lints_in_diff@.len();
            if lint_in_section(l, diff) {
                lints_in_diff.push(l.clone());
                proof {
                    assert forall|k: int|
                        0 <= k < prelen implies #[trigger] lints_in_diff.deep_view()[k]
                        == pred[k] by {}
                    assert(lints_in_diff.deep_view()[prelen as int] == lv[i as int]);
                    assert(lints_in_diff.deep_view() =~= pred.push(lv[i as int]));
                }
            }
            proof {
                let prev = lv.subrange(0, i as int);
                let cur = lv.subrange(0, (i + 1) as int);
                assert(cur.drop_last() =~= prev);
                assert(cur.last() == lv[i as int]);
                assert(matching_lints(cur, dv[j as int]) == matching_lints(prev, dv[j as int])
                    + if lint_matches(lv[i as int], dv[j as int]) {
                    seq![lv[i as int]]
                } else {
                    Seq::<LintV>::empty()
                });
                if lint_matches(lv[i as int], dv[j as int]) {
                    assert(lints_in_diff.deep_view() =~= filter_lints(lv, dv.subrange(0, j as int))
                        + matching_lints(cur, dv[j as int]));
                } else {
                    assert(lints_in_diff.deep_view() =~= filter_lints(lv, dv.subrange(0, j as int))
                        + matching_lints(cur, dv[j as int]));
                }
            }
            i = i + 1;
        }
        proof {
            assert(lv.subrange(0, lv.len() as int) =~= lv);
            let prevd = dv.subrange(0, j as int);
            let curd = dv.subrange(0, j + 1 as int);
            assert(curd.drop_last() =~= prevd);
            assert(curd.last() == dv[j as int]);
            assert(lints_in_diff.deep_view() == filter_lints(lv, prevd) + matching_lints(
                lv,
                dv[j as int],
            ));
            assert(filter_lints(lv, curd) == filter_lints(lv, prevd) + matching_lints(
                lv,
                curd.last(),
            ));
        }
        j = j + 1;
    }
    proof {
        assert(dv.subrange(0, dv.len() as int) =~= dv);
    }
    lints_in_diff
}

} // verus!
