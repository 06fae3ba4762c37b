//! The orchestrator: select the members a change touches, gather the
//! findings the linter reports for them, and keep those that overlap the
//! changed lines.

use vstd::prelude::*;

use crate::clippy::Lint as ReportLint;
use crate::error::Error;
use crate::git::{Section, SectionV};
use crate::healer::Healer;
use crate::intersections;
use crate::intersections::{paths_match, spec_overlaps};
use crate::linter::{Lint, LintV, Linter};
use crate::project::Config;

verus! {

/// A finding hits a section when the paths name the same file and the
/// line ranges overlap.
pub open spec fn finding_matches(l: LintV, sec: SectionV) -> bool {
    paths_match(l.location.path, sec.file_name) && spec_overlaps(
        l.location.line_start,
        l.location.line_end,
        sec.line_start,
        sec.line_end,
    )
}

/// The findings of `lints`, in order, that hit `sec`.
pub open spec fn matching_findings(lints: Seq<LintV>, sec: SectionV) -> Seq<LintV>
    decreases lints.len(),
{
    if lints.len() == 0 {
        Seq::empty()
    } else {
        matching_findings(lints.drop_last(), sec) + if finding_matches(lints.last(), sec) {
            seq![lints.last()]
        } else {
            Seq::empty()
        }
    }
}

/// One block of matching findings per section, in section order.
pub open spec fn filter_findings(lints: Seq<LintV>, secs: Seq<SectionV>) -> Seq<LintV>
    decreases secs.len(),
{
    if secs.len() == 0 {
        Seq::empty()
    } else {
        filter_findings(lints, secs.drop_last()) + matching_findings(lints, secs.last())
    }
}

/// How many of the sections a finding hits.
pub open spec fn match_count(l: LintV, secs: Seq<SectionV>) -> nat
    decreases secs.len(),
{
    if secs.len() == 0 {
        0
    } else {
        match_count(l, secs.drop_last()) + if finding_matches(l, secs.last()) {
            1nat
        } else {
            0
        }
    }
}

/// Filtering against no sections keeps nothing.
pub proof fn lemma_filter_no_sections(lints: Seq<LintV>)
    ensures
        filter_findings(lints, Seq::empty()) == Seq::<LintV>::empty(),
{
}

/// Filtering an empty finding list yields nothing, however many sections.
pub proof fn lemma_filter_no_findings(secs: Seq<SectionV>)
    ensures
        filter_findings(Seq::empty(), secs) == Seq::<LintV>::empty(),
    decreases secs.len(),
{
    if secs.len() > 0 {
        lemma_filter_no_findings(secs.drop_last());
        assert(filter_findings(Seq::empty(), secs) =~= Seq::<LintV>::empty());
    }
}

proof fn lemma_matching_concat(a: Seq<LintV>, b: Seq<LintV>, sec: SectionV)
    ensures
        matching_findings(a + b, sec) == matching_findings(a, sec) + matching_findings(b, sec),
    decreases b.len(),
{
    if b.len() == 0 {
        assert(a + b =~= a);
        assert(matching_findings(a, sec) + matching_findings(b, sec) =~= matching_findings(
            a,
            sec,
        ));
    } else {
        assert((a + b).drop_last() =~= a + b.drop_last());
        assert((a + b).last() == b.last());
        lemma_matching_concat(a, b.drop_last(), sec);
        let tail = if finding_matches(b.last(), sec) {
            seq![b.last()]
        } else {
            Seq::<LintV>::empty()
        };
        assert(matching_findings(a + b, sec) == matching_findings(a, sec) + matching_findings(
            b.drop_last(),
            sec,
        ) + tail);
        assert(matching_findings(a, sec) + matching_findings(b.drop_last(), sec) + tail
            =~= matching_findings(a, sec) + (matching_findings(b.drop_last(), sec) + tail));
    }
}

proof fn lemma_matching_all(a: Seq<LintV>, sec: SectionV)
    requires
        forall|k: int| 0 <= k < a.len() ==> finding_matches(#[trigger] a[k], sec),
    ensures
        matching_findings(a, sec) == a,
    decreases a.len(),
{
    if a.len() > 0 {
        lemma_matching_all(a.drop_last(), sec);
        assert(matching_findings(a, sec) =~= a);
    }
}

proof fn lemma_matching_none(a: Seq<LintV>, sec: SectionV)
    requires
        forall|k: int| 0 <= k < a.len() ==> !finding_matches(#[trigger] a[k], sec),
    ensures
        matching_findings(a, sec) == Seq::<LintV>::empty(),
    decreases a.len(),
{
    if a.len() > 0 {
        lemma_matching_none(a.drop_last(), sec);
        assert(matching_findings(a, sec) =~= Seq::<LintV>::empty());
    }
}

proof fn lemma_matching_elements(a: Seq<LintV>, sec: SectionV)
    ensures
        forall|k: int|
            0 <= k < matching_findings(a, sec).len() ==> finding_matches(
                #[trigger] matching_findings(a, sec)[k],
                sec,
            ) && exists|t: int| 0 <= t < a.len() && a[t] == matching_findings(a, sec)[k],
    decreases a.len(),
{
    if a.len() > 0 {
        lemma_matching_elements(a.drop_last(), sec);
        let m = matching_findings(a, sec);
        let mp = matching_findings(a.drop_last(), sec);
        assert forall|k: int| 0 <= k < m.len() implies finding_matches(#[trigger] m[k], sec)
            && exists|t: int| 0 <= t < a.len() && a[t] == m[k] by {
            if k < mp.len() {
                assert(finding_matches(mp[k], sec));
                let t = choose|t: int| 0 <= t < a.drop_last().len() && a.drop_last()[t] == mp[k];
                assert(a[t] == m[k]);
            } else {
                assert(m[k] == a.last());
                assert(a[a.len() - 1] == m[k]);
            }
        }
    }
}

/// Whatever went in, every finding the correlation keeps overlaps at
/// least one of the sections it was filtered against.
pub proof fn lemma_filter_elements(lints: Seq<LintV>, secs: Seq<SectionV>)
    ensures
        forall|k: int|
            0 <= k < filter_findings(lints, secs).len() ==> exists|i: int|
                0 <= i < secs.len() && finding_matches(
                    #[trigger] filter_findings(lints, secs)[k],
                    secs[i],
                ),
    decreases secs.len(),
{
    if secs.len() > 0 {
        lemma_filter_elements(lints, secs.drop_last());
        lemma_matching_elements(lints, secs.last());
        let f = filter_findings(lints, secs);
        let fp = filter_findings(lints, secs.drop_last());
        let m = matching_findings(lints, secs.last());
        assert forall|k: int| 0 <= k < f.len() implies exists|i: int|
            0 <= i < secs.len() && finding_matches(#[trigger] f[k], secs[i]) by {
            if k < fp.len() {
                assert(f[k] == fp[k]);
                let i = choose|i: int|
                    0 <= i < secs.drop_last().len() && finding_matches(
                        fp[k],
                        #[trigger] secs.drop_last()[i],
                    );
                assert(secs.drop_last()[i] == secs[i]);
                assert(finding_matches(f[k], secs[i]));
            } else {
                assert(f[k] == m[k - fp.len()]);
                assert(finding_matches(m[k - fp.len()], secs.last()));
                assert(secs[secs.len() - 1] == secs.last());
                assert(finding_matches(f[k], secs[secs.len() - 1]));
            }
        }
    }
}

proof fn lemma_match_count_at(l: LintV, secs: Seq<SectionV>, i: int)
    requires
        0 <= i < secs.len(),
        finding_matches(l, secs[i]),
    ensures
        match_count(l, secs) >= 1,
    decreases secs.len(),
{
    if i == secs.len() - 1 {
    } else {
        assert(secs.drop_last()[i] == secs[i]);
        lemma_match_count_at(l, secs.drop_last(), i);
    }
}

proof fn lemma_match_count_pair(l: LintV, secs: Seq<SectionV>, i: int, j: int)
    requires
        0 <= i < j < secs.len(),
        finding_matches(l, secs[i]),
        finding_matches(l, secs[j]),
    ensures
        match_count(l, secs) >= 2,
    decreases secs.len(),
{
    if j == secs.len() - 1 {
        lemma_match_count_at(l, secs.drop_last(), i);
    } else {
        assert(secs.drop_last()[i] == secs[i]);
        assert(secs.drop_last()[j] == secs[j]);
        lemma_match_count_pair(l, secs.drop_last(), i, j);
    }
}

proof fn lemma_refilter_blocks(lints: Seq<LintV>, secs: Seq<SectionV>, m: int, i: int)
    requires
        0 <= m <= secs.len(),
        0 <= i < secs.len(),
        forall|t: int| 0 <= t < lints.len() ==> match_count(#[trigger] lints[t], secs) <= 1,
    ensures
        matching_findings(filter_findings(lints, secs.subrange(0, m)), secs[i]) == if i < m {
            matching_findings(lints, secs[i])
        } else {
            Seq::<LintV>::empty()
        },
    decreases m,
{
    if m == 0 {
        assert(secs.subrange(0, 0) =~= Seq::<SectionV>::empty());
    } else {
        let prev = secs.subrange(0, m - 1);
        let cur = secs.subrange(0, m);
        assert(cur.drop_last() =~= prev);
        assert(cur.last() == secs[m - 1]);
        lemma_refilter_blocks(lints, secs, m - 1, i);
        let block = matching_findings(lints, secs[m - 1]);
        lemma_matching_concat(filter_findings(lints, prev), block, secs[i]);
        lemma_matching_elements(lints, secs[m - 1]);
        if i == m - 1 {
            assert forall|k: int| 0 <= k < block.len() implies finding_matches(
                #[trigger] block[k],
                secs[i],
            ) by {}
            lemma_matching_all(block, secs[i]);
            assert(matching_findings(filter_findings(lints, cur), secs[i])
                =~= matching_findings(lints, secs[i]));
        } else {
            assert forall|k: int| 0 <= k < block.len() implies !finding_matches(
                #[trigger] block[k],
                secs[i],
            ) by {
                if finding_matches(block[k], secs[i]) {
                    let t = choose|t: int| 0 <= t < lints.len() && lints[t] == block[k];
                    if i < m - 1 {
                        lemma_match_count_pair(lints[t], secs, i, m - 1);
                    } else {
                        lemma_match_count_pair(lints[t], secs, m - 1, i);
                    }
                }
            }
            lemma_matching_none(block, secs[i]);
            if i < m - 1 {
                assert(matching_findings(filter_findings(lints, cur), secs[i])
                    =~= matching_findings(lints, secs[i]));
            } else {
                assert(matching_findings(filter_findings(lints, cur), secs[i])
                    =~= Seq::<LintV>::empty());
            }
        }
    }
}

proof fn lemma_refilter_prefix(lints: Seq<LintV>, secs: Seq<SectionV>, m: int)
    requires
        0 <= m <= secs.len(),
        forall|t: int| 0 <= t < lints.len() ==> match_count(#[trigger] lints[t], secs) <= 1,
    ensures
        filter_findings(filter_findings(lints, secs), secs.subrange(0, m)) == filter_findings(
            lints,
            secs.subrange(0, m),
        ),
    decreases m,
{
    if m == 0 {
        assert(secs.subrange(0, 0) =~= Seq::<SectionV>::empty());
    } else {
        let prev = secs.subrange(0, m - 1);
        let cur = secs.subrange(0, m);
        assert(cur.drop_last() =~= prev);
        assert(cur.last() == secs[m - 1]);
        lemma_refilter_prefix(lints, secs, m - 1);
        assert(secs.subrange(0, secs.len() as int) =~= secs);
        lemma_refilter_blocks(lints, secs, secs.len() as int, m - 1);
    }
}

/// Filtering is idempotent while no finding overlaps two of the
/// sections: a second pass of the correlation over its own output, with
/// the same sections, returns that output unchanged. (A finding that
/// overlaps several sections is duplicated by the first pass, and a
/// second pass would duplicate it further.)
pub proof fn lemma_filter_idempotent(lints: Seq<LintV>, secs: Seq<SectionV>)
    requires
        forall|t: int| 0 <= t < lints.len() ==> match_count(#[trigger] lints[t], secs) <= 1,
    ensures
        filter_findings(filter_findings(lints, secs), secs) == filter_findings(lints, secs),
{
    lemma_refilter_prefix(lints, secs, secs.len() as int);
    assert(secs.subrange(0, secs.len() as int) =~= secs);
}

/// `p` is a prefix of `s`.
pub open spec fn is_prefix_of(p: Seq<char>, s: Seq<char>) -> bool {
    p.len() <= s.len() && s.subrange(0, p.len() as int) == p
}

/// A member directory is touched by the changes when some section's file
/// path starts with it. This is a plain string-prefix test, not a
/// path-segment test: a member `foo` also claims a file under `foobar/`.
pub open spec fn member_touched(member: Seq<char>, secs: Seq<SectionV>) -> bool {
    exists|i: int| 0 <= i < secs.len() && is_prefix_of(member, #[trigger] secs[i].file_name)
}

/// `p` is a prefix of `s`, position by position.
fn str_starts_with(s: &str, p: &str) -> (r: bool)
    ensures
        r == is_prefix_of(p@, s@),
{
    let n = s.unicode_len();
    let m = p.unicode_len();
    if m > n {
        return false;
    }
    let mut i: usize = 0;
    while i < m
        invariant
            n == s@.len(),
            m == p@.len(),
            m <= n,
            i <= m,
            forall|k: int| 0 <= k < i ==> s@[k] == p@[k],
        decreases m - i,
    {
        if s.get_char(i) != p.get_char(i) {
            proof {
                assert(s@.subrange(0, m as int)[i as int] != p@[i as int]);
            }
            return false;
        }
        i = i + 1;
    }
    proof {
        assert(s@.subrange(0, m as int) =~= p@);
    }
    true
}

/// Whether the changes touch the given member directory.
pub fn diff_in_member(member: &str, sections: &[Section]) -> (r: bool)
    ensures
        r == member_touched(member@, sections.deep_view()),
{
    let mut i: usize = 0;
    while i < sections.len()
        invariant
            i <= sections@.len(),
            forall|k: int|
                0 <= k < i ==> !is_prefix_of(
                    member@,
                    #[trigger] sections.deep_view()[k].file_name,
                ),
        decreases sections@.len() - i,
    {
        let s = &sections[i];
        if str_starts_with(s.file_name.as_str(), member) {
            proof {
                assert(is_prefix_of(member@, sections.deep_view()[i as int].file_name));
            }
            return true;
        }
        i = i + 1;
    }
    false
}

/// The closed ranges of `lint` and `git_section` have a line in common.
// Check if lint and git_section have overlapped lines
pub fn lines_in_range(lint: &Lint, git_section: &Section) -> (r: bool)
    ensures
        r == spec_overlaps(
            lint@.location.line_start,
            lint@.location.line_end,
            git_section@.line_start,
            git_section@.line_end,
        ),
{
    // If git_section.line_start is included in the lint span
    lint.location.lines[0] <= git_section.line_start && git_section.line_start
        <= lint.location.lines[1]
    // If lint.line_start is included in the git_section span
     || git_section.line_start <= lint.location.lines[0] && lint.location.lines[0]
        <= git_section.line_end
}

/// The finding's path and the section's path name the same file, up to the
/// direction of the separators.
pub fn files_match(lint: &Lint, git_section: &Section) -> (r: bool)
    ensures
        r == paths_match(lint@.location.path, git_section@.file_name),
{
    // Git diff paths and clippy paths don't get along too well on Windows...
    intersections::paths_match_exec(lint.location.path.as_str(), git_section.file_name.as_str())
}

/// Every finding that hits a section, grouped by section in the order the
/// sections are given; a finding that hits several sections is kept once
/// per section it hits.
pub fn lints_from_diff(lints: &[Lint], diffs: &[Section]) -> (r: Vec<Lint>)
    ensures
        r.deep_view() == filter_findings(lints.deep_view(), diffs.deep_view()),
{
    let ghost lv: Seq<LintV> = lints.deep_view();
    let ghost dv: Seq<SectionV> = diffs.deep_view();
    let mut lints_in_diff: Vec<Lint> = Vec::new();
    let mut j: usize = 0;
    while j < diffs.len()
        invariant
            j <= diffs.len(),
            lv == lints.deep_view(),
            dv == diffs.deep_view(),
            dv.len() == diffs.len(),
            lv.len() == lints.len(),
            lints_in_diff.deep_view() == filter_findings(lv, dv.subrange(0, j as int)),
        decreases diffs.len() - j,
    {
        let diff = &diffs[j];
        let mut i: usize = 0;
        while i < lints.len()
            invariant
                i <= lints.len(),
                j < diffs.len(),
                lv == lints.deep_view(),
                dv == diffs.deep_view(),
                dv.len() == diffs.len(),
                lv.len() == lints.len(),
                diff@ == dv[j as int],
                lints_in_diff.deep_view() == filter_findings(lv, dv.subrange(0, j as int))
                    + matching_findings(lv.subrange(0, i as int), dv[j as int]),
            decreases lints.len() - i,
        {
            let l = &lints[i];
            let ghost pred = lints_in_diff.deep_view();
            let ghost prelen = lints_in_diff@.len();
            if files_match(l, diff) && lines_in_range(l, diff) {
                lints_in_diff.push(l.clone());
                proof {
                    assert forall|k: int|
                        0 <= k < prelen implies #[trigger] lints_in_diff.deep_view()[k]
                        == pred[k] by {}
                    assert(lints_in_diff.deep_view()[prelen as int] == lv[i as int]);
                    assert(lints_in_diff.deep_view() =~= pred.push(lv[i as int]));
                }
            }
            proof {
                let prev = lv.subrange(0, i as int);
                let cur = lv.subrange(0, (i + 1) as int);
                assert(cur.drop_last() =~= prev);
                assert(cur.last() == lv[i as int]);
                assert(matching_findings(cur, dv[j as int]) == matching_findings(prev, dv[j as int])
                    + if finding_matches(lv[i as int], dv[j as int]) {
                    seq![lv[i as int]]
                } else {
                    Seq::<LintV>::empty()
                });
                assert(lints_in_diff.deep_view() =~= filter_findings(lv, dv.subrange(0, j as int))
                    + matching_findings(cur, dv[j as int]));
            }
            i = i + 1;
        }
        proof {
            assert(lv.subrange(0, lv.len() as int) =~= lv);
            let prevd = dv.subrange(0, j as int);
            let curd = dv.subrange(0, (j + 1) as int);
            assert(curd.drop_last() =~= prevd);
            assert(curd.last() == dv[j as int]);
        }
        j = j + 1;
    }
    proof {
        assert(dv.subrange(0, dv.len() as int) =~= dv);
    }
    lints_in_diff
}

/// Every report entry that hits a section, grouped by section: the older
/// front end's form of the correlation, over raw report entries.
pub fn get_lints_from_diff(lints: &[ReportLint], diffs: &[Section]) -> (r: Vec<ReportLint>)
    ensures
        r.deep_view() == intersections::filter_lints(lints.deep_view(), diffs.deep_view()),
{
    intersections::get_lints_from_diff(lints, diffs, false)
}

/// Collects a project configuration and a linter, then builds a `Scout`.
pub struct Builder<C, L> where C: Config, L: Linter {
    pub project: Option<C>,
    pub linter: Option<L>,
}

/// The wired pipeline: a project configuration and a linter.
pub struct Scout<C, L> where C: Config, L: Linter {
    pub project: C,
    pub linter: L,
}

impl<C, L> Builder<C, L> where C: Config, L: Linter {
    pub fn new() -> (r: Self)
        ensures
            r.project is None,
            r.linter is None,
    {
        Self { project: None, linter: None }
    }

    pub fn set_project_config(&mut self, project: C)
        ensures
            final(self).project == Some(project),
            final(self).linter == old(self).linter,
    {
        self.project = Some(project);
    }

    pub fn set_linter(&mut self, linter: L)
        ensures
            final(self).linter == Some(linter),
            final(self).project == old(self).project,
    {
        self.linter = Some(linter);
    }

    /// A `Scout` from the two parts; refused while either is missing.
    pub fn build(self) -> (r: Result<Scout<C, L>, Error>)
        ensures
            match r {
                Ok(s) => self.project == Some(s.project) && self.linter == Some(s.linter),
                Err(e) => (self.project is None || self.linter is None) && e == Error::ScoutBuilder,
            },
    {
        match (self.project, self.linter) {
            (Some(p), Some(l)) => Ok(Scout { project: p, linter: l }),
            _ => Err(Error::ScoutBuilder),
        }
    }
}

impl<C, L> Scout<C, L> where C: Config, L: Linter {
    /// Run the linter over what the changes touch and keep the findings
    /// that overlap them. When the project iterates per member, only the
    /// members some section touches are visited, in order; otherwise one
    /// run covers the project root, and only when there are changes at
    /// all. With no sections there is no work: no linter run, no findings.
    pub fn run_for_diff(&self, diff_sections: &[Section]) -> (r: Result<Vec<Lint>, Error>)
        ensures
            r matches Ok(v) ==> exists|collected: Seq<LintV>|
                v.deep_view() == filter_findings(collected, diff_sections.deep_view()),
            r matches Ok(v) ==> forall|k: int|
                0 <= k < v.deep_view().len() ==> exists|i: int|
                    0 <= i < diff_sections.deep_view().len() && finding_matches(
                        #[trigger] v.deep_view()[k],
                        diff_sections.deep_view()[i],
                    ),
            diff_sections@.len() == 0 ==> (r matches Ok(v) && v@.len() == 0),
    {
        let mut lints: Vec<Lint> = Vec::new();
        if self.project.linter_must_iterate() {
            let members = self.project.get_members();
            let mut i: usize = 0;
            while i < members.len()
                invariant
                    i <= members@.len(),
                    diff_sections@.len() == 0 ==> lints@.len() == 0,
                decreases members@.len() - i,
            {
                // There's no need to run the linter on members where no
                // changes have been made
                if diff_in_member(members[i].as_str(), diff_sections) {
                    proof {
                        assert(diff_sections.deep_view().len() == diff_sections@.len());
                        assert(diff_sections@.len() > 0);
                    }
                    match self.linter.lints(members[i].as_str()) {
                        Ok(mut got) => {
                            lints.append(&mut got);
                        },
                        Err(e) => {
                            return Err(e);
                        },
                    }
                }
                i = i + 1;
            }
        } else if diff_sections.len() > 0 {
            // There's no need to run the linter if no changes have been made
            match self.linter.lints(".") {
                Ok(mut got) => {
                    lints.append(&mut got);
                },
                Err(e) => {
                    return Err(e);
                },
            }
        }
        let collected_slice = lints.as_slice();
        let filtered = lints_from_diff(collected_slice, diff_sections);
        proof {
            let collected = collected_slice.deep_view();
            assert(filtered.deep_view() == filter_findings(collected, diff_sections.deep_view()));
            lemma_filter_elements(collected, diff_sections.deep_view());
            if diff_sections@.len() == 0 {
                assert(diff_sections.deep_view().len() == 0);
                assert(filtered.deep_view().len() == 0);
                assert(filtered@.len() == 0);
            }
        }
        Ok(filtered)
    }
}

/// Applies fixes through whatever `Healer` it was built with.
pub struct Fixer<H> where H: Healer {
    pub medic: H,
}

impl<H> Fixer<H> where H: Healer {
    pub fn new(medic: H) -> (r: Self)
        ensures
            r.medic == medic,
    {
        Self { medic }
    }

    /// Hand the findings to the healer.
    pub fn run(&self, lints: Vec<Lint>) -> Result<(), Error> {
        self.medic.heal(lints)
    }
}

} // verus!
