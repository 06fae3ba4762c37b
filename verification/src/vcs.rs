//! The structured version-control backend: a diff obtained as hunk
//! records rather than text. The records come from whatever walks the
//! repository; turning them into `Section`s — keeping only source files
//! and the change kinds worth linting — is decided here.

use vstd::prelude::*;

pub use crate::git::Section;
use crate::error::Error;
use crate::git::SectionV;

verus! {

pub trait VCS {
    /// The changed-line sections of the repository at `repo_path` against
    /// the backend's target.
    fn sections(&self, repo_path: &str) -> Result<Vec<Section>, Error>;
}

/// The git backend's identity: which target it diffs against.
#[derive(Debug, PartialEq)]
pub struct Git {
    pub target_branch: String,
}

impl Default for Git {
    fn default() -> (r: Self)
        ensures
            r.target_branch@ == "HEAD"@,
    {
        Git { target_branch: "HEAD".to_owned() }
    }
}

impl Git {
    pub fn with_target(target_branch: String) -> (r: Self)
        ensures
            r.target_branch == target_branch,
    {
        Self { target_branch }
    }
}

/// How a file changed, as far as selection cares.
#[derive(Debug, PartialEq, Clone, Copy)]
pub enum ChangeKind {
    Added,
    Modified,
    Untracked,
    Other,
}

/// The mathematical shape of a `Hunk`.
#[verifier::ext_equal]
pub struct HunkV {
    pub kind: ChangeKind,
    pub file_name: Seq<char>,
    pub new_start: int,
    pub new_lines: int,
}

/// One hunk of a structured diff: the file it belongs to, how that file
/// changed, and the hunk's range in the new file.
#[derive(Debug, PartialEq)]
pub struct Hunk {
    pub kind: ChangeKind,
    pub file_name: String,
    pub new_start: u32,
    pub new_lines: u32,
}

impl View for Hunk {
    type V = HunkV;

    open spec fn view(&self) -> HunkV {
        HunkV {
            kind: self.kind,
            file_name: self.file_name@,
            new_start: self.new_start as int,
            new_lines: self.new_lines as int,
        }
    }
}

impl DeepView for Hunk {
    type V = HunkV;

    open spec fn deep_view(&self) -> HunkV {
        self.view()
    }
}

/// A path of the target source language.
pub open spec fn ends_with_rs(s: Seq<char>) -> bool {
    s.len() >= 3 && s.subrange(s.len() - 3, s.len() as int) == ".rs"@
}

/// A hunk is kept when its file was added, modified or untracked, and is
/// a source file.
pub open spec fn hunk_selected(h: HunkV) -> bool {
    (h.kind is Added || h.kind is Modified || h.kind is Untracked) && ends_with_rs(h.file_name)
}

/// The section a kept hunk describes: the hunk's range in the new file,
/// its end one past the last line, held at `u32::MAX`.
pub open spec fn section_of_hunk(h: HunkV) -> SectionV {
    SectionV {
        file_name: h.file_name,
        line_start: h.new_start,
        line_end: if h.new_start + h.new_lines <= u32::MAX {
            h.new_start + h.new_lines
        } else {
            u32::MAX as int
        },
    }
}

/// One section per kept hunk, in hunk order.
pub open spec fn sections_of_hunks(hs: Seq<HunkV>) -> Seq<SectionV>
    decreases hs.len(),
{
    if hs.len() == 0 {
        Seq::empty()
    } else {
        sections_of_hunks(hs.drop_last()) + if hunk_selected(hs.last()) {
            seq![section_of_hunk(hs.last())]
        } else {
            Seq::empty()
        }
    }
}

/// Whether the path names a file of the target source language.
fn file_is_source(s: &str) -> (r: bool)
    ensures
        r == ends_with_rs(s@),
{
    let n = s.unicode_len();
    if n < 3 {
        return false;
    }
    proof {
        reveal_strlit(".rs");
    }
    let r = s.get_char(n - 3) == '.' && s.get_char(n - 2) == 'r' && s.get_char(n - 1) == 's';
    proof {
        if r {
            assert(s@.subrange(n - 3, n as int) =~= ".rs"@);
        } else {
            assert(s@.subrange(n - 3, n as int)[0] == s@[n - 3]);
            assert(s@.subrange(n - 3, n as int)[1] == s@[n - 2]);
            assert(s@.subrange(n - 3, n as int)[2] == s@[n - 1]);
        }
    }
    r
}

/// The sections of a structured diff: one per hunk of an added, modified
/// or untracked source file, in the order the hunks come.
pub fn sections_from_hunks(hunks: &Vec<Hunk>) -> (r: Vec<Section>)
    ensures
        r.deep_view() == sections_of_hunks(hunks.deep_view()),
{
    let ghost hv = hunks.deep_view();
    let mut sections: Vec<Section> = Vec::new();
    let mut i: usize = 0;
    while i < hunks.len()
        invariant
            i <= hunks.len(),
            hv == hunks.deep_view(),
            hv.len() == hunks.len(),
            sections.deep_view() == sections_of_hunks(hv.subrange(0, i as int)),
        decreases hunks.len() - i,
    {
        let h = &hunks[i];
        let ghost pred = sections.deep_view();
        let selected = match h.kind {
            ChangeKind::Added | ChangeKind::Modified | ChangeKind::Untracked => true,
            ChangeKind::Other => false,
        };
        if selected && file_is_source(h.file_name.as_str()) {
            let line_end = if h.new_start <= u32::MAX - h.new_lines {
                h.new_start + h.new_lines
            } else {
                u32::MAX
            };
            sections.push(
                Section { file_name: h.file_name.clone(), line_start: h.new_start, line_end },
            );
            proof {
                assert forall|t: int|
                    0 <= t < pred.len() implies #[trigger] sections.deep_view()[t] == pred[t] by {}
                assert(sections.deep_view()[pred.len() as int] == section_of_hunk(hv[i as int]));
                assert(sections.deep_view() =~= pred.push(section_of_hunk(hv[i as int])));
            }
        }
        proof {
            let prev = hv.subrange(0, i as int);
            let cur = hv.subrange(0, (i + 1) as int);
            assert(cur.drop_last() =~= prev);
            assert(cur.last() == hv[i as int]);
            if hunk_selected(hv[i as int]) {
                assert(sections.deep_view() =~= sections_of_hunks(prev) + seq![
                    section_of_hunk(hv[i as int]),
                ]);
            } else {
                assert(sections.deep_view() =~= sections_of_hunks(prev)
                    + Seq::<SectionV>::empty());
            }
        }
        i = i + 1;
    }
    proof {
        assert(hv.subrange(0, hv.len() as int) =~= hv);
    }
    sections
}

} // verus!
