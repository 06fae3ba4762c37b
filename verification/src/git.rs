//! The Section model and the unified-diff text parser.
//!
//! A `Section` is one contiguous run of added lines in one file, with
//! 1-based inclusive bounds. The parser walks diff text line by line and
//! coalesces adjacent added lines into such runs.

use vstd::prelude::*;

use crate::error::Error;

verus! {

/// The mathematical shape of a `Section`.
#[verifier::ext_equal]
pub struct SectionV {
    pub file_name: Seq<char>,
    pub line_start: int,
    pub line_end: int,
}

/// One contiguous run of changed (added) lines in one file.
/// `line_start` and `line_end` are 1-based and inclusive.
#[derive(Debug, PartialEq)]
pub struct Section {
    pub file_name: String,
    pub line_start: u32,
    pub line_end: u32,
}

impl View for Section {
    type V = SectionV;

    open spec fn view(&self) -> SectionV {
        SectionV {
            file_name: self.file_name@,
            line_start: self.line_start as int,
            line_end: self.line_end as int,
        }
    }
}

impl DeepView for Section {
    type V = SectionV;

    open spec fn deep_view(&self) -> SectionV {
        self.view()
    }
}

impl Clone for Section {
    fn clone(&self) -> (r: Self)
        ensures
            r@ == self@,
    {
        Section {
            file_name: self.file_name.clone(),
            line_start: self.line_start,
            line_end: self.line_end,
        }
    }
}

/// A parsed section holds a well-formed, 1-based line range.
pub open spec fn section_wf(s: SectionV) -> bool {
    1 <= s.line_start <= s.line_end
}

/// Accumulates the three parts of a `Section`; `build` succeeds once all
/// three have been set.
#[derive(Debug)]
pub struct SectionBuilder {
    pub file_name: Option<String>,
    pub line_start: Option<u32>,
    pub line_end: Option<u32>,
}

impl SectionBuilder {
    pub fn new() -> (r: Self)
        ensures
            r.file_name is None,
            r.line_start is None,
            r.line_end is None,
    {
        Self { file_name: None, line_start: None, line_end: None }
    }

    pub fn file_name(&mut self, file_name: String)
        ensures
            final(self).file_name == Some(file_name),
            final(self).line_start == old(self).line_start,
            final(self).line_end == old(self).line_end,
    {
        self.file_name = Some(file_name);
    }

    pub fn line_start(&mut self, line_start: u32)
        ensures
            final(self).line_start == Some(line_start),
            final(self).file_name == old(self).file_name,
            final(self).line_end == old(self).line_end,
    {
        self.line_start = Some(line_start);
    }

    pub fn line_end(&mut self, line_end: u32)
        ensures
            final(self).line_end == Some(line_end),
            final(self).file_name == old(self).file_name,
            final(self).line_start == old(self).line_start,
    {
        self.line_end = Some(line_end);
    }

    pub fn build(self) -> (r: Option<Section>)
        ensures
            match r {
                Some(s) => {
                    &&& self.file_name == Some(s.file_name)
                    &&& self.line_start == Some(s.line_start)
                    &&& self.line_end == Some(s.line_end)
                },
                None => self.file_name is None || self.line_start is None
                    || self.line_end is None,
            },
    {
        match (self.file_name, self.line_start, self.line_end) {
            (Some(file_name), Some(line_start), Some(line_end)) => {
                Some(Section { file_name, line_start, line_end })
            },
            _ => None,
        }
    }
}

/// The index of the first occurrence of `c` in `l`, if any.
pub open spec fn find_char(l: Seq<char>, c: char) -> Option<int>
    decreases l.len(),
{
    if l.len() == 0 {
        None
    } else if l[0] == c {
        Some(0)
    } else {
        match find_char(l.drop_first(), c) {
            Some(i) => Some(i + 1),
            None => None,
        }
    }
}

proof fn lemma_find_char_at(l: Seq<char>, c: char, j: int)
    requires
        0 <= j < l.len(),
        l[j] == c,
        forall|k: int| 0 <= k < j ==> l[k] != c,
    ensures
        find_char(l, c) == Some(j),
    decreases j,
{
    if j == 0 {
    } else {
        assert(l[0] != c);
        let t = l.drop_first();
        assert(t[j - 1] == c);
        assert forall|k: int| 0 <= k < j - 1 implies t[k] != c by {
            assert(t[k] == l[k + 1]);
        }
        lemma_find_char_at(t, c, j - 1);
    }
}

proof fn lemma_find_char_none(l: Seq<char>, c: char)
    requires
        forall|k: int| 0 <= k < l.len() ==> l[k] != c,
    ensures
        find_char(l, c) is None,
    decreases l.len(),
{
    if l.len() > 0 {
        let t = l.drop_first();
        assert forall|k: int| 0 <= k < t.len() implies t[k] != c by {
            assert(t[k] == l[k + 1]);
        }
        lemma_find_char_none(t, c);
    }
}

proof fn lemma_find_char_found(l: Seq<char>, c: char)
    ensures
        match find_char(l, c) {
            Some(i) => 0 <= i < l.len() && l[i] == c && forall|k: int| 0 <= k < i ==> l[k] != c,
            None => forall|k: int| 0 <= k < l.len() ==> l[k] != c,
        },
    decreases l.len(),
{
    if l.len() > 0 && l[0] != c {
        let t = l.drop_first();
        lemma_find_char_found(t, c);
        match find_char(t, c) {
            Some(i) => {
                assert(l[i + 1] == t[i]);
                assert forall|k: int| 0 <= k < i + 1 implies l[k] != c by {
                    if k > 0 {
                        assert(l[k] == t[k - 1]);
                    }
                }
            },
            None => {
                assert forall|k: int| 0 <= k < l.len() implies l[k] != c by {
                    if k > 0 {
                        assert(l[k] == t[k - 1]);
                    }
                }
            },
        }
    }
}

/// The index of the first occurrence of `c` in `s`, if any.
pub fn find_char_in(s: &str, c: char) -> (r: Option<usize>)
    ensures
        match r {
            Some(i) => find_char(s@, c) == Some(i as int),
            None => find_char(s@, c) is None,
        },
{
    let n = s.unicode_len();
    let mut i: usize = 0;
    while i < n
        invariant
            n == s@.len(),
            i <= n,
            forall|k: int| 0 <= k < i ==> s@[k] != c,
        decreases n - i,
    {
        if s.get_char(i) == c {
            proof {
                lemma_find_char_at(s@, c, i as int);
            }
            return Some(i);
        }
        i = i + 1;
    }
    proof {
        lemma_find_char_none(s@, c);
    }
    None
}

/// True of the ten ASCII digits.
pub open spec fn is_digit(c: char) -> bool {
    '0' <= c && c <= '9'
}

/// The numeric value of an ASCII digit.
pub open spec fn digit_val(c: char) -> int {
    c as int - '0' as int
}

/// The length of the maximal run of digits in `l` starting at `i`.
pub open spec fn digits_len(l: Seq<char>, i: int) -> int
    decreases l.len() - i when i <= l.len()
{
    if i < 0 || i >= l.len() || !is_digit(l[i]) {
        0
    } else {
        1 + digits_len(l, i + 1)
    }
}

/// The value of the `n` digits of `l` starting at `i`, read in base ten.
pub open spec fn digits_value(l: Seq<char>, i: int, n: int) -> int
    decreases n,
{
    if n <= 0 {
        0
    } else {
        digits_value(l, i, n - 1) * 10 + digit_val(l[i + n - 1])
    }
}

proof fn lemma_digits_len_bounds(l: Seq<char>, i: int)
    requires
        0 <= i <= l.len(),
    ensures
        0 <= digits_len(l, i),
        i + digits_len(l, i) <= l.len(),
        forall|m: int| 0 <= m < digits_len(l, i) ==> is_digit(#[trigger] l[i + m]),
        i + digits_len(l, i) == l.len() || !is_digit(l[i + digits_len(l, i)]),
    decreases l.len() - i,
{
    if i < l.len() && is_digit(l[i]) {
        lemma_digits_len_bounds(l, i + 1);
        let d = digits_len(l, i);
        assert forall|m: int| 0 <= m < d implies is_digit(#[trigger] l[i + m]) by {
            if m > 0 {
                assert(is_digit(l[(i + 1) + (m - 1)]));
            }
        }
    }
}

proof fn lemma_digits_value_nonneg(l: Seq<char>, i: int, n: int)
    requires
        forall|m: int| 0 <= m < n ==> is_digit(#[trigger] l[i + m]),
    ensures
        digits_value(l, i, n) >= 0,
    decreases n,
{
    if n > 0 {
        lemma_digits_value_nonneg(l, i, n - 1);
    }
}

proof fn lemma_digits_value_monotone(l: Seq<char>, i: int, n1: int, n2: int)
    requires
        0 <= n1 <= n2,
        forall|m: int| 0 <= m < n2 ==> is_digit(#[trigger] l[i + m]),
    ensures
        digits_value(l, i, n1) <= digits_value(l, i, n2),
    decreases n2 - n1,
{
    if n1 < n2 {
        lemma_digits_value_monotone(l, i, n1, n2 - 1);
        lemma_digits_value_nonneg(l, i, n2 - 1);
    }
}

/// The new-file start line carried by a hunk header: the digits right after
/// the first `+` of the line, if there are any and their value fits `u32`.
pub open spec fn hunk_new_start(l: Seq<char>) -> Option<int> {
    match find_char(l, '+') {
        Some(p) => {
            let n = digits_len(l, p + 1);
            if n == 0 {
                None
            } else if digits_value(l, p + 1, n) > u32::MAX {
                None
            } else {
                Some(digits_value(l, p + 1, n))
            }
        },
        None => None,
    }
}

/// Decode the new-file start line of a hunk header
/// (`@@ -<old>[,<count>] +<new>[,<count>] @@ ...` yields `<new>`).
/// `None` when the header holds no decodable number: that is the one fatal
/// parse error of the diff parser.
pub fn get_diff_line_start(line: &str) -> (r: Option<u32>)
    ensures
        match r {
            Some(v) => hunk_new_start(line@) == Some(v as int),
            None => hunk_new_start(line@) is None,
        },
{
    let n = line.unicode_len();
    let p = match find_char_in(line, '+') {
        Some(p) => p,
        None => {
            return None;
        },
    };
    proof {
        lemma_find_char_found(line@, '+');
        lemma_digits_len_bounds(line@, p + 1);
    }
    let ghost dn = digits_len(line@, p as int + 1);
    let mut j: usize = p + 1;
    let mut acc: u64 = 0;
    while j < n
        invariant
            n == line@.len(),
            find_char(line@, '+') == Some(p as int),
            p < j <= n,
            dn == digits_len(line@, p as int + 1),
            p + 1 + dn <= n,
            j - p - 1 <= dn,
            forall|m: int| 0 <= m < dn ==> is_digit(#[trigger] line@[p + 1 + m]),
            p + 1 + dn == n || !is_digit(line@[p + 1 + dn]),
            acc == digits_value(line@, p as int + 1, j - p - 1),
            acc <= u32::MAX,
        ensures
            n == line@.len(),
            p < j <= n,
            j - p - 1 == dn,
            acc == digits_value(line@, p as int + 1, dn),
            acc <= u32::MAX,
        decreases n - j,
    {
        let c = line.get_char(j);
        if !(c >= '0' && c <= '9') {
            proof {
                if j - p - 1 < dn {
                    assert(is_digit(line@[p + 1 + (j - p - 1)]));
                }
                assert(j - p - 1 == dn);
            }
            break;
        }
        proof {
            if j - p - 1 == dn {
                assert(!is_digit(line@[p + 1 + dn]));
            }
            assert(j - p - 1 < dn);
        }
        let d: u64 = (c as u32 as u64) - 48;
        let next: u64 = acc * 10 + d;
        proof {
            assert('0' as int == 48 && '9' as int == 57);
            assert(digits_value(line@, p as int + 1, (j - p - 1) + 1) == acc * 10 + digit_val(c));
            assert(digit_val(c) == d);
        }
        if next > 0xffff_ffff {
            proof {
                assert(digits_value(line@, p as int + 1, j - p) == next);
                lemma_digits_value_monotone(line@, p as int + 1, j - p, dn);
                assert(digits_value(line@, p as int + 1, dn) > u32::MAX);
            }
            return None;
        }
        acc = next;
        j = j + 1;
    }
    if j == p + 1 {
        proof {
            assert(dn == 0);
        }
        return None;
    }
    Some(acc as u32)
}

/// A line with one trailing carriage return removed, as the line iterator
/// of `str` removes it before a line feed.
pub open spec fn strip_cr(l: Seq<char>) -> Seq<char> {
    if l.len() > 0 && l.last() == '\r' {
        l.drop_last()
    } else {
        l
    }
}

/// The lines of `text`: split at each line feed, one carriage return
/// stripped before it, and no empty line after a final line feed.
pub open spec fn spec_lines(text: Seq<char>) -> Seq<Seq<char>>
    decreases text.len(),
{
    if text.len() == 0 {
        Seq::empty()
    } else {
        match find_char(text, '\n') {
            Some(i) => if 0 <= i < text.len() {
                seq![strip_cr(text.subrange(0, i))] + spec_lines(
                    text.subrange(i + 1, text.len() as int),
                )
            } else {
                seq![text]
            },
            None => seq![text],
        }
    }
}

/// Split `s` into its lines, as the line iterator of `str` does.
pub fn split_lines<'a>(s: &'a str) -> (res: Vec<&'a str>)
    ensures
        res.deep_view() == spec_lines(s@),
{
    let n = s.unicode_len();
    let mut res: Vec<&'a str> = Vec::new();
    let mut start: usize = 0;
    let mut i: usize = 0;
    proof {
        assert(s@.subrange(0, n as int) =~= s@);
        assert(res.deep_view() =~= Seq::<Seq<char>>::empty());
        assert(res.deep_view() + spec_lines(s@) =~= spec_lines(s@));
    }
    while i < n
        invariant
            n == s@.len(),
            0 <= start <= i <= n,
            forall|k: int| start <= k < i ==> s@[k] != '\n',
            spec_lines(s@) == res.deep_view() + spec_lines(s@.subrange(start as int, n as int)),
        decreases n - i,
    {
        if s.get_char(i) == '\n' {
            let mut end: usize = i;
            if end > start && s.get_char(end - 1) == '\r' {
                end = end - 1;
            }
            let line = s.substring_char(start, end);
            let ghost pred = res.deep_view();
            res.push(line);
            proof {
                let rest = s@.subrange(start as int, n as int);
                assert(rest[i - start] == s@[i as int]);
                assert forall|k: int| 0 <= k < i - start implies rest[k] != '\n' by {
                    assert(rest[k] == s@[start + k]);
                }
                lemma_find_char_at(rest, '\n', i - start);
                assert(strip_cr(rest.subrange(0, i - start)) =~= line@) by {
                    assert(rest.subrange(0, i - start) =~= s@.subrange(start as int, i as int));
                    if i > start && s@[i - 1] == '\r' {
                        assert(s@.subrange(start as int, i as int).last() == '\r');
                        assert(s@.subrange(start as int, i as int).drop_last() =~= s@.subrange(
                            start as int,
                            (i - 1) as int,
                        ));
                    } else if i > start {
                        assert(s@.subrange(start as int, i as int).last() == s@[i - 1]);
                    }
                }
                assert(rest.subrange(i - start + 1, rest.len() as int) =~= s@.subrange(
                    (i + 1) as int,
                    n as int,
                ));
                assert(spec_lines(rest) == seq![line@] + spec_lines(
                    s@.subrange((i + 1) as int, n as int),
                ));
                assert forall|k: int| 0 <= k < pred.len() implies res.deep_view()[k] == pred[k] by {}
                assert(res.deep_view() =~= pred.push(line@));
                assert(res.deep_view() + spec_lines(s@.subrange((i + 1) as int, n as int)) =~= pred
                    + spec_lines(rest));
            }
            start = i + 1;
        }
        i = i + 1;
    }
    if start < n {
        let line = s.substring_char(start, n);
        let ghost pred = res.deep_view();
        res.push(line);
        proof {
            let rest = s@.subrange(start as int, n as int);
            assert forall|k: int| 0 <= k < rest.len() implies rest[k] != '\n' by {
                assert(rest[k] == s@[start + k]);
            }
            lemma_find_char_none(rest, '\n');
            assert(rest.len() > 0);
            assert(spec_lines(rest) == seq![rest]);
            assert(line@ =~= rest);
            assert forall|k: int| 0 <= k < pred.len() implies res.deep_view()[k] == pred[k] by {}
            assert(res.deep_view() =~= pred.push(line@));
            assert(res.deep_view() =~= pred + seq![rest]);
        }
    } else {
        proof {
            let rest = s@.subrange(start as int, n as int);
            assert(rest.len() == 0);
            assert(spec_lines(rest) == Seq::<Seq<char>>::empty());
            assert(res.deep_view() =~= res.deep_view() + spec_lines(rest));
        }
    }
    res
}

/// A new-file header line: `+++ b/<path>`.
pub open spec fn is_file_header(l: Seq<char>) -> bool {
    l.len() >= 3 && l[0] == '+' && l[1] == '+' && l[2] == '+'
}

/// A hunk header line: `@@ -<old> +<new> @@ ...`.
pub open spec fn is_hunk_header(l: Seq<char>) -> bool {
    l.len() >= 2 && l[0] == '@' && l[1] == '@'
}

/// An unchanged line carried for context.
pub open spec fn is_context_line(l: Seq<char>) -> bool {
    l.len() >= 1 && l[0] == ' '
}

/// An added line (the `+++` header is not one).
pub open spec fn is_addition_line(l: Seq<char>) -> bool {
    l.len() >= 1 && l[0] == '+' && !is_file_header(l)
}

/// A removed line, or the `---` header.
pub open spec fn is_removal_line(l: Seq<char>) -> bool {
    l.len() >= 1 && l[0] == '-'
}

/// The path carried by a `+++` header: what follows the first slash, which
/// strips the `b/` prefix a diff puts there; empty when there is no slash.
pub open spec fn header_file_name(l: Seq<char>) -> Seq<char> {
    match find_char(l, '/') {
        Some(i) => if 0 <= i < l.len() {
            l.subrange(i + 1, l.len() as int)
        } else {
            Seq::empty()
        },
        None => Seq::empty(),
    }
}

/// `x + 1`, held at `u32::MAX`.
pub open spec fn saturating_inc(x: int) -> int {
    if x < u32::MAX {
        x + 1
    } else {
        x
    }
}

/// The parser's whole state between lines. `line_start == 0` means no run
/// of added lines is pending; `ok` turns false on an undecodable hunk
/// header and never recovers.
#[verifier::ext_equal]
pub struct ParseState {
    pub ok: bool,
    pub sections: Seq<SectionV>,
    pub file: Seq<char>,
    pub line_start: int,
    pub line_end: int,
    pub current_line: int,
}

pub open spec fn initial_state() -> ParseState {
    ParseState {
        ok: true,
        sections: Seq::empty(),
        file: Seq::empty(),
        line_start: 0,
        line_end: 0,
        current_line: 0,
    }
}

/// Close a pending run: push it as a section and clear the pending range.
pub open spec fn flush(st: ParseState) -> ParseState {
    if st.line_start != 0 {
        ParseState {
            sections: st.sections.push(
                SectionV { file_name: st.file, line_start: st.line_start, line_end: st.line_end },
            ),
            line_start: 0,
            line_end: 0,
            ..st
        }
    } else {
        ParseState { line_start: 0, line_end: 0, ..st }
    }
}

/// One line of diff text applied to the parser state:
/// a `+++` header names the file; a hunk header moves the cursor to just
/// before the hunk's first new line, or fails the parse when undecodable;
/// context and added lines advance the cursor; an added line opens or
/// extends the pending run; any line that neither adds nor removes closes it.
pub open spec fn parse_step(st: ParseState, l: Seq<char>) -> ParseState {
    if !st.ok {
        st
    } else {
        let st1 = if is_file_header(l) {
            ParseState { file: header_file_name(l), ..st }
        } else {
            st
        };
        if is_hunk_header(l) && hunk_new_start(l) is None {
            ParseState { ok: false, ..st1 }
        } else {
            let st2 = if is_hunk_header(l) {
                ParseState {
                    current_line: if hunk_new_start(l)->0 > 0 {
                        hunk_new_start(l)->0 - 1
                    } else {
                        0
                    },
                    ..st1
                }
            } else {
                st1
            };
            let st3 = if is_context_line(l) || is_addition_line(l) {
                ParseState { current_line: saturating_inc(st2.current_line), ..st2 }
            } else {
                st2
            };
            if is_addition_line(l) {
                if st3.line_start == 0 {
                    ParseState { line_start: st3.current_line, line_end: st3.current_line, ..st3 }
                } else {
                    ParseState {
                        line_end: if st3.line_end < u32::MAX {
                            st3.line_end + 1
                        } else {
                            st3.line_end
                        },
                        ..st3
                    }
                }
            } else if !is_removal_line(l) {
                flush(st3)
            } else {
                st3
            }
        }
    }
}

/// The parser state after the given lines, in order.
pub open spec fn parse_lines(lines: Seq<Seq<char>>) -> ParseState
    decreases lines.len(),
{
    if lines.len() == 0 {
        initial_state()
    } else {
        parse_step(parse_lines(lines.drop_last()), lines.last())
    }
}

/// The parser state after all of `text`, with the run still pending at the
/// end of input flushed.
pub open spec fn final_state(text: Seq<char>) -> ParseState {
    let st = parse_lines(spec_lines(text));
    if st.ok {
        flush(st)
    } else {
        st
    }
}

/// Every section flushed so far has a well-formed 1-based range, the
/// cursor and the pending bounds fit `u32`, and a pending run ends at the
/// cursor.
pub open spec fn state_wf(st: ParseState) -> bool {
    &&& forall|i: int| 0 <= i < st.sections.len() ==> section_wf(#[trigger] st.sections[i])
    &&& 0 <= st.current_line <= u32::MAX
    &&& 0 <= st.line_start <= u32::MAX
    &&& 0 <= st.line_end <= u32::MAX
    &&& (st.line_start != 0 ==> 1 <= st.line_start <= st.line_end && st.line_end
        == st.current_line)
}

proof fn lemma_hunk_new_start_bounds(l: Seq<char>)
    ensures
        hunk_new_start(l) matches Some(v) ==> 0 <= v <= u32::MAX,
{
    lemma_find_char_found(l, '+');
    if hunk_new_start(l) is Some {
        let p = find_char(l, '+')->0;
        lemma_digits_len_bounds(l, p + 1);
        lemma_digits_value_nonneg(l, p + 1, digits_len(l, p + 1));
    }
}

proof fn lemma_step_wf(st: ParseState, l: Seq<char>)
    requires
        state_wf(st),
    ensures
        state_wf(parse_step(st, l)),
{
    lemma_hunk_new_start_bounds(l);
    let stn = parse_step(st, l);
    if st.ok && !(is_hunk_header(l) && hunk_new_start(l) is None) {
        assert forall|i: int| 0 <= i < stn.sections.len() implies section_wf(
            #[trigger] stn.sections[i],
        ) by {
            if i < st.sections.len() {
                assert(section_wf(st.sections[i]));
            }
        }
    }
}

proof fn lemma_parse_wf(lines: Seq<Seq<char>>)
    ensures
        state_wf(parse_lines(lines)),
    decreases lines.len(),
{
    if lines.len() > 0 {
        lemma_parse_wf(lines.drop_last());
        lemma_step_wf(parse_lines(lines.drop_last()), lines.last());
    }
}

proof fn lemma_parse_snoc(lines: Seq<Seq<char>>, k: int)
    requires
        0 <= k < lines.len(),
    ensures
        parse_lines(lines.subrange(0, k + 1)) == parse_step(
            parse_lines(lines.subrange(0, k)),
            lines[k],
        ),
{
    let cur = lines.subrange(0, k + 1);
    assert(cur.drop_last() =~= lines.subrange(0, k));
    assert(cur.last() == lines[k]);
}

proof fn lemma_error_sticky(lines: Seq<Seq<char>>, k: int)
    requires
        0 <= k <= lines.len(),
        !parse_lines(lines.subrange(0, k)).ok,
    ensures
        !parse_lines(lines).ok,
    decreases lines.len() - k,
{
    if k == lines.len() {
        assert(lines.subrange(0, k) =~= lines);
    } else {
        lemma_parse_snoc(lines, k);
        lemma_error_sticky(lines, k + 1);
    }
}

/// The exec parser state packaged as its model.
pub open spec fn exec_state(
    sections: Seq<SectionV>,
    file: Seq<char>,
    line_start: int,
    line_end: int,
    current_line: int,
) -> ParseState {
    ParseState { ok: true, sections, file, line_start, line_end, current_line }
}

/// Walks diff text and collects the added-line runs as `Section`s.
pub struct Parser {
    pub verbose: bool,
}

impl Parser {
    pub fn new() -> (r: Self)
        ensures
            !r.verbose,
    {
        Self { verbose: false }
    }

    pub fn set_verbose(&mut self, verbose: bool)
        ensures
            final(self).verbose == verbose,
    {
        self.verbose = verbose;
    }

    /// Parse unified-diff text into the runs of added lines it describes,
    /// one `Section` per run, in the order the text presents them. The one
    /// failure is a hunk header whose new-file start cannot be decoded;
    /// every section of a successful parse has a well-formed 1-based range.
    pub fn sections(&self, git_diff: &str) -> (r: Result<Vec<Section>, Error>)
        ensures
            ({
                let fin = final_state(git_diff@);
                match r {
                    Ok(v) => {
                        &&& fin.ok
                        &&& v.deep_view() == fin.sections
                        &&& forall|i: int|
                            0 <= i < v.deep_view().len() ==> section_wf(#[trigger] v.deep_view()[i])
                    },
                    Err(e) => !fin.ok && e matches Error::Git(_),
                }
            }),
    {
        let lines = split_lines(git_diff);
        let ghost lv: Seq<Seq<char>> = lines.deep_view();
        let mut sections: Vec<Section> = Vec::new();
        let mut file_name: &str = "";
        let mut line_start: u32 = 0;
        let mut line_end: u32 = 0;
        let mut current_line: u32 = 0;
        proof {
            assert(lv == spec_lines(git_diff@));
            reveal_strlit("");
            assert(file_name@ =~= Seq::<char>::empty());
            assert(sections.deep_view() =~= Seq::<SectionV>::empty());
            assert(lv.subrange(0, 0) =~= Seq::<Seq<char>>::empty());
            assert(parse_lines(lv.subrange(0, 0)) =~= exec_state(
                sections.deep_view(),
                file_name@,
                line_start as int,
                line_end as int,
                current_line as int,
            ));
        }
        let mut k: usize = 0;
        while k < lines.len()
            invariant
                lv == spec_lines(git_diff@),
                lv == lines.deep_view(),
                lines@.len() == lv.len(),
                k <= lines@.len(),
                parse_lines(lv.subrange(0, k as int)) == exec_state(
                    sections.deep_view(),
                    file_name@,
                    line_start as int,
                    line_end as int,
                    current_line as int,
                ),
            decreases lines@.len() - k,
        {
            let ghost stpre = parse_lines(lv.subrange(0, k as int));
            proof {
                lemma_parse_wf(lv.subrange(0, k as int));
                lemma_parse_snoc(lv, k as int);
                lemma_hunk_new_start_bounds(lv[k as int]);
            }
            let l: &str = lines[k];
            proof {
                assert(l@ == lv[k as int]);
            }
            let llen = l.unicode_len();
            let is_file_hdr = llen >= 3 && l.get_char(0) == '+' && l.get_char(1) == '+'
                && l.get_char(2) == '+';
            let is_hunk = llen >= 2 && l.get_char(0) == '@' && l.get_char(1) == '@';
            let is_ctx = llen >= 1 && l.get_char(0) == ' ';
            let is_add = llen >= 1 && l.get_char(0) == '+' && !is_file_hdr;
            let is_rem = llen >= 1 && l.get_char(0) == '-';
            proof {
                assert(is_file_hdr == is_file_header(l@));
                assert(is_hunk == is_hunk_header(l@));
                assert(is_ctx == is_context_line(l@));
                assert(is_add == is_addition_line(l@));
                assert(is_rem == is_removal_line(l@));
            }
            // File added or edited
            // +++ b/Cargo.lock
            if is_file_hdr {
                file_name = match find_char_in(l, '/') {
                    Some(idx) => {
                        proof {
                            lemma_find_char_found(l@, '/');
                        }
                        l.substring_char(idx + 1, llen)
                    },
                    None => "",
                };
                proof {
                    reveal_strlit("");
                    assert(file_name@ =~= header_file_name(l@));
                }
            }
            // Actual diff lines
            // '@@ -33,6 +33,9 @@ version = "0.1.0"'
            if is_hunk {
                match get_diff_line_start(l) {
                    Some(v) => {
                        current_line = if v > 0 {
                            v - 1
                        } else {
                            0
                        };
                    },
                    None => {
                        proof {
                            assert(!parse_step(stpre, l@).ok);
                            assert(!parse_lines(lv.subrange(0, (k + 1) as int)).ok);
                            lemma_error_sticky(lv, k as int + 1);
                            assert(!final_state(git_diff@).ok);
                        }
                        return Err(Error::Git("malformed hunk header in diff".to_owned()));
                    },
                }
            }
            // Increase the current line counter if added or untouched line in diff
            if is_ctx || is_add {
                current_line = if current_line < u32::MAX {
                    current_line + 1
                } else {
                    current_line
                };
            }
            // Set the sections start & end if added line (+)
            if is_add {
                if line_start == 0 {
                    line_start = current_line;
                    line_end = current_line;
                } else {
                    line_end = if line_end < u32::MAX {
                        line_end + 1
                    } else {
                        line_end
                    };
                }
                // When consecutive added (+) lines stop, create the section and push it
            } else if !is_rem {
                if line_start != 0 {
                    let ghost pred = sections.deep_view();
                    let mut current_section = SectionBuilder::new();
                    current_section.file_name(file_name.to_owned());
                    current_section.line_start(line_start);
                    current_section.line_end(line_end);
                    match current_section.build() {
                        Some(s) => {
                            sections.push(s);
                            proof {
                                assert forall|t: int|
                                    0 <= t < pred.len() implies #[trigger] sections.deep_view()[t]
                                    == pred[t] by {}
                                assert(sections.deep_view()[pred.len() as int] == (SectionV {
                                    file_name: file_name@,
                                    line_start: line_start as int,
                                    line_end: line_end as int,
                                }));
                                assert(sections.deep_view() =~= pred.push(
                                    SectionV {
                                        file_name: file_name@,
                                        line_start: line_start as int,
                                        line_end: line_end as int,
                                    },
                                ));
                            }
                        },
                        None => {
                            proof {
                                assert(false);
                            }
                        },
                    }
                }
                // Resets start and end for next section
                line_start = 0;
                line_end = 0;
            }
            proof {
                let stnext = parse_step(stpre, l@);
                assert(stnext =~= exec_state(
                    sections.deep_view(),
                    file_name@,
                    line_start as int,
                    line_end as int,
                    current_line as int,
                ));
            }
            k = k + 1;
        }
        proof {
            assert(lv.subrange(0, lv.len() as int) =~= lv);
            lemma_parse_wf(lv);
        }
        let ghost st = parse_lines(lv);
        // A run still pending at the end of input is a section too.
        if line_start != 0 {
            let ghost pred = sections.deep_view();
            let mut current_section = SectionBuilder::new();
            current_section.file_name(file_name.to_owned());
            current_section.line_start(line_start);
            current_section.line_end(line_end);
            match current_section.build() {
                Some(s) => {
                    sections.push(s);
                    proof {
                        assert forall|t: int|
                            0 <= t < pred.len() implies #[trigger] sections.deep_view()[t]
                            == pred[t] by {}
                        assert(sections.deep_view()[pred.len() as int] == (SectionV {
                            file_name: file_name@,
                            line_start: line_start as int,
                            line_end: line_end as int,
                        }));
                        assert(sections.deep_view() =~= pred.push(
                            SectionV {
                                file_name: file_name@,
                                line_start: line_start as int,
                                line_end: line_end as int,
                            },
                        ));
                    }
                },
                None => {
                    proof {
                        assert(false);
                    }
                },
            }
        }
        proof {
            let fin = final_state(git_diff@);
            assert(fin == flush(st));
            assert(fin.sections =~= sections.deep_view());
            assert forall|i: int|
                0 <= i < sections.deep_view().len() implies section_wf(
                #[trigger] sections.deep_view()[i],
            ) by {
                if i < st.sections.len() {
                    assert(section_wf(st.sections[i]));
                }
            }
        }
        Ok(sections)
    }
}

} // verus!
