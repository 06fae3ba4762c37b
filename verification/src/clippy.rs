//! The data model of a lint report: what the analysis tool says about one
//! finding, with the spans it was reported on. An adapter around the tool
//! fills these in; the correlation engine reads them.

use vstd::prelude::*;

verus! {

#[derive(Debug, PartialEq)]
pub struct LintCode {
    pub code: String,
    pub explanation: String,
}

#[derive(Debug, PartialEq)]
pub struct LintSpan {
    pub file_name: String,
    /// The line where the lint should be reported
    ///
    /// GitHub provides a line_start and a line_end.
    /// We should use the line_start in case of multi-line lints.
    /// (Why?)
    pub line_start: usize,
}

/// The mathematical shape of a `Span`.
#[verifier::ext_equal]
pub struct SpanV {
    pub file_name: Seq<char>,
    pub line_start: int,
    pub line_end: int,
}

/// A `Span` has a file name, a start and an end line, 1-based inclusive.
#[derive(Debug, PartialEq)]
pub struct Span {
    pub file_name: String,
    pub line_start: u32,
    pub line_end: u32,
}

impl View for Span {
    type V = SpanV;

    open spec fn view(&self) -> SpanV {
        SpanV {
            file_name: self.file_name@,
            line_start: self.line_start as int,
            line_end: self.line_end as int,
        }
    }
}

impl DeepView for Span {
    type V = SpanV;

    open spec fn deep_view(&self) -> SpanV {
        self.view()
    }
}

impl Clone for Span {
    fn clone(&self) -> (r: Self)
        ensures
            r@ == self@,
    {
        Span {
            file_name: self.file_name.clone(),
            line_start: self.line_start,
            line_end: self.line_end,
        }
    }
}

/// The mathematical shape of a `Message`.
#[verifier::ext_equal]
pub struct MessageV {
    pub rendered: Seq<char>,
    pub spans: Seq<SpanV>,
}

/// The rendered text of one reported finding and the spans it points at.
#[derive(Debug, PartialEq)]
pub struct Message {
    pub rendered: String,
    pub spans: Vec<Span>,
}

impl View for Message {
    type V = MessageV;

    open spec fn view(&self) -> MessageV {
        MessageV { rendered: self.rendered@, spans: self.spans.deep_view() }
    }
}

impl DeepView for Message {
    type V = MessageV;

    open spec fn deep_view(&self) -> MessageV {
        self.view()
    }
}

impl Clone for Message {
    fn clone(&self) -> (r: Self)
        ensures
            r@ == self@,
    {
        let mut spans: Vec<Span> = Vec::new();
        let mut i: usize = 0;
        while i < self.spans.len()
            invariant
                i <= self.spans.len(),
                spans@.len() == i,
                forall|k: int| 0 <= k < i ==> #[trigger] spans@[k]@ == self.spans@[k]@,
            decreases self.spans.len() - i,
        {
            spans.push(self.spans[i].clone());
            i = i + 1;
        }
        proof {
            assert forall|k: int|
                0 <= k < self.spans@.len() implies #[trigger] spans.deep_view()[k]
                == self.spans.deep_view()[k] by {
                assert(spans@[k]@ == self.spans@[k]@);
            }
            assert(spans.deep_view() =~= self.spans.deep_view());
        }
        Message { rendered: self.rendered.clone(), spans }
    }
}

/// The mathematical shape of a `Lint`.
#[verifier::ext_equal]
pub struct LintV {
    pub package_id: Seq<char>,
    pub src_path: Option<Seq<char>>,
    pub message: Option<MessageV>,
}

/// One entry of the analysis tool's report.
#[derive(Debug, PartialEq)]
pub struct Lint {
    /// The lint message
    ///
    /// Example:
    ///
    /// unused variable: `count`
    pub package_id: String,
    pub src_path: Option<String>,
    pub message: Option<Message>,
}

impl View for Lint {
    type V = LintV;

    open spec fn view(&self) -> LintV {
        LintV {
            package_id: self.package_id@,
            src_path: self.src_path.deep_view(),
            message: match self.message {
                Some(m) => Some(m@),
                None => None,
            },
        }
    }
}

impl DeepView for Lint {
    type V = LintV;

    open spec fn deep_view(&self) -> LintV {
        self.view()
    }
}

impl Clone for Lint {
    fn clone(&self) -> (r: Self)
        ensures
            r@ == self@,
    {
        Lint {
            package_id: self.package_id.clone(),
            src_path: match &self.src_path {
                Some(p) => Some(p.clone()),
                None => None,
            },
            message: match &self.message {
                Some(m) => Some(m.clone()),
                None => None,
            },
        }
    }
}

} // verus!
