//! The data types shared by the filtering pipeline: the filter predicate,
//! raw numbered lines, classified lines, and the gap state of the
//! classifier.

use vstd::prelude::*;
use crate::substring::{contains_seq, str_contains};

verus! {

/// Parameters used when creating a filtering pipeline.
pub struct FilterPredicate {
    /// Search string which must be included in a line to be considered a
    /// match.
    pub filter_string: String,
    /// Number of non-match lines above and below a match line to include
    /// in the classified output.
    pub context_lines: usize,
}

/// Mathematical content of a `FilterPredicate`.
pub struct PredView {
    pub filter_string: Seq<char>,
    pub context_lines: nat,
}

impl View for FilterPredicate {
    type V = PredView;

    open spec fn view(&self) -> PredView {
        PredView {
            filter_string: self.filter_string@,
            context_lines: self.context_lines as nat,
        }
    }
}

impl Clone for FilterPredicate {
    fn clone(&self) -> (res: Self)
        ensures
            res@ == self@,
    {
        FilterPredicate {
            filter_string: self.filter_string.clone(),
            context_lines: self.context_lines,
        }
    }
}

/// A line of the source together with its 1-based position there.
pub type NumberedLine = (usize, String);

/// Mathematical content of a line that the pipeline may emit.
pub enum LineView {
    Gap,
    Context(int, Seq<char>),
    Match(int, Seq<char>),
    Unfiltered(int, Seq<char>),
}

/// Representation of a line that might be returned from the filtering
/// pipeline.
#[derive(Debug, PartialEq)]
pub enum FilteredLine {
    /// A gap between context groups (i.e., groups of context lines
    /// corresponding to distinct match lines).
    Gap,
    /// A line which provides context before or after a matched line.
    ContextLine(NumberedLine),
    /// A line matched by a filter string.
    MatchLine(NumberedLine),
    /// A line emitted when no filter predicate is in use.
    UnfilteredLine(NumberedLine),
}

impl View for FilteredLine {
    type V = LineView;

    open spec fn view(&self) -> LineView {
        match self {
            FilteredLine::Gap => LineView::Gap,
            FilteredLine::ContextLine(nl) => LineView::Context(nl.0 as int, nl.1@),
            FilteredLine::MatchLine(nl) => LineView::Match(nl.0 as int, nl.1@),
            FilteredLine::UnfilteredLine(nl) => LineView::Unfiltered(nl.0 as int, nl.1@),
        }
    }
}

impl Clone for FilteredLine {
    fn clone(&self) -> (res: Self)
        ensures
            res@ == self@,
    {
        match self {
            FilteredLine::Gap => FilteredLine::Gap,
            FilteredLine::ContextLine(nl) => FilteredLine::ContextLine((nl.0, nl.1.clone())),
            FilteredLine::MatchLine(nl) => FilteredLine::MatchLine((nl.0, nl.1.clone())),
            FilteredLine::UnfilteredLine(nl) => FilteredLine::UnfilteredLine((nl.0, nl.1.clone())),
        }
    }
}

impl FilteredLine {
    /// The source line number carried by the line, if any: a `Gap` stands
    /// for elided lines and carries none.
    pub fn get_line_num(&self) -> (r: Option<usize>)
        ensures
            r == (match self@ {
                LineView::Gap => None::<usize>,
                LineView::Context(n, _) => Some(n as usize),
                LineView::Match(n, _) => Some(n as usize),
                LineView::Unfiltered(n, _) => Some(n as usize),
            }),
    {
        match self {
            FilteredLine::Gap => None,
            FilteredLine::ContextLine((line_num, _)) => Some(*line_num),
            FilteredLine::MatchLine((line_num, _)) => Some(*line_num),
            FilteredLine::UnfilteredLine((line_num, _)) => Some(*line_num),
        }
    }
}

/// Representation of a line classified against a filter string.
pub enum ContextLine {
    /// The line matched the filter string.
    Match(NumberedLine),
    /// The line did not match the filter string.
    NoMatch(NumberedLine),
}

impl ContextLine {
    pub open spec fn line_num(&self) -> int {
        match self {
            ContextLine::Match(nl) => nl.0 as int,
            ContextLine::NoMatch(nl) => nl.0 as int,
        }
    }

    pub open spec fn content(&self) -> Seq<char> {
        match self {
            ContextLine::Match(nl) => nl.1@,
            ContextLine::NoMatch(nl) => nl.1@,
        }
    }

    pub open spec fn is_match(&self) -> bool {
        match self {
            ContextLine::Match(_) => true,
            ContextLine::NoMatch(_) => false,
        }
    }

    /// Classifies a `NumberedLine` against a filter string, consuming it.
    pub fn from_numbered_line(numbered_line: NumberedLine, filter_string: &String) -> (r:
        ContextLine)
        ensures
            r.line_num() == numbered_line.0 as int,
            r.content() == numbered_line.1@,
            r.is_match() == contains_seq(numbered_line.1@, filter_string@),
    {
        if str_contains(numbered_line.1.as_str(), filter_string.as_str()) {
            ContextLine::Match(numbered_line)
        } else {
            ContextLine::NoMatch(numbered_line)
        }
    }

    /// Maps the classified line to the `FilteredLine` it stands for, given
    /// whether a filter predicate is active; the inner line is cloned.
    pub fn to_filtered_line(&self, pred: &Option<FilterPredicate>) -> (r: FilteredLine)
        ensures
            r@ == (if self.is_match() {
                LineView::Match(self.line_num(), self.content())
            } else if pred is Some {
                LineView::Context(self.line_num(), self.content())
            } else {
                LineView::Unfiltered(self.line_num(), self.content())
            }),
    {
        match self {
            ContextLine::Match(numbered_line) => {
                FilteredLine::MatchLine((numbered_line.0, numbered_line.1.clone()))
            },
            ContextLine::NoMatch(numbered_line) => {
                match pred {
                    Some(_) => FilteredLine::ContextLine(
                        (numbered_line.0, numbered_line.1.clone()),
                    ),
                    None => FilteredLine::UnfilteredLine(
                        (numbered_line.0, numbered_line.1.clone()),
                    ),
                }
            },
        }
    }
}

/// Representation of the classifier's encounter with a context gap.
pub enum Gap {
    /// The step now being produced opened a context gap.
    Current,
    /// The previous step produced a context gap.
    Previous,
    /// No context gap has been produced in the past two steps.
    Idle,
}

} // verus!
