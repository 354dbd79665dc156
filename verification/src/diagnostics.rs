//! Turning collected errors into something a person can read.
//!
//! Compilation gathers every problem it can before giving up, so the unit of reporting is
//! a *set* of problems against one file.
//!
//! The same spans feed the `# src/foo.mwl:42` comments in debug output, so there is one
//! notion of "where" in the compiler, not two.

use vstd::prelude::*;

use crate::syntax::lexer::lemma_offset_is_byte_length;
use crate::syntax::model::Fault;
use crate::syntax::{faults, SyntaxError};
use crate::text::{cat2, cat3, nat_text, offset, own, show_u64};

verus! {

/// What a problem says, and the byte range it is at.
pub struct ProblemModel {
    pub message: Seq<char>,
    pub start: usize,
    pub length: usize,
}

/// Every problem found in one file.
#[derive(Debug, PartialEq, Eq)]
pub struct Report {
    /// The file the problems are in.
    pub path: String,
    /// The text the problems are in.
    pub source: String,
    pub problems: Vec<Problem>,
}

#[derive(Debug, PartialEq, Eq)]
pub struct Problem {
    message: String,
    start: usize,
    length: usize,
}

/// A problem as it is shown. A zero-width span at end of input is common ("expected '}'"
/// after an unterminated block) and must still point somewhere in the source.
pub open spec fn problem_of(src: Seq<char>, fault: Fault) -> ProblemModel {
    ProblemModel {
        message: fault.message,
        start: if fault.span.start <= offset(src, src.len() as int) {
            fault.span.start
        } else {
            offset(src, src.len() as int) as usize
        },
        length: if fault.span.end >= fault.span.start {
            (fault.span.end - fault.span.start) as usize
        } else {
            0
        },
    }
}

pub open spec fn problems_of(src: Seq<char>, faults: Seq<Fault>) -> Seq<ProblemModel> {
    Seq::new(faults.len(), |i: int| problem_of(src, faults[i]))
}

/// Every problem begins inside the source it is about, or at its end.
pub proof fn lemma_problems_are_in_the_source(src: Seq<char>, fault: Fault)
    requires
        offset(src, src.len() as int) <= usize::MAX,
    ensures
        problem_of(src, fault).start <= offset(src, src.len() as int),
        problem_of(src, fault).start <= fault.span.start,
{
}

pub open spec fn problems_view(v: Seq<Problem>) -> Seq<ProblemModel> {
    Seq::new(v.len(), |i: int| v[i]@)
}

impl Problem {
    pub closed spec fn view(&self) -> ProblemModel {
        ProblemModel { message: self.message@, start: self.start, length: self.length }
    }

    pub fn message(&self) -> (r: &str)
        ensures
            r@ == self@.message,
    {
        self.message.as_str()
    }

    /// Where it is, as a byte range into the source that was compiled: the first byte, and
    /// how many there are.
    pub fn range(&self) -> (r: (usize, usize))
        ensures
            r == (self@.start, self@.length),
    {
        (self.start, self.length)
    }
}

impl Report {
    pub open spec fn view(&self) -> Seq<ProblemModel> {
        problems_view(self.problems@)
    }

    /// How many problems there are, and where.
    pub fn to_string(&self) -> (r: String)
        ensures
            r@ == if self@.len() == 1 {
                "1 problem in "@ + self.path@
            } else {
                nat_text(self@.len()) + " problems in "@ + self.path@
            },
    {
        if self.problems.len() == 1 {
            cat2("1 problem in ", self.path.as_str())
        } else {
            cat3(
                show_u64(self.problems.len() as u64).as_str(),
                " problems in ",
                self.path.as_str(),
            )
        }
    }

    pub fn new(path: &str, src: &str, errors: Vec<SyntaxError>) -> (r: Report)
        ensures
            r@ == problems_of(src@, faults(errors@)),
            r.path@ == path@,
            r.source@ == src@,
    {
        let total: usize = src.as_bytes().len();
        proof {
            lemma_offset_is_byte_length(src@);
        }
        let ghost shown = problems_of(src@, faults(errors@));
        let mut problems: Vec<Problem> = Vec::new();
        let mut i: usize = 0;
        while i < errors.len()
            invariant
                i <= errors@.len(),
                total == offset(src@, src@.len() as int),
                shown == problems_of(src@, faults(errors@)),
                problems@.len() == i,
                forall|k: int| 0 <= k < i ==> (#[trigger] problems@[k])@ == shown[k],
            decreases errors.len() - i,
        {
            let span = errors[i].span;
            let start: usize = if span.start <= total {
                span.start
            } else {
                total
            };
            let length: usize = if span.end >= span.start {
                span.end - span.start
            } else {
                0
            };
            problems.push(Problem { message: errors[i].message.clone(), start, length });
            i += 1;
        }
        let r = Report { path: own(path), source: own(src), problems };
        proof {
            assert(r@ =~= shown);
        }
        r
    }

    /// `None` when there was nothing wrong.
    pub fn of(path: &str, src: &str, errors: Vec<SyntaxError>) -> (r: Option<Report>)
        ensures
            r is None <==> errors@.len() == 0,
            r is Some ==> r->0@ == problems_of(src@, faults(errors@)) && r->0.path@ == path@
                && r->0.source@ == src@,
    {
        if errors.len() == 0 {
            None
        } else {
            Some(Report::new(path, src, errors))
        }
    }
}

} // verus!
