//! Severity codes aggregated over a traversal, and the diagnostics that
//! accompany every absorbed failure.

use vstd::prelude::*;

verus! {

/// Severity of the worst problem encountered during a traversal, ordered
/// `OK < MinorIssue < MajorIssue`.  The tree-building core only ever
/// produces `OK` or `MinorIssue`; `MajorIssue` is reserved for fatal
/// conditions of a surrounding tool.
#[derive(Clone, Copy, Debug, PartialEq, Eq, Structural)]
pub enum ExitCode {
    OK,
    MinorIssue,
    MajorIssue,
}

impl ExitCode {
    /// Position of the code in the severity order.
    pub open spec fn rank(self) -> int {
        match self {
            ExitCode::OK => 0,
            ExitCode::MinorIssue => 1,
            ExitCode::MajorIssue => 2,
        }
    }

    /// The more severe of two codes.
    pub open spec fn spec_max(self, other: ExitCode) -> ExitCode {
        if other.rank() > self.rank() {
            other
        } else {
            self
        }
    }

    /// Raises `self` to `other` when `other` is more severe; severity
    /// never decreases.
    pub fn set_if_greater(&mut self, other: ExitCode)
        ensures
            *final(self) == old(self).spec_max(other),
    {
        let mine = self.rank_exec();
        if other.rank_exec() > mine {
            *self = other;
        }
    }

    fn rank_exec(&self) -> (r: u8)
        ensures
            r as int == self.rank(),
    {
        match self {
            ExitCode::OK => 0,
            ExitCode::MinorIssue => 1,
            ExitCode::MajorIssue => 2,
        }
    }
}

/// One reported failure: the path it concerns and the error message the
/// snapshot recorded for it.  A consumer prints it as `<path>: <message>.`.
#[derive(Debug)]
pub struct Diagnostic {
    pub path: String,
    pub message: String,
}

/// Mathematical value of a diagnostic: both strings as character sequences.
pub ghost struct DiagView {
    pub path: Seq<char>,
    pub message: Seq<char>,
}

impl View for Diagnostic {
    type V = DiagView;

    open spec fn view(&self) -> DiagView {
        DiagView { path: self.path@, message: self.message@ }
    }
}

/// The views of a sequence of diagnostics, in order.
pub open spec fn dviews(s: Seq<Diagnostic>) -> Seq<DiagView> {
    s.map_values(|d: Diagnostic| d@)
}

pub proof fn lemma_dviews_push(s: Seq<Diagnostic>, d: Diagnostic)
    ensures
        dviews(s.push(d)) == dviews(s).push(d@),
{
    assert(dviews(s.push(d)) =~= dviews(s).push(d@));
}

pub proof fn lemma_dviews_concat(s: Seq<Diagnostic>, t: Seq<Diagnostic>)
    ensures
        dviews(s + t) == dviews(s) + dviews(t),
{
    assert(dviews(s + t) =~= dviews(s) + dviews(t));
}

} // verus!
