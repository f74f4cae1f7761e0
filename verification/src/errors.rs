//! Typed error values: every failure is an explicit value, never thrown
//! control flow.

use vstd::prelude::*;

verus! {

/// Why a commit message is not a conventional commit.
#[derive(Debug, PartialEq)]
pub enum ConventionalCommitParseError {
    /// The message holds no `:` at all.
    MissingColumn,
    /// The message holds a literal `()`.
    EmptyScope,
    /// The first `:` is not followed by a space.
    NoSpaceAfterColumn,
    /// The type token is not one of the configured commit types.
    InvalidType { expected: Vec<String>, found: String },
}

/// Mathematical model of a parse error, over character sequences.
pub enum CommitParseErrorView {
    MissingColumn,
    EmptyScope,
    NoSpaceAfterColumn,
    InvalidType { expected: Seq<Seq<char>>, found: Seq<char> },
}

impl View for ConventionalCommitParseError {
    type V = CommitParseErrorView;

    open spec fn view(&self) -> CommitParseErrorView {
        match self {
            ConventionalCommitParseError::MissingColumn => CommitParseErrorView::MissingColumn,
            ConventionalCommitParseError::EmptyScope => CommitParseErrorView::EmptyScope,
            ConventionalCommitParseError::NoSpaceAfterColumn
                => CommitParseErrorView::NoSpaceAfterColumn,
            ConventionalCommitParseError::InvalidType { expected, found }
                => CommitParseErrorView::InvalidType {
                expected: expected.deep_view(),
                found: found@,
            },
        }
    }
}

/// A failed commit-history check.
#[derive(Debug, PartialEq)]
pub enum CheckError {
    /// The history holds commits that are not conventional; the payload is
    /// the rendered report.
    CCNotCompliant(String),
}

/// A failed command.
#[derive(Debug)]
pub enum CommandError {
    CheckError(CheckError),
    ReleaseError,
}

impl From<CheckError> for CommandError {
    fn from(e: CheckError) -> (r: Self) {
        CommandError::CheckError(e)
    }
}

impl vstd::std_specs::convert::FromSpecImpl<CheckError> for CommandError {
    open spec fn obeys_from_spec() -> bool {
        true
    }

    open spec fn from_spec(e: CheckError) -> Self {
        CommandError::CheckError(e)
    }
}


/// An error stream reported by the external git collaborator, carried
/// verbatim.
#[derive(Debug, PartialEq)]
pub struct GitCommandError {
    pub stderr: Vec<u8>,
}

/// Decides whether a git invocation failed: a non-empty error stream is a
/// failure, and its bytes come back untouched.
pub fn check_git_error(stderr: Vec<u8>) -> (r: Result<(), GitCommandError>)
    ensures
        r is Ok <==> stderr@.len() == 0,
        r matches Err(e) ==> e.stderr@ == stderr@,
{
    if stderr.len() == 0 {
        Ok(())
    } else {
        Err(GitCommandError { stderr })
    }
}

} // verus!
