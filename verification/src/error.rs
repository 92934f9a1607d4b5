//! The failures of a bundling run.

use crate::snapshot::{Query, QueryView};
use crate::text::strings;
use vstd::prelude::*;

verus! {

/// Why a run was given up.
#[derive(Debug, PartialEq, Eq)]
pub enum BundleError {
    /// A path is missing, is no regular file, or lacks the parent or the
    /// file name that was asked of it. Holds the path.
    Path(String),
    /// An inspection tool could not be run. Holds the path it was run on.
    ToolsetInvocation(String),
    /// A piece of tool output lacks what was expected of it. Holds the entry
    /// or line that could not be read, or the path of the binary whose
    /// output holds no entry at all.
    Parse(String),
    /// A reference was found in none of the run-path directories of the
    /// binary that makes it.
    Resolution {
        /// The reference as the binary writes it.
        reference: String,
        /// Every directory that was tried, in the order of the search.
        candidates: Vec<String>,
    },
    /// A dependency line is neither a system library, a run-path reference
    /// nor an absolute path. Holds the reference.
    UnrecognizedReference(String),
    /// The metadata of a binary could not be rewritten. Holds the path of the
    /// binary where a node misses what the rewrite needs, else what the tool
    /// printed.
    Relocation(String),
    /// A binary could not be signed. Holds its path.
    Signing(String),
    /// The snapshot holds no answer to a question that had to be asked.
    Unobserved(Query),
}

/// A failure as contracts speak of it.
pub enum ErrorView {
    Path(Seq<char>),
    ToolsetInvocation(Seq<char>),
    Parse(Seq<char>),
    Resolution { reference: Seq<char>, candidates: Seq<Seq<char>> },
    UnrecognizedReference(Seq<char>),
    Relocation(Seq<char>),
    Signing(Seq<char>),
    Unobserved(QueryView),
}

impl View for BundleError {
    type V = ErrorView;

    open spec fn view(&self) -> ErrorView {
        match *self {
            BundleError::Path(p) => ErrorView::Path(p@),
            BundleError::ToolsetInvocation(p) => ErrorView::ToolsetInvocation(p@),
            BundleError::Parse(p) => ErrorView::Parse(p@),
            BundleError::Resolution { reference, candidates } => ErrorView::Resolution {
                reference: reference@,
                candidates: strings(candidates@),
            },
            BundleError::UnrecognizedReference(p) => ErrorView::UnrecognizedReference(p@),
            BundleError::Relocation(p) => ErrorView::Relocation(p@),
            BundleError::Signing(p) => ErrorView::Signing(p@),
            BundleError::Unobserved(q) => ErrorView::Unobserved(q@),
        }
    }
}

/// The view of a result that holds a string.
pub open spec fn text_result(r: Result<String, BundleError>) -> Result<Seq<char>, ErrorView> {
    match r {
        Ok(s) => Ok(s@),
        Err(e) => Err(e@),
    }
}

/// The view of a result that holds a list of strings.
pub open spec fn list_result(r: Result<Vec<String>, BundleError>) -> Result<
    Seq<Seq<char>>,
    ErrorView,
> {
    match r {
        Ok(l) => Ok(strings(l@)),
        Err(e) => Err(e@),
    }
}

/// The view of a result that holds a plain value.
pub open spec fn plain_result<T>(r: Result<T, BundleError>) -> Result<T, ErrorView> {
    match r {
        Ok(v) => Ok(v),
        Err(e) => Err(e@),
    }
}

} // verus!
