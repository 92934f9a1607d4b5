//! The operations that a bundling run asks of its caller, and the reading of
//! how each of them ended.

use crate::error::{plain_result, BundleError, ErrorView};
use crate::text::{contains, str_contains};
use vstd::prelude::*;

verus! {

/// One operation on the bundle. The caller performs the operations of a run
/// in order and gives up at the first that failed.
#[derive(Debug, PartialEq, Eq)]
pub enum Action {
    /// Create the directory, with the directories above it.
    CreateDir(String),
    /// Copy the file at `from` to `to`, unless something is at `to` already.
    CopyFile { from: String, to: String },
    /// Set the identity of the library at `file` to `id`.
    SetId { file: String, id: String },
    /// Add `rpath` to the run-paths of the binary at `file`.
    AddRpath { file: String, rpath: String },
    /// In the binary at `file`, replace the reference `from` by `to`.
    ChangeInstallName { file: String, from: String, to: String },
    /// Sign the binary ad hoc.
    Sign(String),
}

/// An operation as contracts speak of it.
pub enum ActionView {
    CreateDir(Seq<char>),
    CopyFile { from: Seq<char>, to: Seq<char> },
    SetId { file: Seq<char>, id: Seq<char> },
    AddRpath { file: Seq<char>, rpath: Seq<char> },
    ChangeInstallName { file: Seq<char>, from: Seq<char>, to: Seq<char> },
    Sign(Seq<char>),
}

impl View for Action {
    type V = ActionView;

    open spec fn view(&self) -> ActionView {
        match *self {
            Action::CreateDir(p) => ActionView::CreateDir(p@),
            Action::CopyFile { from, to } => ActionView::CopyFile { from: from@, to: to@ },
            Action::SetId { file, id } => ActionView::SetId { file: file@, id: id@ },
            Action::AddRpath { file, rpath } => ActionView::AddRpath { file: file@, rpath: rpath@ },
            Action::ChangeInstallName { file, from, to } => ActionView::ChangeInstallName {
                file: file@,
                from: from@,
                to: to@,
            },
            Action::Sign(p) => ActionView::Sign(p@),
        }
    }
}

/// The path that an operation writes to.
pub open spec fn target_of(action: ActionView) -> Seq<char> {
    match action {
        ActionView::CreateDir(path) => path,
        ActionView::CopyFile { from, to } => to,
        ActionView::SetId { file, id } => file,
        ActionView::AddRpath { file, rpath } => file,
        ActionView::ChangeInstallName { file, from, to } => file,
        ActionView::Sign(path) => path,
    }
}

/// The views of the operations of `list`.
pub open spec fn action_views(list: Seq<Action>) -> Seq<ActionView> {
    list.map_values(|a: Action| a@)
}

/// The view of a result that holds a list of operations.
pub open spec fn actions_result(r: Result<Vec<Action>, BundleError>) -> Result<
    Seq<ActionView>,
    ErrorView,
> {
    match r {
        Ok(list) => Ok(action_views(list@)),
        Err(e) => Err(e@),
    }
}

/// How an operation ended: whether it succeeded, and what it printed as its
/// complaint.
#[derive(Debug, PartialEq, Eq)]
pub struct ToolRun {
    pub succeeded: bool,
    pub stderr: String,
}

/// What a tool prints when the run-path that it is to add is there already.
pub open spec fn already_present() -> Seq<char> {
    "file already has LC_RPATH"@
}

/// What the end of `action` means for the run. A run-path that could not be
/// added because it is there already counts as added.
pub open spec fn judged(action: ActionView, succeeded: bool, stderr: Seq<char>) -> Result<
    (),
    ErrorView,
> {
    if succeeded {
        Ok(())
    } else {
        match action {
            ActionView::CreateDir(path) => Err(ErrorView::Path(path)),
            ActionView::CopyFile { from, to } => Err(ErrorView::Path(to)),
            ActionView::SetId { file, id } => Err(ErrorView::Relocation(stderr)),
            ActionView::AddRpath { file, rpath } => if contains(stderr, already_present()) {
                Ok(())
            } else {
                Err(ErrorView::Relocation(stderr))
            },
            ActionView::ChangeInstallName { file, from, to } => Err(ErrorView::Relocation(stderr)),
            ActionView::Sign(path) => Err(ErrorView::Signing(path)),
        }
    }
}

/// Whether `action` is to be performed when it is known whether something
/// is at its target already: a file is copied only where nothing is there,
/// so that what is in the bundle is never overwritten; every other
/// operation is performed in any case.
pub open spec fn due(action: ActionView, target_present: bool) -> bool {
    !(action is CopyFile && target_present)
}

impl Action {
    /// Tells whether this operation is to be performed, given whether
    /// something is at the path that it writes to.
    pub fn is_due(&self, target_present: bool) -> (r: bool)
        ensures
            r == due(self@, target_present),
    {
        match self {
            Action::CopyFile { from: _, to: _ } => !target_present,
            _ => true,
        }
    }

    /// The path that this operation writes to.
    pub fn target(&self) -> (r: &String)
        ensures
            r@ == target_of(self@),
    {
        match self {
            Action::CreateDir(path) => path,
            Action::CopyFile { from: _, to } => to,
            Action::SetId { file, id: _ } => file,
            Action::AddRpath { file, rpath: _ } => file,
            Action::ChangeInstallName { file, from: _, to: _ } => file,
            Action::Sign(path) => path,
        }
    }

    /// Reads how this operation ended.
    pub fn outcome(&self, run: &ToolRun) -> (r: Result<(), BundleError>)
        ensures
            plain_result(r) == judged(self@, run.succeeded, run.stderr@),
    {
        if run.succeeded {
            return Ok(());
        }
        match self {
            Action::CreateDir(path) => Err(BundleError::Path(path.clone())),
            Action::CopyFile { from: _, to } => Err(BundleError::Path(to.clone())),
            Action::SetId { file: _, id: _ } => Err(BundleError::Relocation(run.stderr.clone())),
            Action::AddRpath { file: _, rpath: _ } => {
                if str_contains(run.stderr.as_str(), "file already has LC_RPATH") {
                    Ok(())
                } else {
                    Err(BundleError::Relocation(run.stderr.clone()))
                }
            },
            Action::ChangeInstallName { file: _, from: _, to: _ } => Err(
                BundleError::Relocation(run.stderr.clone()),
            ),
            Action::Sign(path) => Err(BundleError::Signing(path.clone())),
        }
    }
}

} // verus!
