//! A whole run: from the binary to bundle to the operations that make the
//! bundle.

use crate::action::{action_views, actions_result, Action, ActionView};
use crate::error::{BundleError, ErrorView};
use crate::graph::{grown, Visited};
use crate::helpers::{check_input_file, file_kind, BinType, BinTypeView};
use crate::model::{
    attempted, created, default_libs_path, passed, tree_result, Binary, BinaryView, PassView,
};
use crate::plan::{gathered, Plan};
use crate::snapshot::Snapshot;
use vstd::prelude::*;

verus! {

/// The tree of the binary `v` as a run lays it out for a bundle at `dest`
/// with its libraries in `libs`: the dependencies are discovered, symbolic
/// links are resolved, every library gets its identity, and every node its
/// directory and its path in the bundle. Each pass is done with the whole
/// tree before the next begins.
pub open spec fn laid_out(snapshot: Snapshot, v: BinaryView, dest: Seq<char>, libs: Seq<char>) -> Result<
    BinaryView,
    ErrorView,
> {
    match grown(snapshot, v, Set::empty()).found {
        Err(e) => Err(e),
        Ok(tree) => match passed(PassView::Symlinks(snapshot), tree) {
            Err(e) => Err(e),
            Ok(tree) => match passed(PassView::Identities, tree) {
                Err(e) => Err(e),
                Ok(tree) => match passed(PassView::LibsPath(libs), tree) {
                    Err(e) => Err(e),
                    Ok(tree) => match passed(PassView::DestFolder(dest), tree) {
                        Err(e) => Err(e),
                        Ok(tree) => passed(PassView::Placement, tree),
                    },
                },
            },
        },
    }
}

/// The tree of the binary `v` as a run leaves it, whether it comes to its
/// end or fails on the way: the passes that were done are done with the
/// whole tree, and the pass that failed has left the tree as far as it
/// came.
pub open spec fn left_by_run(
    snapshot: Snapshot,
    v: BinaryView,
    dest: Seq<char>,
    libs: Seq<char>,
) -> BinaryView {
    let discovery = grown(snapshot, v, Set::empty());
    match discovery.found {
        Err(_) => discovery.left,
        Ok(tree) => match passed(PassView::Symlinks(snapshot), tree) {
            Err(_) => attempted(PassView::Symlinks(snapshot), tree),
            Ok(tree) => match passed(PassView::Identities, tree) {
                Err(_) => attempted(PassView::Identities, tree),
                Ok(tree) => match passed(PassView::LibsPath(libs), tree) {
                    Err(_) => attempted(PassView::LibsPath(libs), tree),
                    Ok(tree) => match passed(PassView::DestFolder(dest), tree) {
                        Err(_) => attempted(PassView::DestFolder(dest), tree),
                        Ok(tree) => attempted(PassView::Placement, tree),
                    },
                },
            },
        },
    }
}

/// The operations that make the bundle of the laid-out tree `tree`: all
/// copies first, then all rewrites, then all signatures.
pub open spec fn operations(tree: BinaryView) -> Result<Seq<ActionView>, ErrorView> {
    match gathered(Plan::Copy, tree) {
        Err(e) => Err(e),
        Ok(copies) => match gathered(Plan::Relocate, tree) {
            Err(e) => Err(e),
            Ok(rewrites) => match gathered(Plan::Sign, tree) {
                Err(e) => Err(e),
                Ok(signatures) => Ok(copies + rewrites + signatures),
            },
        },
    }
}

/// The operations that bundle the binary `v` at `dest` with its libraries
/// in `libs`.
pub open spec fn bundled(snapshot: Snapshot, v: BinaryView, dest: Seq<char>, libs: Seq<char>) -> Result<
    Seq<ActionView>,
    ErrorView,
> {
    match laid_out(snapshot, v, dest, libs) {
        Err(e) => Err(e),
        Ok(tree) => operations(tree),
    }
}

/// The directory of the libraries that a run uses: the one that is given,
/// or the default.
pub open spec fn libs_path_of(libs_path: Option<&str>) -> Seq<char> {
    match libs_path {
        Some(p) => p@,
        None => default_libs_path(),
    }
}

impl Binary {
    /// Bundles this binary at `dest_folder`, with its libraries in the
    /// directory `libs_path` under it: discovers the tree of its
    /// dependencies, lays it out, and lists the operations that copy,
    /// relocate and sign the binaries of the bundle, in the order in which
    /// they are to be performed. After a failure the tree is left as the
    /// pass that failed left it: a new run starts from a new node.
    pub fn run(&mut self, snapshot: &Snapshot, dest_folder: &str, libs_path: Option<&str>) -> (r:
        Result<Vec<Action>, BundleError>)
        ensures
            actions_result(r) == bundled(
                *snapshot,
                old(self)@,
                dest_folder@,
                libs_path_of(libs_path),
            ),
            r is Ok ==> laid_out(*snapshot, old(self)@, dest_folder@, libs_path_of(libs_path))
                == Ok::<BinaryView, ErrorView>(final(self)@),
            final(self)@ == left_by_run(
                *snapshot,
                old(self)@,
                dest_folder@,
                libs_path_of(libs_path),
            ),
    {
        let mut libs_checked = Visited::new();
        match self.get_libs(snapshot, &mut libs_checked) {
            Ok(()) => {},
            Err(e) => {
                return Err(e);
            },
        }
        match self.resolve_symlinks(snapshot) {
            Ok(()) => {},
            Err(e) => {
                return Err(e);
            },
        }
        match self.change_install_names_as_rpath() {
            Ok(()) => {},
            Err(e) => {
                return Err(e);
            },
        }
        self.set_libs_path(libs_path);
        self.set_dest_folder(dest_folder);
        let mut out = match self.copy_to_dest() {
            Ok(list) => list,
            Err(e) => {
                return Err(e);
            },
        };
        let mut rewrites = match self.fix_install_names() {
            Ok(list) => list,
            Err(e) => {
                return Err(e);
            },
        };
        let mut signatures = match self.sign_all() {
            Ok(list) => list,
            Err(e) => {
                return Err(e);
            },
        };
        let ghost first = action_views(out@);
        let ghost second = action_views(rewrites@);
        let ghost third = action_views(signatures@);
        out.append(&mut rewrites);
        out.append(&mut signatures);
        proof {
            assert(action_views(out@) =~= first + second + third);
        }
        Ok(out)
    }
}

/// What has to be done before a bundle can be made at `output`: nothing
/// where a directory is there; to make the directory where nothing is
/// there and `create` is set. A file at `output`, or nothing there without
/// `create`, is a failure.
pub open spec fn output_ready(snapshot: Snapshot, output: Seq<char>, create: bool) -> Result<
    Seq<ActionView>,
    ErrorView,
> {
    match snapshot.status(output) {
        Err(e) => Err(e),
        Ok(st) => if st.exists {
            if st.is_file {
                Err(ErrorView::Path(output))
            } else {
                Ok(Seq::empty())
            }
        } else if create {
            Ok(seq![ActionView::CreateDir(output)])
        } else {
            Err(ErrorView::Path(output))
        },
    }
}

/// The root of the tree for the binary at `path`: only an executable or a
/// dynamic library can be bundled.
pub open spec fn base_of(snapshot: Snapshot, path: Seq<char>) -> Result<BinaryView, ErrorView> {
    match file_kind(snapshot, path) {
        Err(e) => Err(e),
        Ok(kind) => match kind {
            BinTypeView::Executable(_) => created(snapshot, path, true, true),
            BinTypeView::Dylib(_) => created(snapshot, path, false, true),
            _ => Err(ErrorView::Path(path)),
        },
    }
}

/// The operations that bundle the binary at `binary` at `output` with its
/// libraries in `libs`.
pub open spec fn bundle_of(
    snapshot: Snapshot,
    binary: Seq<char>,
    output: Seq<char>,
    libs: Seq<char>,
    create: bool,
) -> Result<Seq<ActionView>, ErrorView> {
    match output_ready(snapshot, output, create) {
        Err(e) => Err(e),
        Ok(first) => match base_of(snapshot, binary) {
            Err(e) => Err(e),
            Ok(root) => match bundled(snapshot, root, output, libs) {
                Err(e) => Err(e),
                Ok(rest) => Ok(first + rest),
            },
        },
    }
}

/// Lists what has to be done before a bundle can be made at `output_path`.
pub fn prepare_output(snapshot: &Snapshot, output_path: &str, create: bool) -> (r: Result<
    Vec<Action>,
    BundleError,
>)
    ensures
        actions_result(r) == output_ready(*snapshot, output_path@, create),
{
    let st = match snapshot.path_status(output_path) {
        Ok(st) => st,
        Err(e) => {
            return Err(e);
        },
    };
    let mut out: Vec<Action> = Vec::new();
    proof {
        assert(action_views(out@) =~= Seq::<ActionView>::empty());
    }
    if st.exists {
        if st.is_file {
            Err(BundleError::Path(output_path.to_owned()))
        } else {
            Ok(out)
        }
    } else if create {
        let make = Action::CreateDir(output_path.to_owned());
        out.push(make);
        proof {
            assert(action_views(out@) =~= seq![make@]);
        }
        Ok(out)
    } else {
        Err(BundleError::Path(output_path.to_owned()))
    }
}

/// Makes the root of the tree for the binary at `binary_path`.
pub fn base_binary(snapshot: &Snapshot, binary_path: &str) -> (r: Result<Binary, BundleError>)
    ensures
        tree_result(r) == base_of(*snapshot, binary_path@),
{
    match check_input_file(snapshot, binary_path) {
        Err(e) => Err(e),
        Ok(BinType::Executable(_)) => Binary::new(snapshot, binary_path.to_owned(), true, true),
        Ok(BinType::Dylib(_)) => Binary::new(snapshot, binary_path.to_owned(), false, true),
        Ok(_) => Err(BundleError::Path(binary_path.to_owned())),
    }
}

/// Lists the operations that bundle the binary at `binary_path` at
/// `output_path`, with its libraries in the directory `libs_path` under it.
/// Where the snapshot lacks an answer, the failure names the question: the
/// caller records the answer and asks again.
pub fn bundle(
    snapshot: &Snapshot,
    binary_path: &str,
    output_path: &str,
    libs_path: Option<&str>,
    create: bool,
) -> (r: Result<Vec<Action>, BundleError>)
    ensures
        actions_result(r) == bundle_of(
            *snapshot,
            binary_path@,
            output_path@,
            libs_path_of(libs_path),
            create,
        ),
{
    let mut out = match prepare_output(snapshot, output_path, create) {
        Ok(list) => list,
        Err(e) => {
            return Err(e);
        },
    };
    let mut root = match base_binary(snapshot, binary_path) {
        Ok(b) => b,
        Err(e) => {
            return Err(e);
        },
    };
    let mut rest = match root.run(snapshot, output_path, libs_path) {
        Ok(list) => list,
        Err(e) => {
            return Err(e);
        },
    };
    let ghost first = action_views(out@);
    let ghost second = action_views(rest@);
    out.append(&mut rest);
    proof {
        assert(action_views(out@) =~= first + second);
    }
    Ok(out)
}

} // verus!
