//! The operations that materialize, relocate and sign a laid-out tree.

use crate::action::{action_views, actions_result, Action, ActionView};
use crate::error::{BundleError, ErrorView};
use crate::model::{attempted, passed, Binary, BinaryView, Pass, PassView};
use vstd::prelude::*;
use vstd::string::StringExecFns;

verus! {

/// One of the three lists of operations that a laid-out tree gives.
#[derive(Debug, Clone, Copy, PartialEq, Eq, Structural)]
pub enum Plan {
    /// Copy every binary to its place in the bundle.
    Copy,
    /// Rewrite the identity, the run-paths and the references of every
    /// copy.
    Relocate,
    /// Sign every copy.
    Sign,
}

/// The run-path that lets a dependency find the libraries beside it.
pub open spec fn loader_path() -> Seq<char> {
    "@loader_path"@
}

/// The run-path that lets the bundled binary find the libraries in
/// `libs_path` under its own directory.
pub open spec fn loader_path_to(libs_path: Seq<char>) -> Seq<char> {
    "@loader_path/"@ + libs_path
}

/// The operation that gives the copy at `file` of the node `v` its
/// identity: none for an executable.
pub open spec fn own_identity(v: BinaryView, file: Seq<char>) -> Result<
    Seq<ActionView>,
    ErrorView,
> {
    if v.is_executable {
        Ok(Seq::empty())
    } else {
        match v.rpath {
            None => Err(ErrorView::Relocation(v.file_path)),
            Some(id) => Ok(seq![ActionView::SetId { file, id }]),
        }
    }
}

/// The operation that gives the copy at `file` of the node `v` its
/// run-path.
pub open spec fn search_path(v: BinaryView, file: Seq<char>) -> Result<Seq<ActionView>, ErrorView> {
    if v.is_base {
        match v.libs_path {
            None => Err(ErrorView::Relocation(v.file_path)),
            Some(l) => Ok(seq![ActionView::AddRpath { file, rpath: loader_path_to(l) }]),
        }
    } else {
        Ok(seq![ActionView::AddRpath { file, rpath: loader_path() }])
    }
}

/// The operation that makes the copy at `file` name its dependency `child`
/// by the identity that `child` has in the bundle: none where it has none.
pub open spec fn rewrite_of(file: Seq<char>, child: BinaryView) -> Result<
    Seq<ActionView>,
    ErrorView,
> {
    match child.rpath {
        None => Ok(Seq::empty()),
        Some(to) => match child.install_name_old {
            None => Err(ErrorView::Relocation(child.file_path)),
            Some(from) => Ok(seq![ActionView::ChangeInstallName { file, from, to }]),
        },
    }
}

/// The rewrites of the copy at `file` for the first `n` of its dependencies
/// `libs`.
pub open spec fn rewrites(file: Seq<char>, libs: Seq<BinaryView>, n: nat) -> Result<
    Seq<ActionView>,
    ErrorView,
>
    decreases n,
{
    if n == 0 || n > libs.len() {
        Ok(Seq::empty())
    } else {
        match rewrites(file, libs, (n - 1) as nat) {
            Err(e) => Err(e),
            Ok(done) => match rewrite_of(file, libs[n - 1]) {
                Err(e) => Err(e),
                Ok(one) => Ok(done + one),
            },
        }
    }
}

/// The operations of `plan` for the node `v` by itself. All of them work on
/// the copy in the bundle, none on the binary that was read.
pub open spec fn node_actions(plan: Plan, v: BinaryView) -> Result<Seq<ActionView>, ErrorView> {
    match plan {
        Plan::Copy => match v.dest_folder_path {
            None => Err(ErrorView::Path(v.file_path)),
            Some(dir) => match v.dest_file_path {
                None => Err(ErrorView::Path(v.file_path)),
                Some(file) => Ok(
                    seq![
                        ActionView::CreateDir(dir),
                        ActionView::CopyFile { from: v.file_path, to: file },
                    ],
                ),
            },
        },
        Plan::Relocate => match v.dest_file_path {
            None => Err(ErrorView::Relocation(v.file_path)),
            Some(file) => match own_identity(v, file) {
                Err(e) => Err(e),
                Ok(identity) => match search_path(v, file) {
                    Err(e) => Err(e),
                    Ok(rpath) => match rewrites(file, v.libs, v.libs.len()) {
                        Err(e) => Err(e),
                        Ok(changes) => Ok(identity + rpath + changes),
                    },
                },
            },
        },
        Plan::Sign => match v.dest_file_path {
            None => Err(ErrorView::Signing(v.file_path)),
            Some(file) => Ok(seq![ActionView::Sign(file)]),
        },
    }
}

/// The operations of `plan` for the tree `v`: those of the node, then those
/// of its dependencies in order, each with its own tree. A dependency that
/// stands in the tree twice gives its operations twice.
pub open spec fn gathered(plan: Plan, v: BinaryView) -> Result<Seq<ActionView>, ErrorView>
    decreases v, 0nat,
{
    match node_actions(plan, v) {
        Err(e) => Err(e),
        Ok(own) => match gathered_all(plan, v.libs, v.libs.len()) {
            Err(e) => Err(e),
            Ok(rest) => Ok(own + rest),
        },
    }
}

/// The operations of `plan` for the first `n` trees of `list`.
pub open spec fn gathered_all(plan: Plan, list: Seq<BinaryView>, n: nat) -> Result<
    Seq<ActionView>,
    ErrorView,
>
    decreases list, n,
{
    if n == 0 || n > list.len() {
        Ok(Seq::empty())
    } else {
        match gathered_all(plan, list, (n - 1) as nat) {
            Err(e) => Err(e),
            Ok(done) => match gathered(plan, list[n - 1]) {
                Err(e) => Err(e),
                Ok(more) => Ok(done + more),
            },
        }
    }
}

/// Rewrites that have failed on the first `n` dependencies fail on all of
/// them in the same way.
pub proof fn lemma_rewrite_failure_sticks(file: Seq<char>, libs: Seq<BinaryView>, n: nat)
    requires
        n <= libs.len(),
        rewrites(file, libs, n) is Err,
    ensures
        rewrites(file, libs, libs.len()) == rewrites(file, libs, n),
    decreases libs.len() - n,
{
    if n < libs.len() {
        assert(rewrites(file, libs, n + 1) == rewrites(file, libs, n));
        lemma_rewrite_failure_sticks(file, libs, n + 1);
    }
}

/// A plan that has failed on the first `n` trees fails on the whole list in
/// the same way.
pub proof fn lemma_plan_failure_sticks(plan: Plan, list: Seq<BinaryView>, n: nat)
    requires
        n <= list.len(),
        gathered_all(plan, list, n) is Err,
    ensures
        gathered_all(plan, list, list.len()) == gathered_all(plan, list, n),
    decreases list.len() - n,
{
    if n < list.len() {
        assert(gathered_all(plan, list, n + 1) == gathered_all(plan, list, n));
        lemma_plan_failure_sticks(plan, list, n + 1);
    }
}

impl Binary {
    /// The operations that make the copy at `file` of this node name each
    /// of its dependencies by the identity that the dependency has in the
    /// bundle.
    pub fn own_rewrites(&self, file: &str) -> (r: Result<Vec<Action>, BundleError>)
        ensures
            actions_result(r) == rewrites(file@, self@.libs, self@.libs.len()),
    {
        let mut out: Vec<Action> = Vec::new();
        let n: usize = self.libs.len();
        let mut i: usize = 0;
        proof {
            assert(action_views(out@) =~= Seq::<ActionView>::empty());
        }
        while i < n
            invariant
                i <= n,
                n == self.libs.len(),
                n == self@.libs.len(),
                rewrites(file@, self@.libs, i as nat) == Ok::<Seq<ActionView>, ErrorView>(
                    action_views(out@),
                ),
            decreases n - i,
        {
            let child = &self.libs[i];
            let ghost done = action_views(out@);
            proof {
                assert(self@.libs[i as int] == child@);
            }
            match &child.rpath {
                None => {
                    proof {
                        assert(done + Seq::<ActionView>::empty() =~= done);
                    }
                },
                Some(to) => match &child.install_name_old {
                    None => {
                        proof {
                            lemma_rewrite_failure_sticks(file@, self@.libs, i as nat + 1);
                        }
                        return Err(BundleError::Relocation(child.file_path.clone()));
                    },
                    Some(from) => {
                        let a = Action::ChangeInstallName {
                            file: file.to_owned(),
                            from: from.clone(),
                            to: to.clone(),
                        };
                        out.push(a);
                        proof {
                            assert(action_views(out@) =~= done + seq![a@]);
                        }
                    },
                },
            }
            i += 1;
        }
        Ok(out)
    }

    /// The operations of `plan` for this node by itself.
    pub fn own_actions(&self, plan: Plan) -> (r: Result<Vec<Action>, BundleError>)
        ensures
            actions_result(r) == node_actions(plan, self@),
    {
        let mut out: Vec<Action> = Vec::new();
        proof {
            assert(action_views(out@) =~= Seq::<ActionView>::empty());
        }
        match plan {
            Plan::Copy => {
                let dir = match &self.dest_folder_path {
                    None => {
                        return Err(BundleError::Path(self.file_path.clone()));
                    },
                    Some(d) => d.clone(),
                };
                let file = match &self.dest_file_path {
                    None => {
                        return Err(BundleError::Path(self.file_path.clone()));
                    },
                    Some(f) => f.clone(),
                };
                let make = Action::CreateDir(dir);
                let copy = Action::CopyFile { from: self.file_path.clone(), to: file };
                out.push(make);
                out.push(copy);
                proof {
                    assert(action_views(out@) =~= seq![make@, copy@]);
                }
                Ok(out)
            },
            Plan::Relocate => {
                let file = match &self.dest_file_path {
                    None => {
                        return Err(BundleError::Relocation(self.file_path.clone()));
                    },
                    Some(f) => f,
                };
                if !self.is_executable {
                    match &self.rpath {
                        None => {
                            return Err(BundleError::Relocation(self.file_path.clone()));
                        },
                        Some(id) => {
                            out.push(Action::SetId { file: file.clone(), id: id.clone() });
                        },
                    }
                }
                let ghost identity = action_views(out@);
                proof {
                    assert(own_identity(self@, file@) == Ok::<Seq<ActionView>, ErrorView>(identity))
                        by {
                        if !self.is_executable {
                            assert(identity =~= seq![
                                ActionView::SetId { file: file@, id: self.rpath->0@ },
                            ]);
                        }
                    }
                }
                let rpath = if self.is_base {
                    match &self.libs_path {
                        None => {
                            return Err(BundleError::Relocation(self.file_path.clone()));
                        },
                        Some(l) => "@loader_path/".to_owned().concat(l.as_str()),
                    }
                } else {
                    "@loader_path".to_owned()
                };
                let add = Action::AddRpath { file: file.clone(), rpath };
                out.push(add);
                let mut changes = match self.own_rewrites(file.as_str()) {
                    Err(e) => {
                        return Err(e);
                    },
                    Ok(c) => c,
                };
                let ghost before = action_views(out@);
                let ghost more = action_views(changes@);
                out.append(&mut changes);
                proof {
                    assert(before =~= identity + seq![add@]);
                    assert(action_views(out@) =~= before + more);
                }
                Ok(out)
            },
            Plan::Sign => {
                let file = match &self.dest_file_path {
                    None => {
                        return Err(BundleError::Signing(self.file_path.clone()));
                    },
                    Some(f) => f.clone(),
                };
                let sign = Action::Sign(file);
                out.push(sign);
                proof {
                    assert(action_views(out@) =~= seq![sign@]);
                }
                Ok(out)
            },
        }
    }

    /// The operations of `plan` for the tree: those of this node, then those
    /// of its dependencies in order, each with its own tree.
    pub fn gather(&self, plan: Plan) -> (r: Result<Vec<Action>, BundleError>)
        ensures
            actions_result(r) == gathered(plan, self@),
        decreases self,
    {
        let mut out = match self.own_actions(plan) {
            Err(e) => {
                return Err(e);
            },
            Ok(a) => a,
        };
        let ghost own = action_views(out@);
        let ghost rest = Seq::<ActionView>::empty();
        let n: usize = self.libs.len();
        let mut i: usize = 0;
        proof {
            assert(own + rest =~= own);
        }
        while i < n
            invariant
                i <= n,
                n == self.libs.len(),
                n == self@.libs.len(),
                node_actions(plan, self@) == Ok::<Seq<ActionView>, ErrorView>(own),
                gathered_all(plan, self@.libs, i as nat) == Ok::<Seq<ActionView>, ErrorView>(rest),
                action_views(out@) == own + rest,
            decreases n - i,
        {
            proof {
                assert(self@.libs[i as int] == self.libs[i as int]@);
            }
            let mut more = match self.libs[i].gather(plan) {
                Err(e) => {
                    proof {
                        lemma_plan_failure_sticks(plan, self@.libs, i as nat + 1);
                    }
                    return Err(e);
                },
                Ok(m) => m,
            };
            let ghost before = action_views(out@);
            let ghost added = action_views(more@);
            out.append(&mut more);
            proof {
                assert(action_views(out@) =~= before + added);
                assert(own + (rest + added) =~= (own + rest) + added);
                rest = rest + added;
            }
            i += 1;
        }
        Ok(out)
    }

    /// Gives every node of the tree its path in the bundle, and lists the
    /// operations that bring the bundle's files there: for each node, make
    /// its directory and copy its file, unless a file is there already.
    /// After a failure the nodes that were placed before it stay placed.
    pub fn copy_to_dest(&mut self) -> (r: Result<Vec<Action>, BundleError>)
        ensures
            match r {
                Ok(list) => passed(PassView::Placement, old(self)@) == Ok::<BinaryView, ErrorView>(
                    final(self)@,
                ) && gathered(Plan::Copy, final(self)@) == Ok::<Seq<ActionView>, ErrorView>(
                    action_views(list@),
                ),
                Err(e) => match passed(PassView::Placement, old(self)@) {
                    Err(f) => f == e@,
                    Ok(placed) => gathered(Plan::Copy, placed) == Err::<Seq<ActionView>, ErrorView>(
                        e@,
                    ),
                },
            },
            final(self)@ == attempted(PassView::Placement, old(self)@),
    {
        match self.walk(&Pass::Placement) {
            Err(e) => {
                return Err(e);
            },
            Ok(()) => {},
        }
        self.gather(Plan::Copy)
    }

    /// Lists the operations that relocate the copies of the tree: for each
    /// node, set the identity of a library, add the run-path by which it
    /// finds the libraries of the bundle, and rewrite its reference to each
    /// of its dependencies.
    pub fn fix_install_names(&self) -> (r: Result<Vec<Action>, BundleError>)
        ensures
            actions_result(r) == gathered(Plan::Relocate, self@),
    {
        self.gather(Plan::Relocate)
    }

    /// Lists the operations that sign every copy of the tree.
    pub fn sign_all(&self) -> (r: Result<Vec<Action>, BundleError>)
        ensures
            actions_result(r) == gathered(Plan::Sign, self@),
    {
        self.gather(Plan::Sign)
    }
}

} // verus!
