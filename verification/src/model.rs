//! The tree of binaries of a bundle, and the passes that lay it out.

use crate::error::{BundleError, ErrorView};
use crate::paths::{file_name_of, joined, path_file_name, path_join};
use crate::snapshot::{LinkStatus, Snapshot};
use crate::text::opt_text;
use vstd::prelude::*;
use vstd::string::StringExecFns;

verus! {

/// One binary of a bundle: the binary to bundle itself, or one occurrence of
/// a library that a binary of the bundle depends on.
#[derive(Debug, PartialEq, Eq)]
pub struct Binary {
    /// Where the binary is.
    pub file_path: String,
    /// An executable, as opposed to a dynamic library.
    pub is_executable: bool,
    /// The binary that is bundled, as opposed to a dependency.
    pub is_base: bool,
    /// The reference by which the parent names this binary.
    pub install_name_old: Option<String>,
    /// The identity that the library gives itself.
    pub install_name_id: Option<String>,
    /// The directory of the bundle that the binary goes to.
    pub dest_folder_path: Option<String>,
    /// The path of the binary inside the bundle.
    pub dest_file_path: Option<String>,
    /// The directory of the libraries, relative to the bundle's directory.
    pub libs_path: Option<String>,
    /// The identity that the library gets in the bundle, by which the
    /// binaries of the bundle name it.
    pub rpath: Option<String>,
    /// The libraries that the binary depends on, in the order in which it
    /// names them.
    pub libs: Vec<Binary>,
}

/// A binary as contracts speak of it.
pub struct BinaryView {
    pub file_path: Seq<char>,
    pub is_executable: bool,
    pub is_base: bool,
    pub install_name_old: Option<Seq<char>>,
    pub install_name_id: Option<Seq<char>>,
    pub dest_folder_path: Option<Seq<char>>,
    pub dest_file_path: Option<Seq<char>>,
    pub libs_path: Option<Seq<char>>,
    pub rpath: Option<Seq<char>>,
    pub libs: Seq<BinaryView>,
}

/// The view of the tree under `b`.
pub open spec fn node_view(b: Binary) -> BinaryView
    decreases b,
{
    BinaryView {
        file_path: b.file_path@,
        is_executable: b.is_executable,
        is_base: b.is_base,
        install_name_old: opt_text(b.install_name_old),
        install_name_id: opt_text(b.install_name_id),
        dest_folder_path: opt_text(b.dest_folder_path),
        dest_file_path: opt_text(b.dest_file_path),
        libs_path: opt_text(b.libs_path),
        rpath: opt_text(b.rpath),
        libs: Seq::new(
            b.libs.len() as nat,
            |i: int|
                if 0 <= i < b.libs.len() {
                    node_view(b.libs[i])
                } else {
                    arbitrary()
                },
        ),
    }
}

impl View for Binary {
    type V = BinaryView;

    open spec fn view(&self) -> BinaryView {
        node_view(*self)
    }
}

/// The views of the trees of `list`.
pub open spec fn views(list: Seq<Binary>) -> Seq<BinaryView> {
    list.map_values(|b: Binary| b@)
}

/// The name of the directory of the libraries where none is given.
pub open spec fn default_libs_path() -> Seq<char> {
    "libs"@
}

/// Whether `p` holds of every node of the tree `v`.
pub open spec fn every(v: BinaryView, p: spec_fn(BinaryView) -> bool) -> bool
    decreases v,
{
    &&& p(v)
    &&& forall|i: int| 0 <= i < v.libs.len() ==> every(#[trigger] v.libs[i], p)
}

/// Whether `a` and `b` agree in everything but their dependencies.
pub open spec fn same_node(a: BinaryView, b: BinaryView) -> bool {
    a == (BinaryView { libs: a.libs, ..b })
}

/// A pass over the tree that changes each node by itself.
pub enum Pass<'a> {
    /// Gives every node the directory of the libraries.
    LibsPath(&'a str),
    /// Gives every node its directory in the bundle under this directory.
    DestFolder(&'a str),
    /// Replaces the path of every node that is a symbolic link by its
    /// target.
    Symlinks(&'a Snapshot),
    /// Gives every library its identity in the bundle.
    Identities,
    /// Gives every node its path in the bundle.
    Placement,
}

/// A pass as contracts speak of it.
pub enum PassView {
    LibsPath(Seq<char>),
    DestFolder(Seq<char>),
    Symlinks(Snapshot),
    Identities,
    Placement,
}

impl<'a> View for Pass<'a> {
    type V = PassView;

    open spec fn view(&self) -> PassView {
        match *self {
            Pass::LibsPath(p) => PassView::LibsPath(p@),
            Pass::DestFolder(d) => PassView::DestFolder(d@),
            Pass::Symlinks(s) => PassView::Symlinks(*s),
            Pass::Identities => PassView::Identities,
            Pass::Placement => PassView::Placement,
        }
    }
}

/// The identity in the bundle of the library whose file is named `name`.
pub open spec fn identity_of(name: Seq<char>) -> Seq<char> {
    "@rpath/"@ + name
}

/// The directory in the bundle of the node `v`, for a bundle at `dest`: the
/// bundle's directory for the bundled binary, its directory of libraries for
/// every dependency.
pub open spec fn dest_folder_of(v: BinaryView, dest: Seq<char>) -> Seq<char> {
    if v.is_base {
        dest
    } else {
        joined(
            dest,
            match v.libs_path {
                Some(l) => l,
                None => default_libs_path(),
            },
        )
    }
}

/// What `pass` makes of the node `v`, its dependencies left as they are.
pub open spec fn step(pass: PassView, v: BinaryView) -> Result<BinaryView, ErrorView> {
    match pass {
        PassView::LibsPath(p) => Ok(BinaryView { libs_path: Some(p), ..v }),
        PassView::DestFolder(d) => Ok(
            BinaryView { dest_folder_path: Some(dest_folder_of(v, d)), ..v },
        ),
        PassView::Symlinks(snapshot) => match snapshot.status(v.file_path) {
            Err(e) => Err(e),
            Ok(st) => match st.link {
                LinkStatus::Plain => Ok(v),
                LinkStatus::Points(target) => Ok(BinaryView { file_path: target@, ..v }),
                LinkStatus::Dangling => Err(ErrorView::Path(v.file_path)),
            },
        },
        PassView::Identities => if v.is_executable {
            Ok(v)
        } else {
            match file_name_of(v.file_path) {
                None => Err(ErrorView::Path(v.file_path)),
                Some(name) => Ok(BinaryView { rpath: Some(identity_of(name)), ..v }),
            }
        },
        PassView::Placement => match v.dest_folder_path {
            None => Err(ErrorView::Path(v.file_path)),
            Some(d) => match file_name_of(v.file_path) {
                None => Err(ErrorView::Path(v.file_path)),
                Some(name) => Ok(BinaryView { dest_file_path: Some(joined(d, name)), ..v }),
            },
        },
    }
}

/// What `pass` makes of the tree `v`: the node first, then its dependencies
/// in order, each with its own tree. The first failure ends the pass.
pub open spec fn passed(pass: PassView, v: BinaryView) -> Result<BinaryView, ErrorView>
    decreases v, 0nat,
{
    match step(pass, v) {
        Err(e) => Err(e),
        Ok(node) => match passed_all(pass, v.libs, v.libs.len()) {
            Err(e) => Err(e),
            Ok(libs) => Ok(BinaryView { libs, ..node }),
        },
    }
}

/// What `pass` makes of the first `n` trees of `list`.
pub open spec fn passed_all(pass: PassView, list: Seq<BinaryView>, n: nat) -> Result<
    Seq<BinaryView>,
    ErrorView,
>
    decreases list, n,
{
    if n == 0 || n > list.len() {
        Ok(Seq::empty())
    } else {
        match passed_all(pass, list, (n - 1) as nat) {
            Err(e) => Err(e),
            Ok(done) => match passed(pass, list[n - 1]) {
                Err(e) => Err(e),
                Ok(tree) => Ok(done.push(tree)),
            },
        }
    }
}

/// The tree `v` as `pass` leaves it, whether the pass comes to its end or
/// fails on the way: the nodes that it has passed are changed, the node on
/// which it fails and every node after it are as they were.
pub open spec fn attempted(pass: PassView, v: BinaryView) -> BinaryView
    decreases v, 0nat,
{
    match step(pass, v) {
        Err(_) => v,
        Ok(node) => BinaryView { libs: attempted_all(pass, v.libs, v.libs.len()), ..node },
    }
}

/// The trees of `list` as `pass` leaves them once it is through with the
/// first `n` of them, or has failed on one of these.
pub open spec fn attempted_all(pass: PassView, list: Seq<BinaryView>, n: nat) -> Seq<BinaryView>
    decreases list, n,
{
    if n == 0 || n > list.len() {
        list
    } else {
        let before = attempted_all(pass, list, (n - 1) as nat);
        if passed_all(pass, list, (n - 1) as nat) is Err {
            before
        } else {
            before.update(n - 1, attempted(pass, list[n - 1]))
        }
    }
}

/// A pass leaves as many trees as it finds, and once it has failed it
/// changes nothing more.
pub proof fn lemma_attempt_stops(pass: PassView, list: Seq<BinaryView>, n: nat)
    requires
        n <= list.len(),
    ensures
        attempted_all(pass, list, n).len() == list.len(),
        passed_all(pass, list, n) is Err ==> attempted_all(pass, list, list.len())
            == attempted_all(pass, list, n),
    decreases list.len() - n,
{
    lemma_attempt_keeps_length(pass, list, n);
    if n < list.len() && passed_all(pass, list, n) is Err {
        assert(passed_all(pass, list, n + 1) == passed_all(pass, list, n));
        lemma_attempt_stops(pass, list, n + 1);
    }
}

/// A pass leaves as many trees as it finds.
pub proof fn lemma_attempt_keeps_length(pass: PassView, list: Seq<BinaryView>, n: nat)
    ensures
        attempted_all(pass, list, n).len() == list.len(),
    decreases n,
{
    if n == 0 || n > list.len() {
    } else {
        lemma_attempt_keeps_length(pass, list, (n - 1) as nat);
    }
}

/// A pass that has failed on the first `n` trees fails on the whole list
/// in the same way.
pub proof fn lemma_pass_failure_sticks(pass: PassView, list: Seq<BinaryView>, n: nat)
    requires
        n <= list.len(),
        passed_all(pass, list, n) is Err,
    ensures
        passed_all(pass, list, list.len()) == passed_all(pass, list, n),
    decreases list.len() - n,
{
    if n < list.len() {
        assert(passed_all(pass, list, n + 1) == passed_all(pass, list, n));
        lemma_pass_failure_sticks(pass, list, n + 1);
    }
}

impl Binary {
    /// Changes this node as `pass` says, its dependencies left as they are.
    /// A node on which the pass fails stays as it is.
    pub fn apply(&mut self, pass: &Pass<'_>) -> (r: Result<(), BundleError>)
        ensures
            match r {
                Ok(()) => step(pass@, old(self)@) == Ok::<BinaryView, ErrorView>(final(self)@)
                    && final(self).libs == old(self).libs,
                Err(e) => step(pass@, old(self)@) == Err::<BinaryView, ErrorView>(e@)
                    && *final(self) == *old(self),
            },
    {
        match pass {
            Pass::LibsPath(p) => {
                self.libs_path = Some((*p).to_owned());
            },
            Pass::DestFolder(d) => {
                let folder = if self.is_base {
                    (*d).to_owned()
                } else {
                    match &self.libs_path {
                        Some(l) => path_join(d, l.as_str()),
                        None => path_join(d, "libs"),
                    }
                };
                self.dest_folder_path = Some(folder);
            },
            Pass::Symlinks(snapshot) => {
                let st = match snapshot.path_status(self.file_path.as_str()) {
                    Ok(st) => st,
                    Err(e) => {
                        return Err(e);
                    },
                };
                match &st.link {
                    LinkStatus::Plain => {},
                    LinkStatus::Points(target) => {
                        self.file_path = target.clone();
                    },
                    LinkStatus::Dangling => {
                        return Err(BundleError::Path(self.file_path.clone()));
                    },
                }
            },
            Pass::Identities => {
                if !self.is_executable {
                    match path_file_name(self.file_path.as_str()) {
                        None => {
                            return Err(BundleError::Path(self.file_path.clone()));
                        },
                        Some(name) => {
                            self.rpath = Some("@rpath/".to_owned().concat(name.as_str()));
                        },
                    }
                }
            },
            Pass::Placement => {
                let file = match &self.dest_folder_path {
                    None => {
                        return Err(BundleError::Path(self.file_path.clone()));
                    },
                    Some(d) => match path_file_name(self.file_path.as_str()) {
                        None => {
                            return Err(BundleError::Path(self.file_path.clone()));
                        },
                        Some(name) => path_join(d.as_str(), name.as_str()),
                    },
                };
                self.dest_file_path = Some(file);
            },
        }
        proof {
            assert(self@.libs =~= old(self)@.libs);
        }
        Ok(())
    }

    /// Runs `pass` over the tree: this node first, then its dependencies in
    /// order, each with its own tree. The first failure ends the pass, and
    /// leaves the nodes that were passed before it changed.
    pub fn walk(&mut self, pass: &Pass<'_>) -> (r: Result<(), BundleError>)
        ensures
            match r {
                Ok(()) => passed(pass@, old(self)@) == Ok::<BinaryView, ErrorView>(final(self)@),
                Err(e) => passed(pass@, old(self)@) == Err::<BinaryView, ErrorView>(e@),
            },
            final(self)@ == attempted(pass@, old(self)@),
        decreases *old(self),
    {
        match self.apply(pass) {
            Ok(()) => {},
            Err(e) => {
                return Err(e);
            },
        }
        let ghost node = self@;
        let ghost before = old(self)@.libs;
        let n: usize = self.libs.len();
        let mut i: usize = 0;
        proof {
            assert(views(self.libs@) =~= before);
            assert(views(self.libs@).take(0) =~= Seq::<BinaryView>::empty());
        }
        while i < n
            invariant
                i <= n,
                n == self.libs.len(),
                n == before.len(),
                before == old(self)@.libs,
                step(pass@, old(self)@) == Ok::<BinaryView, ErrorView>(node),
                same_node(self@, node),
                forall|j: int| i <= j < n ==> (#[trigger] self.libs[j])@ == before[j],
                forall|j: int| i <= j < n ==> decreases_to!(*old(self) => #[trigger] self.libs[j]),
                passed_all(pass@, before, i as nat) == Ok::<Seq<BinaryView>, ErrorView>(
                    views(self.libs@).take(i as int),
                ),
                views(self.libs@) == attempted_all(pass@, before, i as nat),
            decreases n - i,
        {
            let ghost done = views(self.libs@).take(i as int);
            let ghost so_far = views(self.libs@);
            let outcome = self.libs[i].walk(pass);
            proof {
                assert(views(self.libs@) =~= so_far.update(
                    i as int,
                    attempted(pass@, before[i as int]),
                ));
                assert(views(self.libs@) == attempted_all(pass@, before, i as nat + 1));
            }
            match outcome {
                Ok(()) => {},
                Err(e) => {
                    proof {
                        lemma_pass_failure_sticks(pass@, before, i as nat + 1);
                        lemma_attempt_stops(pass@, before, i as nat + 1);
                        assert(self@.libs =~= views(self.libs@));
                    }
                    return Err(e);
                },
            }
            proof {
                assert(views(self.libs@).take(i + 1) =~= done.push(self.libs[i as int]@));
            }
            i += 1;
        }
        proof {
            assert(views(self.libs@).take(n as int) =~= self@.libs);
            assert(self@.libs =~= views(self.libs@));
        }
        Ok(())
    }
}

/// Whether `pass` fails on no node.
pub open spec fn never_fails(pass: PassView) -> bool {
    pass is LibsPath || pass is DestFolder
}

/// A pass that fails on no node fails on no tree.
pub proof fn lemma_pass_succeeds(pass: PassView, v: BinaryView)
    requires
        never_fails(pass),
    ensures
        passed(pass, v) is Ok,
    decreases v, 0nat,
{
    lemma_pass_succeeds_all(pass, v.libs, v.libs.len());
}

/// A pass that fails on no node fails on no list of trees.
pub proof fn lemma_pass_succeeds_all(pass: PassView, list: Seq<BinaryView>, n: nat)
    requires
        never_fails(pass),
    ensures
        passed_all(pass, list, n) is Ok,
    decreases list, n,
{
    if n == 0 || n > list.len() {
    } else {
        lemma_pass_succeeds_all(pass, list, (n - 1) as nat);
        lemma_pass_succeeds(pass, list[n - 1]);
    }
}

/// A node that was just made for the binary at `path`: nothing is known of
/// it yet, and it has no dependencies.
pub open spec fn fresh(path: Seq<char>, is_executable: bool, is_base: bool) -> BinaryView {
    BinaryView {
        file_path: path,
        is_executable,
        is_base,
        install_name_old: None,
        install_name_id: None,
        dest_folder_path: None,
        dest_file_path: None,
        libs_path: None,
        rpath: None,
        libs: Seq::empty(),
    }
}

/// The node for the binary at `path`: a failure unless a regular file is
/// there.
pub open spec fn created(
    snapshot: Snapshot,
    path: Seq<char>,
    is_executable: bool,
    is_base: bool,
) -> Result<BinaryView, ErrorView> {
    match snapshot.is_file(path) {
        Err(e) => Err(e),
        Ok(false) => Err(ErrorView::Path(path)),
        Ok(true) => Ok(fresh(path, is_executable, is_base)),
    }
}

/// The view of a result that holds a tree.
pub open spec fn tree_result(r: Result<Binary, BundleError>) -> Result<BinaryView, ErrorView> {
    match r {
        Ok(b) => Ok(b@),
        Err(e) => Err(e@),
    }
}

impl Default for Binary {
    /// A node without a path, neither executable nor bundled binary.
    fn default() -> (r: Self)
        ensures
            r@ == fresh(Seq::empty(), false, false),
    {
        let r = Binary {
            file_path: String::new(),
            is_executable: false,
            is_base: false,
            install_name_old: None,
            install_name_id: None,
            dest_folder_path: None,
            dest_file_path: None,
            libs_path: None,
            rpath: None,
            libs: Vec::new(),
        };
        proof {
            assert(r@.libs =~= Seq::<BinaryView>::empty());
        }
        r
    }
}

impl Binary {
    /// Makes the node for the binary at `file_path`, where a regular file
    /// is.
    pub fn new(snapshot: &Snapshot, file_path: String, is_executable: bool, is_base: bool) -> (r:
        Result<Self, BundleError>)
        ensures
            tree_result(r) == created(*snapshot, file_path@, is_executable, is_base),
    {
        match snapshot.path_is_file(file_path.as_str()) {
            Err(e) => {
                return Err(e);
            },
            Ok(false) => {
                return Err(BundleError::Path(file_path));
            },
            Ok(true) => {},
        }
        let r = Binary {
            file_path,
            is_executable,
            is_base,
            install_name_old: None,
            install_name_id: None,
            dest_folder_path: None,
            dest_file_path: None,
            libs_path: None,
            rpath: None,
            libs: Vec::new(),
        };
        proof {
            assert(r@.libs =~= Seq::<BinaryView>::empty());
        }
        Ok(r)
    }

    /// Gives every node of the tree the directory of the libraries:
    /// `libs_path`, or the default name where none is given.
    pub fn set_libs_path(&mut self, libs_path: Option<&str>)
        ensures
            passed(
                PassView::LibsPath(
                    match libs_path {
                        Some(p) => p@,
                        None => default_libs_path(),
                    },
                ),
                old(self)@,
            ) == Ok::<BinaryView, ErrorView>(final(self)@),
    {
        let pass = match libs_path {
            Some(p) => Pass::LibsPath(p),
            None => Pass::LibsPath("libs"),
        };
        proof {
            lemma_pass_succeeds(pass@, self@);
        }
        let _ = self.walk(&pass);
    }

    /// Gives every node of the tree its directory in the bundle at
    /// `dest_folder`: that directory for the bundled binary, the one
    /// directory of libraries under it for every dependency, at whatever
    /// depth it stands.
    pub fn set_dest_folder(&mut self, dest_folder: &str)
        ensures
            passed(PassView::DestFolder(dest_folder@), old(self)@) == Ok::<BinaryView, ErrorView>(
                final(self)@,
            ),
    {
        let pass = Pass::DestFolder(dest_folder);
        proof {
            lemma_pass_succeeds(pass@, self@);
        }
        let _ = self.walk(&pass);
    }

    /// Replaces the path of every node that is a symbolic link by the path
    /// that the link resolves to.
    pub fn resolve_symlinks(&mut self, snapshot: &Snapshot) -> (r: Result<(), BundleError>)
        ensures
            match r {
                Ok(()) => passed(PassView::Symlinks(*snapshot), old(self)@) == Ok::<
                    BinaryView,
                    ErrorView,
                >(final(self)@),
                Err(e) => passed(PassView::Symlinks(*snapshot), old(self)@) == Err::<
                    BinaryView,
                    ErrorView,
                >(e@),
            },
            final(self)@ == attempted(PassView::Symlinks(*snapshot), old(self)@),
    {
        self.walk(&Pass::Symlinks(snapshot))
    }

    /// Gives every library of the tree its identity in the bundle: the
    /// run-path marker followed by the name of its file.
    pub fn change_install_names_as_rpath(&mut self) -> (r: Result<(), BundleError>)
        ensures
            match r {
                Ok(()) => passed(PassView::Identities, old(self)@) == Ok::<BinaryView, ErrorView>(
                    final(self)@,
                ),
                Err(e) => passed(PassView::Identities, old(self)@) == Err::<BinaryView, ErrorView>(
                    e@,
                ),
            },
            final(self)@ == attempted(PassView::Identities, old(self)@),
    {
        self.walk(&Pass::Identities)
    }
}

} // verus!
