//! A run asks only what it does not know: every question that it comes back
//! with is one to which the snapshot holds no answer, so that a caller who
//! records the answer and asks again never hears the same question twice.

use crate::bundle::{base_of, bundle_of, bundled, laid_out, operations, output_ready};
use crate::error::ErrorView;
use crate::graph::{
    canonical, dependencies, dependency, grown, grown_all, lemma_pending_drops,
    lemma_pending_shrinks, listed, pending, reference_of, scanned,
};
use crate::helpers::{
    candidate_dirs, file_kind, found_in, id_of, resolved, rpaths_of, scan_lines, search,
};
use crate::model::{created, passed, passed_all, BinaryView, PassView};
use crate::paths::parent_of;
use crate::plan::{gathered, gathered_all, rewrites, Plan};
use crate::snapshot::{QueryView, Snapshot};
use crate::text::lines;
use vstd::prelude::*;

verus! {

/// Whether `snapshot` holds an answer to `query`.
pub open spec fn answered(snapshot: Snapshot, query: QueryView) -> bool {
    match query {
        QueryView::Path(p) => snapshot.paths.lookup(p) is Some,
        QueryView::LoadCommands(p) => snapshot.load_commands.lookup(p) is Some,
        QueryView::SharedLibs(p) => snapshot.shared_libs.lookup(p) is Some,
        QueryView::FileType(p) => snapshot.file_types.lookup(p) is Some,
        QueryView::Id(p) => snapshot.ids.lookup(p) is Some,
    }
}

/// Whether the failure `e` is no question, or a question that `snapshot`
/// holds no answer to.
pub open spec fn new_to(snapshot: Snapshot, e: ErrorView) -> bool {
    match e {
        ErrorView::Unobserved(query) => !answered(snapshot, query),
        _ => true,
    }
}

/// Whether the result `r` is no question, or a question that `snapshot`
/// holds no answer to.
pub open spec fn asks_anew<T>(snapshot: Snapshot, r: Result<T, ErrorView>) -> bool {
    match r {
        Err(e) => new_to(snapshot, e),
        Ok(_) => true,
    }
}

/// Whether the result `r` is no question at all.
pub open spec fn asks_nothing<T>(r: Result<T, ErrorView>) -> bool {
    match r {
        Err(ErrorView::Unobserved(_)) => false,
        _ => true,
    }
}

/// A scan for run-path entries fails only because an entry cannot be read.
pub proof fn lemma_scan_asks_nothing(all: Seq<Seq<char>>, n: nat, with_prefix: bool)
    ensures
        match scan_lines(all, n, with_prefix).failure {
            Some(e) => e is Parse,
            None => true,
        },
    decreases n,
{
    if n == 0 || n > all.len() {
    } else {
        lemma_scan_asks_nothing(all, (n - 1) as nat, with_prefix);
    }
}

/// To read the run-path entries of a binary asks only for its load
/// commands, and only where they are not known.
pub proof fn lemma_rpaths_ask_anew(snapshot: Snapshot, path: Seq<char>, with_prefix: bool)
    ensures
        asks_anew(snapshot, rpaths_of(snapshot, path, with_prefix)),
{
    if let Ok(dump) = snapshot.load_commands_of(path) {
        lemma_scan_asks_nothing(lines(dump), lines(dump).len(), with_prefix);
    }
}

/// The search for a reference asks only for the state of a path that is
/// not known.
pub proof fn lemma_search_asks_anew(
    snapshot: Snapshot,
    dirs: Seq<Seq<char>>,
    reference: Seq<char>,
    from: nat,
)
    ensures
        asks_anew(snapshot, search(snapshot, dirs, reference, from)),
    decreases dirs.len() - from,
{
    if from < dirs.len() {
        assert(asks_anew(snapshot, found_in(snapshot, dirs[from as int], reference)));
        lemma_search_asks_anew(snapshot, dirs, reference, from + 1);
    }
}

/// The resolution of a reference asks only what is not known.
pub proof fn lemma_resolution_asks_anew(snapshot: Snapshot, binary: Seq<char>, reference: Seq<char>)
    ensures
        asks_anew(snapshot, resolved(snapshot, binary, reference)),
{
    lemma_rpaths_ask_anew(snapshot, binary, false);
    if let Ok(rpaths) = rpaths_of(snapshot, binary, false) {
        if let Some(folder) = parent_of(binary) {
            lemma_search_asks_anew(snapshot, candidate_dirs(folder, rpaths), reference, 0);
        }
    }
}

/// To tell the kind of a file, or the identity of a library, asks only what
/// is not known.
pub proof fn lemma_inspection_asks_anew(snapshot: Snapshot, path: Seq<char>)
    ensures
        asks_anew(snapshot, file_kind(snapshot, path)),
        asks_anew(snapshot, id_of(snapshot, path)),
        asks_anew(snapshot, base_of(snapshot, path)),
{
}

/// To read the lines of a shared-library list asks only what is not known.
pub proof fn lemma_dependencies_ask_anew(
    snapshot: Snapshot,
    binary: Seq<char>,
    list: Seq<Seq<char>>,
    n: nat,
)
    ensures
        asks_anew(snapshot, dependencies(snapshot, binary, list, n)),
    decreases n,
{
    if n == 0 || n > list.len() {
    } else {
        lemma_dependencies_ask_anew(snapshot, binary, list, (n - 1) as nat);
        let line = list[n - 1];
        if let Some(reference) = reference_of(line) {
            lemma_resolution_asks_anew(snapshot, binary, reference);
            if let Ok(path) = resolved(snapshot, binary, reference) {
                assert(asks_anew(snapshot, created(snapshot, path, false, false)));
            }
            assert(asks_anew(snapshot, created(snapshot, reference, false, false)));
        }
        assert(asks_anew(snapshot, dependency(snapshot, binary, line)));
    }
}

/// To scan a node asks only what is not known.
pub proof fn lemma_scan_asks_anew(snapshot: Snapshot, v: BinaryView)
    ensures
        asks_anew(snapshot, scanned(snapshot, v)),
{
    if let Ok(output) = snapshot.shared_libs_of(v.file_path) {
        let body = listed(output);
        lemma_dependencies_ask_anew(snapshot, v.file_path, body, body.len());
        if body.len() > 0 {
            lemma_dependencies_ask_anew(
                snapshot,
                v.file_path,
                body.skip(1),
                (body.len() - 1) as nat,
            );
        }
    }
}

/// A discovery asks only what is not known.
pub proof fn lemma_discovery_asks_anew(snapshot: Snapshot, v: BinaryView, visited: Set<Seq<char>>)
    ensures
        asks_anew(snapshot, grown(snapshot, v, visited).found),
    decreases pending(snapshot.paths.entries@, visited), 0nat, 0nat,
{
    if let Ok(key) = canonical(snapshot, v.file_path) {
        if !visited.contains(key) {
            lemma_scan_asks_anew(snapshot, v);
            if let Ok(node) = scanned(snapshot, v) {
                lemma_pending_drops(snapshot.paths.entries@, visited, v.file_path, key);
                lemma_discovery_asks_anew_all(
                    snapshot,
                    node.libs,
                    visited.insert(key),
                    node.libs.len(),
                );
            }
        }
    }
}

/// A discovery over a list of nodes asks only what is not known.
pub proof fn lemma_discovery_asks_anew_all(
    snapshot: Snapshot,
    list: Seq<BinaryView>,
    visited: Set<Seq<char>>,
    n: nat,
)
    ensures
        asks_anew(snapshot, grown_all(snapshot, list, visited, n).found),
    decreases pending(snapshot.paths.entries@, visited), 1nat, n,
{
    if n == 0 || n > list.len() {
    } else {
        lemma_discovery_asks_anew_all(snapshot, list, visited, (n - 1) as nat);
        let before = grown_all(snapshot, list, visited, (n - 1) as nat);
        if let Ok(done) = before.found {
            let mid = visited.union(before.visited);
            lemma_pending_shrinks(snapshot.paths.entries@, visited, mid);
            lemma_discovery_asks_anew(snapshot, list[n - 1], mid);
        }
    }
}

/// Whether `pass` reads no snapshot but `snapshot`.
pub open spec fn reads_only(pass: PassView, snapshot: Snapshot) -> bool {
    match pass {
        PassView::Symlinks(s) => s == snapshot,
        _ => true,
    }
}

/// A pass asks only what is not known.
pub proof fn lemma_pass_asks_anew(snapshot: Snapshot, pass: PassView, v: BinaryView)
    requires
        reads_only(pass, snapshot),
    ensures
        asks_anew(snapshot, passed(pass, v)),
    decreases v, 0nat,
{
    lemma_pass_asks_anew_all(snapshot, pass, v.libs, v.libs.len());
}

/// A pass over a list of trees asks only what is not known.
pub proof fn lemma_pass_asks_anew_all(
    snapshot: Snapshot,
    pass: PassView,
    list: Seq<BinaryView>,
    n: nat,
)
    requires
        reads_only(pass, snapshot),
    ensures
        asks_anew(snapshot, passed_all(pass, list, n)),
    decreases list, n,
{
    if n == 0 || n > list.len() {
    } else {
        lemma_pass_asks_anew_all(snapshot, pass, list, (n - 1) as nat);
        lemma_pass_asks_anew(snapshot, pass, list[n - 1]);
    }
}

/// The rewrites of a node ask nothing.
pub proof fn lemma_rewrites_ask_nothing(file: Seq<char>, libs: Seq<BinaryView>, n: nat)
    ensures
        asks_nothing(rewrites(file, libs, n)),
    decreases n,
{
    if n == 0 || n > libs.len() {
    } else {
        lemma_rewrites_ask_nothing(file, libs, (n - 1) as nat);
    }
}

/// To list the operations of a tree asks nothing: it reads the tree alone.
pub proof fn lemma_plan_asks_nothing(plan: Plan, v: BinaryView)
    ensures
        asks_nothing(gathered(plan, v)),
    decreases v, 0nat,
{
    if let Some(file) = v.dest_file_path {
        lemma_rewrites_ask_nothing(file, v.libs, v.libs.len());
    }
    lemma_plan_asks_nothing_all(plan, v.libs, v.libs.len());
}

/// To list the operations of a list of trees asks nothing.
pub proof fn lemma_plan_asks_nothing_all(plan: Plan, list: Seq<BinaryView>, n: nat)
    ensures
        asks_nothing(gathered_all(plan, list, n)),
    decreases list, n,
{
    if n == 0 || n > list.len() {
    } else {
        lemma_plan_asks_nothing_all(plan, list, (n - 1) as nat);
        lemma_plan_asks_nothing(plan, list[n - 1]);
    }
}

/// A run on a tree asks only what is not known.
pub proof fn lemma_run_asks_anew(
    snapshot: Snapshot,
    v: BinaryView,
    dest: Seq<char>,
    libs: Seq<char>,
)
    ensures
        asks_anew(snapshot, laid_out(snapshot, v, dest, libs)),
        asks_anew(snapshot, bundled(snapshot, v, dest, libs)),
{
    lemma_discovery_asks_anew(snapshot, v, Set::empty());
    if let Ok(t1) = grown(snapshot, v, Set::empty()).found {
        lemma_pass_asks_anew(snapshot, PassView::Symlinks(snapshot), t1);
        if let Ok(t2) = passed(PassView::Symlinks(snapshot), t1) {
            lemma_pass_asks_anew(snapshot, PassView::Identities, t2);
            if let Ok(t3) = passed(PassView::Identities, t2) {
                lemma_pass_asks_anew(snapshot, PassView::LibsPath(libs), t3);
                if let Ok(t4) = passed(PassView::LibsPath(libs), t3) {
                    lemma_pass_asks_anew(snapshot, PassView::DestFolder(dest), t4);
                    if let Ok(t5) = passed(PassView::DestFolder(dest), t4) {
                        lemma_pass_asks_anew(snapshot, PassView::Placement, t5);
                    }
                }
            }
        }
    }
    if let Ok(tree) = laid_out(snapshot, v, dest, libs) {
        lemma_plan_asks_nothing(Plan::Copy, tree);
        lemma_plan_asks_nothing(Plan::Relocate, tree);
        lemma_plan_asks_nothing(Plan::Sign, tree);
        assert(asks_nothing(operations(tree)));
    }
}

/// A bundling asks only what is not known: where it comes back with a
/// question, the snapshot holds no answer to it.
pub proof fn lemma_bundle_asks_anew(
    snapshot: Snapshot,
    binary: Seq<char>,
    output: Seq<char>,
    libs: Seq<char>,
    create: bool,
)
    ensures
        asks_anew(snapshot, bundle_of(snapshot, binary, output, libs, create)),
{
    assert(asks_anew(snapshot, output_ready(snapshot, output, create)));
    lemma_inspection_asks_anew(snapshot, binary);
    if let Ok(root) = base_of(snapshot, binary) {
        lemma_run_asks_anew(snapshot, root, output, libs);
    }
}

} // verus!
