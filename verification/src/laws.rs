//! What holds of the library as a whole, proved from the definitions that
//! its contracts speak of.

use crate::action::{already_present, judged, target_of, ActionView};
use crate::error::ErrorView;
use crate::graph::{
    canonical, dependencies, dependency, grown, grown_all, is_system, lemma_pending_drops,
    lemma_pending_shrinks, listed, pending, reference_of, scanned, Growth,
};
use crate::helpers::{
    candidate_dirs, found_in, lines_to_search, resolved, rpaths_of, scan_lines, search, stripped,
};
use crate::model::{
    attempted, attempted_all, every, lemma_pass_succeeds, passed, passed_all, BinaryView, PassView,
};
use crate::plan::{gathered, gathered_all, node_actions, rewrites, Plan};
use crate::paths::{joined, parent_of};
use crate::snapshot::Snapshot;
use crate::text::{
    contains, is_whitespace, lines, lines_after, without_return, words, words_after,
};
use vstd::prelude::*;

verus! {

/// The search for a reference reads nothing of a snapshot but which paths
/// exist: two snapshots that agree on that give the same result from every
/// index on.
pub proof fn lemma_search_reads_presence(
    a: Snapshot,
    b: Snapshot,
    dirs: Seq<Seq<char>>,
    reference: Seq<char>,
    from: nat,
)
    requires
        forall|p: Seq<char>| a.present(p) == b.present(p),
    ensures
        search(a, dirs, reference, from) == search(b, dirs, reference, from),
    decreases dirs.len() - from,
{
    if from < dirs.len() {
        assert(found_in(a, dirs[from as int], reference) == found_in(
            b,
            dirs[from as int],
            reference,
        ));
        lemma_search_reads_presence(a, b, dirs, reference, from + 1);
    }
}

/// A reference of a binary resolves to the same file as long as the load
/// commands of the binary and the existence of paths stay as they are,
/// whatever else changes.
pub proof fn lemma_resolution_is_determined(
    a: Snapshot,
    b: Snapshot,
    binary: Seq<char>,
    reference: Seq<char>,
)
    requires
        forall|p: Seq<char>| a.present(p) == b.present(p),
        a.load_commands_of(binary) == b.load_commands_of(binary),
    ensures
        resolved(a, binary, reference) == resolved(b, binary, reference),
{
    assert(rpaths_of(a, binary, false) == rpaths_of(b, binary, false));
    if let Ok(rpaths) = rpaths_of(a, binary, false) {
        if let Some(folder) = parent_of(binary) {
            lemma_search_reads_presence(
                a,
                b,
                candidate_dirs(folder, rpaths),
                reference,
                0,
            );
        }
    }
}

/// The run-path directories are searched in their declared order: where
/// the directories before the one at `k` give nothing, and the one at `k`
/// holds the file, the search from any index up to `k` finds that file.
pub proof fn lemma_search_finds_first_holder(
    snapshot: Snapshot,
    dirs: Seq<Seq<char>>,
    reference: Seq<char>,
    k: nat,
    file: Seq<char>,
    from: nat,
)
    requires
        from <= k < dirs.len(),
        forall|j: int|
            from <= j < k ==> found_in(snapshot, #[trigger] dirs[j], reference) == Ok::<
                Option<Seq<char>>,
                ErrorView,
            >(None),
        found_in(snapshot, dirs[k as int], reference) == Ok::<Option<Seq<char>>, ErrorView>(
            Some(file),
        ),
    ensures
        search(snapshot, dirs, reference, from) == Ok::<Seq<char>, ErrorView>(file),
    decreases k - from,
{
    if from < k {
        assert(found_in(snapshot, dirs[from as int], reference) == Ok::<
            Option<Seq<char>>,
            ErrorView,
        >(None));
        lemma_search_finds_first_holder(snapshot, dirs, reference, k, file, from + 1);
    }
}

/// A line that names a library of the system adds no node.
pub proof fn lemma_system_library_adds_nothing(
    snapshot: Snapshot,
    binary: Seq<char>,
    line: Seq<char>,
    reference: Seq<char>,
)
    requires
        reference_of(line) == Some(reference),
        is_system(reference),
    ensures
        dependency(snapshot, binary, line) == Ok::<Option<BinaryView>, ErrorView>(None),
{
}

/// Whether the node `v` is named by its parent, and by a reference that is
/// no library of the system.
pub open spec fn named_outside_system(v: BinaryView) -> bool {
    match v.install_name_old {
        Some(reference) => !is_system(reference),
        None => false,
    }
}

/// Whether every node below the root of `v`, at any depth, is named by a
/// reference that is no library of the system.
pub open spec fn dependencies_outside_system(v: BinaryView) -> bool {
    forall|i: int|
        0 <= i < v.libs.len() ==> every(
            #[trigger] v.libs[i],
            |n: BinaryView| named_outside_system(n),
        )
}

/// Every node that the lines of a shared-library list give is named by a
/// reference that is no library of the system, and has no dependencies yet.
pub proof fn lemma_dependencies_outside_system(
    snapshot: Snapshot,
    binary: Seq<char>,
    list: Seq<Seq<char>>,
    n: nat,
)
    ensures
        match dependencies(snapshot, binary, list, n) {
            Ok(found) => forall|i: int|
                0 <= i < found.len() ==> named_outside_system(#[trigger] found[i])
                    && found[i].libs.len() == 0,
            Err(_) => true,
        },
    decreases n,
{
    if n == 0 || n > list.len() {
    } else {
        lemma_dependencies_outside_system(snapshot, binary, list, (n - 1) as nat);
    }
}

/// To read the shared-library list of a node keeps every node below it
/// outside the system.
pub proof fn lemma_scan_outside_system(snapshot: Snapshot, v: BinaryView)
    requires
        dependencies_outside_system(v),
    ensures
        match scanned(snapshot, v) {
            Ok(node) => dependencies_outside_system(node) && node.install_name_old
                == v.install_name_old,
            Err(_) => true,
        },
{
    if let Ok(output) = snapshot.shared_libs_of(v.file_path) {
        let body = listed(output);
        lemma_dependencies_outside_system(snapshot, v.file_path, body, body.len());
        if body.len() > 0 {
            lemma_dependencies_outside_system(
                snapshot,
                v.file_path,
                body.skip(1),
                (body.len() - 1) as nat,
            );
        }
        if let Ok(node) = scanned(snapshot, v) {
            assert forall|i: int| 0 <= i < node.libs.len() implies every(
                #[trigger] node.libs[i],
                |n: BinaryView| named_outside_system(n),
            ) by {
                if i < v.libs.len() {
                    assert(node.libs[i] == v.libs[i]);
                }
            }
        }
    }
}

/// No library of the system becomes a node: the tree that grows out of a
/// node has, below its root and at any depth, only nodes that are named by
/// a reference outside the system, provided that this held before.
pub proof fn lemma_discovery_outside_system(
    snapshot: Snapshot,
    v: BinaryView,
    visited: Set<Seq<char>>,
)
    requires
        dependencies_outside_system(v),
    ensures
        match grown(snapshot, v, visited).found {
            Ok(tree) => dependencies_outside_system(tree) && tree.install_name_old
                == v.install_name_old,
            Err(_) => true,
        },
    decreases pending(snapshot.paths.entries@, visited), 0nat, 0nat,
{
    if let Ok(key) = canonical(snapshot, v.file_path) {
        if !visited.contains(key) {
            lemma_scan_outside_system(snapshot, v);
            if let Ok(node) = scanned(snapshot, v) {
                lemma_pending_drops(snapshot.paths.entries@, visited, v.file_path, key);
                lemma_discovery_outside_system_all(
                    snapshot,
                    node.libs,
                    visited.insert(key),
                    node.libs.len(),
                );
            }
        }
    }
}

/// The trees that grow out of nodes outside the system are outside the
/// system, one tree for each node.
pub proof fn lemma_discovery_outside_system_all(
    snapshot: Snapshot,
    list: Seq<BinaryView>,
    visited: Set<Seq<char>>,
    n: nat,
)
    requires
        n <= list.len(),
        forall|i: int|
            0 <= i < list.len() ==> every(#[trigger] list[i], |n: BinaryView| named_outside_system(n)),
    ensures
        match grown_all(snapshot, list, visited, n).found {
            Ok(trees) => trees.len() == n && forall|i: int|
                0 <= i < n ==> every(#[trigger] trees[i], |n: BinaryView| named_outside_system(n)),
            Err(_) => true,
        },
    decreases pending(snapshot.paths.entries@, visited), 1nat, n,
{
    if n > 0 {
        lemma_discovery_outside_system_all(snapshot, list, visited, (n - 1) as nat);
        let before = grown_all(snapshot, list, visited, (n - 1) as nat);
        if let Ok(done) = before.found {
            let mid = visited.union(before.visited);
            lemma_pending_shrinks(snapshot.paths.entries@, visited, mid);
            let child = list[n - 1];
            assert(every(child, |n: BinaryView| named_outside_system(n)));
            assert(dependencies_outside_system(child));
            lemma_discovery_outside_system(snapshot, child, mid);
        }
    }
}

/// A binary that was visited is not scanned again: its node stays as it is,
/// which is what ends the discovery on a cycle of references.
pub proof fn lemma_visited_is_not_scanned(
    snapshot: Snapshot,
    v: BinaryView,
    visited: Set<Seq<char>>,
    key: Seq<char>,
)
    requires
        canonical(snapshot, v.file_path) == Ok::<Seq<char>, ErrorView>(key),
        visited.contains(key),
    ensures
        grown(snapshot, v, visited) == (Growth {
            found: Ok::<BinaryView, ErrorView>(v),
            visited,
            left: v,
        }),
{
}

/// A binary that is scanned is visited from then on.
pub proof fn lemma_scanned_is_visited(
    snapshot: Snapshot,
    v: BinaryView,
    visited: Set<Seq<char>>,
    key: Seq<char>,
)
    requires
        canonical(snapshot, v.file_path) == Ok::<Seq<char>, ErrorView>(key),
        grown(snapshot, v, visited).found is Ok,
    ensures
        grown(snapshot, v, visited).visited.contains(key),
{
    if !visited.contains(key) {
        let node = scanned(snapshot, v)->Ok_0;
        lemma_discovery_keeps_visited_all(snapshot, node.libs, visited.insert(key), node.libs.len());
    }
}

/// A discovery forgets nothing that was visited.
pub proof fn lemma_discovery_keeps_visited(
    snapshot: Snapshot,
    v: BinaryView,
    visited: Set<Seq<char>>,
)
    ensures
        visited.subset_of(grown(snapshot, v, visited).visited),
    decreases pending(snapshot.paths.entries@, visited), 0nat, 0nat,
{
    if let Ok(key) = canonical(snapshot, v.file_path) {
        if !visited.contains(key) {
            if let Ok(node) = scanned(snapshot, v) {
                lemma_pending_drops(snapshot.paths.entries@, visited, v.file_path, key);
                lemma_discovery_keeps_visited_all(
                    snapshot,
                    node.libs,
                    visited.insert(key),
                    node.libs.len(),
                );
            }
        }
    }
}

/// A discovery over a list of nodes forgets nothing that was visited.
pub proof fn lemma_discovery_keeps_visited_all(
    snapshot: Snapshot,
    list: Seq<BinaryView>,
    visited: Set<Seq<char>>,
    n: nat,
)
    ensures
        visited.subset_of(grown_all(snapshot, list, visited, n).visited),
    decreases pending(snapshot.paths.entries@, visited), 1nat, n,
{
    if n == 0 || n > list.len() {
    } else {
        lemma_discovery_keeps_visited_all(snapshot, list, visited, (n - 1) as nat);
        let before = grown_all(snapshot, list, visited, (n - 1) as nat);
        if let Ok(done) = before.found {
            let mid = visited.union(before.visited);
            lemma_pending_shrinks(snapshot.paths.entries@, visited, mid);
            lemma_discovery_keeps_visited(snapshot, list[n - 1], mid);
        }
    }
}

/// What a pass makes of the first `n` trees of a list is what it makes of
/// each of them, in order.
pub proof fn lemma_pass_goes_tree_by_tree(pass: PassView, list: Seq<BinaryView>, n: nat)
    requires
        n <= list.len(),
    ensures
        match passed_all(pass, list, n) {
            Ok(out) => out.len() == n && forall|i: int|
                0 <= i < n ==> passed(pass, list[i]) == Ok::<BinaryView, ErrorView>(
                    #[trigger] out[i],
                ),
            Err(_) => true,
        },
    decreases n,
{
    if n > 0 {
        lemma_pass_goes_tree_by_tree(pass, list, (n - 1) as nat);
    }
}

/// Whether the node `v` has the directory that the layout of a bundle at
/// `dest`, with its libraries in `libs`, gives it: the directory of the
/// bundle for the bundled binary, the one directory of libraries for a
/// dependency.
pub open spec fn in_its_folder(v: BinaryView, dest: Seq<char>, libs: Seq<char>) -> bool {
    v.dest_folder_path == Some(
        if v.is_base {
            dest
        } else {
            joined(dest, libs)
        },
    )
}

/// The layout is flat: once the directory of the libraries and the
/// directory of the bundle are set, every dependency, at whatever depth of
/// the tree, lies in the one directory of libraries under the bundle's
/// directory, and only the bundled binary in that directory itself.
pub proof fn lemma_layout_is_flat(v: BinaryView, dest: Seq<char>, libs: Seq<char>)
    ensures
        passed(PassView::LibsPath(libs), v) is Ok,
        passed(PassView::DestFolder(dest), passed(PassView::LibsPath(libs), v)->Ok_0) is Ok,
        every(
            passed(PassView::DestFolder(dest), passed(PassView::LibsPath(libs), v)->Ok_0)->Ok_0,
            |n: BinaryView| in_its_folder(n, dest, libs),
        ),
    decreases v,
{
    let first = PassView::LibsPath(libs);
    let second = PassView::DestFolder(dest);
    lemma_pass_succeeds(first, v);
    let t = passed(first, v)->Ok_0;
    lemma_pass_succeeds(second, t);
    let u = passed(second, t)->Ok_0;
    lemma_pass_goes_tree_by_tree(first, v.libs, v.libs.len());
    lemma_pass_goes_tree_by_tree(second, t.libs, t.libs.len());
    assert forall|i: int| 0 <= i < u.libs.len() implies every(
        #[trigger] u.libs[i],
        |n: BinaryView| in_its_folder(n, dest, libs),
    ) by {
        lemma_layout_is_flat(v.libs[i], dest, libs);
        assert(passed(first, v.libs[i]) == Ok::<BinaryView, ErrorView>(t.libs[i]));
        assert(passed(second, t.libs[i]) == Ok::<BinaryView, ErrorView>(u.libs[i]));
    }
}

/// To add a run-path that the binary has already is no failure, so that a
/// relocation can be repeated.
pub proof fn lemma_present_rpath_counts_as_added(
    file: Seq<char>,
    rpath: Seq<char>,
    succeeded: bool,
    stderr: Seq<char>,
)
    requires
        contains(stderr, already_present()),
    ensures
        judged(ActionView::AddRpath { file, rpath }, succeeded, stderr) == Ok::<(), ErrorView>(()),
{
}

/// Whether no rewrite of `list` replaces a reference to a library of the
/// system.
pub open spec fn rewrites_outside_system(list: Seq<ActionView>) -> bool {
    forall|i: int|
        0 <= i < list.len() ==> match #[trigger] list[i] {
            ActionView::ChangeInstallName { file, from, to } => !is_system(from),
            _ => true,
        }
}

/// The rewrites of one node replace no reference to a library of the
/// system, where its dependencies are named outside the system.
pub proof fn lemma_node_rewrites_outside_system(file: Seq<char>, libs: Seq<BinaryView>, n: nat)
    requires
        forall|i: int| 0 <= i < libs.len() ==> named_outside_system(#[trigger] libs[i]),
    ensures
        match rewrites(file, libs, n) {
            Ok(list) => rewrites_outside_system(list),
            Err(_) => true,
        },
    decreases n,
{
    if n == 0 || n > libs.len() {
    } else {
        lemma_node_rewrites_outside_system(file, libs, (n - 1) as nat);
        assert(named_outside_system(libs[n - 1]));
    }
}

/// No reference to a library of the system is rewritten: in a tree whose
/// dependencies are all named outside the system, as a discovery leaves
/// it, the relocation replaces no reference that names a library of the
/// system.
pub proof fn lemma_no_rewrite_for_system_library(v: BinaryView)
    requires
        dependencies_outside_system(v),
    ensures
        match gathered(Plan::Relocate, v) {
            Ok(list) => rewrites_outside_system(list),
            Err(_) => true,
        },
    decreases v, 0nat,
{
    assert forall|i: int| 0 <= i < v.libs.len() implies named_outside_system(
        #[trigger] v.libs[i],
    ) by {
        assert(every(v.libs[i], |n: BinaryView| named_outside_system(n)));
    }
    if let Some(file) = v.dest_file_path {
        lemma_node_rewrites_outside_system(file, v.libs, v.libs.len());
    }
    lemma_no_rewrite_for_system_library_all(v.libs, v.libs.len());
}

/// No reference to a library of the system is rewritten in any tree of a
/// list of trees outside the system.
pub proof fn lemma_no_rewrite_for_system_library_all(list: Seq<BinaryView>, n: nat)
    requires
        forall|i: int|
            0 <= i < list.len() ==> every(#[trigger] list[i], |n: BinaryView| named_outside_system(n)),
    ensures
        match gathered_all(Plan::Relocate, list, n) {
            Ok(out) => rewrites_outside_system(out),
            Err(_) => true,
        },
    decreases list, n,
{
    if n == 0 || n > list.len() {
    } else {
        lemma_no_rewrite_for_system_library_all(list, (n - 1) as nat);
        let child = list[n - 1];
        assert(every(child, |n: BinaryView| named_outside_system(n)));
        assert(dependencies_outside_system(child));
        lemma_no_rewrite_for_system_library(child);
    }
}

/// The part of the metadata of the binaries of a bundle that a relocation
/// settles: the identity of each library, by the path of its file, and the
/// run-paths of each binary, as pairs of the path of its file and the
/// run-path.
pub struct Metadata {
    pub ids: Map<Seq<char>, Seq<char>>,
    pub rpaths: Set<(Seq<char>, Seq<char>)>,
}

/// The metadata `m` once `action` is done: an identity that is set replaces
/// the one before; a run-path that is added is there, whether or not it was
/// there before; no other operation touches identities or run-paths.
pub open spec fn performed(m: Metadata, action: ActionView) -> Metadata {
    match action {
        ActionView::SetId { file, id } => Metadata { ids: m.ids.insert(file, id), ..m },
        ActionView::AddRpath { file, rpath } => Metadata {
            rpaths: m.rpaths.insert((file, rpath)),
            ..m
        },
        _ => m,
    }
}

/// The metadata `m` once the first `n` operations of `list` are done, in
/// order.
pub open spec fn performed_all(m: Metadata, list: Seq<ActionView>, n: nat) -> Metadata
    decreases n,
{
    if n == 0 || n > list.len() {
        m
    } else {
        performed(performed_all(m, list, (n - 1) as nat), list[n - 1])
    }
}

/// What the first `n` operations of `list` settle by themselves, whatever
/// was there before them.
pub open spec fn settled(list: Seq<ActionView>, n: nat) -> Metadata {
    performed_all(Metadata { ids: Map::empty(), rpaths: Set::empty() }, list, n)
}

/// To perform operations on some metadata gives that metadata, overlaid
/// with what the operations settle by themselves.
pub proof fn lemma_performed_overlays(m: Metadata, list: Seq<ActionView>, n: nat)
    ensures
        performed_all(m, list, n).ids == m.ids.union_prefer_right(settled(list, n).ids),
        performed_all(m, list, n).rpaths == m.rpaths.union(settled(list, n).rpaths),
    decreases n,
{
    let own = settled(list, n);
    let end = performed_all(m, list, n);
    if n == 0 || n > list.len() {
        assert(end.ids =~= m.ids.union_prefer_right(own.ids));
        assert(end.rpaths =~= m.rpaths.union(own.rpaths));
    } else {
        lemma_performed_overlays(m, list, (n - 1) as nat);
        assert(end.ids =~= m.ids.union_prefer_right(own.ids));
        assert(end.rpaths =~= m.rpaths.union(own.rpaths));
    }
}

/// A relocation can be repeated: to perform a list of operations a second
/// time leaves every identity and every run-path as the first time left
/// them. This holds of every list, and so of the list of a relocation.
pub proof fn lemma_relocation_is_idempotent(m: Metadata, list: Seq<ActionView>)
    ensures
        performed_all(performed_all(m, list, list.len()), list, list.len()) == performed_all(
            m,
            list,
            list.len(),
        ),
{
    let once = performed_all(m, list, list.len());
    let twice = performed_all(once, list, list.len());
    let own = settled(list, list.len());
    lemma_performed_overlays(m, list, list.len());
    lemma_performed_overlays(once, list, list.len());
    assert(twice.ids =~= once.ids);
    assert(twice.rpaths =~= once.rpaths);
}

/// Whether `file` is the path in the bundle of some node of the tree `v`.
pub open spec fn is_copy_of(v: BinaryView, file: Seq<char>) -> bool
    decreases v,
{
    v.dest_file_path == Some(file) || exists|i: int|
        0 <= i < v.libs.len() && is_copy_of(#[trigger] v.libs[i], file)
}

/// Whether every operation of `list` works on the copy of some node of `v`.
pub open spec fn work_on_copies(list: Seq<ActionView>, v: BinaryView) -> bool {
    forall|i: int| 0 <= i < list.len() ==> is_copy_of(v, target_of(#[trigger] list[i]))
}

/// The rewrites of one node work on the file that they are made for.
pub proof fn lemma_rewrites_work_on(file: Seq<char>, libs: Seq<BinaryView>, n: nat)
    ensures
        match rewrites(file, libs, n) {
            Ok(list) => forall|i: int| 0 <= i < list.len() ==> target_of(#[trigger] list[i]) == file,
            Err(_) => true,
        },
    decreases n,
{
    if n == 0 || n > libs.len() {
    } else {
        lemma_rewrites_work_on(file, libs, (n - 1) as nat);
    }
}

/// Relocation and signing work on the copies in the bundle, never on
/// anything else: every operation that rewrites or signs names the path in
/// the bundle of a node of the tree.
pub proof fn lemma_operations_work_on_copies(plan: Plan, v: BinaryView)
    requires
        plan != Plan::Copy,
    ensures
        match gathered(plan, v) {
            Ok(list) => work_on_copies(list, v),
            Err(_) => true,
        },
    decreases v, 0nat,
{
    if let Some(file) = v.dest_file_path {
        lemma_rewrites_work_on(file, v.libs, v.libs.len());
    }
    lemma_operations_work_on_copies_all(plan, v.libs, v.libs.len());
    if let Ok(list) = gathered(plan, v) {
        let own = node_actions(plan, v)->Ok_0;
        let rest = gathered_all(plan, v.libs, v.libs.len())->Ok_0;
        assert forall|i: int| 0 <= i < list.len() implies is_copy_of(
            v,
            target_of(#[trigger] list[i]),
        ) by {
            if i < own.len() {
                assert(list[i] == own[i]);
                assert(target_of(own[i]) == v.dest_file_path->0);
            } else {
                assert(list[i] == rest[i - own.len()]);
                let k = choose|k: int|
                    0 <= k < v.libs.len() && is_copy_of(
                        #[trigger] v.libs[k],
                        target_of(rest[i - own.len()]),
                    );
                assert(is_copy_of(v.libs[k], target_of(list[i])));
            }
        }
    }
}

/// Every operation that rewrites or signs in the first `n` trees of `list`
/// names the path in the bundle of a node of one of these trees.
pub proof fn lemma_operations_work_on_copies_all(plan: Plan, list: Seq<BinaryView>, n: nat)
    requires
        plan != Plan::Copy,
    ensures
        match gathered_all(plan, list, n) {
            Ok(out) => forall|i: int|
                0 <= i < out.len() ==> exists|k: int|
                    0 <= k < list.len() && is_copy_of(
                        #[trigger] list[k],
                        target_of(#[trigger] out[i]),
                    ),
            Err(_) => true,
        },
    decreases list, n,
{
    if n == 0 || n > list.len() {
    } else {
        lemma_operations_work_on_copies_all(plan, list, (n - 1) as nat);
        lemma_operations_work_on_copies(plan, list[n - 1]);
        if let Ok(out) = gathered_all(plan, list, n) {
            let done = gathered_all(plan, list, (n - 1) as nat)->Ok_0;
            let more = gathered(plan, list[n - 1])->Ok_0;
            assert forall|i: int| 0 <= i < out.len() implies exists|k: int|
                0 <= k < list.len() && is_copy_of(#[trigger] list[k], target_of(#[trigger] out[i])) by {
                if i < done.len() {
                    assert(out[i] == done[i]);
                    let k = choose|k: int|
                        0 <= k < list.len() && is_copy_of(#[trigger] list[k], target_of(done[i]));
                    assert(is_copy_of(list[k], target_of(out[i])));
                } else {
                    assert(out[i] == more[i - done.len()]);
                    assert(is_copy_of(list[n - 1], target_of(out[i])));
                }
            }
        }
    }
}

/// Whether every piece of `list` is neither empty nor holds a character of
/// which `unwanted` holds.
pub open spec fn clean_pieces(list: Seq<Seq<char>>, unwanted: spec_fn(char) -> bool) -> bool {
    forall|i: int|
        0 <= i < list.len() ==> (#[trigger] list[i]).len() > 0 && forall|j: int|
            0 <= j < list[i].len() ==> !unwanted(#[trigger] list[i][j])
}

/// The words that follow a part of a word without white space are without
/// white space, and none of them is empty.
pub proof fn lemma_words_after_are_clean(s: Seq<char>, word: Seq<char>)
    requires
        forall|j: int| 0 <= j < word.len() ==> !is_whitespace(#[trigger] word[j]),
    ensures
        clean_pieces(words_after(s, word), |c: char| is_whitespace(c)),
    decreases s.len(),
{
    if s.len() == 0 {
    } else if is_whitespace(s[0]) {
        lemma_words_after_are_clean(s.skip(1), Seq::empty());
    } else {
        lemma_words_after_are_clean(s.skip(1), word.push(s[0]));
    }
}

/// A word is never empty and holds no white space.
pub proof fn lemma_words_are_clean(s: Seq<char>)
    ensures
        clean_pieces(words(s), |c: char| is_whitespace(c)),
{
    lemma_words_after_are_clean(s, Seq::empty());
}

/// Whether no piece of `list` holds a character of which `unwanted` holds.
pub open spec fn free_of(list: Seq<Seq<char>>, unwanted: spec_fn(char) -> bool) -> bool {
    forall|i: int|
        0 <= i < list.len() ==> forall|j: int|
            0 <= j < (#[trigger] list[i]).len() ==> !unwanted(#[trigger] list[i][j])
}

/// The lines that follow a part of a line without line feed hold no line
/// feed.
pub proof fn lemma_lines_after_hold_no_line_feed(s: Seq<char>, line: Seq<char>)
    requires
        forall|j: int| 0 <= j < line.len() ==> #[trigger] line[j] != '\n',
    ensures
        free_of(lines_after(s, line), |c: char| c == '\n'),
    decreases s.len(),
{
    let unwanted = |c: char| c == '\n';
    if s.len() == 0 {
    } else if s[0] == '\n' {
        lemma_lines_after_hold_no_line_feed(s.skip(1), Seq::empty());
        let first = without_return(line);
        let rest = lines_after(s.skip(1), Seq::empty());
        let all = lines_after(s, line);
        assert(all == seq![first] + rest);
        assert forall|i: int| 0 <= i < all.len() implies forall|j: int|
            0 <= j < (#[trigger] all[i]).len() ==> !unwanted(#[trigger] all[i][j]) by {
            if i == 0 {
                assert(all[0] == first);
                assert forall|j: int| 0 <= j < first.len() implies !unwanted(
                    #[trigger] first[j],
                ) by {
                    assert(first[j] == line[j]);
                }
            } else {
                assert(all[i] == rest[i - 1]);
            }
        }
    } else {
        lemma_lines_after_hold_no_line_feed(s.skip(1), line.push(s[0]));
    }
}

/// A line holds no line feed.
pub proof fn lemma_lines_hold_no_line_feed(s: Seq<char>)
    ensures
        free_of(lines(s), |c: char| c == '\n'),
{
    lemma_lines_after_hold_no_line_feed(s, Seq::empty());
}

/// How many of the first `n` lines of `all` hold a run-path marker.
pub open spec fn markers(all: Seq<Seq<char>>, n: nat) -> nat
    decreases n,
{
    if n == 0 || n > all.len() {
        0
    } else {
        markers(all, (n - 1) as nat) + if contains(all[n - 1], "LC_RPATH"@) {
            1nat
        } else {
            0nat
        }
    }
}

/// A marker gives one entry at most: a scan has never found more entries
/// than it has read markers, the marker whose entry is still searched not
/// counted; and it never searches more than three lines for an entry.
pub proof fn lemma_one_entry_per_marker(all: Seq<Seq<char>>, n: nat, with_prefix: bool)
    ensures
        scan_lines(all, n, with_prefix).found.len() + (if scan_lines(all, n, with_prefix).window
            > 0 {
            1nat
        } else {
            0nat
        }) <= markers(all, n),
        scan_lines(all, n, with_prefix).window <= lines_to_search(),
    decreases n,
{
    if n == 0 || n > all.len() {
    } else {
        lemma_one_entry_per_marker(all, (n - 1) as nat, with_prefix);
    }
}

/// Where the first of two run-path directories does not exist and the
/// second holds the referenced file, the reference resolves to the file in
/// the second.
pub proof fn lemma_second_directory_resolves(
    snapshot: Snapshot,
    binary: Seq<char>,
    reference: Seq<char>,
    folder: Seq<char>,
    first: Seq<char>,
    second: Seq<char>,
    name: Seq<char>,
)
    requires
        rpaths_of(snapshot, binary, false) == Ok::<Seq<Seq<char>>, ErrorView>(seq![first, second]),
        parent_of(binary) == Some(folder),
        stripped(reference, "@rpath/"@) == Ok::<Seq<char>, ErrorView>(name),
        snapshot.present(joined(folder, first)) == Ok::<bool, ErrorView>(false),
        snapshot.present(joined(folder, second)) == Ok::<bool, ErrorView>(true),
        snapshot.present(joined(joined(folder, second), name)) == Ok::<bool, ErrorView>(true),
    ensures
        resolved(snapshot, binary, reference) == Ok::<Seq<char>, ErrorView>(
            joined(joined(folder, second), name),
        ),
{
    let dirs = candidate_dirs(folder, seq![first, second]);
    assert(dirs.len() == 2);
    assert(dirs[0] == joined(folder, first));
    assert(dirs[1] == joined(folder, second));
    lemma_search_finds_first_holder(
        snapshot,
        dirs,
        reference,
        1,
        joined(joined(folder, second), name),
        0,
    );
}

/// A pass that comes to its end leaves the tree that it gives.
pub proof fn lemma_finished_pass_leaves_its_result(pass: PassView, v: BinaryView)
    ensures
        match passed(pass, v) {
            Ok(tree) => attempted(pass, v) == tree,
            Err(_) => true,
        },
    decreases v, 0nat,
{
    lemma_finished_pass_leaves_its_result_all(pass, v.libs, v.libs.len());
    if let Ok(out) = passed_all(pass, v.libs, v.libs.len()) {
        assert(out + v.libs.skip(v.libs.len() as int) =~= out);
    }
}

/// A pass that is through with the first `n` trees of a list leaves what
/// it gives for these, and the others as they were.
pub proof fn lemma_finished_pass_leaves_its_result_all(
    pass: PassView,
    list: Seq<BinaryView>,
    n: nat,
)
    requires
        n <= list.len(),
    ensures
        match passed_all(pass, list, n) {
            Ok(out) => out.len() == n && attempted_all(pass, list, n) == out + list.skip(n as int),
            Err(_) => true,
        },
    decreases list, n,
{
    if n == 0 {
        assert(Seq::<BinaryView>::empty() + list.skip(0) =~= list);
    } else {
        lemma_finished_pass_leaves_its_result_all(pass, list, (n - 1) as nat);
        lemma_finished_pass_leaves_its_result(pass, list[n - 1]);
        if let Ok(out) = passed_all(pass, list, n) {
            let done = passed_all(pass, list, (n - 1) as nat)->Ok_0;
            let tree = passed(pass, list[n - 1])->Ok_0;
            let before = done + list.skip(n - 1);
            assert(out == done.push(tree));
            assert(before.update(n - 1, tree) =~= out + list.skip(n as int));
        }
    }
}

/// A discovery that comes to its end leaves the tree that it gives.
pub proof fn lemma_finished_discovery_leaves_its_tree(
    snapshot: Snapshot,
    v: BinaryView,
    visited: Set<Seq<char>>,
)
    ensures
        match grown(snapshot, v, visited).found {
            Ok(tree) => grown(snapshot, v, visited).left == tree,
            Err(_) => true,
        },
    decreases pending(snapshot.paths.entries@, visited), 0nat, 0nat,
{
    if let Ok(key) = canonical(snapshot, v.file_path) {
        if !visited.contains(key) {
            if let Ok(node) = scanned(snapshot, v) {
                lemma_pending_drops(snapshot.paths.entries@, visited, v.file_path, key);
                lemma_finished_discovery_leaves_its_tree_all(
                    snapshot,
                    node.libs,
                    visited.insert(key),
                    node.libs.len(),
                );
                if let Ok(out) = grown_all(
                    snapshot,
                    node.libs,
                    visited.insert(key),
                    node.libs.len(),
                ).found {
                    assert(out + node.libs.skip(node.libs.len() as int) =~= out);
                }
            }
        }
    }
}

/// A discovery that is through with the first `n` nodes of a list leaves
/// the trees that it gives for these, and the others as they were.
pub proof fn lemma_finished_discovery_leaves_its_tree_all(
    snapshot: Snapshot,
    list: Seq<BinaryView>,
    visited: Set<Seq<char>>,
    n: nat,
)
    requires
        n <= list.len(),
    ensures
        match grown_all(snapshot, list, visited, n).found {
            Ok(out) => out.len() == n && grown_all(snapshot, list, visited, n).left == out
                + list.skip(n as int),
            Err(_) => true,
        },
    decreases pending(snapshot.paths.entries@, visited), 1nat, n,
{
    if n == 0 {
        assert(Seq::<BinaryView>::empty() + list.skip(0) =~= list);
    } else {
        lemma_finished_discovery_leaves_its_tree_all(snapshot, list, visited, (n - 1) as nat);
        let before = grown_all(snapshot, list, visited, (n - 1) as nat);
        if let Ok(done) = before.found {
            let mid = visited.union(before.visited);
            lemma_pending_shrinks(snapshot.paths.entries@, visited, mid);
            lemma_finished_discovery_leaves_its_tree(snapshot, list[n - 1], mid);
            if let Ok(out) = grown_all(snapshot, list, visited, n).found {
                let tree = grown(snapshot, list[n - 1], mid).found->Ok_0;
                let so_far = done + list.skip(n - 1);
                assert(out == done.push(tree));
                assert(so_far.update(n - 1, tree) =~= out + list.skip(n as int));
            }
        }
    }
}

} // verus!
