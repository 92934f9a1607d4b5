//! The whole way of a small bundle, from the snapshot to the operations: an
//! executable that depends on one library outside the system.

use crate::action::ActionView;
use crate::bundle::{bundled, laid_out, operations};
use crate::error::ErrorView;
use crate::graph::{
    canonical, dependencies, dependency, grown, grown_all, is_system, listed, reference_of, scanned,
};
use crate::helpers::resolved;
use crate::text::starts_with;
use crate::model::{fresh, identity_of, passed, passed_all, step, BinaryView, PassView};
use crate::paths::{file_name_of, joined};
use crate::plan::{
    gathered, gathered_all, loader_path, loader_path_to, node_actions, rewrites, Plan,
};
use crate::snapshot::Snapshot;
use vstd::prelude::*;

verus! {

/// The node of the library at `path` that its parent names `reference`, as
/// it is before anything else is known of it.
pub open spec fn library(path: Seq<char>, reference: Seq<char>) -> BinaryView {
    BinaryView { install_name_old: Some(reference), ..fresh(path, false, false) }
}

/// Whether, by `snapshot`, the executable at `exe` depends on one library
/// outside the system and no more: it names that library `reference`, the
/// library lies at `lib`, gives itself the identity `id` and depends on
/// nothing outside the system itself. Neither path is a symbolic link.
pub open spec fn one_library(
    snapshot: Snapshot,
    exe: Seq<char>,
    lib: Seq<char>,
    reference: Seq<char>,
    id: Seq<char>,
) -> bool {
    &&& exe != lib
    &&& canonical(snapshot, exe) == Ok::<Seq<char>, ErrorView>(exe)
    &&& canonical(snapshot, lib) == Ok::<Seq<char>, ErrorView>(lib)
    &&& scanned(snapshot, fresh(exe, true, true)) == Ok::<BinaryView, ErrorView>(
        BinaryView { libs: seq![library(lib, reference)], ..fresh(exe, true, true) },
    )
    &&& scanned(snapshot, library(lib, reference)) == Ok::<BinaryView, ErrorView>(
        BinaryView { install_name_id: Some(id), ..library(lib, reference) },
    )
}

/// The library of the bundle, laid out.
pub open spec fn bundled_library(
    lib: Seq<char>,
    reference: Seq<char>,
    id: Seq<char>,
    lib_name: Seq<char>,
    dest: Seq<char>,
    libs: Seq<char>,
) -> BinaryView {
    BinaryView {
        file_path: lib,
        is_executable: false,
        is_base: false,
        install_name_old: Some(reference),
        install_name_id: Some(id),
        dest_folder_path: Some(joined(dest, libs)),
        dest_file_path: Some(joined(joined(dest, libs), lib_name)),
        libs_path: Some(libs),
        rpath: Some(identity_of(lib_name)),
        libs: Seq::empty(),
    }
}

/// The executable of the bundle, laid out, with its library below it.
pub open spec fn bundled_executable(
    exe: Seq<char>,
    exe_name: Seq<char>,
    dest: Seq<char>,
    libs: Seq<char>,
    below: BinaryView,
) -> BinaryView {
    BinaryView {
        file_path: exe,
        is_executable: true,
        is_base: true,
        install_name_old: None,
        install_name_id: None,
        dest_folder_path: Some(dest),
        dest_file_path: Some(joined(dest, exe_name)),
        libs_path: Some(libs),
        rpath: None,
        libs: seq![below],
    }
}

/// The operations that bundle an executable with one library: both files
/// are copied, the executable to the bundle's directory and the library to
/// the directory of libraries; the executable gets the run-path to that
/// directory, no identity, and names the library by the identity that the
/// library has in the bundle; the library gets that identity and the
/// run-path to its own directory; both copies are signed.
pub open spec fn one_library_operations(
    exe: Seq<char>,
    lib: Seq<char>,
    reference: Seq<char>,
    exe_name: Seq<char>,
    lib_name: Seq<char>,
    dest: Seq<char>,
    libs: Seq<char>,
) -> Seq<ActionView> {
    let exe_copy = joined(dest, exe_name);
    let lib_folder = joined(dest, libs);
    let lib_copy = joined(lib_folder, lib_name);
    seq![
        ActionView::CreateDir(dest),
        ActionView::CopyFile { from: exe, to: exe_copy },
        ActionView::CreateDir(lib_folder),
        ActionView::CopyFile { from: lib, to: lib_copy },
        ActionView::AddRpath { file: exe_copy, rpath: loader_path_to(libs) },
        ActionView::ChangeInstallName {
            file: exe_copy,
            from: reference,
            to: identity_of(lib_name),
        },
        ActionView::SetId { file: lib_copy, id: identity_of(lib_name) },
        ActionView::AddRpath { file: lib_copy, rpath: loader_path() },
        ActionView::Sign(exe_copy),
        ActionView::Sign(lib_copy),
    ]
}

/// A pass over a node without dependencies is the pass on that node.
pub proof fn lemma_pass_on_leaf(pass: PassView, v: BinaryView)
    requires
        v.libs.len() == 0,
    ensures
        passed(pass, v) == step(pass, v),
{
    assert(passed_all(pass, v.libs, 0) == Ok::<Seq<BinaryView>, ErrorView>(Seq::empty()));
    if let Ok(node) = step(pass, v) {
        assert(node.libs =~= Seq::<BinaryView>::empty());
    }
}

/// A pass over a node with one dependency, which has none itself, is the
/// pass on the node and on the dependency.
pub proof fn lemma_pass_on_pair(pass: PassView, v: BinaryView, node: BinaryView, below: BinaryView)
    requires
        v.libs.len() == 1,
        v.libs[0].libs.len() == 0,
        step(pass, v) == Ok::<BinaryView, ErrorView>(node),
        step(pass, v.libs[0]) == Ok::<BinaryView, ErrorView>(below),
    ensures
        passed(pass, v) == Ok::<BinaryView, ErrorView>(BinaryView { libs: seq![below], ..node }),
{
    lemma_pass_on_leaf(pass, v.libs[0]);
    assert(passed_all(pass, v.libs, 0) == Ok::<Seq<BinaryView>, ErrorView>(Seq::empty()));
    assert(passed_all(pass, v.libs, 1) == Ok::<Seq<BinaryView>, ErrorView>(
        Seq::<BinaryView>::empty().push(below),
    ));
    assert(Seq::<BinaryView>::empty().push(below) =~= seq![below]);
}

/// The operations of a node with one dependency, which has none itself,
/// are those of the node and then those of the dependency.
pub proof fn lemma_plan_on_pair(
    plan: Plan,
    v: BinaryView,
    own: Seq<ActionView>,
    below: Seq<ActionView>,
)
    requires
        v.libs.len() == 1,
        v.libs[0].libs.len() == 0,
        node_actions(plan, v) == Ok::<Seq<ActionView>, ErrorView>(own),
        node_actions(plan, v.libs[0]) == Ok::<Seq<ActionView>, ErrorView>(below),
    ensures
        gathered(plan, v) == Ok::<Seq<ActionView>, ErrorView>(own + below),
{
    let child = v.libs[0];
    assert(gathered_all(plan, child.libs, 0) == Ok::<Seq<ActionView>, ErrorView>(Seq::empty()));
    assert(below + Seq::<ActionView>::empty() =~= below);
    assert(gathered(plan, child) == Ok::<Seq<ActionView>, ErrorView>(below));
    assert(gathered_all(plan, v.libs, 0) == Ok::<Seq<ActionView>, ErrorView>(Seq::empty()));
    assert(Seq::<ActionView>::empty() + below =~= below);
    assert(gathered_all(plan, v.libs, 1) == Ok::<Seq<ActionView>, ErrorView>(below));
}

/// The discovery of an executable with one library gives the executable
/// with the library below it, the library with its identity and nothing
/// below it.
pub proof fn lemma_one_library_is_discovered(
    snapshot: Snapshot,
    exe: Seq<char>,
    lib: Seq<char>,
    reference: Seq<char>,
    id: Seq<char>,
)
    requires
        one_library(snapshot, exe, lib, reference, id),
    ensures
        grown(snapshot, fresh(exe, true, true), Set::empty()).found == Ok::<BinaryView, ErrorView>(
            BinaryView {
                libs: seq![BinaryView { install_name_id: Some(id), ..library(lib, reference) }],
                ..fresh(exe, true, true)
            },
        ),
{
    let root = fresh(exe, true, true);
    let dep = library(lib, reference);
    let known = BinaryView { install_name_id: Some(id), ..dep };
    let node = BinaryView { libs: seq![dep], ..root };
    let none = Set::<Seq<char>>::empty();
    let seen = none.insert(exe);
    let start = grown_all(snapshot, node.libs, seen, 0);
    assert(start.found == Ok::<Seq<BinaryView>, ErrorView>(Seq::empty()) && start.visited == seen);
    let mid = seen.union(start.visited);
    assert(!mid.contains(lib));
    let all_seen = mid.insert(lib);
    assert(known.libs.len() == 0);
    let leaf = grown_all(snapshot, known.libs, all_seen, 0);
    assert(leaf.found == Ok::<Seq<BinaryView>, ErrorView>(Seq::empty()) && leaf.visited
        == all_seen);
    assert(known.libs =~= Seq::<BinaryView>::empty());
    let library_grown = grown(snapshot, dep, mid);
    assert(library_grown.found == Ok::<BinaryView, ErrorView>(known) && library_grown.visited
        == all_seen);
    assert(node.libs[0] == dep);
    let below = grown_all(snapshot, node.libs, seen, 1);
    assert(below.found == Ok::<Seq<BinaryView>, ErrorView>(
        Seq::<BinaryView>::empty().push(known),
    ) && below.visited == all_seen);
    assert(Seq::<BinaryView>::empty().push(known) =~= seq![known]);
}

/// An executable with one library outside the system, end to end: the run
/// lays the two out and lists the operations that copy, relocate and sign
/// them.
pub proof fn lemma_one_library_is_bundled(
    snapshot: Snapshot,
    exe: Seq<char>,
    lib: Seq<char>,
    reference: Seq<char>,
    id: Seq<char>,
    exe_name: Seq<char>,
    lib_name: Seq<char>,
    dest: Seq<char>,
    libs: Seq<char>,
)
    requires
        one_library(snapshot, exe, lib, reference, id),
        file_name_of(exe) == Some(exe_name),
        file_name_of(lib) == Some(lib_name),
    ensures
        laid_out(snapshot, fresh(exe, true, true), dest, libs) == Ok::<BinaryView, ErrorView>(
            bundled_executable(
                exe,
                exe_name,
                dest,
                libs,
                bundled_library(lib, reference, id, lib_name, dest, libs),
            ),
        ),
        bundled(snapshot, fresh(exe, true, true), dest, libs) == Ok::<Seq<ActionView>, ErrorView>(
            one_library_operations(exe, lib, reference, exe_name, lib_name, dest, libs),
        ),
{
    let root = fresh(exe, true, true);
    let dep = library(lib, reference);
    let a0 = BinaryView { install_name_id: Some(id), ..dep };
    let e0 = BinaryView { libs: seq![a0], ..root };
    lemma_one_library_is_discovered(snapshot, exe, lib, reference, id);
    assert(grown(snapshot, root, Set::empty()).found == Ok::<BinaryView, ErrorView>(e0));

    // symbolic links: none
    let links = PassView::Symlinks(snapshot);
    assert(step(links, e0) == Ok::<BinaryView, ErrorView>(e0));
    assert(step(links, a0) == Ok::<BinaryView, ErrorView>(a0));
    lemma_pass_on_pair(links, e0, e0, a0);
    assert(passed(links, e0) == Ok::<BinaryView, ErrorView>(e0));

    // identities
    let a1 = BinaryView { rpath: Some(identity_of(lib_name)), ..a0 };
    let e1 = BinaryView { libs: seq![a1], ..e0 };
    lemma_pass_on_pair(PassView::Identities, e0, e0, a1);
    assert(passed(PassView::Identities, e0) == Ok::<BinaryView, ErrorView>(e1));

    // the directory of the libraries
    let a2 = BinaryView { libs_path: Some(libs), ..a1 };
    let e2 = BinaryView { libs_path: Some(libs), libs: seq![a2], ..e1 };
    lemma_pass_on_pair(
        PassView::LibsPath(libs),
        e1,
        BinaryView { libs_path: Some(libs), ..e1 },
        a2,
    );
    assert(passed(PassView::LibsPath(libs), e1) == Ok::<BinaryView, ErrorView>(e2));

    // the directories in the bundle
    let a3 = BinaryView { dest_folder_path: Some(joined(dest, libs)), ..a2 };
    let e3 = BinaryView { dest_folder_path: Some(dest), libs: seq![a3], ..e2 };
    lemma_pass_on_pair(
        PassView::DestFolder(dest),
        e2,
        BinaryView { dest_folder_path: Some(dest), ..e2 },
        a3,
    );
    assert(passed(PassView::DestFolder(dest), e2) == Ok::<BinaryView, ErrorView>(e3));

    // the paths in the bundle
    let exe_copy = joined(dest, exe_name);
    let lib_folder = joined(dest, libs);
    let lib_copy = joined(lib_folder, lib_name);
    let a4 = BinaryView { dest_file_path: Some(lib_copy), ..a3 };
    let e4 = BinaryView { dest_file_path: Some(exe_copy), libs: seq![a4], ..e3 };
    lemma_pass_on_pair(
        PassView::Placement,
        e3,
        BinaryView { dest_file_path: Some(exe_copy), ..e3 },
        a4,
    );
    assert(passed(PassView::Placement, e3) == Ok::<BinaryView, ErrorView>(e4));
    assert(a4 == bundled_library(lib, reference, id, lib_name, dest, libs)) by {
        assert(a4.libs =~= Seq::<BinaryView>::empty());
    }
    assert(e4 == bundled_executable(exe, exe_name, dest, libs, a4));
    assert(laid_out(snapshot, root, dest, libs) == Ok::<BinaryView, ErrorView>(e4));

    // the operations
    let copies = seq![
        ActionView::CreateDir(dest),
        ActionView::CopyFile { from: exe, to: exe_copy },
    ];
    let lib_copies = seq![
        ActionView::CreateDir(lib_folder),
        ActionView::CopyFile { from: lib, to: lib_copy },
    ];
    lemma_plan_on_pair(Plan::Copy, e4, copies, lib_copies);

    let change = ActionView::ChangeInstallName {
        file: exe_copy,
        from: reference,
        to: identity_of(lib_name),
    };
    let add = ActionView::AddRpath { file: exe_copy, rpath: loader_path_to(libs) };
    assert(rewrites(exe_copy, e4.libs, 0) == Ok::<Seq<ActionView>, ErrorView>(Seq::empty()));
    assert(rewrites(exe_copy, e4.libs, 1) == Ok::<Seq<ActionView>, ErrorView>(
        Seq::<ActionView>::empty() + seq![change],
    ));
    assert(Seq::<ActionView>::empty() + seq![add] + (Seq::<ActionView>::empty() + seq![change])
        =~= seq![add, change]);
    assert(node_actions(Plan::Relocate, e4) == Ok::<Seq<ActionView>, ErrorView>(seq![add, change]));
    let set = ActionView::SetId { file: lib_copy, id: identity_of(lib_name) };
    let lib_add = ActionView::AddRpath { file: lib_copy, rpath: loader_path() };
    assert(rewrites(lib_copy, a4.libs, 0) == Ok::<Seq<ActionView>, ErrorView>(Seq::empty()));
    assert(seq![set] + seq![lib_add] + Seq::<ActionView>::empty() =~= seq![set, lib_add]);
    assert(node_actions(Plan::Relocate, a4) == Ok::<Seq<ActionView>, ErrorView>(
        seq![set, lib_add],
    ));
    lemma_plan_on_pair(Plan::Relocate, e4, seq![add, change], seq![set, lib_add]);

    lemma_plan_on_pair(
        Plan::Sign,
        e4,
        seq![ActionView::Sign(exe_copy)],
        seq![ActionView::Sign(lib_copy)],
    );
    assert((copies + lib_copies) + (seq![add, change] + seq![set, lib_add]) + (seq![
        ActionView::Sign(exe_copy),
    ] + seq![ActionView::Sign(lib_copy)]) =~= one_library_operations(
        exe,
        lib,
        reference,
        exe_name,
        lib_name,
        dest,
        libs,
    ));
    assert(operations(e4) == Ok::<Seq<ActionView>, ErrorView>(
        one_library_operations(exe, lib, reference, exe_name, lib_name, dest, libs),
    ));
}

/// Lines that all name libraries of the system, or nothing that becomes a
/// node, give no dependency.
pub proof fn lemma_lines_give_nothing(
    snapshot: Snapshot,
    binary: Seq<char>,
    list: Seq<Seq<char>>,
    n: nat,
)
    requires
        n <= list.len(),
        forall|j: int|
            0 <= j < list.len() ==> dependency(snapshot, binary, #[trigger] list[j]) == Ok::<
                Option<BinaryView>,
                ErrorView,
            >(None),
    ensures
        dependencies(snapshot, binary, list, n) == Ok::<Seq<BinaryView>, ErrorView>(Seq::empty()),
    decreases n,
{
    if n > 0 {
        lemma_lines_give_nothing(snapshot, binary, list, (n - 1) as nat);
    }
}

/// Where one line of a list gives a node and every other line gives none,
/// that node is the one dependency.
pub proof fn lemma_one_line_gives_the_dependency(
    snapshot: Snapshot,
    binary: Seq<char>,
    list: Seq<Seq<char>>,
    k: int,
    node: BinaryView,
    n: nat,
)
    requires
        n <= list.len(),
        0 <= k < list.len(),
        dependency(snapshot, binary, list[k]) == Ok::<Option<BinaryView>, ErrorView>(Some(node)),
        forall|j: int|
            0 <= j < list.len() && j != k ==> dependency(snapshot, binary, #[trigger] list[j])
                == Ok::<Option<BinaryView>, ErrorView>(None),
    ensures
        dependencies(snapshot, binary, list, n) == Ok::<Seq<BinaryView>, ErrorView>(
            if n > k {
                seq![node]
            } else {
                Seq::empty()
            },
        ),
    decreases n,
{
    if n > 0 {
        lemma_one_line_gives_the_dependency(snapshot, binary, list, k, node, (n - 1) as nat);
        if n - 1 == k {
            assert(Seq::<BinaryView>::empty().push(node) =~= seq![node]);
        }
    }
}

/// A line whose reference is a run-path reference outside the system gives
/// the node of the file that the reference resolves to, where a regular
/// file is there.
pub proof fn lemma_run_path_line_gives_its_library(
    snapshot: Snapshot,
    binary: Seq<char>,
    line: Seq<char>,
    reference: Seq<char>,
    path: Seq<char>,
)
    requires
        reference_of(line) == Some(reference),
        !is_system(reference),
        starts_with(reference, "@rpath/"@),
        resolved(snapshot, binary, reference) == Ok::<Seq<char>, ErrorView>(path),
        snapshot.is_file(path) == Ok::<bool, ErrorView>(true),
    ensures
        dependency(snapshot, binary, line) == Ok::<Option<BinaryView>, ErrorView>(
            Some(library(path, reference)),
        ),
{
}

/// An executable whose list names one run-path reference outside the
/// system, on the line at `k`, and libraries of the system on every other
/// line, has the library that the reference resolves to as its one
/// dependency.
pub proof fn lemma_executable_with_one_reference(
    snapshot: Snapshot,
    exe: Seq<char>,
    output: Seq<char>,
    k: int,
    reference: Seq<char>,
    lib: Seq<char>,
)
    requires
        snapshot.shared_libs_of(exe) == Ok::<Seq<char>, ErrorView>(output),
        0 <= k < listed(output).len(),
        reference_of(listed(output)[k]) == Some(reference),
        !is_system(reference),
        starts_with(reference, "@rpath/"@),
        resolved(snapshot, exe, reference) == Ok::<Seq<char>, ErrorView>(lib),
        snapshot.is_file(lib) == Ok::<bool, ErrorView>(true),
        forall|j: int|
            0 <= j < listed(output).len() && j != k ==> match reference_of(
                #[trigger] listed(output)[j],
            ) {
                Some(other) => is_system(other),
                None => false,
            },
    ensures
        scanned(snapshot, fresh(exe, true, true)) == Ok::<BinaryView, ErrorView>(
            BinaryView { libs: seq![library(lib, reference)], ..fresh(exe, true, true) },
        ),
{
    let body = listed(output);
    lemma_run_path_line_gives_its_library(snapshot, exe, body[k], reference, lib);
    assert forall|j: int| 0 <= j < body.len() && j != k implies dependency(
        snapshot,
        exe,
        #[trigger] body[j],
    ) == Ok::<Option<BinaryView>, ErrorView>(None) by {
        assert(reference_of(body[j]) is Some);
    }
    lemma_one_line_gives_the_dependency(
        snapshot,
        exe,
        body,
        k,
        library(lib, reference),
        body.len(),
    );
    assert(Seq::<BinaryView>::empty() + seq![library(lib, reference)] =~= seq![
        library(lib, reference),
    ]);
}

/// A library whose list names its identity on the first line and libraries
/// of the system on every other line learns its identity and has no
/// dependency.
pub proof fn lemma_library_without_references(
    snapshot: Snapshot,
    v: BinaryView,
    output: Seq<char>,
    id: Seq<char>,
)
    requires
        !v.is_executable,
        v.libs.len() == 0,
        snapshot.shared_libs_of(v.file_path) == Ok::<Seq<char>, ErrorView>(output),
        listed(output).len() > 0,
        reference_of(listed(output)[0]) == Some(id),
        forall|j: int|
            1 <= j < listed(output).len() ==> match reference_of(#[trigger] listed(output)[j]) {
                Some(other) => is_system(other),
                None => false,
            },
    ensures
        scanned(snapshot, v) == Ok::<BinaryView, ErrorView>(
            BinaryView { install_name_id: Some(id), ..v },
        ),
{
    let body = listed(output);
    let rest = body.skip(1);
    assert forall|j: int| 0 <= j < rest.len() implies dependency(
        snapshot,
        v.file_path,
        #[trigger] rest[j],
    ) == Ok::<Option<BinaryView>, ErrorView>(None) by {
        assert(rest[j] == body[j + 1]);
        assert(reference_of(body[j + 1]) is Some);
    }
    lemma_lines_give_nothing(snapshot, v.file_path, rest, rest.len());
    assert(v.libs + Seq::<BinaryView>::empty() =~= v.libs);
}

} // verus!
