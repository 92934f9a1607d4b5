//! Discovery of the tree of dependencies of a binary.

use crate::error::{text_result, BundleError, ErrorView};
use crate::helpers::{canonicalize_rpath, get_shared_libs, resolved};
use crate::model::{created, same_node, views, Binary, BinaryView};
use crate::paths::{is_absolute, is_absolute_path};
use crate::snapshot::{latest, LinkStatus, PathStatus, Snapshot};
use crate::text::{
    chars_equal, chars_start_with, lines, split_lines, split_words, starts_with, strings, texts, to_chars,
    to_text, words,
};
use vstd::prelude::*;

verus! {

/// Whether `reference` names a library of the system: such a library is on
/// every machine and never becomes part of a bundle.
pub open spec fn is_system(reference: Seq<char>) -> bool {
    starts_with(reference, "/usr/lib"@) || starts_with(reference, "/System/Library"@)
}

/// The reference that a line of a shared-library list makes: its first
/// word.
pub open spec fn reference_of(line: Seq<char>) -> Option<Seq<char>> {
    let w = words(line);
    if w.len() > 0 {
        Some(w[0])
    } else {
        None
    }
}

/// The node of the library at `path` that its parent names `reference`.
pub open spec fn dependency_at(snapshot: Snapshot, path: Seq<char>, reference: Seq<char>) -> Result<
    Option<BinaryView>,
    ErrorView,
> {
    match created(snapshot, path, false, false) {
        Err(e) => Err(e),
        Ok(node) => Ok(Some(BinaryView { install_name_old: Some(reference), ..node })),
    }
}

/// What the line `line` of the shared-library list of the binary at
/// `binary` adds to its dependencies: nothing for a library of the system;
/// for a run-path reference, which begins with the run-path marker and its
/// slash, the node of the file that it resolves to; for an absolute path
/// the node of that file; a failure of its own kind for anything else.
pub open spec fn dependency(snapshot: Snapshot, binary: Seq<char>, line: Seq<char>) -> Result<
    Option<BinaryView>,
    ErrorView,
> {
    match reference_of(line) {
        None => Err(ErrorView::Parse(line)),
        Some(reference) => if is_system(reference) {
            Ok(None)
        } else if starts_with(reference, "@rpath/"@) {
            match resolved(snapshot, binary, reference) {
                Err(e) => Err(e),
                Ok(path) => dependency_at(snapshot, path, reference),
            }
        } else if is_absolute(reference) {
            dependency_at(snapshot, reference, reference)
        } else {
            Err(ErrorView::UnrecognizedReference(reference))
        },
    }
}

/// The dependencies that the first `n` of the lines `list` give the binary
/// at `binary`.
pub open spec fn dependencies(
    snapshot: Snapshot,
    binary: Seq<char>,
    list: Seq<Seq<char>>,
    n: nat,
) -> Result<Seq<BinaryView>, ErrorView>
    decreases n,
{
    if n == 0 || n > list.len() {
        Ok(Seq::empty())
    } else {
        match dependencies(snapshot, binary, list, (n - 1) as nat) {
            Err(e) => Err(e),
            Ok(done) => match dependency(snapshot, binary, list[n - 1]) {
                Err(e) => Err(e),
                Ok(None) => Ok(done),
                Ok(Some(node)) => Ok(done.push(node)),
            },
        }
    }
}

/// The lines of a shared-library list after its heading.
pub open spec fn listed(output: Seq<char>) -> Seq<Seq<char>> {
    let all = lines(output);
    if all.len() > 0 {
        all.skip(1)
    } else {
        all
    }
}

/// The node `v` after its shared-library list was read: a library has
/// learnt the identity that it gives itself, off the first line, and every
/// further line has added what it gives to the dependencies.
pub open spec fn scanned(snapshot: Snapshot, v: BinaryView) -> Result<BinaryView, ErrorView> {
    match snapshot.shared_libs_of(v.file_path) {
        Err(e) => Err(e),
        Ok(output) => {
            let body = listed(output);
            if v.is_executable {
                match dependencies(snapshot, v.file_path, body, body.len()) {
                    Err(e) => Err(e),
                    Ok(found) => Ok(BinaryView { libs: v.libs + found, ..v }),
                }
            } else if body.len() == 0 {
                Err(ErrorView::Parse(v.file_path))
            } else {
                match reference_of(body[0]) {
                    None => Err(ErrorView::Parse(body[0])),
                    Some(id) => match dependencies(
                        snapshot,
                        v.file_path,
                        body.skip(1),
                        (body.len() - 1) as nat,
                    ) {
                        Err(e) => Err(e),
                        Ok(found) => Ok(
                            BinaryView { install_name_id: Some(id), libs: v.libs + found, ..v },
                        ),
                    },
                }
            }
        },
    }
}

/// The path under which a binary at `path` in the state `st` is remembered
/// as visited: the target of a symbolic link, the path itself otherwise.
pub open spec fn canonical_of(path: Seq<char>, st: PathStatus) -> Result<Seq<char>, ErrorView> {
    match st.link {
        LinkStatus::Plain => Ok(path),
        LinkStatus::Points(target) => Ok(target@),
        LinkStatus::Dangling => Err(ErrorView::Path(path)),
    }
}

/// The path under which the binary at `path` is remembered as visited.
pub open spec fn canonical(snapshot: Snapshot, path: Seq<char>) -> Result<Seq<char>, ErrorView> {
    match snapshot.status(path) {
        Err(e) => Err(e),
        Ok(st) => canonical_of(path, st),
    }
}

/// The path under which a record of the state of a path can make a binary
/// remembered.
pub open spec fn entry_key(entry: (String, PathStatus)) -> Seq<char> {
    match entry.1.link {
        LinkStatus::Points(target) => target@,
        _ => entry.0@,
    }
}

/// How many of `entries` can still make a binary remembered that is not in
/// `visited`. No discovery can scan more binaries than that.
pub open spec fn pending(entries: Seq<(String, PathStatus)>, visited: Set<Seq<char>>) -> nat
    decreases entries.len(),
{
    if entries.len() == 0 {
        0
    } else {
        pending(entries.drop_last(), visited) + if visited.contains(entry_key(entries.last())) {
            0nat
        } else {
            1nat
        }
    }
}

/// The more is visited, the less is pending.
pub proof fn lemma_pending_shrinks(
    entries: Seq<(String, PathStatus)>,
    less: Set<Seq<char>>,
    more: Set<Seq<char>>,
)
    requires
        less.subset_of(more),
    ensures
        pending(entries, more) <= pending(entries, less),
    decreases entries.len(),
{
    if entries.len() > 0 {
        lemma_pending_shrinks(entries.drop_last(), less, more);
    }
}

/// To visit a binary whose path has a record, and that was not visited
/// before, takes one off what is pending.
pub proof fn lemma_pending_drops(
    entries: Seq<(String, PathStatus)>,
    visited: Set<Seq<char>>,
    path: Seq<char>,
    key: Seq<char>,
)
    requires
        latest(entries, path) is Some,
        canonical_of(path, latest(entries, path)->0) == Ok::<Seq<char>, ErrorView>(key),
        !visited.contains(key),
    ensures
        pending(entries, visited.insert(key)) < pending(entries, visited),
    decreases entries.len(),
{
    if entries.last().0@ == path {
        lemma_pending_shrinks(entries.drop_last(), visited, visited.insert(key));
    } else {
        lemma_pending_drops(entries.drop_last(), visited, path, key);
    }
}

/// What a discovery gives: the tree, or the failure that ended it; what is
/// visited after it; and what it leaves of the tree that it started from,
/// which is the tree that it found where it did not fail.
pub struct Growth<T> {
    pub found: Result<T, ErrorView>,
    pub visited: Set<Seq<char>>,
    pub left: T,
}

/// The tree that grows out of the node `v` when `visited` is visited
/// already. A binary that was visited is not scanned again: its node stays
/// without dependencies, so that a cycle of references ends there. Any other
/// is scanned, is visited from then on, and each of its dependencies grows
/// its own tree, in order. A node that cannot be scanned is left as it was.
pub open spec fn grown(snapshot: Snapshot, v: BinaryView, visited: Set<Seq<char>>) -> Growth<
    BinaryView,
>
    decreases pending(snapshot.paths.entries@, visited), 0nat, 0nat,
{
    match canonical(snapshot, v.file_path) {
        Err(e) => Growth { found: Err(e), visited, left: v },
        Ok(key) => if visited.contains(key) {
            Growth { found: Ok(v), visited, left: v }
        } else {
            match scanned(snapshot, v) {
                Err(e) => Growth { found: Err(e), visited, left: v },
                Ok(node) => {
                    proof {
                        lemma_pending_drops(snapshot.paths.entries@, visited, v.file_path, key);
                    }
                    let below = grown_all(
                        snapshot,
                        node.libs,
                        visited.insert(key),
                        node.libs.len(),
                    );
                    Growth {
                        found: match below.found {
                            Err(e) => Err(e),
                            Ok(libs) => Ok(BinaryView { libs, ..node }),
                        },
                        visited: below.visited,
                        left: BinaryView { libs: below.left, ..node },
                    }
                },
            }
        },
    }
}

/// The trees that grow out of the first `n` nodes of `list`, one after the
/// other, each with what the ones before it left visited. What is visited
/// only grows, so that each node starts with `visited` and more. The nodes
/// after a failure are left as they were.
pub open spec fn grown_all(
    snapshot: Snapshot,
    list: Seq<BinaryView>,
    visited: Set<Seq<char>>,
    n: nat,
) -> Growth<Seq<BinaryView>>
    decreases pending(snapshot.paths.entries@, visited), 1nat, n,
{
    if n == 0 || n > list.len() {
        Growth { found: Ok(Seq::empty()), visited, left: list }
    } else {
        let before = grown_all(snapshot, list, visited, (n - 1) as nat);
        match before.found {
            Err(e) => before,
            Ok(done) => {
                proof {
                    lemma_pending_shrinks(
                        snapshot.paths.entries@,
                        visited,
                        visited.union(before.visited),
                    );
                }
                let next = grown(snapshot, list[n - 1], visited.union(before.visited));
                Growth {
                    found: match next.found {
                        Err(e) => Err(e),
                        Ok(tree) => Ok(done.push(tree)),
                    },
                    visited: next.visited,
                    left: before.left.update(n - 1, next.left),
                }
            },
        }
    }
}

/// A discovery that has failed on the first `n` nodes ends in the same way
/// on the whole list.
pub proof fn lemma_growth_failure_sticks(
    snapshot: Snapshot,
    list: Seq<BinaryView>,
    visited: Set<Seq<char>>,
    n: nat,
)
    requires
        n <= list.len(),
        grown_all(snapshot, list, visited, n).found is Err,
    ensures
        grown_all(snapshot, list, visited, list.len()) == grown_all(snapshot, list, visited, n),
    decreases list.len() - n,
{
    if n < list.len() {
        assert(grown_all(snapshot, list, visited, n + 1) == grown_all(snapshot, list, visited, n));
        lemma_growth_failure_sticks(snapshot, list, visited, n + 1);
    }
}

/// The paths of the binaries that were scanned for their dependencies.
#[derive(Debug, PartialEq, Eq)]
pub struct Visited {
    pub paths: Vec<String>,
}

impl View for Visited {
    type V = Set<Seq<char>>;

    open spec fn view(&self) -> Set<Seq<char>> {
        Set::new(|p: Seq<char>| strings(self.paths@).contains(p))
    }
}

impl Visited {
    /// Nothing visited.
    pub fn new() -> (r: Self)
        ensures
            r@ == Set::<Seq<char>>::empty(),
    {
        let r = Visited { paths: Vec::new() };
        proof {
            assert(r@ =~= Set::<Seq<char>>::empty());
        }
        r
    }

    /// Tells whether `path` was visited.
    pub fn contains(&self, path: &str) -> (r: bool)
        ensures
            r == self@.contains(path@),
    {
        let wanted = to_chars(path);
        let mut i: usize = 0;
        while i < self.paths.len()
            invariant
                i <= self.paths.len(),
                wanted@ == path@,
                forall|j: int| 0 <= j < i ==> strings(self.paths@)[j] != path@,
            decreases self.paths.len() - i,
        {
            let have = to_chars(self.paths[i].as_str());
            if chars_equal(&have, &wanted) {
                assert(strings(self.paths@)[i as int] == path@);
                return true;
            }
            i += 1;
        }
        false
    }

    /// Remembers `path` as visited.
    pub fn insert(&mut self, path: String)
        ensures
            final(self)@ == old(self)@.insert(path@),
    {
        let ghost before = strings(self.paths@);
        self.paths.push(path);
        proof {
            assert(strings(self.paths@) =~= before.push(path@));
            assert forall|p: Seq<char>| self@.contains(p) == old(self)@.insert(path@).contains(
                p,
            ) by {
                if before.push(path@).contains(p) {
                    let j = choose|j: int| 0 <= j < before.len() + 1 && before.push(path@)[j] == p;
                    if j < before.len() {
                        assert(before[j] == p);
                    }
                }
                if before.contains(p) {
                    let j = choose|j: int| 0 <= j < before.len() && before[j] == p;
                    assert(before.push(path@)[j] == p);
                }
                if p == path@ {
                    assert(before.push(path@)[before.len() as int] == p);
                }
            }
            assert(self@ =~= old(self)@.insert(path@));
        }
    }
}

/// The view of a result that holds a node or none.
pub open spec fn found_result(r: Result<Option<Binary>, BundleError>) -> Result<
    Option<BinaryView>,
    ErrorView,
> {
    match r {
        Ok(Some(b)) => Ok(Some(b@)),
        Ok(None) => Ok(None),
        Err(e) => Err(e@),
    }
}

/// Reads the path under which the binary at `path` is remembered as
/// visited.
pub fn canonical_path(snapshot: &Snapshot, path: &str) -> (r: Result<String, BundleError>)
    ensures
        text_result(r) == canonical(*snapshot, path@),
{
    let st = match snapshot.path_status(path) {
        Ok(st) => st,
        Err(e) => {
            return Err(e);
        },
    };
    match &st.link {
        LinkStatus::Plain => Ok(path.to_owned()),
        LinkStatus::Points(target) => Ok(target.clone()),
        LinkStatus::Dangling => Err(BundleError::Path(path.to_owned())),
    }
}

/// Makes the node of the library at `path` that its parent names
/// `reference`.
pub fn make_dependency(snapshot: &Snapshot, path: String, reference: String) -> (r: Result<
    Option<Binary>,
    BundleError,
>)
    ensures
        found_result(r) == dependency_at(*snapshot, path@, reference@),
{
    match Binary::new(snapshot, path, false, false) {
        Err(e) => Err(e),
        Ok(mut lib) => {
            let ghost before = lib@;
            lib.install_name_old = Some(reference);
            proof {
                assert(lib@.libs =~= before.libs);
            }
            Ok(Some(lib))
        },
    }
}

/// Reads one line of the shared-library list of the binary at `binary`:
/// what it adds to the dependencies of that binary.
pub fn read_dependency(snapshot: &Snapshot, binary: &str, line: &Vec<char>) -> (r: Result<
    Option<Binary>,
    BundleError,
>)
    ensures
        found_result(r) == dependency(*snapshot, binary@, line@),
{
    let w = split_words(line);
    assert(texts(w@).len() == w.len());
    if w.len() == 0 {
        return Err(BundleError::Parse(to_text(line)));
    }
    assert(texts(w@)[0] == w[0]@);
    let name = &w[0];
    if chars_start_with(name, &to_chars("/usr/lib")) || chars_start_with(
        name,
        &to_chars("/System/Library"),
    ) {
        return Ok(None);
    }
    let reference = to_text(name);
    if chars_start_with(name, &to_chars("@rpath/")) {
        return match canonicalize_rpath(snapshot, binary, reference.as_str()) {
            Err(e) => Err(e),
            Ok(path) => make_dependency(snapshot, path, reference),
        };
    }
    if is_absolute_path(reference.as_str()) {
        return make_dependency(snapshot, reference.clone(), reference);
    }
    Err(BundleError::UnrecognizedReference(reference))
}

/// Reads the lines of `all` from index `from` on as the dependencies of the
/// binary at `binary`.
pub fn read_dependencies(snapshot: &Snapshot, binary: &str, all: &Vec<Vec<char>>, from: usize) -> (r:
    Result<Vec<Binary>, BundleError>)
    requires
        from <= all.len(),
    ensures
        match r {
            Ok(found) => dependencies(
                *snapshot,
                binary@,
                texts(all@).skip(from as int),
                (all.len() - from) as nat,
            ) == Ok::<Seq<BinaryView>, ErrorView>(views(found@)),
            Err(e) => dependencies(
                *snapshot,
                binary@,
                texts(all@).skip(from as int),
                (all.len() - from) as nat,
            ) == Err::<Seq<BinaryView>, ErrorView>(e@),
        },
{
    let ghost list = texts(all@).skip(from as int);
    let mut found: Vec<Binary> = Vec::new();
    let mut i: usize = from;
    proof {
        assert(views(found@) =~= Seq::<BinaryView>::empty());
    }
    while i < all.len()
        invariant
            from <= i <= all.len(),
            list == texts(all@).skip(from as int),
            dependencies(*snapshot, binary@, list, (i - from) as nat) == Ok::<
                Seq<BinaryView>,
                ErrorView,
            >(views(found@)),
        decreases all.len() - i,
    {
        let ghost done = views(found@);
        proof {
            assert(list[i - from] == all[i as int]@);
        }
        match read_dependency(snapshot, binary, &all[i]) {
            Err(e) => {
                proof {
                    lemma_dependency_failure_sticks(
                        *snapshot,
                        binary@,
                        list,
                        (i - from + 1) as nat,
                    );
                }
                return Err(e);
            },
            Ok(None) => {},
            Ok(Some(lib)) => {
                found.push(lib);
                proof {
                    assert(views(found@) =~= done.push(lib@));
                }
            },
        }
        i += 1;
    }
    Ok(found)
}

/// Dependencies that could not be read off the first `n` lines cannot be
/// read off all of them, in the same way.
pub proof fn lemma_dependency_failure_sticks(
    snapshot: Snapshot,
    binary: Seq<char>,
    list: Seq<Seq<char>>,
    n: nat,
)
    requires
        n <= list.len(),
        dependencies(snapshot, binary, list, n) is Err,
    ensures
        dependencies(snapshot, binary, list, list.len()) == dependencies(snapshot, binary, list, n),
    decreases list.len() - n,
{
    if n < list.len() {
        assert(dependencies(snapshot, binary, list, n + 1) == dependencies(
            snapshot,
            binary,
            list,
            n,
        ));
        lemma_dependency_failure_sticks(snapshot, binary, list, n + 1);
    }
}

impl Binary {
    /// Reads the shared-library list of this binary: a library learns the
    /// identity that it gives itself, and every dependency that the list
    /// names, but for the libraries of the system, is added as a node of
    /// its own. A node whose list cannot be read stays as it is.
    pub fn scan(&mut self, snapshot: &Snapshot) -> (r: Result<(), BundleError>)
        ensures
            match r {
                Ok(()) => scanned(*snapshot, old(self)@) == Ok::<BinaryView, ErrorView>(
                    final(self)@,
                ),
                Err(e) => scanned(*snapshot, old(self)@) == Err::<BinaryView, ErrorView>(e@)
                    && *final(self) == *old(self),
            },
    {
        let output = match get_shared_libs(snapshot, self.file_path.as_str()) {
            Ok(o) => o,
            Err(e) => {
                return Err(e);
            },
        };
        let chars = to_chars(output.as_str());
        let all = split_lines(&chars);
        let ghost body = listed(output@);
        let mut from: usize = if all.len() > 0 {
            1
        } else {
            0
        };
        assert(texts(all@).len() == all.len());
        assert(body =~= texts(all@).skip(from as int));
        let mut id: Option<String> = None;
        if !self.is_executable {
            if from >= all.len() {
                return Err(BundleError::Parse(self.file_path.clone()));
            }
            assert(body[0] == all[from as int]@);
            let w = split_words(&all[from]);
            assert(texts(w@).len() == w.len());
            if w.len() == 0 {
                return Err(BundleError::Parse(to_text(&all[from])));
            }
            assert(texts(w@)[0] == w[0]@);
            id = Some(to_text(&w[0]));
            from += 1;
            assert(body.skip(1) =~= texts(all@).skip(from as int));
        }
        let mut found = match read_dependencies(snapshot, self.file_path.as_str(), &all, from) {
            Ok(f) => f,
            Err(e) => {
                return Err(e);
            },
        };
        let ghost added = views(found@);
        if !self.is_executable {
            self.install_name_id = id;
        }
        self.libs.append(&mut found);
        proof {
            assert(self@.libs =~= old(self)@.libs + added);
        }
        Ok(())
    }

    /// Discovers the tree of the dependencies of this binary. A binary
    /// whose path is in `libs_checked` is not scanned again, so that the
    /// discovery ends on any graph of references, cycles included; every
    /// binary that is scanned enters `libs_checked`. Where this binary
    /// itself cannot be scanned, it and `libs_checked` stay as they are;
    /// where one below it cannot, the tree stays as far as it had grown.
    pub fn get_libs(&mut self, snapshot: &Snapshot, libs_checked: &mut Visited) -> (r: Result<
        (),
        BundleError,
    >)
        ensures
            old(libs_checked)@.subset_of(final(libs_checked)@),
            match r {
                Ok(()) => grown(*snapshot, old(self)@, old(libs_checked)@).found == Ok::<
                    BinaryView,
                    ErrorView,
                >(final(self)@),
                Err(e) => grown(*snapshot, old(self)@, old(libs_checked)@).found == Err::<
                    BinaryView,
                    ErrorView,
                >(e@) && (canonical(*snapshot, old(self)@.file_path) is Err || scanned(
                    *snapshot,
                    old(self)@,
                ) is Err ==> *final(self) == *old(self) && *final(libs_checked) == *old(
                    libs_checked,
                )),
            },
            final(self)@ == grown(*snapshot, old(self)@, old(libs_checked)@).left,
            final(libs_checked)@ == grown(*snapshot, old(self)@, old(libs_checked)@).visited,
            canonical(*snapshot, old(self)@.file_path) is Ok && old(libs_checked)@.contains(
                canonical(*snapshot, old(self)@.file_path)->Ok_0,
            ) ==> *final(self) == *old(self) && *final(libs_checked) == *old(libs_checked),
        decreases pending(snapshot.paths.entries@, old(libs_checked)@),
    {
        let key = match canonical_path(snapshot, self.file_path.as_str()) {
            Ok(k) => k,
            Err(e) => {
                return Err(e);
            },
        };
        if libs_checked.contains(key.as_str()) {
            return Ok(());
        }
        match self.scan(snapshot) {
            Ok(()) => {},
            Err(e) => {
                return Err(e);
            },
        }
        let ghost node = self@;
        let ghost entries = snapshot.paths.entries@;
        let ghost start = old(libs_checked)@;
        let ghost seen = start.insert(key@);
        proof {
            lemma_pending_drops(entries, start, old(self).file_path@, key@);
        }
        libs_checked.insert(key);
        let n: usize = self.libs.len();
        let mut i: usize = 0;
        proof {
            assert(views(self.libs@) =~= node.libs);
            assert(views(self.libs@).take(0) =~= Seq::<BinaryView>::empty());
        }
        while i < n
            invariant
                i <= n,
                n == self.libs.len(),
                n == node.libs.len(),
                entries == snapshot.paths.entries@,
                start == old(libs_checked)@,
                seen == start.insert(key@),
                canonical(*snapshot, old(self)@.file_path) == Ok::<Seq<char>, ErrorView>(key@),
                !start.contains(key@),
                scanned(*snapshot, old(self)@) == Ok::<BinaryView, ErrorView>(node),
                same_node(self@, node),
                seen.subset_of(libs_checked@),
                pending(entries, seen) < pending(entries, start),
                forall|j: int| i <= j < n ==> (#[trigger] self.libs[j])@ == node.libs[j],
                grown_all(*snapshot, node.libs, seen, i as nat) == (Growth {
                    found: Ok::<Seq<BinaryView>, ErrorView>(views(self.libs@).take(i as int)),
                    visited: libs_checked@,
                    left: views(self.libs@),
                }),
            decreases n - i,
        {
            let ghost done = views(self.libs@).take(i as int);
            let ghost so_far = views(self.libs@);
            let ghost mid = libs_checked@;
            proof {
                lemma_pending_shrinks(entries, seen, mid);
                assert(seen.union(mid) =~= mid);
            }
            let outcome = self.libs[i].get_libs(snapshot, libs_checked);
            proof {
                assert(views(self.libs@) =~= so_far.update(
                    i as int,
                    grown(*snapshot, node.libs[i as int], mid).left,
                ));
            }
            match outcome {
                Ok(()) => {},
                Err(e) => {
                    proof {
                        lemma_growth_failure_sticks(*snapshot, node.libs, seen, i as nat + 1);
                        assert(self@.libs =~= views(self.libs@));
                    }
                    return Err(e);
                },
            }
            proof {
                assert(views(self.libs@).take(i + 1) =~= done.push(self.libs[i as int]@));
            }
            i += 1;
        }
        proof {
            assert(views(self.libs@).take(n as int) =~= self@.libs);
            assert(self@.libs =~= views(self.libs@));
        }
        Ok(())
    }
}

} // verus!
