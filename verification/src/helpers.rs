//! Reading what the inspection tools print: run-path entries, the kind of a
//! file, and the resolution of a run-path reference to a file.

use crate::action::{Action, ActionView};
use crate::error::{list_result, text_result, BundleError, ErrorView};
use crate::paths::{joined, parent_of, path_join, path_parent};
use crate::snapshot::{read_output, Query, Snapshot};
use crate::text::{
    chars_contain, chars_equal, chars_start_with, contains, lines, split_lines, split_words,
    starts_with, str_starts_with, strings, texts, to_chars, to_text, to_text_from, words,
};
use vstd::prelude::*;

verus! {

/// The kind of a run-path entry.
#[derive(Debug, Clone, Copy, PartialEq, Eq, Structural)]
pub enum RPath {
    /// Relative to the directory of the binary that loads.
    LoaderPath,
    /// Relative to the directory of the main executable.
    ExecutablePath,
    /// An absolute path.
    Absolute,
    /// Anything else.
    Unrecognized,
}

/// The kind of the run-path entry `value`.
pub open spec fn rpath_kind(value: Seq<char>) -> RPath {
    if starts_with(value, "@loader_path"@) {
        RPath::LoaderPath
    } else if starts_with(value, "@executable_path"@) {
        RPath::ExecutablePath
    } else if starts_with(value, "/"@) {
        RPath::Absolute
    } else {
        RPath::Unrecognized
    }
}

/// `value` without `prefix`. The prefix written without its last character
/// stands for the current directory. Nothing where `value` does not begin
/// with `prefix`.
pub open spec fn without_prefix(value: Seq<char>, prefix: Seq<char>) -> Option<Seq<char>> {
    if prefix.len() > 0 && value == prefix.drop_last() {
        Some("."@)
    } else if starts_with(value, prefix) {
        Some(value.skip(prefix.len() as int))
    } else {
        None
    }
}

/// What stripping `prefix` from `value` gives: the rest, or the failure to
/// read `value`.
pub open spec fn stripped(value: Seq<char>, prefix: Seq<char>) -> Result<Seq<char>, ErrorView> {
    match without_prefix(value, prefix) {
        Some(rest) => Ok(rest),
        None => Err(ErrorView::Parse(value)),
    }
}

/// Classifies a run-path entry by how it begins.
pub fn check_rpath(rpath: &str) -> (r: RPath)
    ensures
        r == rpath_kind(rpath@),
{
    if str_starts_with(rpath, "@loader_path") {
        RPath::LoaderPath
    } else if str_starts_with(rpath, "@executable_path") {
        RPath::ExecutablePath
    } else if str_starts_with(rpath, "/") {
        RPath::Absolute
    } else {
        RPath::Unrecognized
    }
}

/// Strips `prefix` from `value`.
pub fn remove_prefix(value: &str, prefix: &str) -> (r: Result<String, BundleError>)
    ensures
        text_result(r) == stripped(value@, prefix@),
{
    let chars = to_chars(value);
    let head = to_chars(prefix);
    if head.len() > 0 {
        let mut bare = to_chars(prefix);
        bare.pop();
        if chars_equal(&chars, &bare) {
            return Ok(".".to_owned());
        }
    }
    if !chars_start_with(&chars, &head) {
        return Err(BundleError::Parse(value.to_owned()));
    }
    Ok(to_text_from(&chars, head.len()))
}

/// Strips the loader-relative prefix from `value`.
pub fn remove_loader_path_prefix(value: &str) -> (r: Result<String, BundleError>)
    ensures
        text_result(r) == stripped(value@, "@loader_path/"@),
{
    remove_prefix(value, "@loader_path/")
}

/// Strips the executable-relative prefix from `value`.
pub fn remove_executable_path_prefix(value: &str) -> (r: Result<String, BundleError>)
    ensures
        text_result(r) == stripped(value@, "@executable_path/"@),
{
    remove_prefix(value, "@executable_path/")
}

/// Strips the run-path marker from `value`.
pub fn remove_rpath_prefix(value: &str) -> (r: Result<String, BundleError>)
    ensures
        text_result(r) == stripped(value@, "@rpath/"@),
{
    remove_prefix(value, "@rpath/")
}

/// The raw run-path entry that `line` of a load-command dump gives: its
/// second word, where its first word begins with the path keyword.
pub open spec fn raw_entry(line: Seq<char>) -> Option<Seq<char>> {
    let w = words(line);
    if w.len() >= 2 && starts_with(w[0], "path"@) {
        Some(w[1])
    } else {
        None
    }
}

/// What the raw entry `raw` adds to the list of run-paths: the entry, with
/// its variable prefix or stripped of it; nothing for an absolute or
/// unrecognized entry; a failure where the prefix cannot be stripped.
pub open spec fn entry_value(raw: Seq<char>, with_prefix: bool) -> Result<
    Option<Seq<char>>,
    ErrorView,
> {
    match rpath_kind(raw) {
        RPath::LoaderPath => if with_prefix {
            Ok(Some(raw))
        } else {
            match stripped(raw, "@loader_path/"@) {
                Ok(rest) => Ok(Some(rest)),
                Err(e) => Err(e),
            }
        },
        RPath::ExecutablePath => if with_prefix {
            Ok(Some(raw))
        } else {
            match stripped(raw, "@executable_path/"@) {
                Ok(rest) => Ok(Some(rest)),
                Err(e) => Err(e),
            }
        },
        RPath::Absolute => Ok(None),
        RPath::Unrecognized => Ok(None),
    }
}

/// The state of a scan for run-path entries.
pub struct RpathScan {
    /// How many more lines are searched for the path of the last marker.
    pub window: nat,
    /// The entries found so far.
    pub found: Seq<Seq<char>>,
    /// The failure that ended the scan, if any.
    pub failure: Option<ErrorView>,
}

/// The number of lines after a run-path marker that are searched for its
/// path.
pub open spec fn lines_to_search() -> nat {
    3
}

/// The scan after it has read `line` in state `st`. A marker opens the
/// window anew. Inside the window the first line that gives an entry closes
/// it, whether the entry is kept, skipped or cannot be read: a marker gives
/// one entry at most. Any other line takes one line off the window.
pub open spec fn scan_step(st: RpathScan, line: Seq<char>, with_prefix: bool) -> RpathScan {
    if st.failure is Some {
        st
    } else if contains(line, "LC_RPATH"@) {
        RpathScan { window: lines_to_search(), ..st }
    } else if st.window > 0 {
        match raw_entry(line) {
            Some(raw) => match entry_value(raw, with_prefix) {
                Ok(Some(value)) => RpathScan {
                    window: 0,
                    found: st.found.push(value),
                    failure: None,
                },
                Ok(None) => RpathScan { window: 0, ..st },
                Err(e) => RpathScan { window: 0, failure: Some(e), ..st },
            },
            None => RpathScan { window: (st.window - 1) as nat, ..st },
        }
    } else {
        st
    }
}

/// The scan after the first `n` of `all` lines.
pub open spec fn scan_lines(all: Seq<Seq<char>>, n: nat, with_prefix: bool) -> RpathScan
    decreases n,
{
    if n == 0 || n > all.len() {
        RpathScan { window: 0, found: Seq::empty(), failure: None }
    } else {
        scan_step(scan_lines(all, (n - 1) as nat, with_prefix), all[n - 1], with_prefix)
    }
}

/// The run-path entries that the load-command dump `dump` declares, in
/// order.
pub open spec fn rpaths_in(dump: Seq<char>, with_prefix: bool) -> Result<
    Seq<Seq<char>>,
    ErrorView,
> {
    let all = lines(dump);
    let end = scan_lines(all, all.len(), with_prefix);
    match end.failure {
        Some(e) => Err(e),
        None => Ok(end.found),
    }
}

/// Reads one raw run-path entry: what it adds to the list of run-paths.
pub fn rpath_value(raw: &str, with_prefix: bool) -> (r: Result<Option<String>, BundleError>)
    ensures
        match r {
            Ok(Some(v)) => entry_value(raw@, with_prefix) == Ok::<Option<Seq<char>>, ErrorView>(
                Some(v@),
            ),
            Ok(None) => entry_value(raw@, with_prefix) == Ok::<Option<Seq<char>>, ErrorView>(None),
            Err(e) => entry_value(raw@, with_prefix) == Err::<Option<Seq<char>>, ErrorView>(e@),
        },
{
    match check_rpath(raw) {
        RPath::LoaderPath => {
            if with_prefix {
                Ok(Some(raw.to_owned()))
            } else {
                match remove_loader_path_prefix(raw) {
                    Ok(rest) => Ok(Some(rest)),
                    Err(e) => Err(e),
                }
            }
        },
        RPath::ExecutablePath => {
            if with_prefix {
                Ok(Some(raw.to_owned()))
            } else {
                match remove_executable_path_prefix(raw) {
                    Ok(rest) => Ok(Some(rest)),
                    Err(e) => Err(e),
                }
            }
        },
        RPath::Absolute => Ok(None),
        RPath::Unrecognized => Ok(None),
    }
}

/// Reads the run-path entries out of a load-command dump, in the order in
/// which the dump declares them: for each marker, the entry of the first
/// line among the three after it that gives one. Entries are given with
/// their variable prefix where `with_prefix` is set, else without it.
pub fn parse_rpaths(dump: &str, with_prefix: bool) -> (r: Result<Vec<String>, BundleError>)
    ensures
        list_result(r) == rpaths_in(dump@, with_prefix),
{
    let chars = to_chars(dump);
    let all = split_lines(&chars);
    let marker = to_chars("LC_RPATH");
    let keyword = to_chars("path");
    let mut found: Vec<String> = Vec::new();
    let mut window: u8 = 0;
    let mut i: usize = 0;
    proof {
        assert(strings(found@) =~= Seq::<Seq<char>>::empty());
    }
    while i < all.len()
        invariant
            i <= all.len(),
            texts(all@) == lines(dump@),
            marker@ == "LC_RPATH"@,
            keyword@ == "path"@,
            window <= 3,
            scan_lines(lines(dump@), i as nat, with_prefix) == (RpathScan {
                window: window as nat,
                found: strings(found@),
                failure: None,
            }),
        decreases all.len() - i,
    {
        let ghost before = strings(found@);
        let line = &all[i];
        assert(texts(all@)[i as int] == line@);
        if chars_contain(line, &marker) {
            window = 3;
        } else if window > 0 {
            let w = split_words(line);
            if w.len() >= 2 && chars_start_with(&w[0], &keyword) {
                assert(texts(w@)[0] == w[0]@);
                assert(texts(w@)[1] == w[1]@);
                let raw = to_text(&w[1]);
                match rpath_value(raw.as_str(), with_prefix) {
                    Ok(Some(value)) => {
                        found.push(value);
                        window = 0;
                        proof {
                            assert(strings(found@) =~= before.push(value@));
                        }
                    },
                    Ok(None) => {
                        window = 0;
                    },
                    Err(e) => {
                        proof {
                            lemma_failure_sticks(lines(dump@), i as nat + 1, with_prefix);
                        }
                        return Err(e);
                    },
                }
            } else {
                assert(texts(w@).len() == w.len());
                if w.len() >= 2 {
                    assert(texts(w@)[0] == w[0]@);
                }
                window -= 1;
            }
        }
        i += 1;
    }
    Ok(found)
}

/// Once a scan has failed, it ends with that failure.
pub proof fn lemma_failure_sticks(all: Seq<Seq<char>>, n: nat, with_prefix: bool)
    requires
        n <= all.len(),
        scan_lines(all, n, with_prefix).failure is Some,
    ensures
        scan_lines(all, all.len(), with_prefix).failure == scan_lines(all, n, with_prefix).failure,
    decreases all.len() - n,
{
    if n < all.len() {
        assert(scan_lines(all, n + 1, with_prefix) == scan_step(
            scan_lines(all, n, with_prefix),
            all[n as int],
            with_prefix,
        ));
        lemma_failure_sticks(all, n + 1, with_prefix);
    }
}

/// The dump of the load commands of the binary at `file_path`.
pub fn get_load_commands(snapshot: &Snapshot, file_path: &str) -> (r: Result<String, BundleError>)
    ensures
        text_result(r) == snapshot.load_commands_of(file_path@),
{
    read_output(&snapshot.load_commands, file_path, Query::LoadCommands(file_path.to_owned()))
}

/// The list of the shared libraries that the binary at `file_path` names,
/// as the tool prints it.
pub fn get_shared_libs(snapshot: &Snapshot, file_path: &str) -> (r: Result<String, BundleError>)
    ensures
        text_result(r) == snapshot.shared_libs_of(file_path@),
{
    read_output(&snapshot.shared_libs, file_path, Query::SharedLibs(file_path.to_owned()))
}

/// The run-path entries of the binary at `path`, in declared order. A binary
/// without any cannot resolve a run-path reference: that is a failure.
pub open spec fn rpaths_of(snapshot: Snapshot, path: Seq<char>, with_prefix: bool) -> Result<
    Seq<Seq<char>>,
    ErrorView,
> {
    match snapshot.load_commands_of(path) {
        Err(e) => Err(e),
        Ok(dump) => match rpaths_in(dump, with_prefix) {
            Err(e) => Err(e),
            Ok(list) => if list.len() == 0 {
                Err(ErrorView::Parse(path))
            } else {
                Ok(list)
            },
        },
    }
}

/// Reads the run-path entries of the binary at `file_path`, in declared
/// order, with their variable prefix or without it.
pub fn get_rpaths(snapshot: &Snapshot, file_path: &str, with_prefix: bool) -> (r: Result<
    Vec<String>,
    BundleError,
>)
    ensures
        list_result(r) == rpaths_of(*snapshot, file_path@, with_prefix),
{
    let dump = match get_load_commands(snapshot, file_path) {
        Ok(d) => d,
        Err(e) => {
            return Err(e);
        },
    };
    match parse_rpaths(dump.as_str(), with_prefix) {
        Err(e) => Err(e),
        Ok(list) => {
            assert(strings(list@).len() == list.len());
            if list.len() == 0 {
                Err(BundleError::Parse(file_path.to_owned()))
            } else {
                Ok(list)
            }
        },
    }
}

/// The directories in which a reference is searched: `folder` joined with
/// each run-path entry, in order.
pub open spec fn candidate_dirs(folder: Seq<char>, rpaths: Seq<Seq<char>>) -> Seq<Seq<char>> {
    rpaths.map_values(|rpath: Seq<char>| joined(folder, rpath))
}

/// Whether the search for `reference` succeeds in `dir`: the file it finds,
/// nothing where the directory or the file is missing, or the failure that
/// ends the search.
pub open spec fn found_in(snapshot: Snapshot, dir: Seq<char>, reference: Seq<char>) -> Result<
    Option<Seq<char>>,
    ErrorView,
> {
    match snapshot.present(dir) {
        Err(e) => Err(e),
        Ok(false) => Ok(None),
        Ok(true) => match stripped(reference, "@rpath/"@) {
            Err(e) => Err(e),
            Ok(name) => {
                let file = joined(dir, name);
                match snapshot.present(file) {
                    Err(e) => Err(e),
                    Ok(false) => Ok(None),
                    Ok(true) => Ok(Some(file)),
                }
            },
        },
    }
}

/// The search for `reference` through `dirs` from index `from` on: the file
/// of the first directory that holds it.
pub open spec fn search(
    snapshot: Snapshot,
    dirs: Seq<Seq<char>>,
    reference: Seq<char>,
    from: nat,
) -> Result<Seq<char>, ErrorView>
    decreases dirs.len() - from,
{
    if from >= dirs.len() {
        Err(ErrorView::Resolution { reference, candidates: dirs })
    } else {
        match found_in(snapshot, dirs[from as int], reference) {
            Err(e) => Err(e),
            Ok(Some(file)) => Ok(file),
            Ok(None) => search(snapshot, dirs, reference, from + 1),
        }
    }
}

/// The file that `reference`, made by the binary at `binary`, resolves to.
pub open spec fn resolved(snapshot: Snapshot, binary: Seq<char>, reference: Seq<char>) -> Result<
    Seq<char>,
    ErrorView,
> {
    match rpaths_of(snapshot, binary, false) {
        Err(e) => Err(e),
        Ok(rpaths) => match parent_of(binary) {
            None => Err(ErrorView::Path(binary)),
            Some(folder) => search(snapshot, candidate_dirs(folder, rpaths), reference, 0),
        },
    }
}

/// Searches `dir` for `reference`.
pub fn look_in(snapshot: &Snapshot, dir: &str, reference: &str) -> (r: Result<
    Option<String>,
    BundleError,
>)
    ensures
        match r {
            Ok(Some(f)) => found_in(*snapshot, dir@, reference@) == Ok::<
                Option<Seq<char>>,
                ErrorView,
            >(Some(f@)),
            Ok(None) => found_in(*snapshot, dir@, reference@) == Ok::<Option<Seq<char>>, ErrorView>(
                None,
            ),
            Err(e) => found_in(*snapshot, dir@, reference@) == Err::<Option<Seq<char>>, ErrorView>(
                e@,
            ),
        },
{
    match snapshot.path_exists(dir) {
        Err(e) => {
            return Err(e);
        },
        Ok(false) => {
            return Ok(None);
        },
        Ok(true) => {},
    }
    let name = match remove_rpath_prefix(reference) {
        Ok(n) => n,
        Err(e) => {
            return Err(e);
        },
    };
    let file = path_join(dir, name.as_str());
    match snapshot.path_exists(file.as_str()) {
        Err(e) => Err(e),
        Ok(false) => Ok(None),
        Ok(true) => Ok(Some(file)),
    }
}

/// Resolves the run-path reference `rpath_install_name` of the binary at
/// `binary_path` to a file: the run-path entries of the binary are tried in
/// declared order, each joined to the directory of the binary, and the first
/// directory that exists and holds the referenced file gives the result.
pub fn canonicalize_rpath(snapshot: &Snapshot, binary_path: &str, rpath_install_name: &str) -> (r:
    Result<String, BundleError>)
    ensures
        text_result(r) == resolved(*snapshot, binary_path@, rpath_install_name@),
{
    let rpaths = match get_rpaths(snapshot, binary_path, false) {
        Ok(l) => l,
        Err(e) => {
            return Err(e);
        },
    };
    let folder = match path_parent(binary_path) {
        Some(f) => f,
        None => {
            return Err(BundleError::Path(binary_path.to_owned()));
        },
    };
    let ghost wanted = candidate_dirs(folder@, strings(rpaths@));
    let mut dirs: Vec<String> = Vec::new();
    let mut k: usize = 0;
    while k < rpaths.len()
        invariant
            k <= rpaths.len(),
            dirs.len() == k,
            wanted == candidate_dirs(folder@, strings(rpaths@)),
            forall|j: int| 0 <= j < k ==> dirs[j]@ == wanted[j],
        decreases rpaths.len() - k,
    {
        let dir = path_join(folder.as_str(), rpaths[k].as_str());
        dirs.push(dir);
        k += 1;
    }
    assert(strings(dirs@) =~= wanted);
    let mut i: usize = 0;
    while i < dirs.len()
        invariant
            i <= dirs.len(),
            strings(dirs@) == wanted,
            resolved(*snapshot, binary_path@, rpath_install_name@) == search(
                *snapshot,
                wanted,
                rpath_install_name@,
                0,
            ),
            search(*snapshot, wanted, rpath_install_name@, 0) == search(
                *snapshot,
                wanted,
                rpath_install_name@,
                i as nat,
            ),
        decreases dirs.len() - i,
    {
        assert(strings(dirs@)[i as int] == dirs[i as int]@);
        match look_in(snapshot, dirs[i].as_str(), rpath_install_name) {
            Err(e) => {
                return Err(e);
            },
            Ok(Some(file)) => {
                return Ok(file);
            },
            Ok(None) => {},
        }
        i += 1;
    }
    Err(BundleError::Resolution { reference: rpath_install_name.to_owned(), candidates: dirs })
}

/// The kind of a file, by the description that the file-type classifier
/// gives of it.
#[derive(Debug, PartialEq)]
pub enum BinType<'a> {
    /// An executable.
    Executable(&'a str),
    /// A dynamic library.
    Dylib(&'a str),
    /// A static library.
    StaticLib(&'a str),
    /// An object file.
    ObjectFile(&'a str),
    /// A binary for several architectures.
    UBinary(&'a str),
    /// Anything else.
    Unrecognized(&'a str),
}

/// The kind of a file as contracts speak of it.
pub enum BinTypeView {
    Executable(Seq<char>),
    Dylib(Seq<char>),
    StaticLib(Seq<char>),
    ObjectFile(Seq<char>),
    UBinary(Seq<char>),
    Unrecognized(Seq<char>),
}

impl<'a> View for BinType<'a> {
    type V = BinTypeView;

    open spec fn view(&self) -> BinTypeView {
        match *self {
            BinType::Executable(p) => BinTypeView::Executable(p@),
            BinType::Dylib(p) => BinTypeView::Dylib(p@),
            BinType::StaticLib(p) => BinTypeView::StaticLib(p@),
            BinType::ObjectFile(p) => BinTypeView::ObjectFile(p@),
            BinType::UBinary(p) => BinTypeView::UBinary(p@),
            BinType::Unrecognized(p) => BinTypeView::Unrecognized(p@),
        }
    }
}

/// The kind of the file at `path` whose description is `description`.
pub open spec fn described_kind(description: Seq<char>, path: Seq<char>) -> BinTypeView {
    let mach = contains(description, "Mach-O"@);
    if mach && contains(description, "executable"@) {
        BinTypeView::Executable(path)
    } else if mach && contains(description, "dynamically linked shared"@) {
        BinTypeView::Dylib(path)
    } else if contains(description, "ar archive"@) {
        BinTypeView::StaticLib(path)
    } else if mach && contains(description, "object"@) {
        BinTypeView::ObjectFile(path)
    } else if mach && contains(description, "universal"@) {
        BinTypeView::UBinary(path)
    } else {
        BinTypeView::Unrecognized(path)
    }
}

/// The kind of the file at `path`: a missing path is a failure, and so is a
/// classifier that could not be run.
pub open spec fn file_kind(snapshot: Snapshot, path: Seq<char>) -> Result<BinTypeView, ErrorView> {
    match snapshot.present(path) {
        Err(e) => Err(e),
        Ok(false) => Err(ErrorView::Path(path)),
        Ok(true) => match snapshot.file_type_of(path) {
            Err(e) => Err(e),
            Ok(description) => Ok(described_kind(description, path)),
        },
    }
}

/// Classifies a file by the description that the classifier gave of it.
pub fn classify<'a>(description: &str, file_path: &'a str) -> (r: BinType<'a>)
    ensures
        r@ == described_kind(description@, file_path@),
{
    let text = to_chars(description);
    let mach = chars_contain(&text, &to_chars("Mach-O"));
    if mach && chars_contain(&text, &to_chars("executable")) {
        BinType::Executable(file_path)
    } else if mach && chars_contain(&text, &to_chars("dynamically linked shared")) {
        BinType::Dylib(file_path)
    } else if chars_contain(&text, &to_chars("ar archive")) {
        BinType::StaticLib(file_path)
    } else if mach && chars_contain(&text, &to_chars("object")) {
        BinType::ObjectFile(file_path)
    } else if mach && chars_contain(&text, &to_chars("universal")) {
        BinType::UBinary(file_path)
    } else {
        BinType::Unrecognized(file_path)
    }
}

/// Tells the kind of the file at `file_path`.
pub fn check_input_file<'a>(snapshot: &Snapshot, file_path: &'a str) -> (r: Result<
    BinType<'a>,
    BundleError,
>)
    ensures
        match r {
            Ok(kind) => file_kind(*snapshot, file_path@) == Ok::<BinTypeView, ErrorView>(kind@),
            Err(e) => file_kind(*snapshot, file_path@) == Err::<BinTypeView, ErrorView>(e@),
        },
{
    match snapshot.path_exists(file_path) {
        Err(e) => {
            return Err(e);
        },
        Ok(false) => {
            return Err(BundleError::Path(file_path.to_owned()));
        },
        Ok(true) => {},
    }
    match read_output(&snapshot.file_types, file_path, Query::FileType(file_path.to_owned())) {
        Err(e) => Err(e),
        Ok(description) => Ok(classify(description.as_str(), file_path)),
    }
}

/// The identity that the tool output `output` gives: its second line.
pub open spec fn identity_in(output: Seq<char>) -> Option<Seq<char>> {
    let all = lines(output);
    if all.len() >= 2 {
        Some(all[1])
    } else {
        None
    }
}

/// The identity that the library at `path` gives itself: a failure where
/// the file is no dynamic library, or where the tool printed none.
pub open spec fn id_of(snapshot: Snapshot, path: Seq<char>) -> Result<Seq<char>, ErrorView> {
    match file_kind(snapshot, path) {
        Err(e) => Err(e),
        Ok(kind) => if kind is Dylib {
            match snapshot.id_output_of(path) {
                Err(e) => Err(e),
                Ok(output) => match identity_in(output) {
                    None => Err(ErrorView::Parse(path)),
                    Some(id) => Ok(id),
                },
            }
        } else {
            Err(ErrorView::Path(path))
        },
    }
}

/// Reads the identity that the library at `file_path` gives itself.
pub fn get_id(snapshot: &Snapshot, file_path: &str) -> (r: Result<String, BundleError>)
    ensures
        text_result(r) == id_of(*snapshot, file_path@),
{
    match check_input_file(snapshot, file_path) {
        Err(e) => {
            return Err(e);
        },
        Ok(BinType::Dylib(_)) => {},
        Ok(_) => {
            return Err(BundleError::Path(file_path.to_owned()));
        },
    }
    let output = match read_output(&snapshot.ids, file_path, Query::Id(file_path.to_owned())) {
        Ok(o) => o,
        Err(e) => {
            return Err(e);
        },
    };
    let all = split_lines(&to_chars(output.as_str()));
    assert(texts(all@).len() == all.len());
    if all.len() >= 2 {
        assert(texts(all@)[1] == all[1]@);
        Ok(to_text(&all[1]))
    } else {
        Err(BundleError::Parse(file_path.to_owned()))
    }
}

/// The operation that sets the identity of the library at `file_path` to
/// `id`.
pub fn fix_id(file_path: &str, id: &str) -> (r: Action)
    ensures
        r@ == (ActionView::SetId { file: file_path@, id: id@ }),
{
    Action::SetId { file: file_path.to_owned(), id: id.to_owned() }
}

/// The operation that replaces the reference `from` by `to` in the binary at
/// `file_path`. The path is that of the copy in the bundle, never that of the
/// binary that was read.
pub fn fix_install_name(file_path: &str, from: &str, to: &str) -> (r: Action)
    ensures
        r@ == (ActionView::ChangeInstallName { file: file_path@, from: from@, to: to@ }),
{
    Action::ChangeInstallName {
        file: file_path.to_owned(),
        from: from.to_owned(),
        to: to.to_owned(),
    }
}

/// The operation that adds `new_rpath` to the run-paths of the binary at
/// `file_path`.
pub fn add_rpath(file_path: &str, new_rpath: &str) -> (r: Action)
    ensures
        r@ == (ActionView::AddRpath { file: file_path@, rpath: new_rpath@ }),
{
    Action::AddRpath { file: file_path.to_owned(), rpath: new_rpath.to_owned() }
}

/// The operation that signs the binary at `file_path` ad hoc.
pub fn sign_binary(file_path: &str) -> (r: Action)
    ensures
        r@ == ActionView::Sign(file_path@),
{
    Action::Sign(file_path.to_owned())
}

} // verus!
