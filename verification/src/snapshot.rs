//! What is known of the machine: the state of paths and the output of the
//! inspection tools, recorded by the caller and read by the library.

use crate::error::{plain_result, text_result, BundleError, ErrorView};
use crate::text::{chars_equal, to_chars};
use vstd::prelude::*;

verus! {

/// A question about the machine that a snapshot can hold the answer to.
#[derive(Debug, PartialEq, Eq)]
pub enum Query {
    /// The state of a path in the file system.
    Path(String),
    /// The dump of the load commands of the binary at a path.
    LoadCommands(String),
    /// The list of the shared libraries that the binary at a path names.
    SharedLibs(String),
    /// The description of the file at a path by the file-type classifier.
    FileType(String),
    /// What the tool prints as the identity of the library at a path.
    Id(String),
}

/// A question as contracts speak of it.
pub enum QueryView {
    Path(Seq<char>),
    LoadCommands(Seq<char>),
    SharedLibs(Seq<char>),
    FileType(Seq<char>),
    Id(Seq<char>),
}

impl View for Query {
    type V = QueryView;

    open spec fn view(&self) -> QueryView {
        match *self {
            Query::Path(p) => QueryView::Path(p@),
            Query::LoadCommands(p) => QueryView::LoadCommands(p@),
            Query::SharedLibs(p) => QueryView::SharedLibs(p@),
            Query::FileType(p) => QueryView::FileType(p@),
            Query::Id(p) => QueryView::Id(p@),
        }
    }
}

/// Whether a path is a symbolic link, and to what it resolves.
#[derive(Debug, PartialEq, Eq)]
pub enum LinkStatus {
    /// The path is no symbolic link.
    Plain,
    /// The path is a symbolic link; holds the canonical path of its target.
    Points(String),
    /// The path is a symbolic link that cannot be resolved.
    Dangling,
}

/// The state of one path.
#[derive(Debug, PartialEq, Eq)]
pub struct PathStatus {
    /// Something exists at the path, links followed.
    pub exists: bool,
    /// A regular file is at the path, links followed.
    pub is_file: bool,
    /// Whether the path itself is a symbolic link.
    pub link: LinkStatus,
}

/// The value that `entries` holds for `key`: that of the last entry made
/// under it.
pub open spec fn latest<V>(entries: Seq<(String, V)>, key: Seq<char>) -> Option<V>
    decreases entries.len(),
{
    if entries.len() == 0 {
        None
    } else if entries.last().0@ == key {
        Some(entries.last().1)
    } else {
        latest(entries.drop_last(), key)
    }
}

/// Answers recorded by path. A later record for a path replaces an earlier
/// one.
#[derive(Debug)]
pub struct Table<V> {
    pub entries: Vec<(String, V)>,
}

impl<V> Table<V> {
    /// The answer recorded for `key`, if any.
    pub open spec fn lookup(&self, key: Seq<char>) -> Option<V> {
        latest(self.entries@, key)
    }

    /// A table without any record.
    pub fn new() -> (r: Self)
        ensures
            r.entries@.len() == 0,
            forall|k: Seq<char>| r.lookup(k) is None,
    {
        Table { entries: Vec::new() }
    }

    /// Records `value` as the answer for `key`.
    pub fn record(&mut self, key: String, value: V)
        ensures
            final(self).entries@ == old(self).entries@.push((key, value)),
            forall|k: Seq<char>|
                #![auto]
                final(self).lookup(k) == if k == key@ {
                    Some(value)
                } else {
                    old(self).lookup(k)
                },
    {
        self.entries.push((key, value));
        proof {
            assert(self.entries@.drop_last() =~= old(self).entries@);
        }
    }

    /// The answer recorded for `key`, if any.
    pub fn get(&self, key: &str) -> (r: Option<&V>)
        ensures
            match r {
                Some(v) => self.lookup(key@) == Some(*v),
                None => self.lookup(key@) is None,
            },
    {
        let wanted = to_chars(key);
        let mut i: usize = self.entries.len();
        proof {
            assert(self.entries@.take(i as int) =~= self.entries@);
        }
        while i > 0
            invariant
                i <= self.entries.len(),
                wanted@ == key@,
                self.lookup(key@) == latest(self.entries@.take(i as int), key@),
            decreases i,
        {
            let ghost upto = self.entries@.take(i as int);
            i -= 1;
            proof {
                assert(upto.last() == self.entries@[i as int]);
                assert(upto.drop_last() =~= self.entries@.take(i as int));
            }
            let have = to_chars(self.entries[i].0.as_str());
            if chars_equal(&have, &wanted) {
                return Some(&self.entries[i].1);
            }
        }
        None
    }
}

/// What is known of the machine.
#[derive(Debug)]
pub struct Snapshot {
    /// The state of paths.
    pub paths: Table<PathStatus>,
    /// The load-command dump of binaries; nothing where the tool could not
    /// be run.
    pub load_commands: Table<Option<String>>,
    /// The shared-library list of binaries; nothing where the tool could
    /// not be run.
    pub shared_libs: Table<Option<String>>,
    /// The classifier's description of files; nothing where it failed.
    pub file_types: Table<Option<String>>,
    /// What the tool prints as the identity of libraries; nothing where it
    /// could not be run.
    pub ids: Table<Option<String>>,
}

/// What a table of tool output gives for `path`: the text, or the failure
/// `missing` where nothing is recorded, or that the tool could not be run.
pub open spec fn output_of(
    table: Table<Option<String>>,
    path: Seq<char>,
    missing: QueryView,
) -> Result<Seq<char>, ErrorView> {
    match table.lookup(path) {
        None => Err(ErrorView::Unobserved(missing)),
        Some(None) => Err(ErrorView::ToolsetInvocation(path)),
        Some(Some(text)) => Ok(text@),
    }
}

/// Reads the output that `table` holds for `path`; `missing` is the question
/// to ask where it holds none.
pub fn read_output(table: &Table<Option<String>>, path: &str, missing: Query) -> (r: Result<
    String,
    BundleError,
>)
    ensures
        text_result(r) == output_of(*table, path@, missing@),
{
    match table.get(path) {
        None => Err(BundleError::Unobserved(missing)),
        Some(None) => Err(BundleError::ToolsetInvocation(path.to_owned())),
        Some(Some(text)) => Ok(text.clone()),
    }
}

impl Snapshot {
    /// The state of `path`, or the question that has to be answered first.
    pub open spec fn status(&self, path: Seq<char>) -> Result<PathStatus, ErrorView> {
        match self.paths.lookup(path) {
            Some(st) => Ok(st),
            None => Err(ErrorView::Unobserved(QueryView::Path(path))),
        }
    }

    /// Whether something exists at `path`.
    pub open spec fn present(&self, path: Seq<char>) -> Result<bool, ErrorView> {
        match self.status(path) {
            Ok(st) => Ok(st.exists),
            Err(e) => Err(e),
        }
    }

    /// Whether a regular file stands at `path`.
    pub open spec fn is_file(&self, path: Seq<char>) -> Result<bool, ErrorView> {
        match self.status(path) {
            Ok(st) => Ok(st.exists && st.is_file),
            Err(e) => Err(e),
        }
    }

    /// The load-command dump of the binary at `path`.
    pub open spec fn load_commands_of(&self, path: Seq<char>) -> Result<Seq<char>, ErrorView> {
        output_of(self.load_commands, path, QueryView::LoadCommands(path))
    }

    /// The shared-library list of the binary at `path`.
    pub open spec fn shared_libs_of(&self, path: Seq<char>) -> Result<Seq<char>, ErrorView> {
        output_of(self.shared_libs, path, QueryView::SharedLibs(path))
    }

    /// The classifier's description of the file at `path`.
    pub open spec fn file_type_of(&self, path: Seq<char>) -> Result<Seq<char>, ErrorView> {
        output_of(self.file_types, path, QueryView::FileType(path))
    }

    /// What the tool prints as the identity of the library at `path`.
    pub open spec fn id_output_of(&self, path: Seq<char>) -> Result<Seq<char>, ErrorView> {
        output_of(self.ids, path, QueryView::Id(path))
    }

    /// A snapshot that knows nothing.
    pub fn new() -> (r: Self)
        ensures
            forall|p: Seq<char>| r.paths.lookup(p) is None,
            forall|p: Seq<char>| r.load_commands.lookup(p) is None,
            forall|p: Seq<char>| r.shared_libs.lookup(p) is None,
            forall|p: Seq<char>| r.file_types.lookup(p) is None,
            forall|p: Seq<char>| r.ids.lookup(p) is None,
    {
        Snapshot {
            paths: Table::new(),
            load_commands: Table::new(),
            shared_libs: Table::new(),
            file_types: Table::new(),
            ids: Table::new(),
        }
    }

    /// Reads the state of `path`.
    pub fn path_status(&self, path: &str) -> (r: Result<&PathStatus, BundleError>)
        ensures
            match r {
                Ok(st) => self.status(path@) == Ok::<PathStatus, ErrorView>(*st),
                Err(e) => self.status(path@) == Err::<PathStatus, ErrorView>(e@),
            },
    {
        match self.paths.get(path) {
            Some(st) => Ok(st),
            None => Err(BundleError::Unobserved(Query::Path(path.to_owned()))),
        }
    }

    /// Tells whether something exists at `path`.
    pub fn path_exists(&self, path: &str) -> (r: Result<bool, BundleError>)
        ensures
            plain_result(r) == self.present(path@),
    {
        match self.path_status(path) {
            Ok(st) => Ok(st.exists),
            Err(e) => Err(e),
        }
    }

    /// Tells whether a regular file stands at `path`.
    pub fn path_is_file(&self, path: &str) -> (r: Result<bool, BundleError>)
        ensures
            plain_result(r) == self.is_file(path@),
    {
        match self.path_status(path) {
            Ok(st) => Ok(st.exists && st.is_file),
            Err(e) => Err(e),
        }
    }
}

} // verus!
