use vstd::prelude::*;
use vstd::utf8::encode_utf8;
use rustc_hash::FxHashSet;
use crate::compiler::base::BlobId;
use crate::diagnostics::diagnostic::{Diagnostic, diag_views};
use crate::parser::ast::grammar::{blocks_view, spec_parse};
use crate::parser::ast::model::ASTBlock;
use crate::parser::ast::Parser;

verus! {

/// A set of blob ids, kept in a `rustc_hash::FxHashSet`.
#[verifier::external_body]
pub struct BlobSet {
    inner: FxHashSet<BlobId>,
}

/// The ids that a `BlobSet` holds.
pub uninterp spec fn blob_set_items(set: BlobSet) -> Set<BlobId>;

impl BlobSet {
    /// `FxHashSet::default`: a set that holds nothing.
    #[verifier::external_body]
    pub(crate) fn new() -> (s: BlobSet)
        ensures
            blob_set_items(s) == Set::<BlobId>::empty(),
    {
        BlobSet { inner: FxHashSet::default() }
    }

    /// `FxHashSet::insert`: adds the id; true where it was not there before.
    #[verifier::external_body]
    pub(crate) fn insert(&mut self, id: BlobId) -> (added: bool)
        ensures
            blob_set_items(*final(self)) == blob_set_items(*old(self)).insert(id),
            added == !blob_set_items(*old(self)).contains(id),
    {
        self.inner.insert(id)
    }

    /// `FxHashSet::remove`: takes the id out; true where it was there.
    #[verifier::external_body]
    pub(crate) fn remove(&mut self, id: BlobId) -> (removed: bool)
        ensures
            blob_set_items(*final(self)) == blob_set_items(*old(self)).remove(id),
            removed == blob_set_items(*old(self)).contains(id),
    {
        self.inner.remove(&id)
    }

    /// `FxHashSet::contains`.
    #[verifier::external_body]
    pub(crate) fn contains(&self, id: BlobId) -> (r: bool)
        ensures
            r == blob_set_items(*self).contains(id),
    {
        self.inner.contains(&id)
    }

    /// `FxHashSet::iter`, collected: each id once, in the order in which the
    /// set is walked, which this contract leaves open.
    #[verifier::external_body]
    pub(crate) fn to_vec(&self) -> (v: Vec<BlobId>)
        ensures
            v@.no_duplicates(),
            v@.to_set() == blob_set_items(*self),
    {
        self.inner.iter().copied().collect()
    }
}

/// The diagnostics of one file.
pub struct FileDiagnostic {
    pub file_id: BlobId,
    pub diagnostics: Vec<Diagnostic>,
}

/// A story file of a project.
pub struct File {
    pub name: String,
    pub parsed_content: Vec<ASTBlock>,
    /// The directories from the root down to the one that holds the file.
    pub path: Vec<BlobId>,
    pub parent: Option<BlobId>,
    pub id: BlobId,
}

/// A directory of a project.
pub struct Directory {
    pub name: String,
    /// The directories from the root down to the one that holds this one.
    pub path: Vec<BlobId>,
    pub id: BlobId,
    pub parent: Option<BlobId>,
    pub children: BlobSet,
}

/// What compiling a file gave: its id, the compiled path where there is
/// one, the diagnostics, and the text of the file.
pub struct CompiledFileData<T> {
    pub id: BlobId,
    pub compiled_content: Option<T>,
    pub diagnostics: Vec<Diagnostic>,
    pub content: String,
}

/// A blob taken out of a host.
pub enum FileOrDir {
    File(File),
    Directory(Directory),
}

/// An entry of a directory on disk, as read for a host: a file with its
/// text, or a directory with its entries in the order they are loaded.
pub enum BlobEntry {
    File { name: String, content: String },
    Directory { name: String, entries: Vec<BlobEntry> },
}

impl BlobEntry {
    pub open spec fn entry_name(self) -> Seq<char> {
        match self {
            BlobEntry::File { name, .. } => name@,
            BlobEntry::Directory { name, .. } => name@,
        }
    }
}

/// How many blobs a list of entries makes, at every depth.
pub open spec fn entries_count(s: Seq<BlobEntry>) -> nat
    decreases s,
{
    if s.len() == 0 {
        0
    } else {
        proof {
            assert(decreases_to!(s => s.drop_last()));
        }
        entries_count(s.drop_last()) + entry_count(s.last())
    }
}

/// How many blobs an entry makes: itself, and all it holds.
pub open spec fn entry_count(e: BlobEntry) -> nat
    decreases e,
{
    match e {
        BlobEntry::File { .. } => 1,
        BlobEntry::Directory { entries, .. } => 1 + entries_count(entries@),
    }
}

/// The files of the entries, at every depth, in the order they are loaded,
/// each with the id it gets when ids are handed out from `start`, and its text.
pub open spec fn entries_files(s: Seq<BlobEntry>, start: int) -> Seq<(int, Seq<char>)>
    decreases s,
{
    if s.len() == 0 {
        seq![]
    } else {
        proof {
            assert(decreases_to!(s => s.drop_last()));
        }
        entries_files(s.drop_last(), start) + entry_files(s.last(), start + entries_count(s.drop_last()))
    }
}

/// The files of an entry whose id is `id`: the entry itself, or those it holds.
pub open spec fn entry_files(e: BlobEntry, id: int) -> Seq<(int, Seq<char>)>
    decreases e,
{
    match e {
        BlobEntry::File { content, .. } => seq![(id, content@)],
        BlobEntry::Directory { entries, .. } => entries_files(entries@, id + 1),
    }
}

/// Pairs of an id and a text, as plain values.
pub open spec fn files_view(v: Seq<(BlobId, String)>) -> Seq<(int, Seq<char>)> {
    Seq::new(v.len(), |k: int| (v[k].0 as int, v[k].1@))
}

/// Whether the text of every file of the entries, at every depth, is short
/// enough to be parsed with these line endings.
pub open spec fn entries_fit(s: Seq<BlobEntry>, line_endings: int) -> bool
    decreases s,
{
    if s.len() == 0 {
        true
    } else {
        proof {
            assert(decreases_to!(s => s.drop_last()));
        }
        entries_fit(s.drop_last(), line_endings) && entry_fits(s.last(), line_endings)
    }
}

/// Whether the text of the entry's files is short enough to be parsed.
pub open spec fn entry_fits(e: BlobEntry, line_endings: int) -> bool
    decreases e,
{
    match e {
        BlobEntry::File { content, .. } => encode_utf8(content@).len() + 2 * line_endings + 16 <= usize::MAX,
        BlobEntry::Directory { entries, .. } => entries_fit(entries@, line_endings),
    }
}

/// Each entry of entries that fit fits.
pub proof fn lemma_entries_fit(s: Seq<BlobEntry>, line_endings: int, i: int)
    requires
        entries_fit(s, line_endings),
        0 <= i < s.len(),
    ensures
        entry_fits(s[i], line_endings),
    decreases s.len(),
{
    if i < s.len() - 1 {
        lemma_entries_fit(s.drop_last(), line_endings, i);
        assert(s.drop_last()[i] == s[i]);
    }
}

/// The id that the entry at `i` gets when ids are handed out from `start`.
pub open spec fn entry_id(start: int, s: Seq<BlobEntry>, i: int) -> int {
    start + entries_count(s.take(i))
}

/// The ids of the entries of one level, handed out from `start`.
pub open spec fn level_ids(start: int, s: Seq<BlobEntry>) -> Set<BlobId> {
    Set::new(|x: BlobId| exists|i: int| 0 <= i < s.len() && x == #[trigger] entry_id(start, s, i))
}

/// The directory a path leads into: its last id, where it has one.
pub open spec fn path_parent(path: Seq<BlobId>) -> Option<BlobId> {
    if path.len() == 0 {
        None
    } else {
        Some(path.last())
    }
}

/// The ids of one more entry.
pub proof fn lemma_level_ids_step(start: int, s: Seq<BlobEntry>, i: int)
    requires
        0 <= i < s.len(),
        0 <= start,
        start + entries_count(s) <= u16::MAX,
    ensures
        level_ids(start, s.take(i + 1)) == level_ids(start, s.take(i)).insert(entry_id(start, s, i) as BlobId),
        entry_id(start, s.take(i + 1), i) == entry_id(start, s, i),
{
    assert(s.take(i + 1).take(i) =~= s.take(i));
    lemma_entries_count_take(s, i);
    let e = entry_id(start, s, i);
    assert(e as BlobId == e);
    assert forall|x: BlobId| #[trigger] level_ids(start, s.take(i + 1)).contains(x) implies level_ids(
        start,
        s.take(i),
    ).insert(e as BlobId).contains(x) by {
        let j = choose|j: int| 0 <= j < s.take(i + 1).len() && x == #[trigger] entry_id(start, s.take(i + 1), j);
        assert(s.take(i + 1).take(j) =~= s.take(j));
        if j < i {
            assert(s.take(i).take(j) =~= s.take(j));
            assert(x == entry_id(start, s.take(i), j));
        }
    }
    assert forall|x: BlobId| #[trigger] level_ids(start, s.take(i)).insert(e as BlobId).contains(x) implies level_ids(
        start,
        s.take(i + 1),
    ).contains(x) by {
        if x == e as BlobId && level_ids(start, s.take(i + 1)).contains(x) {
        } else if level_ids(start, s.take(i)).contains(x) {
            let j = choose|j: int| 0 <= j < s.take(i).len() && x == #[trigger] entry_id(start, s.take(i), j);
            assert(s.take(i).take(j) =~= s.take(j));
            assert(s.take(i + 1).take(j) =~= s.take(j));
            assert(x == entry_id(start, s.take(i + 1), j));
        } else {
            assert(s.take(i + 1).take(i) =~= s.take(i));
            assert(x == entry_id(start, s.take(i + 1), i));
        }
    }
    assert(level_ids(start, s.take(i + 1)) =~= level_ids(start, s.take(i)).insert(e as BlobId));
}

/// Counting entries one by one.
pub proof fn lemma_entries_count_step(s: Seq<BlobEntry>, i: int)
    requires
        0 <= i < s.len(),
    ensures
        entries_count(s.take(i + 1)) == entries_count(s.take(i)) + entry_count(s[i]),
{
    assert(s.take(i + 1).drop_last() =~= s.take(i));
}

/// Part of the entries make at most as many blobs as all of them.
pub proof fn lemma_entries_count_take(s: Seq<BlobEntry>, i: int)
    requires
        0 <= i <= s.len(),
    ensures
        entries_count(s.take(i)) <= entries_count(s),
    decreases s.len() - i,
{
    if i < s.len() {
        lemma_entries_count_step(s, i);
        lemma_entries_count_take(s, i + 1);
    } else {
        assert(s.take(i) =~= s);
    }
}


/// The files and directories of a project, by id. Ids are handed out in
/// order from `counter`.
pub struct CompilerFileHost {
    pub cwd: String,
    pub files: Vec<File>,
    pub dirs: Vec<Directory>,
    pub line_endings: usize,
    pub counter: BlobId,
}

impl CompilerFileHost {
    pub open spec fn has_file(self, id: BlobId) -> bool {
        exists|i: int| 0 <= i < self.files.len() && (#[trigger] self.files@[i]).id == id
    }

    pub open spec fn has_dir(self, id: BlobId) -> bool {
        exists|i: int| 0 <= i < self.dirs.len() && (#[trigger] self.dirs@[i]).id == id
    }

    pub open spec fn has_blob(self, id: BlobId) -> bool {
        self.has_file(id) || self.has_dir(id)
    }

    pub open spec fn file_index(self, id: BlobId) -> int {
        choose|i: int| 0 <= i < self.files.len() && (#[trigger] self.files@[i]).id == id
    }

    pub open spec fn dir_index(self, id: BlobId) -> int {
        choose|i: int| 0 <= i < self.dirs.len() && (#[trigger] self.dirs@[i]).id == id
    }

    pub open spec fn file(self, id: BlobId) -> File {
        self.files@[self.file_index(id)]
    }

    pub open spec fn dir(self, id: BlobId) -> Directory {
        self.dirs@[self.dir_index(id)]
    }

    /// The ids that a directory holds.
    pub open spec fn children(self, id: BlobId) -> Set<BlobId> {
        blob_set_items(self.dir(id).children)
    }

    pub open spec fn blob_parent(self, id: BlobId) -> Option<BlobId> {
        if self.has_file(id) {
            self.file(id).parent
        } else {
            self.dir(id).parent
        }
    }

    pub open spec fn blob_path(self, id: BlobId) -> Seq<BlobId> {
        if self.has_file(id) {
            self.file(id).path@
        } else {
            self.dir(id).path@
        }
    }

    pub open spec fn blob_name(self, id: BlobId) -> Seq<char> {
        if self.has_file(id) {
            self.file(id).name@
        } else {
            self.dir(id).name@
        }
    }

    /// No id is used twice, by files or directories.
    pub open spec fn ids_unique(self) -> bool {
        &&& forall|i: int, j: int|
            0 <= i < j < self.files.len() ==> (#[trigger] self.files@[i]).id != (#[trigger] self.files@[j]).id
        &&& forall|i: int, j: int|
            0 <= i < j < self.dirs.len() ==> (#[trigger] self.dirs@[i]).id != (#[trigger] self.dirs@[j]).id
        &&& forall|i: int, j: int|
            0 <= i < self.files.len() && 0 <= j < self.dirs.len() ==> (#[trigger] self.files@[i]).id
                != (#[trigger] self.dirs@[j]).id
    }

    /// Every id in use is below the counter.
    pub open spec fn ids_fresh(self) -> bool {
        &&& forall|i: int| 0 <= i < self.files.len() ==> (#[trigger] self.files@[i]).id < self.counter
        &&& forall|i: int| 0 <= i < self.dirs.len() ==> (#[trigger] self.dirs@[i]).id < self.counter
    }

    /// A blob with this parent and path stands where they say: at the root,
    /// or in a directory that lists it, one level below that directory.
    pub open spec fn placed(self, parent: Option<BlobId>, path: Seq<BlobId>, id: BlobId) -> bool {
        match parent {
            None => path == Seq::<BlobId>::empty(),
            Some(p) => {
                &&& self.has_dir(p)
                &&& self.children(p).contains(id)
                &&& path == self.dir(p).path@.push(p)
            },
        }
    }

    /// The blobs form a tree: each one is placed under its parent, and what
    /// a directory lists are blobs whose parent it is.
    #[verifier::opaque]
    pub open spec fn wf(self) -> bool {
        &&& self.ids_unique()
        &&& self.ids_fresh()
        &&& forall|i: int|
            0 <= i < self.files.len() ==> self.placed(
                (#[trigger] self.files@[i]).parent,
                self.files@[i].path@,
                self.files@[i].id,
            )
        &&& forall|i: int|
            0 <= i < self.dirs.len() ==> self.placed(
                (#[trigger] self.dirs@[i]).parent,
                self.dirs@[i].path@,
                self.dirs@[i].id,
            )
        &&& forall|d: BlobId, c: BlobId|
            self.has_dir(d) && #[trigger] self.children(d).contains(c) ==> self.has_blob(c)
                && self.blob_parent(c) == Some(d)
    }

    /// A well-formed host uses each id once, each below the counter.
    pub proof fn lemma_wf_ids(self)
        requires
            self.wf(),
        ensures
            self.ids_unique(),
            self.ids_fresh(),
    {
        reveal(CompilerFileHost::wf);
    }

    /// With unique ids, the file at an index is the one its id finds.
    pub proof fn lemma_file_index(self, i: int)
        requires
            self.ids_unique(),
            0 <= i < self.files.len(),
        ensures
            self.has_file(self.files@[i].id),
            self.file_index(self.files@[i].id) == i,
            !self.has_dir(self.files@[i].id),
    {
        let id = self.files@[i].id;
        assert(self.has_file(id));
        let j = self.file_index(id);
        if j != i {
            if j < i {
                assert(self.files@[j].id != self.files@[i].id);
            } else {
                assert(self.files@[i].id != self.files@[j].id);
            }
        }
        if self.has_dir(id) {
            let k = self.dir_index(id);
            assert(self.files@[i].id != self.dirs@[k].id);
        }
    }

    /// With unique ids, the directory at an index is the one its id finds.
    pub proof fn lemma_dir_index(self, i: int)
        requires
            self.ids_unique(),
            0 <= i < self.dirs.len(),
        ensures
            self.has_dir(self.dirs@[i].id),
            self.dir_index(self.dirs@[i].id) == i,
            !self.has_file(self.dirs@[i].id),
    {
        let id = self.dirs@[i].id;
        assert(self.has_dir(id));
        let j = self.dir_index(id);
        if j != i {
            if j < i {
                assert(self.dirs@[j].id != self.dirs@[i].id);
            } else {
                assert(self.dirs@[i].id != self.dirs@[j].id);
            }
        }
        if self.has_file(id) {
            let k = self.file_index(id);
            assert(self.files@[k].id != self.dirs@[i].id);
        }
    }

    /// Every id on the path of a directory is a directory.
    pub proof fn lemma_dir_path(self, id: BlobId)
        requires
            self.wf(),
            self.has_dir(id),
        ensures
            forall|k: int| 0 <= k < self.dir(id).path@.len() ==> self.has_dir(#[trigger] self.dir(id).path@[k]),
        decreases self.dir(id).path@.len(),
    {
        reveal(CompilerFileHost::wf);
        let i = self.dir_index(id);
        assert(self.placed(self.dirs@[i].parent, self.dirs@[i].path@, self.dirs@[i].id));
        match self.dirs@[i].parent {
            None => {},
            Some(p) => {
                self.lemma_dir_path(p);
                assert forall|k: int| 0 <= k < self.dir(id).path@.len() implies self.has_dir(
                    #[trigger] self.dir(id).path@[k],
                ) by {
                    if k < self.dir(p).path@.len() {
                        assert(self.dir(id).path@[k] == self.dir(p).path@[k]);
                    }
                }
            },
        }
    }

    /// Every id on the path of a blob is a directory.
    pub proof fn lemma_blob_path(self, id: BlobId)
        requires
            self.wf(),
            self.has_blob(id),
        ensures
            forall|k: int| 0 <= k < self.blob_path(id).len() ==> self.has_dir(#[trigger] self.blob_path(id)[k]),
    {
        reveal(CompilerFileHost::wf);
        if self.has_file(id) {
            let i = self.file_index(id);
            assert(self.placed(self.files@[i].parent, self.files@[i].path@, self.files@[i].id));
            match self.files@[i].parent {
                None => {},
                Some(p) => {
                    self.lemma_dir_path(p);
                    assert forall|k: int| 0 <= k < self.blob_path(id).len() implies self.has_dir(
                        #[trigger] self.blob_path(id)[k],
                    ) by {
                        if k < self.dir(p).path@.len() {
                            assert(self.blob_path(id)[k] == self.dir(p).path@[k]);
                        }
                    }
                },
            }
        } else {
            self.lemma_dir_path(id);
        }
    }

    /// The names along a path: the root, each directory, then the name.
    pub open spec fn path_names(self, path: Seq<BlobId>, name: Seq<char>) -> Seq<Seq<char>> {
        seq![self.cwd@] + path.map_values(|d: BlobId| self.dir(d).name@) + seq![name]
    }

    /// A host for the directory `cwd` that holds nothing yet.
    pub fn new(cwd: &str, line_endings: usize) -> (host: Self)
        ensures
            host.wf(),
            host.cwd@ == cwd@,
            host.line_endings == line_endings,
            host.counter == 1,
            host.files@.len() == 0,
            host.dirs@.len() == 0,
    {
        reveal(CompilerFileHost::wf);
        CompilerFileHost {
            cwd: cwd.to_string(),
            files: Vec::new(),
            dirs: Vec::new(),
            line_endings,
            counter: 1,
        }
    }

    /// The index of the file with this id.
    fn find_file(&self, id: BlobId) -> (r: Option<usize>)
        requires
            self.ids_unique(),
        ensures
            r.is_some() <==> self.has_file(id),
            r matches Some(i) ==> i == self.file_index(id) && i < self.files.len(),
    {
        let mut i: usize = 0;
        while i < self.files.len()
            invariant
                self.ids_unique(),
                i <= self.files.len(),
                forall|j: int| 0 <= j < i ==> (#[trigger] self.files@[j]).id != id,
            decreases self.files.len() - i,
        {
            if self.files[i].id == id {
                proof {
                    self.lemma_file_index(i as int);
                }
                return Some(i);
            }
            i = i + 1;
        }
        None
    }

    /// The index of the directory with this id.
    fn find_dir(&self, id: BlobId) -> (r: Option<usize>)
        requires
            self.ids_unique(),
        ensures
            r.is_some() <==> self.has_dir(id),
            r matches Some(i) ==> i == self.dir_index(id) && i < self.dirs.len(),
    {
        let mut i: usize = 0;
        while i < self.dirs.len()
            invariant
                self.ids_unique(),
                i <= self.dirs.len(),
                forall|j: int| 0 <= j < i ==> (#[trigger] self.dirs@[j]).id != id,
            decreases self.dirs.len() - i,
        {
            if self.dirs[i].id == id {
                proof {
                    self.lemma_dir_index(i as int);
                }
                return Some(i);
            }
            i = i + 1;
        }
        None
    }

    /// The path on disk of a blob with this path and name, one name per
    /// component: the root directory, each directory, then the name.
    pub fn build_path(&self, path: &Vec<BlobId>, name: &str) -> (r: Vec<String>)
        requires
            self.ids_unique(),
            forall|k: int| 0 <= k < path@.len() ==> self.has_dir(#[trigger] path@[k]),
        ensures
            r@.map_values(|s: String| s@) == self.path_names(path@, name@),
    {
        let mut res: Vec<String> = Vec::new();
        res.push(self.cwd.clone());
        let mut k: usize = 0;
        while k < path.len()
            invariant
                self.ids_unique(),
                forall|k: int| 0 <= k < path@.len() ==> self.has_dir(#[trigger] path@[k]),
                k <= path.len(),
                res@.map_values(|s: String| s@) == seq![self.cwd@] + path@.take(k as int).map_values(
                    |d: BlobId| self.dir(d).name@,
                ),
            decreases path.len() - k,
        {
            let i = self.find_dir(path[k]).unwrap();
            let ghost before = res@;
            res.push(self.dirs[i].name.clone());
            proof {
                let f = |s: String| s@;
                let g = |d: BlobId| self.dir(d).name@;
                assert(res@.map_values(f) =~= before.map_values(f).push(self.dirs@[i as int].name@));
                assert(path@.take(k + 1) =~= path@.take(k as int).push(path@[k as int]));
                assert(path@.take(k + 1).map_values(g) =~= path@.take(k as int).map_values(g).push(
                    self.dir(path@[k as int]).name@,
                ));
            }
            assert(res@.map_values(|s: String| s@) =~= seq![self.cwd@] + path@.take(k + 1).map_values(
                |d: BlobId| self.dir(d).name@,
            ));
            k = k + 1;
        }
        res.push(name.to_string());
        assert(path@.take(path@.len() as int) == path@);
        assert(res@.map_values(|s: String| s@) =~= self.path_names(path@, name@));
        res
    }

    /// Two hosts whose blobs differ in names and contents alone.
    pub open spec fn same_tree(self, other: Self) -> bool {
        &&& self.counter == other.counter
        &&& self.cwd == other.cwd
        &&& self.line_endings == other.line_endings
        &&& self.files.len() == other.files.len()
        &&& self.dirs.len() == other.dirs.len()
        &&& forall|i: int|
            0 <= i < self.files.len() ==> {
                &&& (#[trigger] self.files@[i]).id == other.files@[i].id
                &&& self.files@[i].parent == other.files@[i].parent
                &&& self.files@[i].path@ == other.files@[i].path@
            }
        &&& forall|i: int|
            0 <= i < self.dirs.len() ==> {
                &&& (#[trigger] self.dirs@[i]).id == other.dirs@[i].id
                &&& self.dirs@[i].parent == other.dirs@[i].parent
                &&& self.dirs@[i].path@ == other.dirs@[i].path@
                &&& self.dirs@[i].children == other.dirs@[i].children
            }
    }

    /// Renaming or reparsing keeps the tree well formed, and where every blob is.
    pub proof fn lemma_same_tree(self, other: Self)
        requires
            self.wf(),
            self.same_tree(other),
        ensures
            other.wf(),
            forall|id: BlobId| #[trigger] other.has_file(id) == self.has_file(id),
            forall|id: BlobId| #[trigger] other.has_dir(id) == self.has_dir(id),
            forall|id: BlobId| self.has_file(id) ==> #[trigger] other.file_index(id) == self.file_index(id),
            forall|id: BlobId| self.has_dir(id) ==> #[trigger] other.dir_index(id) == self.dir_index(id),
            forall|id: BlobId| self.has_blob(id) ==> #[trigger] other.blob_parent(id) == self.blob_parent(id),
            forall|id: BlobId| self.has_blob(id) ==> #[trigger] other.blob_path(id) == self.blob_path(id),
            forall|id: BlobId| self.has_dir(id) ==> #[trigger] other.children(id) == self.children(id),
    {
        reveal(CompilerFileHost::wf);
        assert(other.ids_unique()) by {
            assert forall|i: int, j: int| 0 <= i < j < other.files.len() implies (#[trigger] other.files@[i]).id
                != (#[trigger] other.files@[j]).id by {
                assert(self.files@[i].id != self.files@[j].id);
            }
            assert forall|i: int, j: int| 0 <= i < j < other.dirs.len() implies (#[trigger] other.dirs@[i]).id
                != (#[trigger] other.dirs@[j]).id by {
                assert(self.dirs@[i].id != self.dirs@[j].id);
            }
            assert forall|i: int, j: int|
                0 <= i < other.files.len() && 0 <= j < other.dirs.len() implies (#[trigger] other.files@[i]).id
                != (#[trigger] other.dirs@[j]).id by {
                assert(self.files@[i].id != self.dirs@[j].id);
            }
        }
        assert forall|id: BlobId| #[trigger] other.has_file(id) == self.has_file(id) by {
            if self.has_file(id) {
                let i = self.file_index(id);
                assert(other.files@[i].id == id);
            }
            if other.has_file(id) {
                let i = other.file_index(id);
                assert(self.files@[i].id == id);
            }
        }
        assert forall|id: BlobId| #[trigger] other.has_dir(id) == self.has_dir(id) by {
            if self.has_dir(id) {
                let i = self.dir_index(id);
                assert(other.dirs@[i].id == id);
            }
            if other.has_dir(id) {
                let i = other.dir_index(id);
                assert(self.dirs@[i].id == id);
            }
        }
        assert forall|id: BlobId| self.has_file(id) implies #[trigger] other.file_index(id) == self.file_index(id) by {
            let i = self.file_index(id);
            self.lemma_file_index(i);
            other.lemma_file_index(i);
        }
        assert forall|id: BlobId| self.has_dir(id) implies #[trigger] other.dir_index(id) == self.dir_index(id) by {
            let i = self.dir_index(id);
            self.lemma_dir_index(i);
            other.lemma_dir_index(i);
        }
        assert forall|id: BlobId| self.has_blob(id) implies #[trigger] other.blob_parent(id) == self.blob_parent(id)
            && other.blob_path(id) == self.blob_path(id) by {
            if self.has_file(id) {
                let i = self.file_index(id);
                self.lemma_file_index(i);
                other.lemma_file_index(i);
            } else {
                let i = self.dir_index(id);
                self.lemma_dir_index(i);
                other.lemma_dir_index(i);
            }
        }
        assert forall|id: BlobId| self.has_dir(id) implies #[trigger] other.children(id) == self.children(id) by {
            let i = self.dir_index(id);
            self.lemma_dir_index(i);
            other.lemma_dir_index(i);
        }
        assert(other.ids_fresh()) by {
            assert forall|i: int| 0 <= i < other.files.len() implies (#[trigger] other.files@[i]).id < other.counter by {
                assert(self.files@[i].id < self.counter);
            }
            assert forall|i: int| 0 <= i < other.dirs.len() implies (#[trigger] other.dirs@[i]).id < other.counter by {
                assert(self.dirs@[i].id < self.counter);
            }
        }
        assert forall|i: int| 0 <= i < other.files.len() implies other.placed(
            (#[trigger] other.files@[i]).parent,
            other.files@[i].path@,
            other.files@[i].id,
        ) by {
            assert(self.placed(self.files@[i].parent, self.files@[i].path@, self.files@[i].id));
            if let Some(p) = self.files@[i].parent {
                assert(self.has_dir(p));
                assert(other.has_dir(p));
                assert(other.dir_index(p) == self.dir_index(p));
                assert(other.children(p) == self.children(p));
            }
        }
        assert forall|i: int| 0 <= i < other.dirs.len() implies other.placed(
            (#[trigger] other.dirs@[i]).parent,
            other.dirs@[i].path@,
            other.dirs@[i].id,
        ) by {
            assert(self.placed(self.dirs@[i].parent, self.dirs@[i].path@, self.dirs@[i].id));
            if let Some(p) = self.dirs@[i].parent {
                assert(self.has_dir(p));
                assert(other.has_dir(p));
                assert(other.dir_index(p) == self.dir_index(p));
                assert(other.children(p) == self.children(p));
            }
        }
        assert forall|d: BlobId, c: BlobId|
            other.has_dir(d) && #[trigger] other.children(d).contains(c) implies other.has_blob(c)
            && other.blob_parent(c) == Some(d) by {
            assert(self.has_dir(d));
            assert(self.children(d).contains(c));
            assert(self.has_blob(c));
        }
    }

    /// Gives a blob a new name. Hands back where the blob was on disk, so that
    /// it can be renamed there; `None` where no blob has the id.
    pub fn rename_blob(&mut self, id: BlobId, name: String) -> (old_path: Option<Vec<String>>)
        requires
            old(self).wf(),
        ensures
            final(self).wf(),
            old_path.is_some() <==> old(self).has_blob(id),
            old_path matches Some(p) ==> p@.map_values(|s: String| s@) == old(self).path_names(
                old(self).blob_path(id),
                old(self).blob_name(id),
            ),
            old(self).same_tree(*final(self)),
            old(self).has_file(id) ==> {
                &&& final(self).files@ == old(self).files@.update(
                    old(self).file_index(id),
                    File { name: name, ..old(self).file(id) },
                )
                &&& final(self).dirs@ == old(self).dirs@
            },
            old(self).has_dir(id) ==> {
                &&& final(self).dirs@ == old(self).dirs@.update(
                    old(self).dir_index(id),
                    Directory { name: name, ..old(self).dir(id) },
                )
                &&& final(self).files@ == old(self).files@
            },
            !old(self).has_blob(id) ==> *final(self) == *old(self),
    {
        proof {
            self.lemma_wf_ids();
        }
        if let Some(i) = self.find_file(id) {
            proof {
                self.lemma_blob_path(id);
                assert(self.blob_path(id) == self.files@[i as int].path@);
                assert(forall|k: int| 0 <= k < self.files@[i as int].path@.len() ==> self.has_dir(#[trigger] self.files@[i as int].path@[k]));
            }
            let built = self.build_path(&self.files[i].path, self.files[i].name.as_str());
            let ghost before = *self;
            self.files[i].name = name;
            proof {
                assert(before.same_tree(*self));
                before.lemma_same_tree(*self);
                assert(self.files@ =~= before.files@.update(i as int, File { name: name, ..before.file(id) }));
            }
            Some(built)
        } else if let Some(i) = self.find_dir(id) {
            proof {
                self.lemma_blob_path(id);
                self.lemma_dir_index(i as int);
                assert(self.blob_path(id) == self.dirs@[i as int].path@);
                assert(forall|k: int| 0 <= k < self.dirs@[i as int].path@.len() ==> self.has_dir(#[trigger] self.dirs@[i as int].path@[k]));
            }
            let built = self.build_path(&self.dirs[i].path, self.dirs[i].name.as_str());
            let ghost before = *self;
            self.dirs[i].name = name;
            proof {
                assert(before.same_tree(*self));
                before.lemma_same_tree(*self);
                assert(self.dirs@ =~= before.dirs@.update(i as int, Directory { name: name, ..before.dir(id) }));
            }
            Some(built)
        } else {
            None
        }
    }

    /// The path of a blob placed under `parent`.
    pub open spec fn path_under(self, parent: Option<BlobId>) -> Seq<BlobId> {
        match parent {
            None => Seq::<BlobId>::empty(),
            Some(p) => self.dir(p).path@.push(p),
        }
    }

    /// What stays of every blob when a new one is added under `parent`: the
    /// same blobs, as they were, but for the parent, which lists the new id too.
    pub open spec fn adds_blob(self, other: Self, id: BlobId, parent: Option<BlobId>) -> bool {
        &&& forall|x: BlobId| x != id ==> #[trigger] other.has_file(x) == self.has_file(x)
        &&& forall|x: BlobId| x != id ==> #[trigger] other.has_dir(x) == self.has_dir(x)
        &&& forall|x: BlobId| self.has_file(x) ==> #[trigger] other.file(x) == self.file(x)
        &&& forall|x: BlobId|
            self.has_dir(x) ==> {
                &&& (#[trigger] other.dir(x)).name == self.dir(x).name
                &&& other.dir(x).path == self.dir(x).path
                &&& other.dir(x).parent == self.dir(x).parent
                &&& other.dir(x).id == self.dir(x).id
                &&& other.children(x) == if parent == Some(x) {
                    self.children(x).insert(id)
                } else {
                    self.children(x)
                }
            }
        &&& other.cwd == self.cwd
        &&& other.line_endings == self.line_endings
    }

    /// Adds a file or a directory named `name` under `parent` (at the root
    /// where `None`) with the next id, and hands back the id.
    #[verifier::rlimit(80)]
    #[verifier::spinoff_prover]
    fn add_blob(&mut self, name: String, parent: Option<BlobId>, is_dir: bool) -> (r: BlobId)
        requires
            old(self).wf(),
            old(self).counter < u16::MAX,
            parent matches Some(p) ==> old(self).has_dir(p),
        ensures
            final(self).wf(),
            r == old(self).counter,
            final(self).counter == old(self).counter + 1,
            !old(self).has_blob(r),
            old(self).adds_blob(*final(self), r, parent),
            is_dir ==> {
                &&& final(self).has_dir(r)
                &&& !final(self).has_file(r)
                &&& final(self).dir(r).name@ == name@
                &&& final(self).dir(r).parent == parent
                &&& final(self).dir(r).path@ == old(self).path_under(parent)
                &&& final(self).children(r) == Set::<BlobId>::empty()
            },
            !is_dir ==> {
                &&& final(self).has_file(r)
                &&& !final(self).has_dir(r)
                &&& final(self).file(r).name@ == name@
                &&& final(self).file(r).parent == parent
                &&& final(self).file(r).path@ == old(self).path_under(parent)
                &&& final(self).file(r).parsed_content@.len() == 0
            },
    {
        proof {
            self.lemma_wf_ids();
            reveal(CompilerFileHost::wf);
        }
        let ghost before = *self;
        let file_id = self.counter;
        let mut path: Vec<BlobId> = Vec::new();
        if let Some(p) = parent {
            let i = self.find_dir(p).unwrap();
            path = self.dirs[i].path.clone();
            assert(path@ =~= self.dirs@[i as int].path@);
            path.push(p);
            proof {
                self.lemma_dir_path(p);
                assert forall|k: int| 0 <= k < path@.len() implies self.has_dir(#[trigger] path@[k]) by {
                    if k < path@.len() - 1 {
                        assert(path@[k] == self.dir(p).path@[k]);
                    }
                }
            }
        }
        assert(path@ == self.path_under(parent));
        self.counter = self.counter + 1;
        if let Some(p) = parent {
            let i = self.find_dir(p).unwrap();
            self.dirs[i].children.insert(file_id);
        }
        let ghost mid = *self;
        assert(mid.dirs.len() == before.dirs.len());
        if is_dir {
            self.dirs.push(Directory { name, parent, path, children: BlobSet::new(), id: file_id });
        } else {
            self.files.push(File { name, parent, path, parsed_content: Vec::new(), id: file_id });
        }
        proof {
            let new = *self;
            // the new state keeps every id once
            assert(new.ids_unique()) by {
                assert forall|i: int, j: int| 0 <= i < j < new.files.len() implies (#[trigger] new.files@[i]).id
                    != (#[trigger] new.files@[j]).id by {
                    assert(before.files@[i].id < before.counter);
                    if j < before.files.len() {
                        assert(before.files@[i].id != before.files@[j].id);
                    }
                }
                assert forall|i: int, j: int| 0 <= i < j < new.dirs.len() implies (#[trigger] new.dirs@[i]).id
                    != (#[trigger] new.dirs@[j]).id by {
                    assert(before.dirs@[i].id < before.counter);
                    if j < before.dirs.len() {
                        assert(before.dirs@[i].id != before.dirs@[j].id);
                    }
                }
                assert forall|i: int, j: int|
                    0 <= i < new.files.len() && 0 <= j < new.dirs.len() implies (#[trigger] new.files@[i]).id
                    != (#[trigger] new.dirs@[j]).id by {
                    if i < before.files.len() && j < before.dirs.len() {
                        assert(before.files@[i].id != before.dirs@[j].id);
                    } else if i < before.files.len() {
                        assert(before.files@[i].id < before.counter);
                    } else {
                        assert(before.dirs@[j].id < before.counter);
                    }
                }
            }
            assert(new.ids_fresh()) by {
                assert forall|i: int| 0 <= i < new.files.len() implies (#[trigger] new.files@[i]).id < new.counter by {
                    if i < before.files.len() {
                        assert(before.files@[i].id < before.counter);
                    }
                }
                assert forall|i: int| 0 <= i < new.dirs.len() implies (#[trigger] new.dirs@[i]).id < new.counter by {
                    if i < before.dirs.len() {
                        assert(before.dirs@[i].id < before.counter);
                    }
                }
            }
            // where each old blob was, it still is
            assert forall|x: BlobId| x != file_id implies #[trigger] new.has_file(x) == before.has_file(x) by {
                if before.has_file(x) {
                    let i = before.file_index(x);
                    assert(new.files@[i].id == x);
                }
                if new.has_file(x) {
                    let i = new.file_index(x);
                    assert(before.files@[i].id == x);
                }
            }
            assert forall|x: BlobId| x != file_id implies #[trigger] new.has_dir(x) == before.has_dir(x) by {
                if before.has_dir(x) {
                    let i = before.dir_index(x);
                    assert(new.dirs@[i].id == x);
                }
                if new.has_dir(x) {
                    let i = new.dir_index(x);
                    assert(before.dirs@[i].id == x);
                }
            }
            assert(!before.has_file(file_id)) by {
                if before.has_file(file_id) {
                    let i = before.file_index(file_id);
                    assert(before.files@[i].id < before.counter);
                }
            }
            assert(!before.has_dir(file_id)) by {
                if before.has_dir(file_id) {
                    let i = before.dir_index(file_id);
                    assert(before.dirs@[i].id < before.counter);
                }
            }
            assert forall|x: BlobId| before.has_file(x) implies #[trigger] new.file(x) == before.file(x) by {
                let i = before.file_index(x);
                before.lemma_file_index(i);
                new.lemma_file_index(i);
            }
            assert forall|x: BlobId| before.has_dir(x) implies {
                &&& (#[trigger] new.dir(x)).name == before.dir(x).name
                &&& new.dir(x).path == before.dir(x).path
                &&& new.dir(x).parent == before.dir(x).parent
                &&& new.dir(x).id == before.dir(x).id
                &&& new.children(x) == if parent == Some(x) {
                    before.children(x).insert(file_id)
                } else {
                    before.children(x)
                }
            } by {
                let i = before.dir_index(x);
                before.lemma_dir_index(i);
                new.lemma_dir_index(i);
                if parent == Some(x) {
                    assert(i == before.dir_index(parent->0));
                }
            }
            if is_dir {
                new.lemma_dir_index(new.dirs.len() - 1);
            } else {
                new.lemma_file_index(new.files.len() - 1);
            }
            assert(new.has_blob(file_id));
            assert(new.blob_parent(file_id) == parent);
            // each blob is placed under its parent
            assert forall|i: int| 0 <= i < new.files.len() implies new.placed(
                (#[trigger] new.files@[i]).parent,
                new.files@[i].path@,
                new.files@[i].id,
            ) by {
                if i < before.files.len() {
                    assert(before.placed(before.files@[i].parent, before.files@[i].path@, before.files@[i].id));
                    before.lemma_file_index(i);
                    if let Some(q) = before.files@[i].parent {
                        assert(before.has_dir(q));
                    }
                } else {
                    if let Some(q) = parent {
                        assert(before.has_dir(q));
                    }
                }
            }
            assert forall|i: int| 0 <= i < new.dirs.len() implies new.placed(
                (#[trigger] new.dirs@[i]).parent,
                new.dirs@[i].path@,
                new.dirs@[i].id,
            ) by {
                if i < before.dirs.len() {
                    assert(before.placed(before.dirs@[i].parent, before.dirs@[i].path@, before.dirs@[i].id));
                    before.lemma_dir_index(i);
                    if let Some(q) = before.dirs@[i].parent {
                        assert(before.has_dir(q));
                    }
                } else {
                    if let Some(q) = parent {
                        assert(before.has_dir(q));
                    }
                }
            }
            assert forall|d: BlobId, c: BlobId|
                new.has_dir(d) && #[trigger] new.children(d).contains(c) implies new.has_blob(c)
                && new.blob_parent(c) == Some(d) by {
                if d == file_id {
                    assert(new.children(d) == Set::<BlobId>::empty());
                } else if c == file_id {
                    assert(before.has_dir(d));
                    if parent != Some(d) {
                        assert(before.children(d).contains(c));
                        assert(before.has_blob(c));
                    }
                } else {
                    assert(before.has_dir(d));
                    assert(before.children(d).contains(c));
                    assert(before.has_blob(c));
                    if before.has_file(c) {
                        before.lemma_file_index(before.file_index(c));
                    } else {
                        before.lemma_dir_index(before.dir_index(c));
                    }
                }
            }
        }
        file_id
    }


    /// Adds a file or a directory named `name` under `parent` (at the root
    /// where `None`) with the next id. Hands back the id and where the new
    /// blob is on disk, so that it can be made there.
    pub fn create_blob(&mut self, name: String, parent: Option<BlobId>, is_dir: bool) -> (r: (BlobId, Vec<String>))
        requires
            old(self).wf(),
            old(self).counter < u16::MAX,
            parent matches Some(p) ==> old(self).has_dir(p),
        ensures
            final(self).wf(),
            r.0 == old(self).counter,
            final(self).counter == old(self).counter + 1,
            !old(self).has_blob(r.0),
            old(self).adds_blob(*final(self), r.0, parent),
            is_dir ==> {
                &&& final(self).has_dir(r.0)
                &&& !final(self).has_file(r.0)
                &&& final(self).dir(r.0).name@ == name@
                &&& final(self).dir(r.0).parent == parent
                &&& final(self).dir(r.0).path@ == old(self).path_under(parent)
                &&& final(self).children(r.0) == Set::<BlobId>::empty()
            },
            !is_dir ==> {
                &&& final(self).has_file(r.0)
                &&& !final(self).has_dir(r.0)
                &&& final(self).file(r.0).name@ == name@
                &&& final(self).file(r.0).parent == parent
                &&& final(self).file(r.0).path@ == old(self).path_under(parent)
                &&& final(self).file(r.0).parsed_content@.len() == 0
            },
            r.1@.map_values(|s: String| s@) == old(self).path_names(old(self).path_under(parent), name@),
    {
        let ghost before = *self;
        let id = self.add_blob(name, parent, is_dir);
        proof {
            self.lemma_wf_ids();
            self.lemma_blob_path(id);
        }
        let built = if is_dir {
            let i = self.find_dir(id).unwrap();
            proof {
                self.lemma_dir_index(i as int);
                assert(self.blob_path(id) == self.dirs@[i as int].path@);
                assert(forall|k: int| 0 <= k < self.dirs@[i as int].path@.len() ==> self.has_dir(#[trigger] self.dirs@[i as int].path@[k]));
            }
            self.build_path(&self.dirs[i].path, self.dirs[i].name.as_str())
        } else {
            let i = self.find_file(id).unwrap();
            proof {
                assert(self.blob_path(id) == self.files@[i as int].path@);
                assert(forall|k: int| 0 <= k < self.files@[i as int].path@.len() ==> self.has_dir(#[trigger] self.files@[i as int].path@[k]));
            }
            self.build_path(&self.files[i].path, self.files[i].name.as_str())
        };
        proof {
            let path = before.path_under(parent);
            if let Some(p) = parent {
                before.lemma_dir_path(p);
            }
            assert forall|k: int| 0 <= k < path.len() implies before.has_dir(#[trigger] path[k]) by {
                if let Some(p) = parent {
                    if k < path.len() - 1 {
                        assert(path[k] == before.dir(p).path@[k]);
                    }
                }
            }
            assert(path.map_values(|d: BlobId| self.dir(d).name@) =~= path.map_values(
                |d: BlobId| before.dir(d).name@,
            ));
        }
        (id, built)
    }

    /// `other` holds every blob of `self` as it was, but for the directory
    /// `parent`, which lists the ids `added` too; what else `other` holds has
    /// ids from the counter of `self` up to its own.
    #[verifier::opaque]
    pub open spec fn extends(self, other: Self, parent: Option<BlobId>, added: Set<BlobId>) -> bool {
        &&& other.counter >= self.counter
        &&& other.cwd == self.cwd
        &&& other.line_endings == self.line_endings
        &&& forall|x: BlobId| #[trigger] self.has_file(x) ==> other.has_file(x) && other.file(x) == self.file(x)
        &&& forall|x: BlobId|
            #[trigger] self.has_dir(x) ==> {
                &&& other.has_dir(x)
                &&& other.dir(x).name == self.dir(x).name
                &&& other.dir(x).path == self.dir(x).path
                &&& other.dir(x).parent == self.dir(x).parent
                &&& other.dir(x).id == self.dir(x).id
                &&& other.children(x) == if parent == Some(x) {
                    self.children(x).union(added)
                } else {
                    self.children(x)
                }
            }
        &&& forall|x: BlobId|
            #[trigger] other.has_blob(x) && !self.has_blob(x) ==> self.counter <= x < other.counter
    }

    /// A blob added with the next id extends the host.
    pub proof fn lemma_adds_extends(self, other: Self, id: BlobId, parent: Option<BlobId>)
        requires
            self.adds_blob(other, id, parent),
            !self.has_blob(id),
            id == self.counter,
            other.counter == self.counter + 1,
        ensures
            self.extends(other, parent, set![id]),
    {
        reveal(CompilerFileHost::extends);
        assert forall|x: BlobId| #[trigger] self.has_dir(x) implies other.has_dir(x) && other.children(x) == if parent
            == Some(x) {
            self.children(x).union(set![id])
        } else {
            self.children(x)
        } by {
            assert(x != id);
            if parent == Some(x) {
                assert(self.children(x).insert(id) =~= self.children(x).union(set![id]));
            }
        }
        assert forall|x: BlobId| #[trigger] self.has_file(x) implies other.has_file(x) by {
            assert(x != id);
        }
        assert forall|x: BlobId| #[trigger] other.has_blob(x) && !self.has_blob(x) implies self.counter <= x
            < other.counter by {
            if x != id {
                assert(other.has_file(x) == self.has_file(x));
                assert(other.has_dir(x) == self.has_dir(x));
            }
        }
    }

    /// Extending twice extends: below the same directory, by what both added;
    /// or, where the second step adds below a directory that is new, by what
    /// the first added.
    pub proof fn lemma_extends_trans(
        a: Self,
        b: Self,
        c: Self,
        parent: Option<BlobId>,
        s1: Set<BlobId>,
        q: Option<BlobId>,
        s2: Set<BlobId>,
    )
        requires
            a.extends(b, parent, s1),
            b.extends(c, q, s2),
            q == parent || (q matches Some(d) && !a.has_dir(d)),
        ensures
            a.extends(c, parent, if q == parent { s1.union(s2) } else { s1 }),
    {
        reveal(CompilerFileHost::extends);
        let added = if q == parent { s1.union(s2) } else { s1 };
        assert forall|x: BlobId| #[trigger] a.has_dir(x) implies {
            &&& c.has_dir(x)
            &&& c.dir(x).name == a.dir(x).name
            &&& c.dir(x).path == a.dir(x).path
            &&& c.dir(x).parent == a.dir(x).parent
            &&& c.dir(x).id == a.dir(x).id
            &&& c.children(x) == if parent == Some(x) {
                a.children(x).union(added)
            } else {
                a.children(x)
            }
        } by {
            assert(b.has_dir(x));
            if parent == Some(x) && q == parent {
                assert(a.children(x).union(s1).union(s2) =~= a.children(x).union(s1.union(s2)));
            }
        }
        assert forall|x: BlobId| #[trigger] a.has_file(x) implies c.has_file(x) && c.file(x) == a.file(x) by {
            assert(b.has_file(x));
        }
        assert forall|x: BlobId| #[trigger] c.has_blob(x) && !a.has_blob(x) implies a.counter <= x < c.counter by {
            if b.has_blob(x) {
                assert(b.has_blob(x) && !a.has_blob(x));
            } else {
                assert(c.has_blob(x) && !b.has_blob(x));
            }
        }
    }

    /// The blob `x` is what the entry made under `parent`: a file, or a
    /// directory that holds what the entries within it made.
    #[verifier::opaque]
    pub open spec fn holds_entry(self, x: BlobId, e: BlobEntry, parent: Option<BlobId>) -> bool {
        &&& self.has_blob(x)
        &&& self.blob_name(x) == e.entry_name()
        &&& self.blob_parent(x) == parent
        &&& match e {
            BlobEntry::File { .. } => self.has_file(x),
            BlobEntry::Directory { entries, .. } => self.has_dir(x) && self.children(x) == level_ids(
                x + 1,
                entries@,
            ),
        }
    }

    /// What an entry made stays as it was when the host is extended below
    /// another directory.
    pub proof fn lemma_holds_entry_stays(
        self,
        other: Self,
        x: BlobId,
        e: BlobEntry,
        parent: Option<BlobId>,
        q: Option<BlobId>,
        added: Set<BlobId>,
    )
        requires
            self.extends(other, q, added),
            self.holds_entry(x, e, parent),
            other.ids_unique(),
            q != Some(x),
        ensures
            other.holds_entry(x, e, parent),
    {
        reveal(CompilerFileHost::extends);
        reveal(CompilerFileHost::holds_entry);
        if self.has_file(x) {
            assert(other.has_file(x));
        } else {
            assert(other.has_dir(x));
            other.lemma_dir_index(other.dir_index(x));
        }
    }

    /// Adds a blob for the entry under the directory that `path` leads into
    /// (the root where it is empty), a directory with all it holds, handing
    /// out ids in order. Hands back the id of the entry.
    #[verifier::rlimit(40)]
    fn load_entry(&mut self, e: &BlobEntry, path: &Vec<BlobId>) -> (id: BlobId)
        requires
            old(self).wf(),
            path_parent(path@) matches Some(p) ==> old(self).has_dir(p),
            path@ == old(self).path_under(path_parent(path@)),
            old(self).counter + entry_count(*e) <= u16::MAX,
        ensures
            final(self).wf(),
            id == old(self).counter,
            final(self).counter == old(self).counter + entry_count(*e),
            old(self).extends(*final(self), path_parent(path@), set![id]),
            final(self).holds_entry(id, *e, path_parent(path@)),
        decreases e,
    {
        let parent: Option<BlobId> = if path.len() == 0 {
            None
        } else {
            Some(path[path.len() - 1])
        };
        let ghost prev = *self;
        proof {
            reveal(CompilerFileHost::extends);
            reveal(CompilerFileHost::holds_entry);
        }
        match e {
            BlobEntry::File { name, .. } => {
                let id = self.add_blob(name.clone(), parent, false);
                proof {
                    prev.lemma_adds_extends(*self, id, parent);
                    assert(self.has_file(id));
                    assert(self.blob_name(id) == name@);
                    assert(self.blob_parent(id) == parent);
                }
                id
            },
            BlobEntry::Directory { name, entries: sub } => {
                let id = self.add_blob(name.clone(), parent, true);
                let ghost mid = *self;
                proof {
                    prev.lemma_adds_extends(mid, id, parent);
                    if let Some(p) = parent {
                        assert(prev.dir(p).path == mid.dir(p).path);
                    }
                }
                let mut new_path = path.clone();
                assert(new_path@ =~= path@);
                new_path.push(id);
                proof {
                    assert(new_path@ == mid.path_under(Some(id)));
                    assert(decreases_to!(e => sub));
                }
                let _ = self.load_dir(sub, new_path);
                proof {
                    assert(!prev.has_dir(id));
                    CompilerFileHost::lemma_extends_trans(
                        prev,
                        mid,
                        *self,
                        parent,
                        set![id],
                        Some(id),
                        level_ids(id + 1, sub@),
                    );
                    assert(mid.children(id) == Set::<BlobId>::empty());
                    assert(Set::<BlobId>::empty().union(level_ids(id + 1, sub@)) =~= level_ids(id + 1, sub@));
                    assert(self.has_dir(id));
                    self.lemma_wf_ids();
                    self.lemma_dir_index(self.dir_index(id));
                    assert(!self.has_file(id));
                    assert(self.blob_name(id) == name@);
                    assert(self.blob_parent(id) == parent);
                    assert(self.children(id) == level_ids(id + 1, sub@));
                }
                id
            },
        }
    }

    /// Adds a blob for each entry under the directory that `path` leads into
    /// (the root where it is empty), directories with all they hold, handing
    /// out ids in order. Hands back the ids of the entries of this level.
    #[verifier::rlimit(100)]
    #[verifier::spinoff_prover]
    pub fn load_dir(&mut self, entries: &Vec<BlobEntry>, path: Vec<BlobId>) -> (r: BlobSet)
        requires
            old(self).wf(),
            path_parent(path@) matches Some(p) ==> old(self).has_dir(p),
            path@ == old(self).path_under(path_parent(path@)),
            old(self).counter + entries_count(entries@) <= u16::MAX,
        ensures
            final(self).wf(),
            final(self).counter == old(self).counter + entries_count(entries@),
            blob_set_items(r) == level_ids(old(self).counter as int, entries@),
            old(self).extends(*final(self), path_parent(path@), level_ids(old(self).counter as int, entries@)),
            forall|i: int|
                0 <= i < entries.len() ==> final(self).holds_entry(
                    entry_id(old(self).counter as int, entries@, i) as BlobId,
                    #[trigger] entries@[i],
                    path_parent(path@),
                ),
        decreases entries,
    {
        let mut result = BlobSet::new();
        let ghost before = *self;
        let ghost start = before.counter as int;
        let ghost parent = path_parent(path@);
        proof {
            reveal(CompilerFileHost::extends);
            before.lemma_wf_ids();
            assert(entries@.take(0) =~= Seq::<BlobEntry>::empty());
            assert(level_ids(start, entries@.take(0)) =~= Set::<BlobId>::empty());
            assert forall|x: BlobId| #[trigger] before.has_dir(x) implies before.children(x) == before.children(x).union(
                Set::<BlobId>::empty(),
            ) by {
                assert(before.children(x) =~= before.children(x).union(Set::<BlobId>::empty()));
            }
        }
        let mut i: usize = 0;
        while i < entries.len()
            invariant
                self.wf(),
                before.ids_fresh(),
                i <= entries.len(),
                parent == path_parent(path@),
                parent matches Some(p) ==> before.has_dir(p),
                path@ == before.path_under(parent),
                start == before.counter,
                before.counter + entries_count(entries@) <= u16::MAX,
                self.counter == start + entries_count(entries@.take(i as int)),
                blob_set_items(result) == level_ids(start, entries@.take(i as int)),
                before.extends(*self, parent, level_ids(start, entries@.take(i as int))),
                forall|j: int|
                    0 <= j < i ==> self.holds_entry(
                        entry_id(start, entries@, j) as BlobId,
                        #[trigger] entries@[j],
                        parent,
                    ),
            decreases entries.len() - i,
        {
            proof {
                lemma_entries_count_step(entries@, i as int);
                lemma_entries_count_take(entries@, i + 1);
                lemma_entries_count_take(entries@, i as int);
                lemma_level_ids_step(start, entries@, i as int);
                if let Some(p) = parent {
                    assert(self.has_dir(p) && self.dir(p).path == before.dir(p).path) by {
                        reveal(CompilerFileHost::extends);
                    }
                }
                assert(decreases_to!(entries => entries@[i as int]));
            }
            let ghost prev = *self;
            let ghost level = level_ids(start, entries@.take(i as int));
            let id = self.load_entry(&entries[i], &path);
            result.insert(id);
            proof {
                CompilerFileHost::lemma_extends_trans(before, prev, *self, parent, level, parent, set![id]);
                assert(level.union(set![id]) =~= level.insert(id));
                assert forall|j: int| 0 <= j < i + 1 implies self.holds_entry(
                    entry_id(start, entries@, j) as BlobId,
                    #[trigger] entries@[j],
                    parent,
                ) by {
                    if j < i {
                        let x = entry_id(start, entries@, j) as BlobId;
                        lemma_entries_count_take(entries@, j);
                        if let Some(p) = parent {
                            assert(before.dirs@[before.dir_index(p)].id < before.counter);
                            assert(p != x);
                        }
                        self.lemma_wf_ids();
                        prev.lemma_holds_entry_stays(*self, x, entries@[j], parent, parent, set![id]);
                    }
                }
            }
            i = i + 1;
        }
        proof {
            assert(entries@.take(entries@.len() as int) =~= entries@);
        }
        result
    }

    /// Loads the entries of the root directory.
    pub fn load_cwd(&mut self, entries: &Vec<BlobEntry>) -> (r: BlobSet)
        requires
            old(self).wf(),
            old(self).counter + entries_count(entries@) <= u16::MAX,
        ensures
            final(self).wf(),
            final(self).counter == old(self).counter + entries_count(entries@),
            blob_set_items(r) == level_ids(old(self).counter as int, entries@),
            old(self).extends(*final(self), None, level_ids(old(self).counter as int, entries@)),
            forall|i: int|
                0 <= i < entries.len() ==> final(self).holds_entry(
                    entry_id(old(self).counter as int, entries@, i) as BlobId,
                    #[trigger] entries@[i],
                    None,
                ),
    {
        let path: Vec<BlobId> = Vec::new();
        assert(path@ =~= Seq::<BlobId>::empty());
        self.load_dir(entries, path)
    }

    /// Forgets every blob and loads the entries of the root directory
    /// anew, handing out ids from 1.
    pub fn refresh(&mut self, entries: &Vec<BlobEntry>) -> (r: BlobSet)
        requires
            1 + entries_count(entries@) <= u16::MAX,
        ensures
            final(self).wf(),
            final(self).counter == 1 + entries_count(entries@),
            final(self).cwd == old(self).cwd,
            final(self).line_endings == old(self).line_endings,
            blob_set_items(r) == level_ids(1, entries@),
            forall|x: BlobId| #[trigger] final(self).has_blob(x) ==> 1 <= x < final(self).counter,
            forall|i: int|
                0 <= i < entries.len() ==> final(self).holds_entry(
                    entry_id(1, entries@, i) as BlobId,
                    #[trigger] entries@[i],
                    None,
                ),
    {
        self.counter = 1;
        self.dirs.clear();
        self.files.clear();
        proof {
            reveal(CompilerFileHost::wf);
        }
        let ghost before = *self;
        let r = self.load_cwd(entries);
        proof {
            reveal(CompilerFileHost::extends);
            assert forall|x: BlobId| #[trigger] self.has_blob(x) implies 1 <= x < self.counter by {
                assert(!before.has_file(x));
                assert(!before.has_dir(x));
                assert(self.has_blob(x) && !before.has_blob(x));
            }
        }
        r
    }

    /// Parses the text of a file into its blocks. Hands back the text and
    /// the diagnostics; `None` where no file has the id.
    pub fn parse_file(&mut self, file_id: BlobId, file_contents: String) -> (r: Option<(String, Vec<Diagnostic>)>)
        requires
            old(self).wf(),
            old(self).line_endings >= 1,
            encode_utf8(file_contents@).len() + 2 * old(self).line_endings + 16 <= usize::MAX,
        ensures
            final(self).wf(),
            r.is_some() <==> old(self).has_file(file_id),
            r matches Some(res) ==> res.0@ == file_contents@,
            r matches Some(res) ==> diag_views(res.1@) == spec_parse(encode_utf8(file_contents@), old(self).line_endings).1,
            old(self).has_file(file_id) ==> {
                let f = final(self).file(file_id);
                &&& blocks_view(f.parsed_content@) == spec_parse(encode_utf8(file_contents@), old(self).line_endings).0
                &&& f == (File { parsed_content: f.parsed_content, ..old(self).file(file_id) })
            },
            old(self).same_tree(*final(self)),
            forall|x: BlobId|
                old(self).has_file(x) && x != file_id ==> #[trigger] final(self).file(x) == old(self).file(x),
            final(self).dirs@ == old(self).dirs@,
            final(self).line_endings == old(self).line_endings,
    {
        proof {
            self.lemma_wf_ids();
        }
        match self.find_file(file_id) {
            Some(_) => {
                let (content, dias) = Parser::parse_str(file_contents.as_str(), self.line_endings);
                self.set_parsed_content(file_id, content);
                Some((file_contents, dias))
            },
            None => None,
        }
    }

    /// Sets the blocks of a file; does nothing where no file has the id.
    pub(crate) fn set_parsed_content(&mut self, file_id: BlobId, content: Vec<ASTBlock>)
        requires
            old(self).wf(),
        ensures
            final(self).wf(),
            old(self).same_tree(*final(self)),
            old(self).has_file(file_id) ==> final(self).file(file_id) == (File {
                parsed_content: content,
                ..old(self).file(file_id)
            }),
            forall|x: BlobId|
                old(self).has_file(x) && x != file_id ==> #[trigger] final(self).file(x) == old(self).file(x),
            final(self).dirs@ == old(self).dirs@,
    {
        proof {
            self.lemma_wf_ids();
        }
        if let Some(i) = self.find_file(file_id) {
            let ghost before = *self;
            self.files[i].parsed_content = content;
            proof {
                assert(before.same_tree(*self));
                before.lemma_same_tree(*self);
                assert forall|x: BlobId| before.has_file(x) && x != file_id implies #[trigger] self.file(x)
                    == before.file(x) by {
                    before.lemma_file_index(before.file_index(x));
                }
            }
        }
    }

    /// Setting the blocks of a file that `a` did not hold keeps `a` extended.
    pub proof fn lemma_parsed_extends(a: Self, b: Self, c: Self, parent: Option<BlobId>, added: Set<BlobId>, id: BlobId)
        requires
            a.extends(b, parent, added),
            b.wf(),
            b.same_tree(c),
            forall|x: BlobId| b.has_file(x) && x != id ==> #[trigger] c.file(x) == b.file(x),
            c.dirs@ == b.dirs@,
            !a.has_file(id),
        ensures
            a.extends(c, parent, added),
    {
        reveal(CompilerFileHost::extends);
        b.lemma_same_tree(c);
        assert forall|x: BlobId| #[trigger] a.has_file(x) implies c.has_file(x) && c.file(x) == a.file(x) by {
            assert(b.has_file(x));
        }
        assert forall|x: BlobId| #[trigger] c.has_blob(x) && !a.has_blob(x) implies a.counter <= x < c.counter by {
            assert(b.has_blob(x));
        }
    }

    /// Setting the blocks of a file keeps what each entry made.
    pub proof fn lemma_parsed_holds(b: Self, c: Self, id: BlobId, x: BlobId, e: BlobEntry, parent: Option<BlobId>)
        requires
            b.holds_entry(x, e, parent),
            b.wf(),
            b.same_tree(c),
            forall|y: BlobId| b.has_file(y) && y != id ==> #[trigger] c.file(y) == b.file(y),
            b.has_file(id) ==> c.file(id).name == b.file(id).name,
            c.dirs@ == b.dirs@,
        ensures
            c.holds_entry(x, e, parent),
    {
        reveal(CompilerFileHost::holds_entry);
        b.lemma_same_tree(c);
    }

    /// Deleting a blob that was just created leaves every other blob as it
    /// was before the creation: the same files, and the same directories,
    /// listing the same ids.
    pub proof fn law_create_then_delete(
        h0: Self,
        h1: Self,
        h2: Self,
        id: BlobId,
        parent: Option<BlobId>,
    )
        requires
            h0.wf(),
            !h0.has_blob(id),
            h0.adds_blob(h1, id, parent),
            h1.has_blob(id),
            h1.blob_parent(id) == parent,
            h1.removes_blob(h2, id),
        ensures
            forall|x: BlobId| #[trigger] h2.has_file(x) == h0.has_file(x),
            forall|x: BlobId| #[trigger] h2.has_dir(x) == h0.has_dir(x),
            forall|x: BlobId| h0.has_file(x) ==> #[trigger] h2.file(x) == h0.file(x),
            forall|x: BlobId|
                h0.has_dir(x) ==> {
                    &&& (#[trigger] h2.dir(x)).name == h0.dir(x).name
                    &&& h2.dir(x).path == h0.dir(x).path
                    &&& h2.dir(x).parent == h0.dir(x).parent
                    &&& h2.children(x) == h0.children(x)
                },
    {
        reveal(CompilerFileHost::wf);
        h0.lemma_wf_ids();
        assert forall|x: BlobId| h0.has_blob(x) implies stays(id, x, h1.blob_path(x)) by {
            h0.lemma_blob_path(x);
            if h0.has_file(x) {
                assert(h1.file(x) == h0.file(x));
                h0.lemma_file_index(h0.file_index(x));
                assert(h1.has_file(x));
                assert(h1.blob_path(x) == h0.blob_path(x));
            } else {
                assert(h1.has_dir(x));
                h0.lemma_dir_index(h0.dir_index(x));
                if h1.has_file(x) {
                    assert(h0.has_file(x));
                }
                assert(h1.blob_path(x) == h0.blob_path(x));
            }
            if h1.blob_path(x).contains(id) {
                let k = choose|k: int| 0 <= k < h1.blob_path(x).len() && h1.blob_path(x)[k] == id;
                assert(h0.has_dir(h0.blob_path(x)[k]));
            }
        }
        assert forall|x: BlobId| #[trigger] h2.has_file(x) == h0.has_file(x) by {
            if x != id && h0.has_file(x) {
                assert(h0.has_blob(x));
            }
        }
        assert forall|x: BlobId| #[trigger] h2.has_dir(x) == h0.has_dir(x) by {
            if x != id && h0.has_dir(x) {
                assert(h0.has_blob(x));
            }
        }
        assert forall|x: BlobId| h0.has_file(x) implies #[trigger] h2.file(x) == h0.file(x) by {
            assert(h0.has_blob(x));
            assert(x != id);
            assert(h2.has_file(x));
        }
        assert forall|x: BlobId| h0.has_dir(x) implies {
            &&& (#[trigger] h2.dir(x)).name == h0.dir(x).name
            &&& h2.dir(x).path == h0.dir(x).path
            &&& h2.dir(x).parent == h0.dir(x).parent
            &&& h2.children(x) == h0.children(x)
        } by {
            assert(h0.has_blob(x));
            assert(x != id);
            assert(h2.has_dir(x));
            if parent == Some(x) {
                assert(!h0.children(x).contains(id));
                assert(h0.children(x).insert(id).remove(id) =~= h0.children(x));
            }
        }
    }

    /// An ancestor's own path is the part of the path above it.
    pub proof fn lemma_ancestor(self, x: BlobId, k: int)
        requires
            self.wf(),
            self.has_blob(x),
            0 <= k < self.blob_path(x).len(),
        ensures
            self.has_dir(self.blob_path(x)[k]),
            self.blob_path(self.blob_path(x)[k]) == self.blob_path(x).take(k),
        decreases self.blob_path(x).len(),
    {
        reveal(CompilerFileHost::wf);
        let (parent, path) = if self.has_file(x) {
            let i = self.file_index(x);
            assert(self.placed(self.files@[i].parent, self.files@[i].path@, self.files@[i].id));
            (self.files@[i].parent, self.files@[i].path@)
        } else {
            let i = self.dir_index(x);
            assert(self.placed(self.dirs@[i].parent, self.dirs@[i].path@, self.dirs@[i].id));
            (self.dirs@[i].parent, self.dirs@[i].path@)
        };
        assert(path == self.blob_path(x));
        let p = parent->0;
        self.lemma_dir_index(self.dir_index(p));
        assert(self.blob_path(p) == self.dir(p).path@);
        if k == path.len() - 1 {
            assert(path.take(k) =~= self.dir(p).path@);
        } else {
            self.lemma_ancestor(p, k);
            assert(path[k] == self.dir(p).path@[k]);
            assert(path.take(k) =~= self.dir(p).path@.take(k));
        }
    }

    /// No blob is on its own path.
    pub proof fn lemma_not_own_ancestor(self, x: BlobId)
        requires
            self.wf(),
            self.has_blob(x),
        ensures
            !self.blob_path(x).contains(x),
    {
        if self.blob_path(x).contains(x) {
            let k = choose|k: int| 0 <= k < self.blob_path(x).len() && self.blob_path(x)[k] == x;
            self.lemma_ancestor(x, k);
        }
    }

    /// The blobs of `other` are those of `self` that deleting `id` leaves,
    /// as they were, in order.
    pub open spec fn keeps_from(self, other: Self, id: BlobId) -> bool {
        &&& other.ids_unique()
        &&& other.counter == self.counter
        &&& other.cwd == self.cwd
        &&& other.line_endings == self.line_endings
        &&& forall|j: int|
            0 <= j < other.files.len() ==> self.files@.contains(#[trigger] other.files@[j]) && stays(
                id,
                other.files@[j].id,
                other.files@[j].path@,
            )
        &&& forall|m: int|
            0 <= m < self.files.len() && stays(id, (#[trigger] self.files@[m]).id, self.files@[m].path@)
                ==> other.files@.contains(self.files@[m])
        &&& forall|j: int|
            0 <= j < other.dirs.len() ==> self.dirs@.contains(#[trigger] other.dirs@[j]) && stays(
                id,
                other.dirs@[j].id,
                other.dirs@[j].path@,
            )
        &&& forall|m: int|
            0 <= m < self.dirs.len() && stays(id, (#[trigger] self.dirs@[m]).id, self.dirs@[m].path@)
                ==> other.dirs@.contains(self.dirs@[m])
    }

    /// What deleting `id` leaves of every blob: those that stay, as they
    /// were, but for the directory that held `id`, which no longer lists it.
    pub open spec fn removes_blob(self, other: Self, id: BlobId) -> bool {
        &&& forall|x: BlobId|
            #[trigger] other.has_file(x) == (self.has_file(x) && stays(id, x, self.blob_path(x)))
        &&& forall|x: BlobId|
            #[trigger] other.has_dir(x) == (self.has_dir(x) && stays(id, x, self.blob_path(x)))
        &&& forall|x: BlobId| other.has_file(x) ==> #[trigger] other.file(x) == self.file(x)
        &&& forall|x: BlobId|
            other.has_dir(x) ==> {
                &&& (#[trigger] other.dir(x)).name == self.dir(x).name
                &&& other.dir(x).path == self.dir(x).path
                &&& other.dir(x).parent == self.dir(x).parent
                &&& other.dir(x).id == self.dir(x).id
                &&& other.children(x) == if self.blob_parent(id) == Some(x) {
                    self.children(x).remove(id)
                } else {
                    self.children(x)
                }
            }
        &&& other.cwd == self.cwd
        &&& other.line_endings == self.line_endings
        &&& other.counter == self.counter
    }

    /// Where the blobs that stay are after the others are taken out.
    pub proof fn lemma_keeps_from(self, other: Self, id: BlobId)
        requires
            self.wf(),
            self.keeps_from(other, id),
        ensures
            forall|x: BlobId|
                #[trigger] other.has_file(x) == (self.has_file(x) && stays(id, x, self.blob_path(x))),
            forall|x: BlobId|
                #[trigger] other.has_dir(x) == (self.has_dir(x) && stays(id, x, self.blob_path(x))),
            forall|x: BlobId| other.has_file(x) ==> #[trigger] other.file(x) == self.file(x),
            forall|x: BlobId| other.has_dir(x) ==> #[trigger] other.dir(x) == self.dir(x),
    {
        self.lemma_wf_ids();
        assert forall|x: BlobId|
            #[trigger] other.has_file(x) == (self.has_file(x) && stays(id, x, self.blob_path(x))) by {
            if other.has_file(x) {
                let j = other.file_index(x);
                let m = choose|m: int| 0 <= m < self.files.len() && self.files@[m] == other.files@[j];
                self.lemma_file_index(m);
            }
            if self.has_file(x) && stays(id, x, self.blob_path(x)) {
                let m = self.file_index(x);
                self.lemma_file_index(m);
                assert(other.files@.contains(self.files@[m]));
                let j = choose|j: int| 0 <= j < other.files.len() && other.files@[j] == self.files@[m];
                assert(other.files@[j].id == x);
            }
        }
        assert forall|x: BlobId|
            #[trigger] other.has_dir(x) == (self.has_dir(x) && stays(id, x, self.blob_path(x))) by {
            if other.has_dir(x) {
                let j = other.dir_index(x);
                let m = choose|m: int| 0 <= m < self.dirs.len() && self.dirs@[m] == other.dirs@[j];
                self.lemma_dir_index(m);
            }
            if self.has_dir(x) && stays(id, x, self.blob_path(x)) {
                let m = self.dir_index(x);
                self.lemma_dir_index(m);
                assert(other.dirs@.contains(self.dirs@[m]));
                let j = choose|j: int| 0 <= j < other.dirs.len() && other.dirs@[j] == self.dirs@[m];
                assert(other.dirs@[j].id == x);
            }
        }
        assert forall|x: BlobId| other.has_file(x) implies #[trigger] other.file(x) == self.file(x) by {
            let j = other.file_index(x);
            let m = choose|m: int| 0 <= m < self.files.len() && self.files@[m] == other.files@[j];
            self.lemma_file_index(m);
        }
        assert forall|x: BlobId| other.has_dir(x) implies #[trigger] other.dir(x) == self.dir(x) by {
            let j = other.dir_index(x);
            let m = choose|m: int| 0 <= m < self.dirs.len() && self.dirs@[m] == other.dirs@[j];
            self.lemma_dir_index(m);
        }
    }

    /// The directory that holds a blob stays when the blob is deleted.
    pub proof fn lemma_parent_stays(self, id: BlobId)
        requires
            self.wf(),
            self.has_blob(id),
        ensures
            self.blob_parent(id) matches Some(p) ==> self.has_dir(p) && stays(id, p, self.blob_path(p))
                && self.children(p).contains(id),
    {
        reveal(CompilerFileHost::wf);
        self.lemma_wf_ids();
        let (parent, path) = if self.has_file(id) {
            let i = self.file_index(id);
            assert(self.placed(self.files@[i].parent, self.files@[i].path@, self.files@[i].id));
            (self.files@[i].parent, self.files@[i].path@)
        } else {
            let i = self.dir_index(id);
            assert(self.placed(self.dirs@[i].parent, self.dirs@[i].path@, self.dirs@[i].id));
            (self.dirs@[i].parent, self.dirs@[i].path@)
        };
        if let Some(p) = parent {
            self.lemma_not_own_ancestor(id);
            let k = path.len() - 1;
            assert(path[k] == p);
            self.lemma_ancestor(id, k);
            assert(!path.take(k).contains(id)) by {
                if path.take(k).contains(id) {
                    let j = choose|j: int| 0 <= j < k && path.take(k)[j] == id;
                    assert(path[j] == id);
                }
            }
        }
    }

    /// Takes the blob `id` out, with all that it holds at any depth, and
    /// hands it back; the directory above it still lists it.
    fn delete_blob_in_memory(&mut self, id: BlobId) -> (r: FileOrDir)
        requires
            old(self).wf(),
            old(self).has_blob(id),
        ensures
            old(self).keeps_from(*final(self), id),
            r matches FileOrDir::File(f) ==> old(self).has_file(id) && f == old(self).file(id),
            r matches FileOrDir::Directory(d) ==> old(self).has_dir(id) && d == old(self).dir(id),
    {
        proof {
            self.lemma_wf_ids();
        }
        let ghost before = *self;
        let mut files: Vec<File> = Vec::new();
        std::mem::swap(&mut files, &mut self.files);
        let (kept_files, found_file) = keep_files(files, id);
        self.files = kept_files;
        let mut dirs: Vec<Directory> = Vec::new();
        std::mem::swap(&mut dirs, &mut self.dirs);
        let (kept_dirs, found_dir) = keep_dirs(dirs, id);
        self.dirs = kept_dirs;
        proof {
            let new = *self;
            assert forall|i: int, j: int|
                0 <= i < new.files.len() && 0 <= j < new.dirs.len() implies (#[trigger] new.files@[i]).id
                != (#[trigger] new.dirs@[j]).id by {
                let a = choose|a: int| 0 <= a < before.files.len() && before.files@[a] == new.files@[i];
                let b = choose|b: int| 0 <= b < before.dirs.len() && before.dirs@[b] == new.dirs@[j];
                assert(before.files@[a].id != before.dirs@[b].id);
            }
        }
        if let Some(f) = found_file {
            proof {
                let m = choose|m: int| 0 <= m < before.files.len() && before.files@[m] == f;
                before.lemma_file_index(m);
            }
            FileOrDir::File(f)
        } else {
            proof {
                if before.has_file(id) {
                    assert(before.files@[before.file_index(id)].id == id);
                } else {
                    assert(before.dirs@[before.dir_index(id)].id == id);
                }
            }
            let d = found_dir.unwrap();
            proof {
                let m = choose|m: int| 0 <= m < before.dirs.len() && before.dirs@[m] == d;
                before.lemma_dir_index(m);
            }
            FileOrDir::Directory(d)
        }
    }

    /// Deleting keeps the tree well formed: `mid` is what stays after the
    /// blobs are taken out, `new` is `mid` where the directory that held `id`
    /// no longer lists it.
    #[verifier::rlimit(60)]
    pub proof fn lemma_deleted(before: Self, mid: Self, new: Self, id: BlobId)
        requires
            before.wf(),
            before.has_blob(id),
            before.keeps_from(mid, id),
            new.files == mid.files,
            new.counter == mid.counter,
            new.cwd == mid.cwd,
            new.line_endings == mid.line_endings,
            new.dirs.len() == mid.dirs.len(),
            forall|j: int|
                0 <= j < new.dirs.len() ==> {
                    &&& (#[trigger] new.dirs@[j]).id == mid.dirs@[j].id
                    &&& new.dirs@[j].name == mid.dirs@[j].name
                    &&& new.dirs@[j].path == mid.dirs@[j].path
                    &&& new.dirs@[j].parent == mid.dirs@[j].parent
                    &&& blob_set_items(new.dirs@[j].children) == if before.blob_parent(id) == Some(
                        new.dirs@[j].id,
                    ) {
                        blob_set_items(mid.dirs@[j].children).remove(id)
                    } else {
                        blob_set_items(mid.dirs@[j].children)
                    }
                },
        ensures
            new.wf(),
            before.removes_blob(new, id),
            !new.has_blob(id),
    {
        before.lemma_wf_ids();
        before.lemma_keeps_from(mid, id);
        before.lemma_parent_stays(id);
        let parent = before.blob_parent(id);
        reveal(CompilerFileHost::wf);
        assert(new.ids_unique()) by {
            assert forall|i: int, j: int| 0 <= i < j < new.dirs.len() implies (#[trigger] new.dirs@[i]).id
                != (#[trigger] new.dirs@[j]).id by {
                assert(mid.dirs@[i].id != mid.dirs@[j].id);
            }
            assert forall|i: int, j: int|
                0 <= i < new.files.len() && 0 <= j < new.dirs.len() implies (#[trigger] new.files@[i]).id
                != (#[trigger] new.dirs@[j]).id by {
                assert(mid.files@[i].id != mid.dirs@[j].id);
            }
        }
        assert(new.ids_fresh()) by {
            assert forall|i: int| 0 <= i < new.files.len() implies (#[trigger] new.files@[i]).id < new.counter by {
                let m = choose|m: int| 0 <= m < before.files.len() && before.files@[m] == mid.files@[i];
                assert(before.files@[m].id < before.counter);
            }
            assert forall|i: int| 0 <= i < new.dirs.len() implies (#[trigger] new.dirs@[i]).id < new.counter by {
                let m = choose|m: int| 0 <= m < before.dirs.len() && before.dirs@[m] == mid.dirs@[i];
                assert(before.dirs@[m].id < before.counter);
            }
        }
        assert forall|x: BlobId| #[trigger] new.has_file(x) == mid.has_file(x) by {
            if mid.has_file(x) {
                assert(new.files@[mid.file_index(x)].id == x);
            }
        }
        assert forall|x: BlobId| #[trigger] new.has_dir(x) == mid.has_dir(x) by {
            if mid.has_dir(x) {
                assert(new.dirs@[mid.dir_index(x)].id == x);
            }
            if new.has_dir(x) {
                assert(mid.dirs@[new.dir_index(x)].id == x);
            }
        }
        assert forall|x: BlobId| new.has_file(x) implies #[trigger] new.file(x) == before.file(x) by {
            new.lemma_file_index(new.file_index(x));
            mid.lemma_file_index(new.file_index(x));
        }
        assert forall|x: BlobId| new.has_dir(x) implies {
            &&& (#[trigger] new.dir(x)).name == before.dir(x).name
            &&& new.dir(x).path == before.dir(x).path
            &&& new.dir(x).parent == before.dir(x).parent
            &&& new.dir(x).id == before.dir(x).id
            &&& new.children(x) == if before.blob_parent(id) == Some(x) {
                before.children(x).remove(id)
            } else {
                before.children(x)
            }
        } by {
            let i = new.dir_index(x);
            new.lemma_dir_index(i);
            mid.lemma_dir_index(i);
            if let Some(p) = parent {
                assert(before.blob_parent(id) == Some(p));
                if p == x {
                    assert(i == mid.dir_index(p));
                }
            } else {
                assert(before.blob_parent(id).is_none());
            }
        }
        assert forall|i: int| 0 <= i < new.files.len() implies new.placed(
            (#[trigger] new.files@[i]).parent,
            new.files@[i].path@,
            new.files@[i].id,
        ) by {
            let x = new.files@[i].id;
            new.lemma_file_index(i);
            let m = before.file_index(x);
            before.lemma_file_index(m);
            assert(before.placed(before.files@[m].parent, before.files@[m].path@, before.files@[m].id));
            if let Some(q) = before.files@[m].parent {
                before.lemma_dir_index(before.dir_index(q));
                assert(before.blob_path(q) == before.dir(q).path@);
                assert(before.files@[m].path@ == before.dir(q).path@.push(q));
                if !stays(id, q, before.blob_path(q)) {
                    assert(before.files@[m].path@.contains(id)) by {
                        if q == id {
                            assert(before.files@[m].path@[before.dir(q).path@.len() as int] == id);
                        } else {
                            let j = choose|j: int| 0 <= j < before.dir(q).path@.len() && before.dir(q).path@[j] == id;
                            assert(before.files@[m].path@[j] == id);
                        }
                    }
                }
                assert(new.has_dir(q));
            }
        }
        assert forall|i: int| 0 <= i < new.dirs.len() implies new.placed(
            (#[trigger] new.dirs@[i]).parent,
            new.dirs@[i].path@,
            new.dirs@[i].id,
        ) by {
            let x = new.dirs@[i].id;
            new.lemma_dir_index(i);
            let m = before.dir_index(x);
            before.lemma_dir_index(m);
            assert(new.dirs@[i].parent == before.dirs@[m].parent);
            assert(new.dirs@[i].path == before.dirs@[m].path);
            assert(before.placed(before.dirs@[m].parent, before.dirs@[m].path@, before.dirs@[m].id));
            if let Some(q) = before.dirs@[m].parent {
                before.lemma_dir_index(before.dir_index(q));
                assert(before.blob_path(q) == before.dir(q).path@);
                if !stays(id, q, before.blob_path(q)) {
                    assert(before.dirs@[m].path@.contains(id)) by {
                        if q == id {
                            assert(before.dirs@[m].path@[before.dir(q).path@.len() as int] == id);
                        } else {
                            let j = choose|j: int| 0 <= j < before.dir(q).path@.len() && before.dir(q).path@[j] == id;
                            assert(before.dirs@[m].path@[j] == id);
                        }
                    }
                }
                assert(new.has_dir(q));
            }
        }
        assert forall|d: BlobId, c: BlobId|
            new.has_dir(d) && #[trigger] new.children(d).contains(c) implies new.has_blob(c)
            && new.blob_parent(c) == Some(d) by {
            assert(before.has_dir(d));
            assert(before.children(d).contains(c));
            assert(before.has_blob(c) && before.blob_parent(c) == Some(d));
            if c == id {
                assert(before.blob_parent(id) == Some(d));
            }
            assert(c != id);
            let (cpath, cparent) = if before.has_file(c) {
                let m = before.file_index(c);
                before.lemma_file_index(m);
                assert(before.placed(before.files@[m].parent, before.files@[m].path@, before.files@[m].id));
                (before.files@[m].path@, before.files@[m].parent)
            } else {
                let m = before.dir_index(c);
                before.lemma_dir_index(m);
                assert(before.placed(before.dirs@[m].parent, before.dirs@[m].path@, before.dirs@[m].id));
                (before.dirs@[m].path@, before.dirs@[m].parent)
            };
            assert(cparent == Some(d));
            before.lemma_dir_index(before.dir_index(d));
            assert(cpath == before.dir(d).path@.push(d));
            assert(before.blob_path(d) == before.dir(d).path@);
            assert(!cpath.contains(id)) by {
                if cpath.contains(id) {
                    let j = choose|j: int| 0 <= j < cpath.len() && cpath[j] == id;
                    if j < cpath.len() - 1 {
                        assert(before.dir(d).path@[j] == id);
                    }
                }
            }
            assert(before.blob_path(c) == cpath);
            assert(stays(id, c, before.blob_path(c)));
            if before.has_file(c) {
                assert(mid.has_file(c));
                assert(new.has_file(c));
                new.lemma_file_index(new.file_index(c));
            } else {
                assert(mid.has_dir(c));
                assert(new.has_dir(c));
                new.lemma_dir_index(new.dir_index(c));
            }
        }
        assert(!new.has_blob(id));
    }

    /// Deletes a file, or a directory with all that it holds. Hands back
    /// where the blob was on disk, and whether it was a directory, so that it
    /// can be deleted there.
    #[verifier::rlimit(40)]
    pub fn delete_blob(&mut self, id: BlobId) -> (r: (Vec<String>, bool))
        requires
            old(self).wf(),
            old(self).has_blob(id),
        ensures
            final(self).wf(),
            old(self).removes_blob(*final(self), id),
            !final(self).has_blob(id),
            r.1 == old(self).has_dir(id),
            r.0@.map_values(|s: String| s@) == old(self).path_names(
                old(self).blob_path(id),
                old(self).blob_name(id),
            ),
    {
        proof {
            self.lemma_wf_ids();
            self.lemma_blob_path(id);
            self.lemma_parent_stays(id);
            self.lemma_not_own_ancestor(id);
        }
        let ghost before = *self;
        let removed = self.delete_blob_in_memory(id);
        let ghost mid = *self;
        proof {
            before.lemma_keeps_from(mid, id);
        }
        let (parent, is_dir) = match &removed {
            FileOrDir::File(f) => (f.parent, false),
            FileOrDir::Directory(d) => (d.parent, true),
        };
        let built = match &removed {
            FileOrDir::File(f) => {
                proof {
                    assert(forall|k: int| 0 <= k < f.path@.len() ==> before.has_dir(#[trigger] f.path@[k]));
                    assert forall|k: int| 0 <= k < f.path@.len() implies self.has_dir(#[trigger] f.path@[k])
                        && self.dir(f.path@[k]).name == before.dir(f.path@[k]).name by {
                        before.lemma_ancestor(id, k);
                        assert(!before.blob_path(id).take(k).contains(id)) by {
                            if before.blob_path(id).take(k).contains(id) {
                                let j = choose|j: int| 0 <= j < k && before.blob_path(id).take(k)[j] == id;
                                assert(before.blob_path(id)[j] == id);
                            }
                        }
                    }
                    assert(f.path@.map_values(|d: BlobId| self.dir(d).name@) =~= f.path@.map_values(
                        |d: BlobId| before.dir(d).name@,
                    ));
                }
                self.build_path(&f.path, f.name.as_str())
            },
            FileOrDir::Directory(d) => {
                proof {
                    assert(forall|k: int| 0 <= k < d.path@.len() ==> before.has_dir(#[trigger] d.path@[k]));
                    assert forall|k: int| 0 <= k < d.path@.len() implies self.has_dir(#[trigger] d.path@[k])
                        && self.dir(d.path@[k]).name == before.dir(d.path@[k]).name by {
                        before.lemma_ancestor(id, k);
                        assert(!before.blob_path(id).take(k).contains(id)) by {
                            if before.blob_path(id).take(k).contains(id) {
                                let j = choose|j: int| 0 <= j < k && before.blob_path(id).take(k)[j] == id;
                                assert(before.blob_path(id)[j] == id);
                            }
                        }
                    }
                    assert(d.path@.map_values(|x: BlobId| self.dir(x).name@) =~= d.path@.map_values(
                        |x: BlobId| before.dir(x).name@,
                    ));
                }
                self.build_path(&d.path, d.name.as_str())
            },
        };
        if let Some(p) = parent {
            let i = self.find_dir(p).unwrap();
            self.dirs[i].children.remove(id);
        }
        proof {
            let new = *self;
            assert forall|j: int| 0 <= j < new.dirs.len() implies {
                &&& (#[trigger] new.dirs@[j]).id == mid.dirs@[j].id
                &&& new.dirs@[j].name == mid.dirs@[j].name
                &&& new.dirs@[j].path == mid.dirs@[j].path
                &&& new.dirs@[j].parent == mid.dirs@[j].parent
                &&& blob_set_items(new.dirs@[j].children) == if before.blob_parent(id) == Some(
                    new.dirs@[j].id,
                ) {
                    blob_set_items(mid.dirs@[j].children).remove(id)
                } else {
                    blob_set_items(mid.dirs@[j].children)
                }
            } by {
                if let Some(p) = parent {
                    if new.dirs@[j].id == p {
                        mid.lemma_dir_index(j);
                    }
                }
            }
            CompilerFileHost::lemma_deleted(before, mid, new, id);
        }
        (built, is_dir)
    }
}

/// The files of the entries, at every depth, in the order they are loaded,
/// with the ids they get when ids are handed out from `start`, appended to
/// `out`. Hands back the id after the last.
pub(crate) fn collect_files(entries: &Vec<BlobEntry>, start: BlobId, line_endings: usize, out: &mut Vec<(BlobId, String)>) -> (next: BlobId)
    requires
        start + entries_count(entries@) <= u16::MAX,
        entries_fit(entries@, line_endings as int),
    ensures
        next == start + entries_count(entries@),
        final(out)@.len() >= old(out)@.len(),
        forall|k: int| 0 <= k < old(out)@.len() ==> #[trigger] final(out)@[k] == old(out)@[k],
        forall|k: int|
            old(out)@.len() <= k < final(out)@.len() ==> start <= (#[trigger] final(out)@[k]).0 < next
                && encode_utf8(final(out)@[k].1@).len() + 2 * line_endings + 16 <= usize::MAX,
        files_view(final(out)@) == files_view(old(out)@) + entries_files(entries@, start as int),
        forall|a: int, b: int|
            old(out)@.len() <= a < b < final(out)@.len() ==> (#[trigger] final(out)@[a]).0 < (#[trigger] final(out)@[b]).0,
    decreases entries,
{
    let mut next = start;
    let mut i: usize = 0;
    while i < entries.len()
        invariant
            i <= entries.len(),
            start + entries_count(entries@) <= u16::MAX,
            entries_fit(entries@, line_endings as int),
            next == start + entries_count(entries@.take(i as int)),
            out@.len() >= old(out)@.len(),
            forall|k: int| 0 <= k < old(out)@.len() ==> #[trigger] out@[k] == old(out)@[k],
            forall|k: int|
                old(out)@.len() <= k < out@.len() ==> start <= (#[trigger] out@[k]).0 < next
                    && encode_utf8(out@[k].1@).len() + 2 * line_endings + 16 <= usize::MAX,
            files_view(out@) == files_view(old(out)@) + entries_files(entries@.take(i as int), start as int),
            forall|a: int, b: int| old(out)@.len() <= a < b < out@.len() ==> (#[trigger] out@[a]).0 < (#[trigger] out@[b]).0,
        decreases entries.len() - i,
    {
        proof {
            lemma_entries_count_step(entries@, i as int);
            lemma_entries_count_take(entries@, i + 1);
            lemma_entries_fit(entries@, line_endings as int, i as int);
            assert(decreases_to!(entries => entries@[i as int]));
        }
        let ghost before = out@;
        match &entries[i] {
            BlobEntry::File { content, .. } => {
                out.push((next, content.clone()));
                next = next + 1;
            },
            BlobEntry::Directory { entries: sub, .. } => {
                proof {
                    assert(decreases_to!(entries => sub));
                }
                let after = collect_files(sub, next + 1, line_endings, out);
                next = after;
            },
        }
        proof {
            assert forall|k: int| old(out)@.len() <= k < out@.len() implies start <= (#[trigger] out@[k]).0 < next
                && encode_utf8(out@[k].1@).len() + 2 * line_endings + 16 <= usize::MAX by {
                if k < before.len() {
                    assert(out@[k] == before[k]);
                }
            }
            assert forall|k: int| 0 <= k < old(out)@.len() implies #[trigger] out@[k] == old(out)@[k] by {
                assert(out@[k] == before[k]);
            }
            assert forall|a: int, b: int| old(out)@.len() <= a < b < out@.len() implies (#[trigger] out@[a]).0 < (#[trigger] out@[b]).0 by {
                if b < before.len() {
                    assert(out@[a] == before[a]);
                    assert(out@[b] == before[b]);
                } else if a < before.len() {
                    assert(out@[a] == before[a]);
                }
            }
            assert(entries@.take(i + 1).drop_last() =~= entries@.take(i as int));
            assert(entries@.take(i + 1).last() == entries@[i as int]);
            assert(files_view(out@) =~= files_view(before) + entry_files(entries@[i as int], start + entries_count(entries@.take(i as int))));
        }
        i = i + 1;
    }
    assert(entries@.take(entries@.len() as int) =~= entries@);
    next
}

/// Whether deleting `id` leaves a blob with this id and path in place: it is
/// not the blob itself, nor below it.
pub open spec fn stays(id: BlobId, x: BlobId, path: Seq<BlobId>) -> bool {
    x != id && !path.contains(id)
}

/// Whether the id is on the path.
fn path_contains(path: &Vec<BlobId>, id: BlobId) -> (r: bool)
    ensures
        r == path@.contains(id),
{
    let mut i: usize = 0;
    while i < path.len()
        invariant
            i <= path.len(),
            forall|j: int| 0 <= j < i ==> path@[j] != id,
        decreases path.len() - i,
    {
        if path[i] == id {
            return true;
        }
        i = i + 1;
    }
    false
}

/// Takes out of `items` the files that deleting `id` takes away; hands back
/// the rest in order, and the one with the id itself where there is one.
fn keep_files(items: Vec<File>, id: BlobId) -> (r: (Vec<File>, Option<File>))
    requires
        forall|i: int, j: int| 0 <= i < j < items.len() ==> (#[trigger] items@[i]).id != (#[trigger] items@[j]).id,
    ensures
        forall|i: int, j: int| 0 <= i < j < r.0.len() ==> (#[trigger] r.0@[i]).id != (#[trigger] r.0@[j]).id,
        forall|j: int|
            0 <= j < r.0.len() ==> items@.contains(#[trigger] r.0@[j]) && stays(id, r.0@[j].id, r.0@[j].path@),
        forall|m: int|
            0 <= m < items.len() && stays(id, (#[trigger] items@[m]).id, items@[m].path@) ==> r.0@.contains(
                items@[m],
            ),
        r.1 matches Some(x) ==> x.id == id && items@.contains(x),
        (exists|m: int| 0 <= m < items.len() && (#[trigger] items@[m]).id == id) ==> r.1.is_some(),
{
    let ghost orig = items@;
    assert(orig.len() == items.len());
    let mut rest = items;
    let mut kept: Vec<File> = Vec::new();
    let mut found: Option<File> = None;
    let ghost mut idx: Seq<int> = Seq::empty();
    let mut k: usize = 0;
    while rest.len() > 0
        invariant
            forall|i: int, j: int| 0 <= i < j < orig.len() ==> (#[trigger] orig[i]).id != (#[trigger] orig[j]).id,
            k <= orig.len(),
            orig.len() <= usize::MAX,
            rest@ == orig.skip(k as int),
            idx.len() == kept@.len(),
            forall|j: int|
                0 <= j < idx.len() ==> 0 <= #[trigger] idx[j] < k && kept@[j] == orig[idx[j]] && stays(
                    id,
                    orig[idx[j]].id,
                    orig[idx[j]].path@,
                ),
            forall|a: int, b: int| 0 <= a < b < idx.len() ==> #[trigger] idx[a] < #[trigger] idx[b],
            forall|m: int|
                0 <= m < k && stays(id, (#[trigger] orig[m]).id, orig[m].path@) ==> kept@.contains(orig[m]),
            found matches Some(x) ==> x.id == id && orig.contains(x),
            (exists|m: int| 0 <= m < k && (#[trigger] orig[m]).id == id) ==> found.is_some(),
        decreases rest.len(),
    {
        assert(rest@[0] == orig[k as int]);
        let ghost old_kept = kept@;
        let x = rest.remove(0);
        if x.id != id && !path_contains(&x.path, id) {
            kept.push(x);
            proof {
                idx = idx.push(k as int);
            }
        } else if x.id == id {
            found = Some(x);
        }
        proof {
            assert(rest@ =~= orig.skip(k + 1));
            assert forall|m: int|
                0 <= m < k + 1 && stays(id, (#[trigger] orig[m]).id, orig[m].path@) implies kept@.contains(
                orig[m],
            ) by {
                if m == k {
                    assert(kept@[kept@.len() - 1] == orig[m]);
                } else {
                    assert(old_kept.contains(orig[m]));
                    let j = choose|j: int| 0 <= j < old_kept.len() && old_kept[j] == orig[m];
                    assert(kept@[j] == old_kept[j]);
                }
            }
        }
        k = k + 1;
    }
    proof {
        assert(k == orig.len());
        assert forall|i: int, j: int| 0 <= i < j < kept.len() implies (#[trigger] kept@[i]).id
            != (#[trigger] kept@[j]).id by {
            assert(idx[i] < idx[j]);
        }
        assert forall|j: int| 0 <= j < kept.len() implies orig.contains(#[trigger] kept@[j]) && stays(
            id,
            kept@[j].id,
            kept@[j].path@,
        ) by {
            assert(orig[idx[j]] == kept@[j]);
        }
    }
    (kept, found)
}

/// Takes out of `items` the directories that deleting `id` takes away; hands back
/// the rest in order, and the one with the id itself where there is one.
fn keep_dirs(items: Vec<Directory>, id: BlobId) -> (r: (Vec<Directory>, Option<Directory>))
    requires
        forall|i: int, j: int| 0 <= i < j < items.len() ==> (#[trigger] items@[i]).id != (#[trigger] items@[j]).id,
    ensures
        forall|i: int, j: int| 0 <= i < j < r.0.len() ==> (#[trigger] r.0@[i]).id != (#[trigger] r.0@[j]).id,
        forall|j: int|
            0 <= j < r.0.len() ==> items@.contains(#[trigger] r.0@[j]) && stays(id, r.0@[j].id, r.0@[j].path@),
        forall|m: int|
            0 <= m < items.len() && stays(id, (#[trigger] items@[m]).id, items@[m].path@) ==> r.0@.contains(
                items@[m],
            ),
        r.1 matches Some(x) ==> x.id == id && items@.contains(x),
        (exists|m: int| 0 <= m < items.len() && (#[trigger] items@[m]).id == id) ==> r.1.is_some(),
{
    let ghost orig = items@;
    assert(orig.len() == items.len());
    let mut rest = items;
    let mut kept: Vec<Directory> = Vec::new();
    let mut found: Option<Directory> = None;
    let ghost mut idx: Seq<int> = Seq::empty();
    let mut k: usize = 0;
    while rest.len() > 0
        invariant
            forall|i: int, j: int| 0 <= i < j < orig.len() ==> (#[trigger] orig[i]).id != (#[trigger] orig[j]).id,
            k <= orig.len(),
            orig.len() <= usize::MAX,
            rest@ == orig.skip(k as int),
            idx.len() == kept@.len(),
            forall|j: int|
                0 <= j < idx.len() ==> 0 <= #[trigger] idx[j] < k && kept@[j] == orig[idx[j]] && stays(
                    id,
                    orig[idx[j]].id,
                    orig[idx[j]].path@,
                ),
            forall|a: int, b: int| 0 <= a < b < idx.len() ==> #[trigger] idx[a] < #[trigger] idx[b],
            forall|m: int|
                0 <= m < k && stays(id, (#[trigger] orig[m]).id, orig[m].path@) ==> kept@.contains(orig[m]),
            found matches Some(x) ==> x.id == id && orig.contains(x),
            (exists|m: int| 0 <= m < k && (#[trigger] orig[m]).id == id) ==> found.is_some(),
        decreases rest.len(),
    {
        assert(rest@[0] == orig[k as int]);
        let ghost old_kept = kept@;
        let x = rest.remove(0);
        if x.id != id && !path_contains(&x.path, id) {
            kept.push(x);
            proof {
                idx = idx.push(k as int);
            }
        } else if x.id == id {
            found = Some(x);
        }
        proof {
            assert(rest@ =~= orig.skip(k + 1));
            assert forall|m: int|
                0 <= m < k + 1 && stays(id, (#[trigger] orig[m]).id, orig[m].path@) implies kept@.contains(
                orig[m],
            ) by {
                if m == k {
                    assert(kept@[kept@.len() - 1] == orig[m]);
                } else {
                    assert(old_kept.contains(orig[m]));
                    let j = choose|j: int| 0 <= j < old_kept.len() && old_kept[j] == orig[m];
                    assert(kept@[j] == old_kept[j]);
                }
            }
        }
        k = k + 1;
    }
    proof {
        assert(k == orig.len());
        assert forall|i: int, j: int| 0 <= i < j < kept.len() implies (#[trigger] kept@[i]).id
            != (#[trigger] kept@[j]).id by {
            assert(idx[i] < idx[j]);
        }
        assert forall|j: int| 0 <= j < kept.len() implies orig.contains(#[trigger] kept@[j]) && stays(
            id,
            kept@[j].id,
            kept@[j].path@,
        ) by {
            assert(orig[idx[j]] == kept@[j]);
        }
    }
    (kept, found)
}

} // verus!
