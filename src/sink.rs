//! The migration cache: which source files and output folders exist, and the
//! plan of deletions, folder creations and copies that brings the output tree
//! in line with a new source listing.

use vstd::prelude::*;
use ahash::{AHashMap, AHashSet, RandomState};
use crate::paths::{is_under, parent_folder, parent_of, under};
use vstd::string::*;

verus! {

#[verifier::external_type_specification]
#[verifier::external_body]
#[verifier::reject_recursive_types(K)]
#[verifier::reject_recursive_types(V)]
#[verifier::reject_recursive_types(S)]
pub struct ExAHashMap<K, V, S>(AHashMap<K, V, S>);

#[verifier::external_type_specification]
#[verifier::external_body]
#[verifier::reject_recursive_types(T)]
#[verifier::reject_recursive_types(S)]
pub struct ExAHashSet<T, S>(AHashSet<T, S>);

#[verifier::external_type_specification]
#[verifier::external_body]
pub struct ExRandomState(RandomState);

/// Cache entry of a source file.
#[derive(Clone, Copy, Debug, PartialEq, Eq, Structural)]
pub struct MigrateFileInfo {
    pub modified: u64,
    pub scan: u64,
}

impl MigrateFileInfo {
    pub fn new(modified: u64, scan: u64) -> (r: Self)
        ensures
            r == (MigrateFileInfo { modified, scan }),
    {
        Self { modified, scan }
    }
}

/// Source files seen so far, by relative path.
pub type FileTable = AHashMap<String, MigrateFileInfo>;

/// What the file table holds.
pub uninterp spec fn file_entries(m: FileTable) -> Map<Seq<char>, MigrateFileInfo>;

/// Relies on `AHashMap::new`: an empty map.
#[verifier::external_body]
fn files_new() -> (r: FileTable)
    ensures
        file_entries(r).dom() == Set::<Seq<char>>::empty(),
{
    AHashMap::new()
}

/// Relies on `AHashMap::get`: the entry stored under the key, if any.
#[verifier::external_body]
fn files_get(m: &FileTable, k: &str) -> (r: Option<MigrateFileInfo>)
    ensures
        r == (if file_entries(*m).contains_key(k@) {
            Some(file_entries(*m)[k@])
        } else {
            None
        }),
{
    m.get(k).copied()
}

/// Relies on `AHashMap::insert`: the key now maps to the value.
#[verifier::external_body]
fn files_insert(m: &mut FileTable, k: String, v: MigrateFileInfo)
    ensures
        file_entries(*final(m)) == file_entries(*old(m)).insert(k@, v),
{
    m.insert(k, v);
}

/// Relies on `AHashMap::remove`: the key is gone.
#[verifier::external_body]
fn files_remove(m: &mut FileTable, k: &str)
    ensures
        file_entries(*final(m)) == file_entries(*old(m)).remove(k@),
{
    m.remove(k);
}

/// Relies on `AHashMap::keys`: every key once, in no particular order.
#[verifier::external_body]
fn files_keys(m: &FileTable) -> (r: Vec<String>)
    ensures
        distinct_names(r@),
        forall|p: Seq<char>| has_name(r@, p) <==> file_entries(*m).contains_key(p),
{
    m.keys().cloned().collect()
}

/// Cache entry of an output folder.
#[derive(Clone, Copy, Debug, PartialEq, Eq, Structural)]
pub struct MigrateFolderInfo {
    pub scan: u64,
}

impl MigrateFolderInfo {
    pub fn new(scan: u64) -> (r: Self)
        ensures
            r.scan == scan,
    {
        Self { scan }
    }
}

/// Output folders seen so far, by relative path.
pub type FolderTable = AHashMap<String, MigrateFolderInfo>;

/// What the folder table holds.
pub uninterp spec fn folder_entries(m: FolderTable) -> Map<Seq<char>, MigrateFolderInfo>;

/// Relies on `AHashMap::new`: an empty map.
#[verifier::external_body]
fn folders_new() -> (r: FolderTable)
    ensures
        folder_entries(r).dom() == Set::<Seq<char>>::empty(),
{
    AHashMap::new()
}

/// Relies on `AHashMap::get`: the entry stored under the key, if any.
#[verifier::external_body]
fn folders_get(m: &FolderTable, k: &str) -> (r: Option<MigrateFolderInfo>)
    ensures
        r == (if folder_entries(*m).contains_key(k@) {
            Some(folder_entries(*m)[k@])
        } else {
            None
        }),
{
    m.get(k).copied()
}

/// Relies on `AHashMap::insert`: the key now maps to the value.
#[verifier::external_body]
fn folders_insert(m: &mut FolderTable, k: String, v: MigrateFolderInfo)
    ensures
        folder_entries(*final(m)) == folder_entries(*old(m)).insert(k@, v),
{
    m.insert(k, v);
}

/// Relies on `AHashMap::remove`: the key is gone.
#[verifier::external_body]
fn folders_remove(m: &mut FolderTable, k: &str)
    ensures
        folder_entries(*final(m)) == folder_entries(*old(m)).remove(k@),
{
    m.remove(k);
}

/// Relies on `AHashMap::keys`: every key once, in no particular order.
#[verifier::external_body]
fn folders_keys(m: &FolderTable) -> (r: Vec<String>)
    ensures
        distinct_names(r@),
        forall|p: Seq<char>| has_name(r@, p) <==> folder_entries(*m).contains_key(p),
{
    m.keys().cloned().collect()
}

/// A set of relative paths.
pub type PathSet = AHashSet<String>;

/// What a path set holds.
pub uninterp spec fn path_set(s: PathSet) -> Set<Seq<char>>;

/// Relies on `AHashSet::new`: an empty set.
#[verifier::external_body]
fn set_new() -> (r: PathSet)
    ensures
        path_set(r) == Set::<Seq<char>>::empty(),
{
    AHashSet::new()
}

/// Relies on `HashSet::clear` (through `AHashSet`'s `DerefMut`): the set is empty.
#[verifier::external_body]
fn set_clear(s: &mut PathSet)
    ensures
        path_set(*final(s)) == Set::<Seq<char>>::empty(),
{
    s.clear();
}

/// Relies on `HashSet::insert`: the value is in the set; `true` when it was not before.
#[verifier::external_body]
fn set_insert(s: &mut PathSet, v: String) -> (r: bool)
    ensures
        path_set(*final(s)) == path_set(*old(s)).insert(v@),
        r == !path_set(*old(s)).contains(v@),
{
    s.insert(v)
}

/// Some element of `v` has view `p`.
pub open spec fn has_name(v: Seq<String>, p: Seq<char>) -> bool {
    exists|j: int| 0 <= j < v.len() && #[trigger] v[j]@ == p
}

/// No two elements of `v` have the same view.
pub open spec fn distinct_names(v: Seq<String>) -> bool {
    forall|i: int, j: int| 0 <= i < v.len() && 0 <= j < v.len() && i != j ==> v[i]@ != v[j]@
}

/// Unused cache slot for rendered output.
#[derive(Default)]
pub struct RenderCache {
    pub hash: u64,
}

/// Paths copied and folders created by the latest pass.
pub struct Updates {
    pub files: PathSet,
    pub folders: PathSet,
}

impl Updates {
    pub fn new() -> (r: Self)
        ensures
            path_set(r.files) == Set::<Seq<char>>::empty(),
            path_set(r.folders) == Set::<Seq<char>>::empty(),
    {
        Updates { files: set_new(), folders: set_new() }
    }

    pub fn clear(&mut self)
        ensures
            path_set(final(self).files) == Set::<Seq<char>>::empty(),
            path_set(final(self).folders) == Set::<Seq<char>>::empty(),
    {
        set_clear(&mut self.files);
        set_clear(&mut self.folders);
    }
}

/// One entry of a source listing: a relative path and its modification stamp.
pub struct SourceFile {
    pub path: String,
    pub modified: u64,
}

/// `p` occurs among the first `n` entries of the listing.
pub open spec fn listed(l: Seq<SourceFile>, n: int, p: Seq<char>) -> bool {
    exists|j: int| 0 <= j < n && j < l.len() && #[trigger] l[j].path@ == p
}

/// Stamp of the last occurrence of `p` among the first `n` entries.
pub open spec fn last_stamp(l: Seq<SourceFile>, n: int, p: Seq<char>) -> u64
    decreases n,
{
    if n <= 0 || n > l.len() {
        0
    } else if l[n - 1].path@ == p {
        l[n - 1].modified
    } else {
        last_stamp(l, n - 1, p)
    }
}

/// Some occurrence of `p` among the first `n` entries carries a stamp other than `stamp`.
pub open spec fn restamped(l: Seq<SourceFile>, n: int, p: Seq<char>, stamp: u64) -> bool {
    exists|j: int| 0 <= j < n && j < l.len() && #[trigger] l[j].path@ == p && l[j].modified != stamp
}

/// `f` is the (non-empty) folder of one of the first `n` entries.
pub open spec fn folder_listed(l: Seq<SourceFile>, n: int, f: Seq<char>) -> bool {
    f.len() > 0 && exists|j: int| 0 <= j < n && j < l.len() && #[trigger] parent_of(l[j].path@) == f
}

/// Some listed path lies inside folder `f`, at any depth.
pub open spec fn holds_listed(l: Seq<SourceFile>, f: Seq<char>) -> bool {
    exists|j: int| 0 <= j < l.len() && #[trigger] under(f, l[j].path@)
}

/// A cached folder that the listing no longer needs: no listed path lies in
/// it, directly or below.
pub open spec fn stale_folder(
    folders: Map<Seq<char>, MigrateFolderInfo>,
    l: Seq<SourceFile>,
    f: Seq<char>,
) -> bool {
    folders.contains_key(f) && !folder_listed(l, l.len() as int, f) && !holds_listed(l, f)
}

/// A folder the cache keeps after a pass: the folder of a listed path, or a
/// cached folder that still holds a listed path.
pub open spec fn live_folder(
    folders: Map<Seq<char>, MigrateFolderInfo>,
    l: Seq<SourceFile>,
    f: Seq<char>,
) -> bool {
    folder_listed(l, l.len() as int, f) || (folders.contains_key(f) && holds_listed(l, f))
}

/// A listed file must be copied: it is new, or its stamp changed.
pub open spec fn needs_copy(files: Map<Seq<char>, MigrateFileInfo>, l: Seq<SourceFile>, p: Seq<
    char,
>) -> bool {
    listed(l, l.len() as int, p) && (!files.contains_key(p) || restamped(
        l,
        l.len() as int,
        p,
        files[p].modified,
    ))
}

/// A folder of the listing must be created: it is not cached yet.
pub open spec fn needs_create(
    folders: Map<Seq<char>, MigrateFolderInfo>,
    l: Seq<SourceFile>,
    f: Seq<char>,
) -> bool {
    folder_listed(l, l.len() as int, f) && !folders.contains_key(f)
}

/// The operations one pass applies to the output tree, in this order:
/// delete files, delete folder subtrees, create folders, copy files.
pub struct MigratePlan {
    pub remove_files: Vec<String>,
    pub remove_folders: Vec<String>,
    pub create_folders: Vec<String>,
    pub copy_files: Vec<String>,
}

/// One pass of the cache from `s0` to `s1` over listing `l`, with `plan` as its result.
pub open spec fn applies(s0: Sink, l: Seq<SourceFile>, s1: Sink, plan: MigratePlan) -> bool {
    let n = l.len() as int;
    &&& s1.wf()
    &&& s1.scan() == s0.scan() + 1
    &&& s1.ready() == s0.ready()
    &&& forall|p: Seq<char>| #[trigger] s1.files().contains_key(p) <==> listed(l, n, p)
    &&& forall|p: Seq<char>| #[trigger]
        listed(l, n, p) ==> s1.files()[p] == (MigrateFileInfo {
            modified: last_stamp(l, n, p),
            scan: s1.scan(),
        })
    &&& forall|f: Seq<char>| #[trigger]
        s1.folders().contains_key(f) <==> live_folder(s0.folders(), l, f)
    &&& forall|f: Seq<char>| #[trigger]
        s1.folders().contains_key(f) ==> s1.folders()[f].scan == s1.scan()
    &&& distinct_names(plan.remove_files@)
    &&& forall|p: Seq<char>| #[trigger]
        has_name(plan.remove_files@, p) <==> (s0.files().contains_key(p) && !listed(l, n, p))
    &&& distinct_names(plan.remove_folders@)
    &&& forall|f: Seq<char>| #[trigger]
        has_name(plan.remove_folders@, f) <==> stale_folder(s0.folders(), l, f)
    &&& distinct_names(plan.create_folders@)
    &&& forall|f: Seq<char>| #[trigger]
        has_name(plan.create_folders@, f) <==> needs_create(s0.folders(), l, f)
    &&& distinct_names(plan.copy_files@)
    &&& forall|p: Seq<char>| #[trigger]
        has_name(plan.copy_files@, p) <==> needs_copy(s0.files(), l, p)
    &&& forall|p: Seq<char>| #[trigger]
        path_set(s1.updates().files).contains(p) <==> has_name(plan.copy_files@, p)
    &&& forall|f: Seq<char>| #[trigger]
        path_set(s1.updates().folders).contains(f) <==> has_name(plan.create_folders@, f)
}

/// The files of an output tree after a plan is applied to it.
pub open spec fn tree_after(
    tree: Set<Seq<char>>,
    remove_files: Seq<String>,
    remove_folders: Seq<String>,
    copy_files: Seq<String>,
) -> Set<Seq<char>> {
    Set::new(
        |p: Seq<char>|
            (tree.contains(p) && !has_name(remove_files, p) && !(exists|j: int|
                0 <= j < remove_folders.len() && #[trigger] under(remove_folders[j]@, p)))
                || has_name(copy_files, p),
    )
}

pub struct Inner {
    pub ready: bool,
    pub migrate_files: FileTable,
    pub migrate_folders: FolderTable,
    pub scan: u64,
    pub updates: Updates,
}

/// The migration cache, owned by the build that uses it.
pub struct Sink {
    inner: Inner,
}

impl Default for Sink {
    fn default() -> (r: Sink)
        ensures
            r.wf(),
            !r.ready(),
            r.scan() == 0,
            r.files().dom() == Set::<Seq<char>>::empty(),
            r.folders().dom() == Set::<Seq<char>>::empty(),
    {
        Sink::new()
    }
}

/// Pushing a string adds its view to the names, and keeps them distinct if it was new.
pub proof fn lemma_push_name(v: Seq<String>, x: String)
    ensures
        forall|p: Seq<char>| #[trigger] has_name(v.push(x), p) <==> (has_name(v, p) || x@ == p),
        distinct_names(v) && !has_name(v, x@) ==> distinct_names(v.push(x)),
{
    assert forall|p: Seq<char>| #[trigger] has_name(v.push(x), p) <==> (has_name(v, p) || x@ == p) by {
        if has_name(v.push(x), p) {
            let j = choose|j: int| 0 <= j < v.push(x).len() && #[trigger] v.push(x)[j]@ == p;
            if j < v.len() {
                assert(v[j]@ == p);
            }
        }
        if has_name(v, p) {
            let j = choose|j: int| 0 <= j < v.len() && #[trigger] v[j]@ == p;
            assert(v.push(x)[j]@ == p);
        }
        if x@ == p {
            assert(v.push(x)[v.len() as int]@ == p);
        }
    }
    if distinct_names(v) && !has_name(v, x@) {
        assert forall|i: int, j: int|
            0 <= i < v.push(x).len() && 0 <= j < v.push(x).len() && i != j implies v.push(x)[i]@
            != v.push(x)[j]@ by {
            if i < v.len() && j == v.len() {
                assert(v[i]@ == v.push(x)[i]@);
            }
            if j < v.len() && i == v.len() {
                assert(v[j]@ == v.push(x)[j]@);
            }
        }
    }
}

proof fn lemma_listing_step(l: Seq<SourceFile>, i: int)
    requires
        0 <= i < l.len(),
    ensures
        forall|p: Seq<char>| #[trigger]
            listed(l, i + 1, p) <==> (listed(l, i, p) || l[i].path@ == p),
        forall|p: Seq<char>, o: u64| #[trigger]
            restamped(l, i + 1, p, o) <==> (restamped(l, i, p, o) || (l[i].path@ == p
                && l[i].modified != o)),
        forall|p: Seq<char>| #[trigger]
            last_stamp(l, i + 1, p) == (if l[i].path@ == p {
                l[i].modified
            } else {
                last_stamp(l, i, p)
            }),
        forall|f: Seq<char>| #[trigger]
            folder_listed(l, i + 1, f) <==> (folder_listed(l, i, f) || (f.len() > 0 && parent_of(
                l[i].path@,
            ) == f)),
{
    assert forall|p: Seq<char>| #[trigger]
        listed(l, i + 1, p) <==> (listed(l, i, p) || l[i].path@ == p) by {
        if listed(l, i + 1, p) {
            let j = choose|j: int| 0 <= j < i + 1 && j < l.len() && #[trigger] l[j].path@ == p;
            if j < i {
                assert(listed(l, i, p));
            }
        }
        if listed(l, i, p) {
            let j = choose|j: int| 0 <= j < i && j < l.len() && #[trigger] l[j].path@ == p;
            assert(listed(l, i + 1, p));
        }
    }
    assert forall|p: Seq<char>, o: u64| #[trigger]
        restamped(l, i + 1, p, o) <==> (restamped(l, i, p, o) || (l[i].path@ == p
            && l[i].modified != o)) by {
        if restamped(l, i + 1, p, o) {
            let j = choose|j: int|
                0 <= j < i + 1 && j < l.len() && #[trigger] l[j].path@ == p && l[j].modified != o;
            if j < i {
                assert(restamped(l, i, p, o));
            }
        }
        if restamped(l, i, p, o) {
            let j = choose|j: int|
                0 <= j < i && j < l.len() && #[trigger] l[j].path@ == p && l[j].modified != o;
            assert(restamped(l, i + 1, p, o));
        }
    }
    assert forall|f: Seq<char>| #[trigger]
        folder_listed(l, i + 1, f) <==> (folder_listed(l, i, f) || (f.len() > 0 && parent_of(
            l[i].path@,
        ) == f)) by {
        if folder_listed(l, i + 1, f) {
            let j = choose|j: int|
                0 <= j < i + 1 && j < l.len() && #[trigger] parent_of(l[j].path@) == f;
            if j < i {
                assert(folder_listed(l, i, f));
            }
        }
        if folder_listed(l, i, f) {
            let j = choose|j: int| 0 <= j < i && j < l.len() && #[trigger] parent_of(l[j].path@) == f;
            assert(folder_listed(l, i + 1, f));
        }
    }
}

/// Where every occurrence so far agrees with `o`, the last one does too.
proof fn lemma_last_stamp_agrees(l: Seq<SourceFile>, n: int, p: Seq<char>, o: u64)
    requires
        0 <= n <= l.len(),
        listed(l, n, p),
        !restamped(l, n, p, o),
    ensures
        last_stamp(l, n, p) == o,
    decreases n,
{
    lemma_listing_step(l, n - 1);
    if l[n - 1].path@ != p {
        lemma_last_stamp_agrees(l, n - 1, p, o);
    }
}

/// Whether some path of `list` lies inside `folder`.
fn lists_under(list: &Vec<SourceFile>, folder: &str) -> (r: bool)
    ensures
        r == holds_listed(list@, folder@),
{
    let mut j: usize = 0;
    while j < list.len()
        invariant
            j <= list@.len(),
            forall|k: int| 0 <= k < j ==> !#[trigger] under(folder@, list@[k].path@),
        decreases list@.len() - j,
    {
        if is_under(folder, list[j].path.as_str()) {
            return true;
        }
        j = j + 1;
    }
    false
}

impl Sink {
    /// What the cache knows of source files.
    pub closed spec fn files(&self) -> Map<Seq<char>, MigrateFileInfo> {
        file_entries(self.inner.migrate_files)
    }

    /// What the cache knows of output folders.
    pub closed spec fn folders(&self) -> Map<Seq<char>, MigrateFolderInfo> {
        folder_entries(self.inner.migrate_folders)
    }

    /// The number of the latest scan.
    pub closed spec fn scan(&self) -> u64 {
        self.inner.scan
    }

    /// Whether the output tree was prepared.
    pub closed spec fn ready(&self) -> bool {
        self.inner.ready
    }

    /// What the latest pass copied and created.
    pub closed spec fn updates(&self) -> Updates {
        self.inner.updates
    }

    /// No entry was seen in a scan later than the current one.
    pub open spec fn wf(&self) -> bool {
        &&& forall|p: Seq<char>| #[trigger]
            self.files().contains_key(p) ==> self.files()[p].scan <= self.scan()
        &&& forall|f: Seq<char>| #[trigger]
            self.folders().contains_key(f) ==> self.folders()[f].scan <= self.scan()
    }

    pub fn new() -> (r: Sink)
        ensures
            r.wf(),
            !r.ready(),
            r.scan() == 0,
            r.files().dom() == Set::<Seq<char>>::empty(),
            r.folders().dom() == Set::<Seq<char>>::empty(),
    {
        Sink {
            inner: Inner {
                ready: false,
                migrate_files: files_new(),
                migrate_folders: folders_new(),
                scan: 0,
                updates: Updates::new(),
            },
        }
    }

    pub fn inner(&self) -> (r: &Inner)
        ensures
            r.scan == self.scan(),
            r.ready == self.ready(),
            file_entries(r.migrate_files) == self.files(),
            folder_entries(r.migrate_folders) == self.folders(),
    {
        &self.inner
    }

    /// Start a build pass: forget the updates of the previous one.
    pub fn begin(&mut self)
        ensures
            path_set(final(self).updates().files) == Set::<Seq<char>>::empty(),
            path_set(final(self).updates().folders) == Set::<Seq<char>>::empty(),
            final(self).files() == old(self).files(),
            final(self).folders() == old(self).folders(),
            final(self).scan() == old(self).scan(),
            final(self).ready() == old(self).ready(),
    {
        self.inner.updates.clear();
    }

    /// End a build pass.
    pub fn finish(&self) {
    }

    /// `true` exactly once: on the first call, which marks the cache ready.
    pub fn init_state(&mut self) -> (r: bool)
        ensures
            r == !old(self).ready(),
            final(self).ready(),
            final(self).files() == old(self).files(),
            final(self).folders() == old(self).folders(),
            final(self).scan() == old(self).scan(),
    {
        if !self.inner.ready {
            self.inner.ready = true;
            true
        } else {
            false
        }
    }

    /// Drop the entry of a file whose copy failed, so that the next pass copies it again.
    pub fn forget(&mut self, path: &str)
        requires
            old(self).wf(),
        ensures
            final(self).wf(),
            final(self).files() == old(self).files().remove(path@),
            final(self).folders() == old(self).folders(),
            final(self).scan() == old(self).scan(),
            final(self).ready() == old(self).ready(),
    {
        files_remove(&mut self.inner.migrate_files, path);
        assert forall|p: Seq<char>| #[trigger]
            self.files().contains_key(p) implies self.files()[p].scan <= self.inner.scan by {
            assert(old(self).files().contains_key(p));
        }
        assert forall|f: Seq<char>| #[trigger]
            self.folders().contains_key(f) implies self.folders()[f].scan <= self.inner.scan by {
            assert(old(self).folders().contains_key(f));
        }
    }

    /// Record the listing in the tables; returns the files to copy and the folders
    /// to create that it finds directly.
    fn record_listing(&mut self, list: &Vec<SourceFile>) -> (r: (Vec<String>, Vec<String>))
        requires
            forall|p: Seq<char>| #[trigger]
                old(self).files().contains_key(p) ==> old(self).files()[p].scan
                    < old(self).scan(),
            forall|f: Seq<char>| #[trigger]
                old(self).folders().contains_key(f) ==> old(self).folders()[f].scan
                    < old(self).scan(),
            path_set(old(self).updates().files) == Set::<Seq<char>>::empty(),
            path_set(old(self).updates().folders) == Set::<Seq<char>>::empty(),
        ensures
            final(self).scan() == old(self).scan(),
            final(self).ready() == old(self).ready(),
            forall|p: Seq<char>| #[trigger]
                final(self).files().contains_key(p) <==> (old(self).files().contains_key(p)
                    || listed(list@, list@.len() as int, p)),
            forall|p: Seq<char>| #[trigger]
                listed(list@, list@.len() as int, p) ==> final(self).files()[p] == (
                MigrateFileInfo {
                    modified: last_stamp(list@, list@.len() as int, p),
                    scan: old(self).scan(),
                }),
            forall|p: Seq<char>|
                old(self).files().contains_key(p) && !listed(list@, list@.len() as int, p)
                    ==> #[trigger] final(self).files()[p] == old(self).files()[p],
            forall|f: Seq<char>| #[trigger]
                final(self).folders().contains_key(f) <==> (old(self).folders().contains_key(f)
                    || folder_listed(list@, list@.len() as int, f)),
            forall|f: Seq<char>| #[trigger]
                folder_listed(list@, list@.len() as int, f) ==> final(self).folders()[f].scan
                    == old(self).scan(),
            forall|f: Seq<char>|
                old(self).folders().contains_key(f) && !folder_listed(
                    list@,
                    list@.len() as int,
                    f,
                ) ==> #[trigger] final(self).folders()[f] == old(self).folders()[f],
            distinct_names(r.0@),
            forall|p: Seq<char>| #[trigger]
                has_name(r.0@, p) <==> (listed(list@, list@.len() as int, p) && (
                !old(self).files().contains_key(p) || restamped(
                    list@,
                    list@.len() as int,
                    p,
                    old(self).files()[p].modified,
                ))),
            forall|p: Seq<char>| #[trigger]
                path_set(final(self).updates().files).contains(p) <==> has_name(r.0@, p),
            distinct_names(r.1@),
            forall|f: Seq<char>| #[trigger]
                has_name(r.1@, f) <==> (folder_listed(list@, list@.len() as int, f)
                    && !old(self).folders().contains_key(f)),
            forall|f: Seq<char>| #[trigger]
                path_set(final(self).updates().folders).contains(f) <==> has_name(r.1@, f),
    {
        let ghost f0 = self.files();
        let ghost d0 = self.folders();
        let ghost l = list@;
        let scan = self.inner.scan;
        let mut copy_files: Vec<String> = Vec::new();
        let mut create_folders: Vec<String> = Vec::new();
        let mut i: usize = 0;
        while i < list.len()
            invariant
                0 <= i <= list@.len(),
                l == list@,
                self.inner.scan == scan,
                self.inner.ready == old(self).ready(),
                f0 == old(self).files(),
                d0 == old(self).folders(),
                forall|p: Seq<char>| #[trigger]
                    f0.contains_key(p) ==> f0[p].scan < scan,
                forall|p: Seq<char>| #[trigger]
                    self.files().contains_key(p) <==> (f0.contains_key(p) || listed(l, i as int, p)),
                forall|p: Seq<char>| #[trigger]
                    listed(l, i as int, p) ==> self.files()[p] == (MigrateFileInfo {
                        modified: last_stamp(l, i as int, p),
                        scan,
                    }),
                forall|p: Seq<char>|
                    f0.contains_key(p) && !listed(l, i as int, p) ==> #[trigger] self.files()[p]
                        == f0[p],
                forall|f: Seq<char>| #[trigger]
                    self.folders().contains_key(f) <==> (d0.contains_key(f) || folder_listed(
                        l,
                        i as int,
                        f,
                    )),
                forall|f: Seq<char>| #[trigger]
                    folder_listed(l, i as int, f) ==> self.folders()[f].scan == scan,
                forall|f: Seq<char>|
                    d0.contains_key(f) && !folder_listed(l, i as int, f) ==> #[trigger] self.folders()[f]
                        == d0[f],
                distinct_names(copy_files@),
                forall|p: Seq<char>| #[trigger]
                    has_name(copy_files@, p) <==> (listed(l, i as int, p) && (!f0.contains_key(p)
                        || restamped(l, i as int, p, f0[p].modified))),
                forall|p: Seq<char>| #[trigger]
                    path_set(self.inner.updates.files).contains(p) <==> has_name(copy_files@, p),
                distinct_names(create_folders@),
                forall|f: Seq<char>| #[trigger]
                    has_name(create_folders@, f) <==> (folder_listed(l, i as int, f)
                        && !d0.contains_key(f)),
                forall|f: Seq<char>| #[trigger]
                    path_set(self.inner.updates.folders).contains(f) <==> has_name(
                        create_folders@,
                        f,
                    ),
            decreases list@.len() - i,
        {
            let item = &list[i];
            let ghost item_path = item.path@;
            let ghost fprev = self.files();
            let ghost dprev = self.folders();
            proof {
                lemma_listing_step(l, i as int);
            }
            match files_get(&self.inner.migrate_files, item.path.as_str()) {
                Some(entry) => {
                    if entry.modified != item.modified {
                        proof {
                            if listed(l, i as int, item_path) && f0.contains_key(item_path)
                                && !restamped(l, i as int, item_path, f0[item_path].modified) {
                                lemma_last_stamp_agrees(
                                    l,
                                    i as int,
                                    item_path,
                                    f0[item_path].modified,
                                );
                            }
                        }
                        files_insert(
                            &mut self.inner.migrate_files,
                            item.path.clone(),
                            MigrateFileInfo::new(item.modified, scan),
                        );
                        let ghost before = copy_files@;
                        if set_insert(&mut self.inner.updates.files, item.path.clone()) {
                            copy_files.push(item.path.clone());
                            proof {
                                lemma_push_name(before, item.path);
                            }
                        }
                    } else {
                        proof {
                            if listed(l, i as int, item_path) && f0.contains_key(item_path)
                                && !restamped(l, i as int, item_path, f0[item_path].modified) {
                                lemma_last_stamp_agrees(
                                    l,
                                    i as int,
                                    item_path,
                                    f0[item_path].modified,
                                );
                            }
                        }
                        files_insert(
                            &mut self.inner.migrate_files,
                            item.path.clone(),
                            MigrateFileInfo::new(entry.modified, scan),
                        );
                    }
                },
                None => {
                    files_insert(
                        &mut self.inner.migrate_files,
                        item.path.clone(),
                        MigrateFileInfo::new(item.modified, scan),
                    );
                    let ghost before = copy_files@;
                    if set_insert(&mut self.inner.updates.files, item.path.clone()) {
                        copy_files.push(item.path.clone());
                        proof {
                            lemma_push_name(before, item.path);
                        }
                    }
                },
            }
            let folder = parent_folder(item.path.as_str());
            if folder.as_str().unicode_len() > 0 {
                match folders_get(&self.inner.migrate_folders, folder.as_str()) {
                    Some(_) => {
                        folders_insert(
                            &mut self.inner.migrate_folders,
                            folder,
                            MigrateFolderInfo::new(scan),
                        );
                    },
                    None => {
                        folders_insert(
                            &mut self.inner.migrate_folders,
                            folder.clone(),
                            MigrateFolderInfo::new(scan),
                        );
                        let ghost before = create_folders@;
                        if set_insert(&mut self.inner.updates.folders, folder.clone()) {
                            proof {
                                lemma_push_name(before, folder);
                            }
                            create_folders.push(folder);
                        }
                    },
                }
            }
            proof {
                assert forall|p: Seq<char>| #[trigger]
                    self.files().contains_key(p) <==> (f0.contains_key(p) || listed(l, i + 1, p)) by {
                    assert(self.files().contains_key(p) <==> (fprev.contains_key(p)
                        || p == item_path));
                    assert(fprev.contains_key(p) <==> (f0.contains_key(p) || listed(
                        l,
                        i as int,
                        p,
                    )));
                }
                assert forall|f: Seq<char>| #[trigger]
                    self.folders().contains_key(f) <==> (d0.contains_key(f) || folder_listed(l, i + 1, f)) by {
                    assert(dprev.contains_key(f) <==> (d0.contains_key(f) || folder_listed(
                        l,
                        i as int,
                        f,
                    )));
                    if parent_of(item_path).len() > 0 {
                        assert(self.folders().contains_key(f) <==> (dprev.contains_key(f) || f
                            == parent_of(item_path)));
                    } else {
                        assert(self.folders() == dprev);
                    }
                }
                assert forall|f: Seq<char>|
                    d0.contains_key(f) && !folder_listed(l, i + 1, f) implies #[trigger] self.folders()[f] == d0[f] by {
                    assert(!folder_listed(l, i as int, f));
                    assert(dprev[f] == d0[f]);
                }
            }
            i = i + 1;
        }
        (copy_files, create_folders)
    }

    /// Drop the file entries not seen in scan `scan`; returns their paths.
    fn evict_files(&mut self, scan: u64) -> (r: Vec<String>)
        ensures
            final(self).scan() == old(self).scan(),
            final(self).ready() == old(self).ready(),
            final(self).folders() == old(self).folders(),
            final(self).updates() == old(self).updates(),
            forall|p: Seq<char>| #[trigger]
                final(self).files().contains_key(p) <==> (old(self).files().contains_key(p)
                    && old(self).files()[p].scan == scan),
            forall|p: Seq<char>| #[trigger]
                final(self).files().contains_key(p) ==> final(self).files()[p] == old(
                    self,
                ).files()[p],
            distinct_names(r@),
            forall|p: Seq<char>| #[trigger]
                has_name(r@, p) <==> (old(self).files().contains_key(p) && old(self).files()[p].scan
                    != scan),
    {
        let ghost f0 = self.files();
        let keys = files_keys(&self.inner.migrate_files);
        let mut removed: Vec<String> = Vec::new();
        let mut k: usize = 0;
        while k < keys.len()
            invariant
                0 <= k <= keys@.len(),
                distinct_names(keys@),
                forall|p: Seq<char>| has_name(keys@, p) <==> f0.contains_key(p),
                self.inner.scan == old(self).scan(),
                self.inner.ready == old(self).ready(),
                self.folders() == old(self).folders(),
                self.inner.updates == old(self).updates(),
                f0 == old(self).files(),
                forall|p: Seq<char>| #[trigger]
                    self.files().contains_key(p) <==> (f0.contains_key(p) && !(has_name(
                        keys@.subrange(0, k as int),
                        p,
                    ) && f0[p].scan != scan)),
                forall|p: Seq<char>| #[trigger]
                    self.files().contains_key(p) ==> self.files()[p] == f0[p],
                distinct_names(removed@),
                forall|p: Seq<char>| #[trigger]
                    has_name(removed@, p) <==> (has_name(keys@.subrange(0, k as int), p)
                        && f0.contains_key(p) && f0[p].scan != scan),
            decreases keys@.len() - k,
        {
            let key = &keys[k];
            let ghost prefix = keys@.subrange(0, k as int);
            let ghost next = keys@.subrange(0, k as int + 1);
            assert(next =~= prefix.push(keys@[k as int]));
            proof {
                lemma_push_name(prefix, keys@[k as int]);
                assert(has_name(keys@, key@)) by {
                    assert(keys@[k as int]@ == key@);
                }
                if has_name(prefix, key@) {
                    let j = choose|j: int| 0 <= j < prefix.len() && #[trigger] prefix[j]@ == key@;
                    assert(keys@[j]@ == keys@[k as int]@);
                }
            }
            let ghost fprev = self.files();
            match files_get(&self.inner.migrate_files, key.as_str()) {
                Some(entry) => {
                    if entry.scan != scan {
                        files_remove(&mut self.inner.migrate_files, key.as_str());
                        let ghost before = removed@;
                        removed.push(key.clone());
                        proof {
                            lemma_push_name(before, *key);
                        }
                    }
                },
                None => {},
            }
            proof {
                assert forall|p: Seq<char>| #[trigger]
                    self.files().contains_key(p) <==> (f0.contains_key(p) && !(has_name(next, p)
                        && f0[p].scan != scan)) by {
                    if p != key@ {
                        assert(self.files().contains_key(p) == fprev.contains_key(p));
                    }
                }
            }
            k = k + 1;
        }
        assert(keys@.subrange(0, keys@.len() as int) =~= keys@);
        removed
    }

    /// Drop the folder entries not seen in scan `scan` that hold no path of
    /// `list`, and mark the others seen; returns the dropped folders.
    fn evict_folders(&mut self, scan: u64, list: &Vec<SourceFile>) -> (r: Vec<String>)
        ensures
            final(self).scan() == old(self).scan(),
            final(self).ready() == old(self).ready(),
            final(self).files() == old(self).files(),
            final(self).updates() == old(self).updates(),
            forall|f: Seq<char>| #[trigger]
                final(self).folders().contains_key(f) <==> (old(self).folders().contains_key(f)
                    && (old(self).folders()[f].scan == scan || holds_listed(list@, f))),
            forall|f: Seq<char>| #[trigger]
                final(self).folders().contains_key(f) ==> final(self).folders()[f].scan == scan,
            distinct_names(r@),
            forall|f: Seq<char>| #[trigger]
                has_name(r@, f) <==> (old(self).folders().contains_key(f) && old(
                    self,
                ).folders()[f].scan != scan && !holds_listed(list@, f)),
    {
        let ghost d0 = self.folders();
        let keys = folders_keys(&self.inner.migrate_folders);
        let mut removed: Vec<String> = Vec::new();
        let mut k: usize = 0;
        while k < keys.len()
            invariant
                0 <= k <= keys@.len(),
                distinct_names(keys@),
                forall|f: Seq<char>| has_name(keys@, f) <==> d0.contains_key(f),
                self.inner.scan == old(self).scan(),
                self.inner.ready == old(self).ready(),
                self.files() == old(self).files(),
                self.inner.updates == old(self).updates(),
                d0 == old(self).folders(),
                forall|f: Seq<char>| #[trigger]
                    self.folders().contains_key(f) <==> (d0.contains_key(f) && !(has_name(
                        keys@.subrange(0, k as int),
                        f,
                    ) && d0[f].scan != scan && !holds_listed(list@, f))),
                forall|f: Seq<char>| #[trigger]
                    self.folders().contains_key(f) ==> self.folders()[f] == (if has_name(
                        keys@.subrange(0, k as int),
                        f,
                    ) && d0[f].scan != scan {
                        MigrateFolderInfo { scan }
                    } else {
                        d0[f]
                    }),
                distinct_names(removed@),
                forall|f: Seq<char>| #[trigger]
                    has_name(removed@, f) <==> (has_name(keys@.subrange(0, k as int), f)
                        && d0.contains_key(f) && d0[f].scan != scan && !holds_listed(list@, f)),
            decreases keys@.len() - k,
        {
            let key = &keys[k];
            let ghost prefix = keys@.subrange(0, k as int);
            let ghost next = keys@.subrange(0, k as int + 1);
            assert(next =~= prefix.push(keys@[k as int]));
            proof {
                lemma_push_name(prefix, keys@[k as int]);
                assert(has_name(keys@, key@)) by {
                    assert(keys@[k as int]@ == key@);
                }
                if has_name(prefix, key@) {
                    let j = choose|j: int| 0 <= j < prefix.len() && #[trigger] prefix[j]@ == key@;
                    assert(keys@[j]@ == keys@[k as int]@);
                }
            }
            let ghost dprev = self.folders();
            match folders_get(&self.inner.migrate_folders, key.as_str()) {
                Some(entry) => {
                    if entry.scan != scan {
                        if lists_under(list, key.as_str()) {
                            folders_insert(
                                &mut self.inner.migrate_folders,
                                key.clone(),
                                MigrateFolderInfo::new(scan),
                            );
                        } else {
                            folders_remove(&mut self.inner.migrate_folders, key.as_str());
                            let ghost before = removed@;
                            removed.push(key.clone());
                            proof {
                                lemma_push_name(before, *key);
                            }
                        }
                    }
                },
                None => {},
            }
            proof {
                assert forall|f: Seq<char>| #[trigger]
                    self.folders().contains_key(f) <==> (d0.contains_key(f) && !(has_name(next, f)
                        && d0[f].scan != scan && !holds_listed(list@, f))) by {
                    if f != key@ {
                        assert(self.folders().contains_key(f) == dprev.contains_key(f));
                    }
                }
                assert forall|f: Seq<char>| #[trigger]
                    self.folders().contains_key(f) implies self.folders()[f] == (if has_name(next, f)
                        && d0[f].scan != scan {
                        MigrateFolderInfo { scan }
                    } else {
                        d0[f]
                    }) by {
                    if f != key@ {
                        assert(dprev.contains_key(f));
                    }
                }
            }
            k = k + 1;
        }
        assert(keys@.subrange(0, keys@.len() as int) =~= keys@);
        removed
    }

    /// Bring the cache in line with `list` and return the plan that brings the
    /// output tree in line with it too.
    pub fn migrate(&mut self, list: &Vec<SourceFile>) -> (r: MigratePlan)
        requires
            old(self).wf(),
            old(self).scan() < u64::MAX,
        ensures
            applies(*old(self), list@, *final(self), r),
    {
        let ghost f0 = self.files();
        let ghost d0 = self.folders();
        let ghost l = list@;
        let ghost n = list@.len() as int;
        self.inner.updates.clear();
        self.inner.scan = self.inner.scan + 1;
        let scan = self.inner.scan;
        let (copy_files, create_folders) = self.record_listing(list);
        let ghost f1 = self.files();
        let ghost d1 = self.folders();
        let remove_files = self.evict_files(scan);
        let remove_folders = self.evict_folders(scan, list);
        proof {
            assert forall|p: Seq<char>| #[trigger] self.files().contains_key(p) <==> listed(l, n, p) by {
                if f1.contains_key(p) && !listed(l, n, p) {
                    assert(f1[p] == f0[p]);
                }
            }
            assert forall|f: Seq<char>| #[trigger]
                has_name(remove_folders@, f) <==> stale_folder(d0, l, f) by {
                if d0.contains_key(f) && !folder_listed(l, n, f) {
                    assert(d1[f] == d0[f]);
                }
            }
            assert forall|f: Seq<char>| #[trigger]
                self.folders().contains_key(f) <==> live_folder(d0, l, f) by {
                if d1.contains_key(f) && !folder_listed(l, n, f) {
                    assert(d1[f] == d0[f]);
                }
            }
            assert forall|p: Seq<char>| #[trigger]
                listed(l, n, p) implies self.files()[p] == (MigrateFileInfo {
                    modified: last_stamp(l, n, p),
                    scan,
                }) by {
                assert(f1.contains_key(p));
                assert(f1[p] == (MigrateFileInfo { modified: last_stamp(l, n, p), scan }));
                assert(self.files().contains_key(p));
            }
            assert(self.wf());
            assert forall|p: Seq<char>| #[trigger]
                has_name(remove_files@, p) <==> (f0.contains_key(p) && !listed(l, n, p)) by {
                if f0.contains_key(p) && !listed(l, n, p) {
                    assert(f1[p] == f0[p]);
                }
            }
        }
        MigratePlan { remove_files, remove_folders, create_folders, copy_files }
    }
}

/// Every path of a listing carries one stamp wherever it occurs.
pub open spec fn consistent(l: Seq<SourceFile>) -> bool {
    forall|i: int, j: int|
        0 <= i < l.len() && 0 <= j < l.len() && #[trigger] l[i].path@ == #[trigger] l[j].path@
            ==> l[i].modified == l[j].modified
}

proof fn lemma_last_stamp_occurs(l: Seq<SourceFile>, n: int, p: Seq<char>) -> (j: int)
    requires
        0 <= n <= l.len(),
        listed(l, n, p),
    ensures
        0 <= j < n,
        l[j].path@ == p,
        l[j].modified == last_stamp(l, n, p),
    decreases n,
{
    lemma_listing_step(l, n - 1);
    if l[n - 1].path@ == p {
        n - 1
    } else {
        lemma_last_stamp_occurs(l, n - 1, p)
    }
}

/// Convergence: if the output tree held exactly the files the cache knew of,
/// then after applying the plan of a pass it holds exactly the files of the
/// listing, which are again the files the cache knows of.
pub proof fn lemma_convergence(
    s0: Sink,
    l: Seq<SourceFile>,
    s1: Sink,
    plan: MigratePlan,
    tree: Set<Seq<char>>,
)
    requires
        applies(s0, l, s1, plan),
        tree == s0.files().dom(),
    ensures
        tree_after(tree, plan.remove_files@, plan.remove_folders@, plan.copy_files@) == Set::new(
            |p: Seq<char>| listed(l, l.len() as int, p),
        ),
        tree_after(tree, plan.remove_files@, plan.remove_folders@, plan.copy_files@)
            == s1.files().dom(),
{
    let n = l.len() as int;
    let after = tree_after(tree, plan.remove_files@, plan.remove_folders@, plan.copy_files@);
    assert forall|p: Seq<char>| after.contains(p) <==> listed(l, n, p) by {
        if listed(l, n, p) && !has_name(plan.copy_files@, p) {
            assert(s0.files().contains_key(p));
            assert(!has_name(plan.remove_files@, p));
            if exists|j: int|
                0 <= j < plan.remove_folders@.len() && #[trigger] under(plan.remove_folders@[j]@, p) {
                let j = choose|j: int|
                    0 <= j < plan.remove_folders@.len() && #[trigger] under(plan.remove_folders@[j]@, p);
                let g = plan.remove_folders@[j]@;
                assert(has_name(plan.remove_folders@, g));
                let k = choose|k: int| 0 <= k < n && k < l.len() && #[trigger] l[k].path@ == p;
                assert(under(g, l[k].path@));
                assert(holds_listed(l, g));
            }
        }
    }
    assert(after =~= Set::new(|p: Seq<char>| listed(l, n, p)));
    assert(after =~= s1.files().dom());
}

/// Pass `k` of a run: the cache goes from `sinks[k]` to `sinks[k + 1]` over
/// `lists[k]`, and its plan takes the output tree from `trees[k]` to `trees[k + 1]`.
pub open spec fn run_step(
    sinks: Seq<Sink>,
    lists: Seq<Seq<SourceFile>>,
    plans: Seq<MigratePlan>,
    trees: Seq<Set<Seq<char>>>,
    k: int,
) -> bool {
    &&& applies(sinks[k], lists[k], sinks[k + 1], plans[k])
    &&& trees[k + 1] == tree_after(
        trees[k],
        plans[k].remove_files@,
        plans[k].remove_folders@,
        plans[k].copy_files@,
    )
}

proof fn lemma_run_mirrors(
    sinks: Seq<Sink>,
    lists: Seq<Seq<SourceFile>>,
    plans: Seq<MigratePlan>,
    trees: Seq<Set<Seq<char>>>,
    i: int,
)
    requires
        sinks.len() == lists.len() + 1,
        plans.len() == lists.len(),
        trees.len() == lists.len() + 1,
        trees[0] == sinks[0].files().dom(),
        forall|k: int| 0 <= k < lists.len() ==> #[trigger] run_step(sinks, lists, plans, trees, k),
        0 <= i <= lists.len(),
    ensures
        trees[i] == sinks[i].files().dom(),
    decreases i,
{
    if i > 0 {
        lemma_run_mirrors(sinks, lists, plans, trees, i - 1);
        assert(run_step(sinks, lists, plans, trees, i - 1));
        assert(i - 1 + 1 == i);
        lemma_convergence(sinks[i - 1], lists[i - 1], sinks[i], plans[i - 1], trees[i - 1]);
    }
}

/// Convergence over a run of passes: when the output tree starts out holding
/// exactly the cached files (both empty for a new cache on a cleaned output
/// folder) and each pass's plan is applied to it, then after every pass the
/// tree holds exactly that pass's listing, no orphans and no omissions.
pub proof fn lemma_convergence_run(
    sinks: Seq<Sink>,
    lists: Seq<Seq<SourceFile>>,
    plans: Seq<MigratePlan>,
    trees: Seq<Set<Seq<char>>>,
)
    requires
        sinks.len() == lists.len() + 1,
        plans.len() == lists.len(),
        trees.len() == lists.len() + 1,
        trees[0] == sinks[0].files().dom(),
        forall|k: int| 0 <= k < lists.len() ==> #[trigger] run_step(sinks, lists, plans, trees, k),
    ensures
        forall|k: int|
            0 <= k < lists.len() ==> #[trigger] trees[k + 1] == Set::new(
                |p: Seq<char>| listed(lists[k], lists[k].len() as int, p),
            ),
{
    assert forall|k: int| 0 <= k < lists.len() implies #[trigger] trees[k + 1] == Set::new(
        |p: Seq<char>| listed(lists[k], lists[k].len() as int, p),
    ) by {
        lemma_run_mirrors(sinks, lists, plans, trees, k);
        assert(run_step(sinks, lists, plans, trees, k));
        lemma_convergence(sinks[k], lists[k], sinks[k + 1], plans[k], trees[k]);
    }
}

/// Minimal copy: a second pass over the same consistent listing copies
/// nothing, and creates and deletes nothing either.
pub proof fn lemma_minimal_copy(
    s0: Sink,
    l: Seq<SourceFile>,
    s1: Sink,
    plan1: MigratePlan,
    s2: Sink,
    plan2: MigratePlan,
)
    requires
        applies(s0, l, s1, plan1),
        applies(s1, l, s2, plan2),
        consistent(l),
    ensures
        plan2.copy_files@.len() == 0,
        plan2.create_folders@.len() == 0,
        plan2.remove_files@.len() == 0,
        plan2.remove_folders@.len() == 0,
{
    let n = l.len() as int;
    if plan2.create_folders@.len() > 0 {
        let f = plan2.create_folders@[0]@;
        assert(has_name(plan2.create_folders@, f));
        assert(live_folder(s0.folders(), l, f));
    }
    if plan2.remove_files@.len() > 0 {
        assert(has_name(plan2.remove_files@, plan2.remove_files@[0]@));
    }
    if plan2.remove_folders@.len() > 0 {
        let f = plan2.remove_folders@[0]@;
        assert(has_name(plan2.remove_folders@, f));
        assert(s1.folders().contains_key(f));
        assert(live_folder(s0.folders(), l, f));
    }
    if plan2.copy_files@.len() > 0 {
        let p = plan2.copy_files@[0]@;
        assert(has_name(plan2.copy_files@, p));
        assert(needs_copy(s1.files(), l, p));
        assert(s1.files().contains_key(p));
        let stamp = s1.files()[p].modified;
        let k = lemma_last_stamp_occurs(l, n, p);
        if restamped(l, n, p, stamp) {
            let j = choose|j: int|
                0 <= j < n && j < l.len() && #[trigger] l[j].path@ == p && l[j].modified != stamp;
            assert(l[j].path@ == l[k].path@);
        }
    }
}

/// Staleness eviction: a cached file missing from the listing is deleted by
/// the plan, is absent from any output tree the plan is applied to, and
/// leaves the cache.
pub proof fn lemma_stale_file_evicted(
    s0: Sink,
    l: Seq<SourceFile>,
    s1: Sink,
    plan: MigratePlan,
    p: Seq<char>,
    tree: Set<Seq<char>>,
)
    requires
        applies(s0, l, s1, plan),
        s0.files().contains_key(p),
        !listed(l, l.len() as int, p),
    ensures
        has_name(plan.remove_files@, p),
        !s1.files().contains_key(p),
        !tree_after(tree, plan.remove_files@, plan.remove_folders@, plan.copy_files@).contains(p),
{
}

} // verus!
