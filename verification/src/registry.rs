//! The persisted trash registry: the ordered list of trashed items, each
//! mapping the original location of an object to its location inside the
//! trash directory.  Two layouts exist, one keyed `path`/`path_trash`
//! (`FileInfo` in `FileList`) and an alternate one keyed `path`/`trash`
//! (`File` in `FilesInTrash`); both are ordered sequences with structural
//! entry equality.

use crate::fsmodel::{FileKind, Fs};
use crate::strutil::{base_name, base_name_seq, join_path, join_seq};
use crate::Error;
use vstd::prelude::*;

verus! {

broadcast use {vstd::map::group_map_axioms, vstd::set::group_set_axioms};

/// The mathematical content of one registry entry: the original path and
/// the trash-side path, as sequences of characters.
#[verifier::ext_equal]
pub struct EntryV {
    pub path: Seq<char>,
    pub trash: Seq<char>,
}

/// The entry views of a vector of entries, in order.
pub open spec fn views_of(s: Seq<FileInfo>) -> Seq<EntryV> {
    s.map_values(|e: FileInfo| e@)
}

/// Keeping exactly the entries that differ from `x`.
pub open spec fn differs_from(x: EntryV) -> spec_fn(EntryV) -> bool {
    |e: EntryV| e != x
}

/// Keeping exactly the entries whose trash path exists in `m`.
pub open spec fn alive_in(m: Map<Seq<char>, FileKind>) -> spec_fn(EntryV) -> bool {
    |e: EntryV| m.contains_key(e.trash)
}

/// Reconciliation drops every entry whose trash-side object is missing.
pub open spec fn spec_reconcile(s: Seq<EntryV>, m: Map<Seq<char>, FileKind>) -> Seq<EntryV> {
    s.filter(alive_in(m))
}

/// A sequence filtered by a predicate that all its elements satisfy is
/// unchanged.
proof fn lemma_filter_all_kept(s: Seq<EntryV>, pred: spec_fn(EntryV) -> bool)
    requires
        forall|i: int| 0 <= i < s.len() ==> pred(#[trigger] s[i]),
    ensures
        s.filter(pred) == s,
    decreases s.len(),
{
    reveal(Seq::filter);
    if s.len() == 0 {
        assert(s.filter(pred) =~= s);
    } else {
        assert(forall|i: int| 0 <= i < s.drop_last().len() ==> s.drop_last()[i] == s[i]);
        lemma_filter_all_kept(s.drop_last(), pred);
        assert(s.filter(pred) =~= s.drop_last().push(s.last()));
        assert(s.drop_last().push(s.last()) =~= s);
    }
}

/// Reconciling a registry whose every trash path exists changes nothing.
///
/// Law: `reconcile` is a no-op on a registry in agreement with the
/// filesystem.
pub proof fn lemma_reconcile_no_op(s: Seq<EntryV>, m: Map<Seq<char>, FileKind>)
    requires
        forall|i: int| 0 <= i < s.len() ==> m.contains_key(#[trigger] s[i].trash),
    ensures
        spec_reconcile(s, m) == s,
{
    assert(forall|i: int| 0 <= i < s.len() ==> alive_in(m)(#[trigger] s[i]));
    lemma_filter_all_kept(s, alive_in(m));
}

/// Reconciling twice against the same filesystem gives the same registry
/// as reconciling once.
///
/// Law: `reconcile` is idempotent.
pub proof fn lemma_reconcile_idempotent(s: Seq<EntryV>, m: Map<Seq<char>, FileKind>)
    ensures
        spec_reconcile(spec_reconcile(s, m), m) == spec_reconcile(s, m),
{
    broadcast use vstd::seq_lib::group_filter_ensures;

    let f = spec_reconcile(s, m);
    assert(forall|i: int| 0 <= i < f.len() ==> alive_in(m)(#[trigger] f[i]));
    lemma_filter_all_kept(f, alive_in(m));
}

/// The position of the first entry whose original path is `p`, if any.
pub open spec fn first_entry_for(s: Seq<EntryV>, p: Seq<char>) -> Option<int>
    decreases s.len(),
{
    if s.len() == 0 {
        None
    } else if s[0].path == p {
        Some(0int)
    } else {
        match first_entry_for(s.drop_first(), p) {
            None => None,
            Some(i) => Some(i + 1),
        }
    }
}

/// What the first-match position means: it is in range, its entry carries
/// `p`, and no earlier entry does.
pub proof fn lemma_first_entry_props(s: Seq<EntryV>, p: Seq<char>)
    ensures
        match first_entry_for(s, p) {
            None => true,
            Some(i) => 0 <= i < s.len() && s[i].path == p && (forall|t: int|
                0 <= t < i ==> s[t].path != p),
        },
    decreases s.len(),
{
    if s.len() > 0 && s[0].path != p {
        lemma_first_entry_props(s.drop_first(), p);
        match first_entry_for(s.drop_first(), p) {
            None => {
            }
            Some(j) => {
                assert(s.drop_first()[j] == s[j + 1]);
                assert forall|t: int| 0 <= t < j + 1 implies s[t].path != p by {
                    if t > 0 {
                        assert(s.drop_first()[t - 1] == s[t]);
                    }
                }
            }
        }
    }
}

/// A scan that finds no match at any position yields the first-match
/// position that the scan stopped at, or none at the end.
proof fn lemma_first_entry_scan(s: Seq<EntryV>, p: Seq<char>, i: int)
    requires
        0 <= i <= s.len(),
        forall|t: int| 0 <= t < i ==> s[t].path != p,
        i < s.len() ==> s[i].path == p,
    ensures
        first_entry_for(s, p) == if i == s.len() {
            None
        } else {
            Some(i)
        },
    decreases i,
{
    if i == 0 {
    } else {
        assert(s[0].path != p);
        assert forall|t: int| 0 <= t < i - 1 implies s.drop_first()[t].path != p by {
            assert(s.drop_first()[t] == s[t + 1]);
        }
        if i < s.len() {
            assert(s.drop_first()[i - 1] == s[i]);
        }
        lemma_first_entry_scan(s.drop_first(), p, i - 1);
    }
}

/// One step of a front-to-back filter over entry views.
proof fn lemma_entry_filter_step(s: Seq<EntryV>, pred: spec_fn(EntryV) -> bool, i: int)
    requires
        0 <= i < s.len(),
    ensures
        pred(s[i]) ==> s.subrange(0, i + 1).filter(pred) == s.subrange(0, i).filter(pred).push(
            s[i],
        ),
        !pred(s[i]) ==> s.subrange(0, i + 1).filter(pred) == s.subrange(0, i).filter(pred),
{
    reveal(Seq::filter);
    let p = s.subrange(0, i + 1);
    assert(p.drop_last() =~= s.subrange(0, i));
    assert(p.last() == s[i]);
}

/// One trashed item: where it came from (`path`) and where it sits inside
/// the trash directory (`path_trash`).
#[derive(Debug)]
pub struct FileInfo {
    path: String,
    path_trash: String,
}

impl View for FileInfo {
    type V = EntryV;

    closed spec fn view(&self) -> EntryV {
        EntryV { path: self.path@, trash: self.path_trash@ }
    }
}

impl FileInfo {
    /// An entry from its two paths.
    pub fn from_paths(path: String, path_trash: String) -> (r: FileInfo)
        ensures
            r@ == (EntryV { path: path@, trash: path_trash@ }),
    {
        FileInfo { path, path_trash }
    }

    /// An entry for `path`, whose trash side is `<config_dir>/trash/`
    /// followed by the base name of `path`.  A path without a base name
    /// (one ending in `/`) has nothing to name its trash copy after and is
    /// reported as an underlying path failure.
    pub fn new(path: &str, config_dir: &str) -> (r: Result<FileInfo, Error>)
        ensures
            base_name_seq(path@).len() > 0 ==> (r matches Ok(e) && e@ == (EntryV {
                path: path@,
                trash: join_seq(join_seq(config_dir@, "trash"@), base_name_seq(path@)),
            })),
            base_name_seq(path@).len() == 0 ==> (r matches Err(Error::IoError { path: p })
                && p@ == path@),
    {
        let base = base_name(path);
        if base.as_str().unicode_len() == 0 {
            Err(Error::IoError { path: path.to_owned() })
        } else {
            let trash_dir = join_path(config_dir, "trash");
            let path_trash = join_path(trash_dir.as_str(), base.as_str());
            Ok(FileInfo { path: path.to_owned(), path_trash })
        }
    }

    /// The original path.
    pub fn path(&self) -> (r: &String)
        ensures
            r@ == self@.path,
    {
        &self.path
    }

    /// The trash-side path.
    pub fn path_trash(&self) -> (r: &String)
        ensures
            r@ == self@.trash,
    {
        &self.path_trash
    }

    /// A copy of this entry.
    pub fn duplicate(&self) -> (r: FileInfo)
        ensures
            r@ == self@,
    {
        FileInfo { path: self.path.clone(), path_trash: self.path_trash.clone() }
    }
}

impl PartialEq for FileInfo {
    fn eq(&self, other: &FileInfo) -> bool {
        self.path == other.path && self.path_trash == other.path_trash
    }
}

impl vstd::std_specs::cmp::PartialEqSpecImpl for FileInfo {
    open spec fn obeys_eq_spec() -> bool {
        true
    }

    open spec fn eq_spec(&self, other: &FileInfo) -> bool {
        self@ == other@
    }
}

/// The registry: the ordered list of trashed items, insertion order
/// preserved.
pub struct FileList {
    files: Vec<FileInfo>,
}

impl View for FileList {
    type V = Seq<EntryV>;

    closed spec fn view(&self) -> Seq<EntryV> {
        views_of(self.files@)
    }
}

impl FileList {
    /// The empty registry.
    pub fn new() -> (r: FileList)
        ensures
            r@ == Seq::<EntryV>::empty(),
    {
        let r = FileList { files: Vec::new() };
        proof {
            assert(r@ =~= Seq::<EntryV>::empty());
        }
        r
    }

    /// The entries, in registry order.
    pub fn files(&self) -> (r: &Vec<FileInfo>)
        ensures
            views_of(r@) == self@,
    {
        &self.files
    }

    /// Appends an entry.  No deduplication: the caller avoids duplicates.
    pub fn add(&mut self, fileinfo: &FileInfo)
        ensures
            final(self)@ == old(self)@.push(fileinfo@),
    {
        let ghost s0 = self.files@;
        let copy = fileinfo.duplicate();
        let mut out = self.take_files();
        out.push(copy);
        proof {
            assert(views_of(out@) =~= views_of(s0).push(
                fileinfo@,
            ));
        }
        self.files = out;
    }

    /// Removes every entry structurally equal to `fileinfo`.
    #[verifier::loop_isolation(false)]
    pub fn remove(&mut self, fileinfo: &FileInfo)
        ensures
            final(self)@ == old(self)@.filter(differs_from(fileinfo@)),
    {
        let ghost m0 = self@;
        let ghost pred = differs_from(fileinfo@);
        let n = self.files.len();
        let mut out: Vec<FileInfo> = Vec::new();
        let mut i: usize = 0;
        proof {
            reveal(Seq::filter);
            assert(m0.subrange(0, 0) =~= Seq::<EntryV>::empty());
            assert(views_of(out@) =~= m0.subrange(0, 0).filter(pred));
        }
        while i < n
            invariant
                i <= n,
                n == self.files.len(),
                self@ == m0,
                views_of(out@) == m0.subrange(0, i as int).filter(pred),
            decreases n - i,
        {
            let keep = !(self.files[i] == *fileinfo);
            proof {
                lemma_entry_filter_step(m0, pred, i as int);
                assert(m0[i as int] == self.files@[i as int]@);
                assert(keep == pred(m0[i as int]));
            }
            if keep {
                let e = self.files[i].duplicate();
                out.push(e);
                proof {
                    assert(views_of(out@) =~= m0.subrange(0, i + 1).filter(
                        pred,
                    ));
                }
            }
            i += 1;
        }
        proof {
            assert(m0.subrange(0, n as int) =~= m0);
        }
        self.files = out;
    }

    /// Drops every entry whose trash-side object is missing from the
    /// filesystem.  The caller persists afterward for the change to take
    /// effect on disk.
    #[verifier::loop_isolation(false)]
    pub fn reconcile(&mut self, fs: &Fs)
        ensures
            final(self)@ == spec_reconcile(old(self)@, fs@),
    {
        let ghost m0 = self@;
        let ghost pred = alive_in(fs@);
        let n = self.files.len();
        let mut out: Vec<FileInfo> = Vec::new();
        let mut i: usize = 0;
        proof {
            reveal(Seq::filter);
            assert(m0.subrange(0, 0) =~= Seq::<EntryV>::empty());
            assert(views_of(out@) =~= m0.subrange(0, 0).filter(pred));
        }
        while i < n
            invariant
                i <= n,
                n == self.files.len(),
                self@ == m0,
                views_of(out@) == m0.subrange(0, i as int).filter(pred),
            decreases n - i,
        {
            let keep = fs.contains_path(&self.files[i].path_trash);
            proof {
                lemma_entry_filter_step(m0, pred, i as int);
                assert(m0[i as int] == self.files@[i as int]@);
                assert(keep == pred(m0[i as int]));
            }
            if keep {
                let e = self.files[i].duplicate();
                out.push(e);
                proof {
                    assert(views_of(out@) =~= m0.subrange(0, i + 1).filter(
                        pred,
                    ));
                }
            }
            i += 1;
        }
        proof {
            assert(m0.subrange(0, n as int) =~= m0);
        }
        self.files = out;
    }

    /// The first entry whose original path equals `given`, copied out.
    #[verifier::loop_isolation(false)]
    pub fn find_original(&self, given: &String) -> (r: Option<FileInfo>)
        ensures
            r is None <==> first_entry_for(self@, given@) is None,
            forall|i: int|
                first_entry_for(self@, given@) == Some(i) ==> (r matches Some(e) && e@ == self@[i]
                    && self@[i].path == given@),
    {
        let n = self.files.len();
        let mut i: usize = 0;
        while i < n
            invariant
                i <= n,
                forall|t: int| 0 <= t < i ==> self@[t].path != given@,
            decreases n - i,
        {
            if self.files[i].path == *given {
                proof {
                    assert(self@[i as int].path == given@);
                    lemma_first_entry_scan(self@, given@, i as int);
                }
                return Some(self.files[i].duplicate());
            }
            i += 1;
        }
        proof {
            lemma_first_entry_scan(self@, given@, n as int);
        }
        None
    }

    /// Empties the registry.
    pub fn clear(&mut self)
        ensures
            final(self)@ == Seq::<EntryV>::empty(),
    {
        let _ = self.take_files();
    }

    /// Moves the entry vector out, leaving the registry empty.
    fn take_files(&mut self) -> (r: Vec<FileInfo>)
        ensures
            views_of(r@) == old(self)@,
            final(self)@ == Seq::<EntryV>::empty(),
    {
        let mut out: Vec<FileInfo> = Vec::new();
        core::mem::swap(&mut self.files, &mut out);
        proof {
            assert(self@ =~= Seq::<EntryV>::empty());
        }
        out
    }
}

/// The entry views of a vector of alternate-layout entries, in order.
pub open spec fn file_views_of(s: Seq<File>) -> Seq<EntryV> {
    s.map_values(|e: File| e@)
}

/// One trashed item in the alternate layout: the original location
/// (`path`) and the trash-side location (`trash`).
#[derive(Debug)]
pub struct File {
    path: String,
    trash: String,
}

impl View for File {
    type V = EntryV;

    closed spec fn view(&self) -> EntryV {
        EntryV { path: self.path@, trash: self.trash@ }
    }
}

impl File {
    /// An entry from its two paths.
    pub fn from_paths(path: String, trash: String) -> (r: File)
        ensures
            r@ == (EntryV { path: path@, trash: trash@ }),
    {
        File { path, trash }
    }

    /// An entry for `path`, whose trash side is `trash_dir` followed by
    /// the base name of `path`.  A path without a base name is reported
    /// as an underlying path failure.
    pub fn new(path: &str, trash_dir: &str) -> (r: Result<File, Error>)
        ensures
            base_name_seq(path@).len() > 0 ==> (r matches Ok(e) && e@ == (EntryV {
                path: path@,
                trash: join_seq(trash_dir@, base_name_seq(path@)),
            })),
            base_name_seq(path@).len() == 0 ==> (r matches Err(Error::IoError { path: p })
                && p@ == path@),
    {
        let base = base_name(path);
        if base.as_str().unicode_len() == 0 {
            Err(Error::IoError { path: path.to_owned() })
        } else {
            let trash = join_path(trash_dir, base.as_str());
            Ok(File { path: path.to_owned(), trash })
        }
    }

    /// The original path.
    pub fn path(&self) -> (r: &String)
        ensures
            r@ == self@.path,
    {
        &self.path
    }

    /// The trash-side path.
    pub fn trash(&self) -> (r: &String)
        ensures
            r@ == self@.trash,
    {
        &self.trash
    }

    /// A copy of this entry.
    pub fn duplicate(&self) -> (r: File)
        ensures
            r@ == self@,
    {
        File { path: self.path.clone(), trash: self.trash.clone() }
    }
}

impl PartialEq for File {
    fn eq(&self, other: &File) -> bool {
        self.path == other.path && self.trash == other.trash
    }
}

impl vstd::std_specs::cmp::PartialEqSpecImpl for File {
    open spec fn obeys_eq_spec() -> bool {
        true
    }

    open spec fn eq_spec(&self, other: &File) -> bool {
        self@ == other@
    }
}

/// The trash registry in the alternate layout: an ordered list of
/// entries, insertion order preserved.
pub struct FilesInTrash {
    files_in_trash: Vec<File>,
}

impl View for FilesInTrash {
    type V = Seq<EntryV>;

    closed spec fn view(&self) -> Seq<EntryV> {
        file_views_of(self.files_in_trash@)
    }
}

impl FilesInTrash {
    /// A registry holding exactly the given entries, in order.
    pub fn new(files_in_trash: Vec<File>) -> (r: FilesInTrash)
        ensures
            r@ == file_views_of(files_in_trash@),
    {
        FilesInTrash { files_in_trash }
    }

    /// The entries, in registry order.
    pub fn files_in_trash(&self) -> (r: &Vec<File>)
        ensures
            file_views_of(r@) == self@,
    {
        &self.files_in_trash
    }

    /// Appends an entry.
    pub fn add(&mut self, file: File)
        ensures
            final(self)@ == old(self)@.push(file@),
    {
        let ghost v0 = self@;
        let ghost fv = file@;
        self.files_in_trash.push(file);
        proof {
            assert(self@ =~= v0.push(fv));
        }
    }

    /// Removes every entry structurally equal to `file`.
    #[verifier::loop_isolation(false)]
    pub fn remove(&mut self, file: &File)
        ensures
            final(self)@ == old(self)@.filter(differs_from(file@)),
    {
        let ghost m0 = self@;
        let ghost pred = differs_from(file@);
        let n = self.files_in_trash.len();
        let mut out: Vec<File> = Vec::new();
        let mut i: usize = 0;
        proof {
            reveal(Seq::filter);
            assert(m0.subrange(0, 0) =~= Seq::<EntryV>::empty());
            assert(file_views_of(out@) =~= m0.subrange(0, 0).filter(pred));
        }
        while i < n
            invariant
                i <= n,
                n == self.files_in_trash.len(),
                self@ == m0,
                file_views_of(out@) == m0.subrange(0, i as int).filter(pred),
            decreases n - i,
        {
            let keep = !(self.files_in_trash[i] == *file);
            proof {
                lemma_entry_filter_step(m0, pred, i as int);
                assert(m0[i as int] == self.files_in_trash@[i as int]@);
                assert(keep == pred(m0[i as int]));
            }
            if keep {
                let e = self.files_in_trash[i].duplicate();
                out.push(e);
                proof {
                    assert(file_views_of(out@) =~= m0.subrange(0, i + 1).filter(pred));
                }
            }
            i += 1;
        }
        proof {
            assert(m0.subrange(0, n as int) =~= m0);
        }
        self.files_in_trash = out;
    }
}

} // verus!
