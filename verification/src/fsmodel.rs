//! A model of the slice of the filesystem that the trash operations read
//! and change: a finite set of paths, each classified as a file, a
//! directory or a symlink.  The trash operations are verified as
//! transitions over this model; the process around the library performs
//! the matching moves and removals on the real filesystem.

use crate::strutil::string_chars;
use vstd::prelude::*;

verus! {

broadcast use {vstd::map::group_map_axioms, vstd::set::group_set_axioms};

/// The classification of an existing filesystem object.
#[derive(Clone, Copy, Debug, PartialEq, Eq, Structural)]
pub enum FileKind {
    File,
    Directory,
    Symlink,
}

/// One known filesystem object.
pub struct FsEntry {
    pub path: String,
    pub kind: FileKind,
}

/// Whether `k` lies strictly under the directory `dir` (that is, `k`
/// starts with `dir` followed by `/`).
pub open spec fn under_dir(dir: Seq<char>, k: Seq<char>) -> bool {
    k.len() > dir.len() && k.subrange(0, dir.len() as int + 1) == dir + seq!['/']
}

/// The paths of `s` are pairwise distinct.
pub open spec fn distinct_paths(s: Seq<FsEntry>) -> bool {
    forall|i: int, j: int| 0 <= i < j < s.len() ==> s[i].path@ != s[j].path@
}

/// The map from path to kind described by a sequence of entries.
pub open spec fn as_map(s: Seq<FsEntry>) -> Map<Seq<char>, FileKind>
    decreases s.len(),
{
    if s.len() == 0 {
        Map::empty()
    } else {
        as_map(s.drop_last()).insert(s.last().path@, s.last().kind)
    }
}

/// Keeping exactly the entries whose path is not in `ks`.
pub open spec fn keep_pred(ks: Set<Seq<char>>) -> spec_fn(FsEntry) -> bool {
    |e: FsEntry| !ks.contains(e.path@)
}

/// Every entry's path is a key of the map.
proof fn lemma_as_map_index(s: Seq<FsEntry>, i: int)
    requires
        0 <= i < s.len(),
    ensures
        as_map(s).contains_key(s[i].path@),
        distinct_paths(s) ==> as_map(s)[s[i].path@] == s[i].kind,
    decreases s.len(),
{
    if i == s.len() - 1 {
    } else {
        assert(s.drop_last()[i] == s[i]);
        lemma_as_map_index(s.drop_last(), i);
        if distinct_paths(s) {
            assert(distinct_paths(s.drop_last())) by {
                assert(forall|a: int, b: int|
                    0 <= a < b < s.drop_last().len() ==> s.drop_last()[a] == s[a]
                        && s.drop_last()[b] == s[b]);
            }
            assert(s[i].path@ != s.last().path@);
        }
    }
}

/// Every key of the map is carried by some entry.
proof fn lemma_as_map_witness(s: Seq<FsEntry>, k: Seq<char>)
    requires
        as_map(s).contains_key(k),
    ensures
        exists|i: int| 0 <= i < s.len() && s[i].path@ == k,
    decreases s.len(),
{
    if s.len() == 0 {
        assert(false);
    } else if k == s.last().path@ {
        assert(s[s.len() - 1].path@ == k);
    } else {
        lemma_as_map_witness(s.drop_last(), k);
        let i = choose|i: int| 0 <= i < s.drop_last().len() && s.drop_last()[i].path@ == k;
        assert(s[i].path@ == k);
    }
}

/// Filtering out the entries whose path lies in `ks` removes exactly the
/// keys of `ks` from the map.
proof fn lemma_as_map_filter(s: Seq<FsEntry>, ks: Set<Seq<char>>)
    requires
        distinct_paths(s),
    ensures
        distinct_paths(s.filter(keep_pred(ks))),
        as_map(s.filter(keep_pred(ks))) == as_map(s).remove_keys(ks),
    decreases s.len(),
{
    reveal(Seq::filter);
    let pred = keep_pred(ks);
    if s.len() == 0 {
        assert(s.filter(pred) =~= s);
        assert(as_map(s).remove_keys(ks) =~= Map::<Seq<char>, FileKind>::empty());
    } else {
        let dl = s.drop_last();
        assert(distinct_paths(dl)) by {
            assert(forall|a: int| 0 <= a < dl.len() ==> dl[a] == s[a]);
        }
        lemma_as_map_filter(dl, ks);
        let f = s.filter(pred);
        if pred(s.last()) {
            assert(f == dl.filter(pred).push(s.last()));
            assert(f.drop_last() =~= dl.filter(pred));
            assert(f.last() == s.last());
            assert forall|i: int, j: int| 0 <= i < j < f.len() implies f[i].path@ != f[j].path@ by {
                if j < f.len() - 1 {
                    assert(dl.filter(pred)[i] == f[i]);
                    assert(dl.filter(pred)[j] == f[j]);
                } else {
                    assert(f[j] == s.last());
                    assert(dl.filter(pred)[i] == f[i]);
                    if f[i].path@ == s.last().path@ {
                        lemma_as_map_index(dl.filter(pred), i);
                        assert(as_map(dl).remove_keys(ks).contains_key(f[i].path@));
                        lemma_as_map_witness(dl, f[i].path@);
                        let w = choose|w: int| 0 <= w < dl.len() && dl[w].path@ == f[i].path@;
                        assert(s[w].path@ == s.last().path@);
                        assert(false);
                    }
                }
            }
            assert(as_map(f) == as_map(dl.filter(pred)).insert(s.last().path@, s.last().kind));
            assert(as_map(f) =~= as_map(s).remove_keys(ks));
        } else {
            assert(f == dl.filter(pred));
            assert(as_map(f) =~= as_map(s).remove_keys(ks));
        }
    }
}

/// One step of a front-to-back filter: how the filtered prefix grows.
proof fn lemma_filter_prefix_step(s: Seq<FsEntry>, ks: Set<Seq<char>>, i: int)
    requires
        0 <= i < s.len(),
    ensures
        keep_pred(ks)(s[i]) ==> s.subrange(0, i + 1).filter(keep_pred(ks)) == s.subrange(
            0,
            i,
        ).filter(keep_pred(ks)).push(s[i]),
        !keep_pred(ks)(s[i]) ==> s.subrange(0, i + 1).filter(keep_pred(ks)) == s.subrange(
            0,
            i,
        ).filter(keep_pred(ks)),
{
    reveal(Seq::filter);
    let p = s.subrange(0, i + 1);
    assert(p.drop_last() =~= s.subrange(0, i));
    assert(p.last() == s[i]);
}

/// The known slice of the filesystem.  Its view is a map from path
/// (sequence of characters) to the kind of the object at that path.
pub struct Fs {
    entries: Vec<FsEntry>,
}

impl View for Fs {
    type V = Map<Seq<char>, FileKind>;

    closed spec fn view(&self) -> Map<Seq<char>, FileKind> {
        as_map(self.entries@)
    }
}

impl Fs {
    #[verifier::type_invariant]
    closed spec fn wf(self) -> bool {
        distinct_paths(self.entries@)
    }

    /// An empty model: no known objects.
    pub fn new() -> (r: Fs)
        ensures
            r@ == Map::<Seq<char>, FileKind>::empty(),
    {
        Fs { entries: Vec::new() }
    }

    /// The kind of the object at `path`, or `None` when the model has no
    /// object there.
    pub fn kind_of(&self, path: &String) -> (r: Option<FileKind>)
        ensures
            r == if self@.contains_key(path@) {
                Some(self@[path@])
            } else {
                None::<FileKind>
            },
    {
        proof {
            use_type_invariant(self);
        }
        let n = self.entries.len();
        let mut i: usize = 0;
        while i < n
            invariant
                i <= n,
                n == self.entries.len(),
                distinct_paths(self.entries@),
                self@ == as_map(self.entries@),
                forall|t: int| 0 <= t < i ==> self.entries@[t].path@ != path@,
            decreases n - i,
        {
            if self.entries[i].path == *path {
                proof {
                    lemma_as_map_index(self.entries@, i as int);
                }
                return Some(self.entries[i].kind);
            }
            i += 1;
        }
        proof {
            if self@.contains_key(path@) {
                lemma_as_map_witness(self.entries@, path@);
                let t = choose|t: int|
                    0 <= t < self.entries@.len() && self.entries@[t].path@ == path@;
                assert(false);
            }
        }
        None
    }

    /// Whether the model has an object at `path`.
    pub fn contains_path(&self, path: &String) -> (r: bool)
        ensures
            r == self@.contains_key(path@),
    {
        match self.kind_of(path) {
            Some(_) => true,
            None => false,
        }
    }

    /// Records a new object.  The path must be fresh.
    pub fn insert(&mut self, path: String, kind: FileKind)
        requires
            !old(self)@.contains_key(path@),
        ensures
            final(self)@ == old(self)@.insert(path@, kind),
    {
        proof {
            use_type_invariant(&*self);
        }
        let ghost s0 = self.entries@;
        let n = self.entries.len();
        let mut out: Vec<FsEntry> = Vec::new();
        let mut i: usize = 0;
        while i < n
            invariant
                i <= n,
                n == self.entries.len(),
                self.entries@ == s0,
                out@ == s0.subrange(0, i as int),
            decreases n - i,
        {
            let e = FsEntry { path: self.entries[i].path.clone(), kind: self.entries[i].kind };
            proof {
                assert(e == s0[i as int]);
            }
            out.push(e);
            proof {
                assert(out@ =~= s0.subrange(0, i + 1));
            }
            i += 1;
        }
        proof {
            assert(out@ =~= s0);
        }
        out.push(FsEntry { path, kind });
        proof {
            assert(out@.drop_last() =~= s0);
            assert forall|a: int, b: int|
                0 <= a < b < out@.len() implies out@[a].path@ != out@[b].path@ by {
                if b == out@.len() - 1 {
                    assert(s0[a].path@ == out@[a].path@);
                    if out@[a].path@ == out@[b].path@ {
                        lemma_as_map_index(s0, a);
                        assert(false);
                    }
                }
            }
        }
        self.entries = out;
    }

    /// Forgets the object at `path`, if any.
    #[verifier::loop_isolation(false)]
    pub fn remove_path(&mut self, path: &String)
        ensures
            final(self)@ == old(self)@.remove(path@),
    {
        proof {
            use_type_invariant(&*self);
        }
        let ghost s0 = self.entries@;
        let ghost ks = Set::new(|k: Seq<char>| k == path@);
        let n = self.entries.len();
        let mut out: Vec<FsEntry> = Vec::new();
        let mut i: usize = 0;
        proof {
            reveal(Seq::filter);
            assert(s0.subrange(0, 0) =~= Seq::<FsEntry>::empty());
            assert(out@ =~= s0.subrange(0, 0).filter(keep_pred(ks)));
        }
        while i < n
            invariant
                i <= n,
                n == self.entries.len(),
                self.entries@ == s0,
                distinct_paths(s0),
                out@ == s0.subrange(0, i as int).filter(keep_pred(ks)),
            decreases n - i,
        {
            let keep = !(self.entries[i].path == *path);
            proof {
                lemma_filter_prefix_step(s0, ks, i as int);
                assert(ks.contains(s0[i as int].path@) == (s0[i as int].path@ == path@));
                assert(keep_pred(ks)(s0[i as int]) == !ks.contains(s0[i as int].path@));
                assert(keep == keep_pred(ks)(s0[i as int]));
            }
            if keep {
                let e = FsEntry { path: self.entries[i].path.clone(), kind: self.entries[i].kind };
                proof {
                    assert(e == s0[i as int]);
                }
                out.push(e);
                proof {
                    assert(out@ =~= s0.subrange(0, i + 1).filter(keep_pred(ks)));
                }
            }
            i += 1;
        }
        proof {
            assert(s0.subrange(0, n as int) =~= s0);
            lemma_as_map_filter(s0, ks);
        }
        self.entries = out;
        proof {
            assert(final(self)@ =~= old(self)@.remove(path@));
        }
    }

    /// Forgets every object lying under the directory `dir`.
    #[verifier::loop_isolation(false)]
    pub fn remove_under(&mut self, dir: &String)
        ensures
            final(self)@ == old(self)@.remove_keys(Set::new(|k: Seq<char>| under_dir(dir@, k))),
    {
        proof {
            use_type_invariant(&*self);
        }
        let ghost s0 = self.entries@;
        let ghost ks = Set::new(|k: Seq<char>| under_dir(dir@, k));
        let n = self.entries.len();
        let mut out: Vec<FsEntry> = Vec::new();
        let mut i: usize = 0;
        proof {
            reveal(Seq::filter);
            assert(s0.subrange(0, 0) =~= Seq::<FsEntry>::empty());
            assert(out@ =~= s0.subrange(0, 0).filter(keep_pred(ks)));
        }
        while i < n
            invariant
                i <= n,
                n == self.entries.len(),
                self.entries@ == s0,
                distinct_paths(s0),
                out@ == s0.subrange(0, i as int).filter(keep_pred(ks)),
            decreases n - i,
        {
            let keep = !path_is_under(&self.entries[i].path, dir);
            proof {
                lemma_filter_prefix_step(s0, ks, i as int);
                assert(ks.contains(s0[i as int].path@) == under_dir(dir@, s0[i as int].path@));
                assert(keep_pred(ks)(s0[i as int]) == !ks.contains(s0[i as int].path@));
                assert(keep == keep_pred(ks)(s0[i as int]));
            }
            if keep {
                let e = FsEntry { path: self.entries[i].path.clone(), kind: self.entries[i].kind };
                proof {
                    assert(e == s0[i as int]);
                }
                out.push(e);
                proof {
                    assert(out@ =~= s0.subrange(0, i + 1).filter(keep_pred(ks)));
                }
            }
            i += 1;
        }
        proof {
            assert(s0.subrange(0, n as int) =~= s0);
            lemma_as_map_filter(s0, ks);
        }
        self.entries = out;
        proof {
            assert(final(self)@ =~= old(self)@.remove_keys(ks));
        }
    }
}

/// Whether `path` lies strictly under the directory `dir`.
pub fn path_is_under(path: &String, dir: &String) -> (r: bool)
    ensures
        r == under_dir(dir@, path@),
{
    let p = string_chars(path.as_str());
    let d = string_chars(dir.as_str());
    if p.len() <= d.len() {
        return false;
    }
    let mut i: usize = 0;
    while i < d.len()
        invariant
            i <= d.len(),
            d.len() < p.len(),
            p@ == path@,
            d@ == dir@,
            forall|t: int| 0 <= t < i ==> p@[t] == d@[t],
        decreases d.len() - i,
    {
        if p[i] != d[i] {
            proof {
                assert(path@.subrange(0, dir@.len() as int + 1)[i as int] != (dir@
                    + seq!['/'])[i as int]);
            }
            return false;
        }
        i += 1;
    }
    let r = p[d.len()] == '/';
    proof {
        if r {
            assert(path@.subrange(0, dir@.len() as int + 1) =~= dir@ + seq!['/']);
        } else {
            assert(path@.subrange(0, dir@.len() as int + 1)[dir@.len() as int] != (dir@
                + seq!['/'])[dir@.len() as int]);
        }
    }
    r
}

} // verus!
