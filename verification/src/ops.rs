//! The four trash operations, expressed as transitions over the registry
//! and the filesystem model.  Each call handles one target path; the
//! process around the library resolves paths, asks for confirmation,
//! performs the matching move or removal on the real filesystem, then
//! reconciles and persists the registry.

use crate::fsmodel::{under_dir, FileKind, Fs};
use crate::registry::{first_entry_for, differs_from, EntryV, FileInfo, FileList};
use crate::strutil::{base_name, base_name_seq, join_path, join_seq};
use crate::Error;
use vstd::prelude::*;

verus! {

broadcast use {vstd::map::group_map_axioms, vstd::set::group_set_axioms};

/// What one operation on one path did.
#[derive(Clone, Copy, Debug, PartialEq, Eq, Structural)]
pub enum Outcome {
    /// The object was moved into the trash directory and registered.
    Trashed,
    /// The object was a symlink and was deleted in place.
    RemovedSymlink,
    /// The object was deleted permanently.
    Deleted,
    /// The object was moved back to its original location and
    /// unregistered.
    Restored,
    /// The user declined; nothing was touched.
    Canceled,
    /// No registry entry mentions the given path; nothing was touched.
    NoEntry,
    /// The whole trash directory was emptied and the registry cleared.
    Cleaned,
    /// The registry was already empty; nothing was touched.
    TrashEmpty,
}

/// Where an object moved to trash ends up: directly under the trash
/// directory, under its own base name.
pub open spec fn trash_dest(trash_dir: Seq<char>, target: Seq<char>) -> Seq<char> {
    join_seq(trash_dir, base_name_seq(target))
}

/// Moves one object into the trash directory and registers it.
///
/// A missing target is an error and changes nothing.  A declined
/// confirmation changes nothing.  A symlink is deleted in place: the
/// registry and the trash directory are never touched for it.  Any other
/// object moves to `trash_dest` when that spot is free, and exactly one
/// entry is appended to the registry; a name collision (or a target
/// without a base name) is a move failure that changes nothing.
pub fn remove_to_trash(
    fs: &mut Fs,
    registry: &mut FileList,
    target: &String,
    trash_dir: &String,
    confirmed: bool,
) -> (r: Result<Outcome, Error>)
    ensures
        !old(fs)@.contains_key(target@) ==> (r matches Err(Error::NotFound { path: p }) && p@
            == target@ && final(fs)@ == old(fs)@ && final(registry)@ == old(registry)@),
        old(fs)@.contains_key(target@) && !confirmed ==> r == Ok::<Outcome, Error>(Outcome::Canceled) && final(fs)@
            == old(fs)@ && final(registry)@ == old(registry)@,
        old(fs)@.contains_key(target@) && confirmed && old(fs)@[target@] == FileKind::Symlink ==> r
            == Ok::<Outcome, Error>(Outcome::RemovedSymlink) && final(fs)@ == old(fs)@.remove(target@) && final(registry)@ == old(registry)@,
        old(fs)@.contains_key(target@) && confirmed && old(fs)@[target@] != FileKind::Symlink
            && base_name_seq(target@).len() > 0 && !old(fs)@.contains_key(
            trash_dest(trash_dir@, target@),
        ) ==> r == Ok::<Outcome, Error>(Outcome::Trashed) && final(fs)@ == old(fs)@.remove(target@).insert(
            trash_dest(trash_dir@, target@),
            old(fs)@[target@],
        ) && final(registry)@ == old(registry)@.push(
            EntryV { path: target@, trash: trash_dest(trash_dir@, target@) },
        ),
        old(fs)@.contains_key(target@) && confirmed && old(fs)@[target@] != FileKind::Symlink && (
        base_name_seq(target@).len() == 0 || old(fs)@.contains_key(
            trash_dest(trash_dir@, target@),
        )) ==> (r matches Err(Error::IoError { path: p }) && p@ == target@ && final(fs)@ == old(fs)@ && final(registry)@ == old(registry)@),
{
    let kind = match fs.kind_of(target) {
        None => {
            return Err(Error::NotFound { path: target.clone() });
        }
        Some(k) => k,
    };
    if !confirmed {
        return Ok(Outcome::Canceled);
    }
    if kind == FileKind::Symlink {
        fs.remove_path(target);
        return Ok(Outcome::RemovedSymlink);
    }
    let base = base_name(target.as_str());
    if base.as_str().unicode_len() == 0 {
        return Err(Error::IoError { path: target.clone() });
    }
    let dest = join_path(trash_dir.as_str(), base.as_str());
    if fs.contains_path(&dest) {
        return Err(Error::IoError { path: target.clone() });
    }
    fs.remove_path(target);
    let entry = FileInfo::from_paths(target.clone(), dest.clone());
    fs.insert(dest, kind);
    registry.add(&entry);
    Ok(Outcome::Trashed)
}

/// Deletes one object permanently.  The trash and the registry are not
/// involved.
pub fn delete(fs: &mut Fs, target: &String, confirmed: bool) -> (r: Result<Outcome, Error>)
    ensures
        !old(fs)@.contains_key(target@) ==> (r matches Err(Error::NotFound { path: p }) && p@
            == target@ && final(fs)@ == old(fs)@),
        old(fs)@.contains_key(target@) && !confirmed ==> r == Ok::<Outcome, Error>(Outcome::Canceled) && final(fs)@
            == old(fs)@,
        old(fs)@.contains_key(target@) && confirmed ==> r == Ok::<Outcome, Error>(Outcome::Deleted) && final(fs)@
            == old(fs)@.remove(target@),
{
    if !fs.contains_path(target) {
        return Err(Error::NotFound { path: target.clone() });
    }
    if !confirmed {
        return Ok(Outcome::Canceled);
    }
    fs.remove_path(target);
    Ok(Outcome::Deleted)
}

/// Restores the first registry entry whose original path is `given`.
///
/// With no matching entry, nothing happens.  When the trash-side copy of
/// the matched entry has vanished, the call fails and changes nothing.
/// On success the object is back at its original location, gone from the
/// trash, and every entry structurally equal to the matched one is
/// dropped from the registry; later duplicate entries for the same
/// original path are not scanned.
pub fn restore(
    fs: &mut Fs,
    registry: &mut FileList,
    given: &String,
    confirmed: bool,
) -> (r: Result<Outcome, Error>)
    ensures
        first_entry_for(old(registry)@, given@) is None ==> r == Ok::<Outcome, Error>(Outcome::NoEntry) && final(fs)@
            == old(fs)@ && final(registry)@ == old(registry)@,
        forall|i: int|
            first_entry_for(old(registry)@, given@) == Some(i) && !old(fs)@.contains_key(
                old(registry)@[i].trash,
            ) ==> (r matches Err(Error::NotFound { path: p }) && p@ == old(registry)@[i].trash
                && final(fs)@ == old(fs)@ && final(registry)@ == old(registry)@),
        forall|i: int|
            first_entry_for(old(registry)@, given@) == Some(i) && old(fs)@.contains_key(
                old(registry)@[i].trash,
            ) && !confirmed ==> r == Ok::<Outcome, Error>(Outcome::Canceled) && final(fs)@ == old(fs)@ && final(registry)@ == old(registry)@,
        forall|i: int|
            first_entry_for(old(registry)@, given@) == Some(i) && old(fs)@.contains_key(
                old(registry)@[i].trash,
            ) && confirmed && old(fs)@.contains_key(given@) ==> (r matches Err(Error::IoError {
                path: p,
            }) && p@ == given@ && final(fs)@ == old(fs)@ && final(registry)@ == old(registry)@),
        forall|i: int|
            first_entry_for(old(registry)@, given@) == Some(i) && old(fs)@.contains_key(
                old(registry)@[i].trash,
            ) && confirmed && !old(fs)@.contains_key(given@) ==> r == Ok::<Outcome, Error>(Outcome::Restored)
                && final(fs)@ == old(fs)@.remove(old(registry)@[i].trash).insert(
                given@,
                old(fs)@[old(registry)@[i].trash],
            ) && final(registry)@ == old(registry)@.filter(differs_from(old(registry)@[i])),
{
    let entry = match registry.find_original(given) {
        None => {
            return Ok(Outcome::NoEntry);
        }
        Some(e) => e,
    };
    let kind = match fs.kind_of(entry.path_trash()) {
        None => {
            return Err(Error::NotFound { path: entry.path_trash().clone() });
        }
        Some(k) => k,
    };
    if !confirmed {
        return Ok(Outcome::Canceled);
    }
    if fs.contains_path(given) {
        return Err(Error::IoError { path: given.clone() });
    }
    fs.remove_path(entry.path_trash());
    fs.insert(given.clone(), kind);
    registry.remove(&entry);
    Ok(Outcome::Restored)
}

/// Empties the whole trash directory and clears the registry, in one
/// confirmed step.  An empty registry means there is nothing to clean.
pub fn clean(
    fs: &mut Fs,
    registry: &mut FileList,
    trash_dir: &String,
    confirmed: bool,
) -> (r: Result<Outcome, Error>)
    ensures
        old(registry)@.len() == 0 ==> r == Ok::<Outcome, Error>(Outcome::TrashEmpty) && final(fs)@ == old(fs)@
            && final(registry)@ == old(registry)@,
        old(registry)@.len() > 0 && !confirmed ==> r == Ok::<Outcome, Error>(Outcome::Canceled) && final(fs)@ == old(fs)@ && final(registry)@ == old(registry)@,
        old(registry)@.len() > 0 && confirmed ==> r == Ok::<Outcome, Error>(Outcome::Cleaned) && final(fs)@ == old(fs)@.remove_keys(Set::new(|k: Seq<char>| under_dir(trash_dir@, k))) && final(registry)@
            == Seq::<EntryV>::empty(),
{
    if registry.files().len() == 0 {
        return Ok(Outcome::TrashEmpty);
    }
    if !confirmed {
        return Ok(Outcome::Canceled);
    }
    fs.remove_under(trash_dir);
    registry.clear();
    Ok(Outcome::Cleaned)
}

} // verus!
