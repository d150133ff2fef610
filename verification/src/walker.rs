//! The bridge to the filesystem traversal: declarations of the outside types
//! that a walk produces, thin trusted wrappers around the walkdir calls the
//! walk needs, and the verified conversion of raw walk output into the plain
//! entry values the rest of the library works on.

use vstd::prelude::*;

use crate::model::Entry;
use crate::model::EntryKind;

verus! {

#[verifier::external_type_specification]
#[verifier::external_body]
pub struct ExDirEntry(walkdir::DirEntry);

#[verifier::external_type_specification]
#[verifier::external_body]
pub struct ExIoError(std::io::Error);

/// Relies on `WalkDir::new` and its `IntoIterator`: a depth-first walk rooted
/// at `root`, yielding the root itself first (at depth 0) and then every
/// reachable descendant. Symbolic links below the root are reported but not
/// descended into; the root itself, when it is a symlink to a directory, is
/// followed (walkdir's default for the root). Each unreadable entry comes
/// back as an error item instead of stopping the walk. An error item is repackaged on the spot (relying on
/// `walkdir::Error::{path, depth, io_error}` and `std::io::Error::{kind,
/// new}`) into a library error that keeps the offending path, the raw depth,
/// and the underlying cause. What comes back depends on the filesystem, so
/// nothing is promised of it; the callers handle every outcome.
#[verifier::external_body]
pub(crate) fn walk_raw(root: &str) -> Vec<Result<walkdir::DirEntry, crate::model::Error>> {
    let mut items: Vec<Result<walkdir::DirEntry, crate::model::Error>> = Vec::new();
    for item in walkdir::WalkDir::new(root) {
        match item {
            Ok(d) => items.push(Ok(d)),
            Err(e) => {
                let path = match e.path() { Some(p) => Some(p.to_string_lossy().into_owned()), None => None };
                let depth = e.depth();
                let kind = match e.io_error() { Some(err) => err.kind(), None => std::io::ErrorKind::Other };
                let io = std::io::Error::new(kind, e);
                items.push(Err(crate::model::Error::new(path, depth, Some(io))));
            },
        }
    }
    items
}

/// The library error that stands for one raw walk failure in a snapshot:
/// the same path and cause, with the depth shifted down by one so that
/// failures among the root's direct children sit at depth 0, matching the
/// entry depth convention; a raw depth of 0 stays 0.
pub open spec fn shifted_error(err: crate::model::Error) -> crate::model::Error {
    crate::model::Error {
        path: err.path,
        depth: if err.depth >= 1 {
            (err.depth - 1) as usize
        } else {
            0
        },
        error: err.error,
    }
}

/// The error list that a snapshot owes for a raw walk suffix: every error
/// item, in walk order, shifted as `shifted_error` says; successful items
/// contribute nothing.
pub open spec fn shifted_errors(
    raw: Seq<Result<walkdir::DirEntry, crate::model::Error>>,
) -> Seq<crate::model::Error>
    decreases raw.len(),
{
    if raw.len() == 0 {
        Seq::<crate::model::Error>::empty()
    } else {
        let rest = shifted_errors(raw.drop_last());
        match raw.last() {
            Ok(_) => rest,
            Err(e) => rest.push(shifted_error(e)),
        }
    }
}

/// Whether a raw walk item is a failure carrying exactly the error `e`.
pub open spec fn err_item_is(
    item: Result<walkdir::DirEntry, crate::model::Error>,
    e: crate::model::Error,
) -> bool {
    item matches Err(e0) && e0 == e
}

/// A raw walk item that reports a failure at depth 0: with a directory
/// root, only the listing of the root itself can fail there, so such an
/// item directly after the root marks the root as unreadable.
pub open spec fn root_list_failure(
    item: Result<walkdir::DirEntry, crate::model::Error>,
) -> bool {
    item matches Err(e) && e.depth == 0
}

pub proof fn lemma_shifted_errors_step(
    raw: Seq<Result<walkdir::DirEntry, crate::model::Error>>,
    lo: int,
    k: int,
)
    requires
        0 <= lo <= k < raw.len(),
    ensures
        raw[k] is Ok ==> shifted_errors(raw.subrange(lo, k + 1)) == shifted_errors(
            raw.subrange(lo, k),
        ),
        raw[k] matches Err(e) ==> shifted_errors(raw.subrange(lo, k + 1)) == shifted_errors(
            raw.subrange(lo, k),
        ).push(shifted_error(e)),
{
    let t = raw.subrange(lo, k + 1);
    assert(t.drop_last() =~= raw.subrange(lo, k));
    assert(t.last() == raw[k]);
}

/// Relies on `DirEntry::file_type` and `std::fs::FileType::is_dir`: whether
/// the entry points to a directory. No promise is made; the value is a
/// point-in-time read of the filesystem.
#[verifier::external_body]
pub(crate) fn entry_is_dir(e: &walkdir::DirEntry) -> bool {
    e.file_type().is_dir()
}

/// Relies on `DirEntry::path` and `std::path::Path::is_dir`: whether the
/// entry's path currently points at a directory, following symbolic links —
/// the sense in which a root path "can be opened as a directory". A fresh
/// point-in-time read; no promise is made.
#[verifier::external_body]
pub(crate) fn entry_path_is_dir(e: &walkdir::DirEntry) -> bool {
    e.path().is_dir()
}

/// Relies on `DirEntry::file_type` and `std::fs::FileType::is_file`: whether
/// the entry points to a regular file.
#[verifier::external_body]
pub(crate) fn entry_is_file(e: &walkdir::DirEntry) -> bool {
    e.file_type().is_file()
}

/// Relies on `DirEntry::file_type` and `std::fs::FileType::is_symlink`:
/// whether the entry was created from a symbolic link.
#[verifier::external_body]
pub(crate) fn entry_is_symlink(e: &walkdir::DirEntry) -> bool {
    e.file_type().is_symlink()
}

/// Relies on `DirEntry::file_name`: the entry's base name (the full path when
/// it has no base name), read lossily as text.
#[verifier::external_body]
pub(crate) fn entry_name(e: &walkdir::DirEntry) -> String {
    e.file_name().to_string_lossy().into_owned()
}

/// Relies on `DirEntry::path`: the full path the entry represents (the root
/// joined with the names down to the entry), read lossily as text.
#[verifier::external_body]
pub(crate) fn entry_path(e: &walkdir::DirEntry) -> String {
    e.path().to_string_lossy().into_owned()
}

/// Relies on `DirEntry::depth`: the depth at which the walk created the
/// entry; the root passed to the walk has depth 0, its direct descendants
/// depth 1, and so on.
#[verifier::external_body]
pub(crate) fn entry_depth(e: &walkdir::DirEntry) -> usize {
    e.depth()
}

/// Relies on `DirEntry::metadata` and `std::fs::Metadata::len`: the entry's
/// size in bytes, or `None` when the metadata read fails (for example because
/// the entry vanished after it was visited).
#[verifier::external_body]
pub(crate) fn entry_size(e: &walkdir::DirEntry) -> Option<usize> {
    match e.metadata() {
        Ok(m) => Some(m.len() as usize),
        Err(_) => None,
    }
}

/// Decide how one visited object enters the snapshot, from the plain values
/// read back from it: the root itself (raw depth 0) and an object that is
/// none of directory, regular file, or symbolic link are not classified;
/// every other object becomes an entry of its kind, with the stored depth
/// shifted down by one (a direct child of the root has depth 0) and its
/// size kept only when it is a regular file.
pub(crate) fn classify_entry(
    is_dir: bool,
    is_file: bool,
    is_symlink: bool,
    name: String,
    path: String,
    raw_depth: usize,
    size: Option<usize>,
) -> (r: Option<Entry>)
    ensures
        r is Some <==> (raw_depth >= 1 && (is_dir || is_file || is_symlink)),
        r matches Some(e) ==> e.name == name && e.path == path && e.depth == raw_depth - 1 && (
        is_dir ==> e.kind == EntryKind::Directory && e.size is None) && (!is_dir && is_file
            ==> e.kind == EntryKind::File && e.size == size) && (!is_dir && !is_file && is_symlink
            ==> e.kind == EntryKind::Symlink && e.size is None),
{
    if raw_depth == 0 {
        return None;
    }
    if is_dir {
        Some(Entry { kind: EntryKind::Directory, name, path, depth: raw_depth - 1, size: None })
    } else if is_file {
        Some(Entry { kind: EntryKind::File, name, path, depth: raw_depth - 1, size })
    } else if is_symlink {
        Some(Entry { kind: EntryKind::Symlink, name, path, depth: raw_depth - 1, size: None })
    } else {
        None
    }
}

/// Read one successfully visited raw entry back as plain values and let
/// `classify_entry` decide how it enters the snapshot. The size is read only
/// for regular files; a failed metadata read leaves it `None`, so later
/// queries skip the file's size rather than fail.
pub(crate) fn convert_entry(de: walkdir::DirEntry) -> (r: Option<Entry>)
    ensures
        r matches Some(e) ==> (e.kind == EntryKind::File || e.size is None),
{
    let raw_depth = entry_depth(&de);
    let is_dir = entry_is_dir(&de);
    let is_file = entry_is_file(&de);
    let is_symlink = entry_is_symlink(&de);
    let size: Option<usize> = if !is_dir && is_file {
        entry_size(&de)
    } else {
        None
    };
    let name = entry_name(&de);
    let path = entry_path(&de);
    classify_entry(is_dir, is_file, is_symlink, name, path, raw_depth, size)
}

} // verus!
