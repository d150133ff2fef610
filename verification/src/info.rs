//! The immutable snapshot of one traversal (`DirInfo`) and the statistics
//! queries over it. A snapshot is built once — walk, classify, freeze — and
//! every query is a pure, total function of it.

use vstd::prelude::*;

use crate::model::BlockSize;
use crate::model::Entry;
use crate::model::EntryKind;
use crate::model::block_width;
use crate::model::clamped_u32;
use crate::model::clamped_usize;
use crate::model::count_at_depth;
use crate::model::count_if;
use crate::model::entry_size;
use crate::model::filtered;
use crate::model::has_suffix;
use crate::model::is_dir_entry;
use crate::model::is_file_entry;
use crate::model::is_hidden_name;
use crate::model::is_symlink_entry;
use crate::model::hidden_count_at_depth;
use crate::model::hidden_size_at_depth;
use crate::model::count_in_bucket;
use crate::model::lemma_count_at_depth_step;
use crate::model::lemma_count_in_bucket_le_len;
use crate::model::lemma_count_in_bucket_step;
use crate::model::lemma_hidden_count_at_depth_step;
use crate::model::lemma_hidden_size_at_depth_nonneg;
use crate::model::lemma_hidden_size_at_depth_step;
use crate::model::lemma_size_at_depth_nonneg;
use crate::model::lemma_size_at_depth_step;
use crate::model::size_at_depth;
use crate::model::lemma_count_step;
use crate::model::lemma_filtered_step;
use crate::model::lemma_max_depth_ge;
use crate::model::lemma_max_depth_step;
use crate::model::lemma_max_size_ge;
use crate::model::lemma_max_size_step;
use crate::model::lemma_subrange_all;
use crate::model::lemma_sum_if_nonneg;
use crate::model::lemma_sum_sizes_nonneg;
use crate::model::lemma_sum_sizes_step;
use crate::model::lemma_sum_step;
use crate::model::max_depth;
use crate::model::max_size;
use crate::model::str_has_suffix;
use crate::model::str_is_hidden;
use crate::model::sum_if;
use crate::model::sum_sizes;
use vstd::arithmetic::div_mod::lemma_div_decreases;
use vstd::arithmetic::div_mod::lemma_div_is_ordered;
use vstd::arithmetic::div_mod::lemma_div_is_ordered_by_denominator;

use crate::model::is_root_error;
use crate::walker::convert_entry;
use crate::walker::err_item_is;
use crate::walker::lemma_shifted_errors_step;
use crate::walker::root_list_failure;
use crate::walker::shifted_errors;
use crate::walker::entry_is_dir;
use crate::walker::entry_path_is_dir;
use crate::walker::walk_raw;

verus! {

/// A fresh vector holding the elements of `v` in the opposite order.
fn reversed<T>(v: Vec<T>) -> (r: Vec<T>)
    ensures
        r@.len() == v@.len(),
        forall|i: int| 0 <= i < v@.len() ==> r@[i] == v@[v@.len() - 1 - i],
{
    let mut src = v;
    let mut r: Vec<T> = Vec::new();
    proof {
        assert(src@ =~= src@.subrange(0, src@.len() as int));
    }
    while src.len() > 0
        invariant
            src@.len() + r@.len() == v@.len(),
            src@ =~= v@.subrange(0, src@.len() as int),
            forall|i: int| 0 <= i < r@.len() ==> r@[i] == v@[v@.len() - 1 - i],
        decreases src.len(),
    {
        let x = src.pop().unwrap();
        r.push(x);
        proof {
            assert(src@ =~= v@.subrange(0, src@.len() as int));
        }
    }
    r
}

/// The immutable result of one completed traversal: the root path, the full
/// entry sequence in walk order, the non-fatal traversal errors, and the
/// three classified subsets. Once built, every statistic is a pure function
/// of it.
#[derive(Debug)]
pub struct DirInfo {
    pub root: String,
    pub all: Vec<Entry>,
    pub errors: Vec<crate::model::Error>,
    pub directories: Vec<Entry>,
    pub files: Vec<Entry>,
    pub symlinks: Vec<Entry>,
}

impl DirInfo {
    /// The classified subsets are exactly the kind-wise, order-preserving
    /// partition of the entry sequence.
    pub open spec fn wf(self) -> bool {
        &&& self.directories@ == filtered(self.all@, |e: Entry| is_dir_entry(e))
        &&& self.files@ == filtered(self.all@, |e: Entry| is_file_entry(e))
        &&& self.symlinks@ == filtered(self.all@, |e: Entry| is_symlink_entry(e))
    }

    /// Create an empty snapshot: no entries, no errors, empty root path.
    pub fn new() -> (r: DirInfo)
        ensures
            r.wf(),
            r.root@ == Seq::<char>::empty(),
            r.all@ == Seq::<Entry>::empty(),
            r.errors@ == Seq::<crate::model::Error>::empty(),
    {
        let r = DirInfo {
            root: String::new(),
            all: Vec::new(),
            errors: Vec::new(),
            directories: Vec::new(),
            files: Vec::new(),
            symlinks: Vec::new(),
        };
        proof {
            assert(r.directories@ =~= filtered(r.all@, |e: Entry| is_dir_entry(e)));
            assert(r.files@ =~= filtered(r.all@, |e: Entry| is_file_entry(e)));
            assert(r.symlinks@ =~= filtered(r.all@, |e: Entry| is_symlink_entry(e)));
        }
        r
    }

    fn all_directories(self) -> (r: DirInfo)
        ensures
            r.root == self.root,
            r.all@ == self.all@,
            r.errors@ == self.errors@,
            r.files@ == self.files@,
            r.symlinks@ == self.symlinks@,
            r.directories@ == filtered(self.all@, |e: Entry| is_dir_entry(e)),
    {
        let mut entries: Vec<Entry> = Vec::new();
        let n = self.all.len();
        let mut i: usize = 0;
        while i < n
            invariant
                i <= n,
                n == self.all.len(),
                entries@ == filtered(self.all@.subrange(0, i as int), |e: Entry| is_dir_entry(e)),
            decreases n - i,
        {
            proof {
                lemma_filtered_step(self.all@, |e: Entry| is_dir_entry(e), i as int);
            }
            let e = &self.all[i];
            if matches!(e.kind, EntryKind::Directory) {
                entries.push(e.clone());
            }
            i += 1;
        }
        proof {
            lemma_subrange_all(self.all@);
        }
        DirInfo { directories: entries, ..self }
    }

    fn all_files(self) -> (r: DirInfo)
        ensures
            r.root == self.root,
            r.all@ == self.all@,
            r.errors@ == self.errors@,
            r.directories@ == self.directories@,
            r.symlinks@ == self.symlinks@,
            r.files@ == filtered(self.all@, |e: Entry| is_file_entry(e)),
    {
        let mut entries: Vec<Entry> = Vec::new();
        let n = self.all.len();
        let mut i: usize = 0;
        while i < n
            invariant
                i <= n,
                n == self.all.len(),
                entries@ == filtered(self.all@.subrange(0, i as int), |e: Entry| is_file_entry(e)),
            decreases n - i,
        {
            proof {
                lemma_filtered_step(self.all@, |e: Entry| is_file_entry(e), i as int);
            }
            let e = &self.all[i];
            if matches!(e.kind, EntryKind::File) {
                entries.push(e.clone());
            }
            i += 1;
        }
        proof {
            lemma_subrange_all(self.all@);
        }
        DirInfo { files: entries, ..self }
    }

    fn all_symlinks(self) -> (r: DirInfo)
        ensures
            r.root == self.root,
            r.all@ == self.all@,
            r.errors@ == self.errors@,
            r.directories@ == self.directories@,
            r.files@ == self.files@,
            r.symlinks@ == filtered(self.all@, |e: Entry| is_symlink_entry(e)),
    {
        let mut entries: Vec<Entry> = Vec::new();
        let n = self.all.len();
        let mut i: usize = 0;
        while i < n
            invariant
                i <= n,
                n == self.all.len(),
                entries@ == filtered(self.all@.subrange(0, i as int), |e: Entry| is_symlink_entry(e)),
            decreases n - i,
        {
            proof {
                lemma_filtered_step(self.all@, |e: Entry| is_symlink_entry(e), i as int);
            }
            let e = &self.all[i];
            if matches!(e.kind, EntryKind::Symlink) {
                entries.push(e.clone());
            }
            i += 1;
        }
        proof {
            lemma_subrange_all(self.all@);
        }
        DirInfo { symlinks: entries, ..self }
    }

    /// Build a snapshot from a given entry sequence and error list: classify
    /// the entries into the three kind subsets and freeze everything.
    pub fn from_entries(root: String, all: Vec<Entry>, errors: Vec<crate::model::Error>) -> (r:
        DirInfo)
        ensures
            r.wf(),
            r.root == root,
            r.all@ == all@,
            r.errors@ == errors@,
    {
        let d = DirInfo {
            root,
            all,
            errors,
            directories: Vec::new(),
            files: Vec::new(),
            symlinks: Vec::new(),
        };
        d.all_directories().all_files().all_symlinks()
    }

    /// Walk the subtree rooted at `root_dir` and build its snapshot.
    ///
    /// The one fatal condition is a root that cannot be opened as a
    /// directory — it does not exist, it is a file, a symlink to a
    /// non-directory, or its own listing cannot be read (a symlink to a
    /// directory can be opened, and is walked): that is reported as `Err`,
    /// distinct from the per-entry errors collected inside an `Ok`
    /// snapshot, and no partial snapshot is produced. Every failure below the root is non-fatal: it becomes one
    /// entry of the snapshot's error list and the walk goes on. What the
    /// walk finds is decided by the filesystem, so the snapshot's contents
    /// are not pinned here; every statistic over it is.
    pub fn pull(self, root_dir: &str) -> (r: Result<DirInfo, crate::model::Error>)
        ensures
            r matches Ok(d) ==> d.wf() && d.root@ == root_dir@,
    {
        let raw = walk_raw(root_dir);
        let root_ok: bool = if raw.len() > 0 {
            match &raw[0] {
                Ok(de) => entry_is_dir(de) || entry_path_is_dir(de),
                Err(_) => false,
            }
        } else {
            false
        };
        Self::assemble(root_dir, root_ok, raw)
    }

    /// Turn one raw walk output into the snapshot or the fatal error — the
    /// whole decision after the filesystem has spoken, verified for every
    /// value of the walk output. `root_ok` is the caller's reading of
    /// whether the root can be opened as a directory (its own type, or the
    /// type behind a root symlink).
    ///
    /// Fatal are exactly: an empty walk, a walk whose first item is an
    /// error (the root could not be opened), a first item with `root_ok`
    /// false (the root is not a directory), and a failure at raw depth 0
    /// directly after the root (the root's own listing could not be read).
    /// The first and third of these return the root-marked error; the
    /// others return the walk's own error. Every other walk output yields
    /// the snapshot, whose error list is exactly the walk's error items
    /// after the root, in order, with their depths shifted to the entry
    /// convention.
    fn assemble(
        root_dir: &str,
        root_ok: bool,
        raw: Vec<Result<walkdir::DirEntry, crate::model::Error>>,
    ) -> (r: Result<DirInfo, crate::model::Error>)
        ensures
            r matches Ok(d) ==> d.wf() && d.root@ == root_dir@ && d.errors@ == shifted_errors(
                raw@.skip(1),
            ),
            raw@.len() == 0 ==> (r matches Err(e) && is_root_error(e, root_dir@)),
            raw@.len() > 0 && raw@[0] is Err ==> (r matches Err(e) && err_item_is(raw@[0], e)),
            raw@.len() > 0 && raw@[0] is Ok && !root_ok ==> (r matches Err(e) && is_root_error(
                e,
                root_dir@,
            )),
            raw@.len() > 1 && raw@[0] is Ok && root_ok && root_list_failure(raw@[1]) ==> r is Err,
            raw@.len() > 0 && raw@[0] is Ok && root_ok && !(raw@.len() > 1 && root_list_failure(
                raw@[1],
            )) ==> r is Ok,
            r matches Err(e) ==> (is_root_error(e, root_dir@) || (raw@.len() > 0 && err_item_is(
                raw@[0],
                e,
            )) || (raw@.len() > 1 && err_item_is(raw@[1], e) && e.depth == 0)),
    {
        let ghost raw_seq = raw@;
        let n = raw.len();
        if n == 0 {
            return Err(crate::model::Error::new(Some(root_dir.to_owned()), 0, None));
        }
        let mut rev = reversed(raw);
        match rev.pop().unwrap() {
            Err(err) => {
                return Err(err);
            },
            Ok(_) => {
                if !root_ok {
                    return Err(crate::model::Error::new(Some(root_dir.to_owned()), 0, None));
                }
            },
        }
        let mut entries: Vec<Entry> = Vec::new();
        let mut errs: Vec<crate::model::Error> = Vec::new();
        while rev.len() > 0
            invariant
                raw_seq == raw@,
                n == raw_seq.len(),
                n >= 1,
                raw_seq[0] is Ok,
                root_ok,
                rev@.len() < n,
                forall|i: int| 0 <= i < rev@.len() ==> rev@[i] == raw_seq[n - 1 - i],
                errs@ == shifted_errors(raw_seq.subrange(1, n - rev@.len())),
                n - rev@.len() >= 2 ==> !root_list_failure(raw_seq[1]),
            decreases rev.len(),
        {
            let ghost k = n - rev@.len();
            let first_after_root: bool = rev.len() == n - 1;
            let item = rev.pop().unwrap();
            proof {
                assert(item == raw_seq[k]);
                lemma_shifted_errors_step(raw_seq, 1, k);
            }
            match item {
                Ok(de) => {
                    match convert_entry(de) {
                        Some(en) => entries.push(en),
                        None => {},
                    }
                },
                Err(err) => {
                    if first_after_root && err.depth == 0 {
                        return Err(err);
                    }
                    let shifted: usize = if err.depth >= 1 {
                        err.depth - 1
                    } else {
                        0
                    };
                    errs.push(crate::model::Error::new(err.path, shifted, err.error));
                },
            }
        }
        proof {
            assert(raw_seq.subrange(1, n as int) =~= raw_seq.skip(1));
        }
        Ok(DirInfo::from_entries(root_dir.to_owned(), entries, errs))
    }

    /// The total size in bytes of all files found, clamped at `usize::MAX`;
    /// a file whose size could not be read contributes nothing.
    pub fn get_files_size(&self) -> (r: usize)
        ensures
            r as int == clamped_usize(sum_sizes(self.files@)),
    {
        let mut total: usize = 0;
        let n = self.files.len();
        let mut i: usize = 0;
        while i < n
            invariant
                i <= n,
                n == self.files.len(),
                total as int == clamped_usize(sum_sizes(self.files@.subrange(0, i as int))),
            decreases n - i,
        {
            proof {
                lemma_sum_sizes_step(self.files@, i as int);
                lemma_sum_sizes_nonneg(self.files@.subrange(0, i as int));
            }
            let sz: usize = match self.files[i].size {
                Some(s) => s,
                None => 0,
            };
            total = if total <= usize::MAX - sz {
                total + sz
            } else {
                usize::MAX
            };
            i += 1;
        }
        proof {
            lemma_subrange_all(self.files@);
        }
        total
    }

    /// The total size in bytes of the files whose name ends exactly with
    /// `ext` (case-sensitive), clamped at `usize::MAX`.
    pub fn get_files_size_by_file_ext(&self, ext: &str) -> (r: usize)
        ensures
            r as int == clamped_usize(
                sum_if(self.files@, |e: Entry| has_suffix(e.name@, ext@)),
            ),
    {
        let mut total: usize = 0;
        let n = self.files.len();
        let mut i: usize = 0;
        while i < n
            invariant
                i <= n,
                n == self.files.len(),
                total as int == clamped_usize(
                    sum_if(
                        self.files@.subrange(0, i as int),
                        |e: Entry| has_suffix(e.name@, ext@),
                    ),
                ),
            decreases n - i,
        {
            proof {
                lemma_sum_step(self.files@, |e: Entry| has_suffix(e.name@, ext@), i as int);
                lemma_sum_if_nonneg(
                    self.files@.subrange(0, i as int),
                    |e: Entry| has_suffix(e.name@, ext@),
                );
            }
            if str_has_suffix(self.files[i].name.as_str(), ext) {
                let sz: usize = match self.files[i].size {
                    Some(s) => s,
                    None => 0,
                };
                total = if total <= usize::MAX - sz {
                    total + sz
                } else {
                    usize::MAX
                };
            }
            i += 1;
        }
        proof {
            lemma_subrange_all(self.files@);
        }
        total
    }

    /// How many files have a name that ends exactly with `ext`.
    pub fn get_num_files_by_file_ext(&self, ext: &str) -> (r: usize)
        ensures
            r == count_if(self.files@, |e: Entry| has_suffix(e.name@, ext@)),
    {
        let mut cnt: usize = 0;
        let n = self.files.len();
        let mut i: usize = 0;
        while i < n
            invariant
                i <= n,
                cnt <= i,
                n == self.files.len(),
                cnt == count_if(
                    self.files@.subrange(0, i as int),
                    |e: Entry| has_suffix(e.name@, ext@),
                ),
            decreases n - i,
        {
            proof {
                lemma_count_step(self.files@, |e: Entry| has_suffix(e.name@, ext@), i as int);
            }
            if str_has_suffix(self.files[i].name.as_str(), ext) {
                cnt = cnt + 1;
            }
            i += 1;
        }
        proof {
            lemma_subrange_all(self.files@);
        }
        cnt
    }

    /// The total size in bytes of the hidden files (name begins with a dot),
    /// clamped at `usize::MAX`.
    pub fn get_hidden_files_size(&self) -> (r: usize)
        ensures
            r as int == clamped_usize(sum_if(self.files@, |e: Entry| is_hidden_name(e.name@))),
    {
        let mut total: usize = 0;
        let n = self.files.len();
        let mut i: usize = 0;
        while i < n
            invariant
                i <= n,
                n == self.files.len(),
                total as int == clamped_usize(
                    sum_if(self.files@.subrange(0, i as int), |e: Entry| is_hidden_name(e.name@)),
                ),
            decreases n - i,
        {
            proof {
                lemma_sum_step(self.files@, |e: Entry| is_hidden_name(e.name@), i as int);
                lemma_sum_if_nonneg(
                    self.files@.subrange(0, i as int),
                    |e: Entry| is_hidden_name(e.name@),
                );
            }
            if str_is_hidden(self.files[i].name.as_str()) {
                let sz: usize = match self.files[i].size {
                    Some(s) => s,
                    None => 0,
                };
                total = if total <= usize::MAX - sz {
                    total + sz
                } else {
                    usize::MAX
                };
            }
            i += 1;
        }
        proof {
            lemma_subrange_all(self.files@);
        }
        total
    }

    /// How many hidden files were found.
    pub fn get_num_hidden_files(&self) -> (r: usize)
        ensures
            r == count_if(self.files@, |e: Entry| is_hidden_name(e.name@)),
    {
        let mut cnt: usize = 0;
        let n = self.files.len();
        let mut i: usize = 0;
        while i < n
            invariant
                i <= n,
                cnt <= i,
                n == self.files.len(),
                cnt == count_if(
                    self.files@.subrange(0, i as int),
                    |e: Entry| is_hidden_name(e.name@),
                ),
            decreases n - i,
        {
            proof {
                lemma_count_step(self.files@, |e: Entry| is_hidden_name(e.name@), i as int);
            }
            if str_is_hidden(self.files[i].name.as_str()) {
                cnt = cnt + 1;
            }
            i += 1;
        }
        proof {
            lemma_subrange_all(self.files@);
        }
        cnt
    }

    /// How many hidden sub-directories were found.
    pub fn get_num_hidden_directories(&self) -> (r: usize)
        ensures
            r == count_if(self.directories@, |e: Entry| is_hidden_name(e.name@)),
    {
        let mut cnt: usize = 0;
        let n = self.directories.len();
        let mut i: usize = 0;
        while i < n
            invariant
                i <= n,
                cnt <= i,
                n == self.directories.len(),
                cnt == count_if(
                    self.directories@.subrange(0, i as int),
                    |e: Entry| is_hidden_name(e.name@),
                ),
            decreases n - i,
        {
            proof {
                lemma_count_step(self.directories@, |e: Entry| is_hidden_name(e.name@), i as int);
            }
            if str_is_hidden(self.directories[i].name.as_str()) {
                cnt = cnt + 1;
            }
            i += 1;
        }
        proof {
            lemma_subrange_all(self.directories@);
        }
        cnt
    }

    fn deepest_depth(entries: &Vec<Entry>) -> (r: usize)
        ensures
            r as int == max_depth(entries@),
    {
        let mut deepest: usize = 0;
        let n = entries.len();
        let mut i: usize = 0;
        while i < n
            invariant
                i <= n,
                n == entries.len(),
                deepest as int == max_depth(entries@.subrange(0, i as int)),
            decreases n - i,
        {
            proof {
                lemma_max_depth_step(entries@, i as int);
            }
            if entries[i].depth > deepest {
                deepest = entries[i].depth;
            }
            i += 1;
        }
        proof {
            lemma_subrange_all(entries@);
        }
        deepest
    }

    /// The greatest depth at which a file was found; 0 when there is none.
    /// A file directly inside the root sits at depth 0.
    pub fn get_deepest_depth(&self) -> (r: usize)
        ensures
            r as int == max_depth(self.files@),
    {
        Self::deepest_depth(&self.files)
    }

    fn entry_depth_distri(entries: &Vec<Entry>) -> (r: Vec<u32>)
        ensures
            r@.len() == max_depth(entries@),
            forall|d: int|
                0 <= d < r@.len() ==> (#[trigger] r@[d]) as int == clamped_u32(
                    count_at_depth(entries@, d),
                ),
    {
        let deepest = Self::deepest_depth(entries);
        let mut r: Vec<u32> = vec![0u32; deepest];
        let n = entries.len();
        let mut i: usize = 0;
        while i < n
            invariant
                i <= n,
                n == entries.len(),
                r@.len() == max_depth(entries@),
                forall|d: int|
                    0 <= d < r@.len() ==> (#[trigger] r@[d]) as int == clamped_u32(
                        count_at_depth(entries@.subrange(0, i as int), d),
                    ),
            decreases n - i,
        {
            proof {
                lemma_max_depth_ge(entries@);
                assert forall|d: int| 0 <= d < r@.len() implies #[trigger] count_at_depth(
                    entries@.subrange(0, i as int + 1),
                    d,
                ) == count_at_depth(entries@.subrange(0, i as int), d) + if entries@[i as int].depth
                    as int == d + 1 {
                    1int
                } else {
                    0int
                } by {
                    lemma_count_at_depth_step(entries@, d, i as int);
                }
            }
            let dep = entries[i].depth;
            if dep >= 1 {
                let idx = dep - 1;
                let old_v = r[idx];
                let new_v: u32 = if old_v < u32::MAX {
                    old_v + 1
                } else {
                    old_v
                };
                r.set(idx, new_v);
            }
            i += 1;
        }
        proof {
            lemma_subrange_all(entries@);
        }
        r
    }

    /// How many files sit at each depth level below the root: index `d`
    /// counts the files at depth `d + 1`; entries at depth 0 are excluded,
    /// and the array reaches up to the files' own deepest depth.
    pub fn get_num_files_by_depth(&self) -> (r: Vec<u32>)
        ensures
            r@.len() == max_depth(self.files@),
            forall|d: int|
                0 <= d < r@.len() ==> (#[trigger] r@[d]) as int == clamped_u32(
                    count_at_depth(self.files@, d),
                ),
    {
        Self::entry_depth_distri(&self.files)
    }

    /// How many sub-directories sit at each depth level below the root, in
    /// the same convention as `get_num_files_by_depth`.
    pub fn get_num_directories_by_depth(&self) -> (r: Vec<u32>)
        ensures
            r@.len() == max_depth(self.directories@),
            forall|d: int|
                0 <= d < r@.len() ==> (#[trigger] r@[d]) as int == clamped_u32(
                    count_at_depth(self.directories@, d),
                ),
    {
        Self::entry_depth_distri(&self.directories)
    }

    /// How many symbolic links sit at each depth level below the root, in
    /// the same convention as `get_num_files_by_depth`.
    pub fn get_num_symlinks_by_depth(&self) -> (r: Vec<u32>)
        ensures
            r@.len() == max_depth(self.symlinks@),
            forall|d: int|
                0 <= d < r@.len() ==> (#[trigger] r@[d]) as int == clamped_u32(
                    count_at_depth(self.symlinks@, d),
                ),
    {
        Self::entry_depth_distri(&self.symlinks)
    }

    /// The total bytes of the files at each depth level below the root:
    /// index `d` holds the summed sizes of the files at depth `d + 1`,
    /// clamped at `usize::MAX`; entries at depth 0 are excluded, and the
    /// array reaches up to the files' own deepest depth.
    pub fn get_files_size_by_depth(&self) -> (r: Vec<usize>)
        ensures
            r@.len() == max_depth(self.files@),
            forall|d: int|
                0 <= d < r@.len() ==> (#[trigger] r@[d]) as int == clamped_usize(
                    size_at_depth(self.files@, d),
                ),
    {
        let deepest = Self::deepest_depth(&self.files);
        let mut r: Vec<usize> = vec![0usize; deepest];
        let n = self.files.len();
        let mut i: usize = 0;
        while i < n
            invariant
                i <= n,
                n == self.files.len(),
                r@.len() == max_depth(self.files@),
                forall|d: int|
                    0 <= d < r@.len() ==> (#[trigger] r@[d]) as int == clamped_usize(
                        size_at_depth(self.files@.subrange(0, i as int), d),
                    ),
            decreases n - i,
        {
            proof {
                lemma_max_depth_ge(self.files@);
                assert forall|d: int| 0 <= d < r@.len() implies #[trigger] size_at_depth(
                    self.files@.subrange(0, i as int + 1),
                    d,
                ) == size_at_depth(self.files@.subrange(0, i as int), d) + if self.files@[
                    i as int].depth as int == d + 1 {
                    entry_size(self.files@[i as int])
                } else {
                    0int
                } && 0 <= size_at_depth(self.files@.subrange(0, i as int), d) by {
                    lemma_size_at_depth_step(self.files@, d, i as int);
                    lemma_size_at_depth_nonneg(self.files@.subrange(0, i as int), d);
                }
            }
            let dep = self.files[i].depth;
            if dep >= 1 {
                let idx = dep - 1;
                let sz: usize = match self.files[i].size {
                    Some(s) => s,
                    None => 0,
                };
                let old_v = r[idx];
                let new_v: usize = if old_v <= usize::MAX - sz {
                    old_v + sz
                } else {
                    usize::MAX
                };
                r.set(idx, new_v);
            }
            i += 1;
        }
        proof {
            lemma_subrange_all(self.files@);
        }
        r
    }

    /// The total bytes of the hidden files at each depth level below the
    /// root, in the same convention as `get_files_size_by_depth`.
    pub fn get_hidden_files_size_by_depth(&self) -> (r: Vec<usize>)
        ensures
            r@.len() == max_depth(self.files@),
            forall|d: int|
                0 <= d < r@.len() ==> (#[trigger] r@[d]) as int == clamped_usize(
                    hidden_size_at_depth(self.files@, d),
                ),
    {
        let deepest = Self::deepest_depth(&self.files);
        let mut r: Vec<usize> = vec![0usize; deepest];
        let n = self.files.len();
        let mut i: usize = 0;
        while i < n
            invariant
                i <= n,
                n == self.files.len(),
                r@.len() == max_depth(self.files@),
                forall|d: int|
                    0 <= d < r@.len() ==> (#[trigger] r@[d]) as int == clamped_usize(
                        hidden_size_at_depth(self.files@.subrange(0, i as int), d),
                    ),
            decreases n - i,
        {
            proof {
                lemma_max_depth_ge(self.files@);
                assert forall|d: int| 0 <= d < r@.len() implies #[trigger] hidden_size_at_depth(
                    self.files@.subrange(0, i as int + 1),
                    d,
                ) == hidden_size_at_depth(self.files@.subrange(0, i as int), d) + if is_hidden_name(
                    self.files@[i as int].name@,
                ) && self.files@[i as int].depth as int == d + 1 {
                    entry_size(self.files@[i as int])
                } else {
                    0int
                } && 0 <= hidden_size_at_depth(self.files@.subrange(0, i as int), d) by {
                    lemma_hidden_size_at_depth_step(self.files@, d, i as int);
                    lemma_hidden_size_at_depth_nonneg(self.files@.subrange(0, i as int), d);
                }
            }
            let dep = self.files[i].depth;
            let hid = str_is_hidden(self.files[i].name.as_str());
            if hid && dep >= 1 {
                let idx = dep - 1;
                let sz: usize = match self.files[i].size {
                    Some(s) => s,
                    None => 0,
                };
                let old_v = r[idx];
                let new_v: usize = if old_v <= usize::MAX - sz {
                    old_v + sz
                } else {
                    usize::MAX
                };
                r.set(idx, new_v);
            }
            i += 1;
        }
        proof {
            lemma_subrange_all(self.files@);
        }
        r
    }

    /// How many hidden files sit at each depth level below the root, in the
    /// same convention as `get_num_files_by_depth`.
    pub fn get_num_hidden_files_by_depth(&self) -> (r: Vec<u32>)
        ensures
            r@.len() == max_depth(self.files@),
            forall|d: int|
                0 <= d < r@.len() ==> (#[trigger] r@[d]) as int == clamped_u32(
                    hidden_count_at_depth(self.files@, d),
                ),
    {
        let deepest = Self::deepest_depth(&self.files);
        let mut r: Vec<u32> = vec![0u32; deepest];
        let n = self.files.len();
        let mut i: usize = 0;
        while i < n
            invariant
                i <= n,
                n == self.files.len(),
                r@.len() == max_depth(self.files@),
                forall|d: int|
                    0 <= d < r@.len() ==> (#[trigger] r@[d]) as int == clamped_u32(
                        hidden_count_at_depth(self.files@.subrange(0, i as int), d),
                    ),
            decreases n - i,
        {
            proof {
                lemma_max_depth_ge(self.files@);
                assert forall|d: int| 0 <= d < r@.len() implies #[trigger] hidden_count_at_depth(
                    self.files@.subrange(0, i as int + 1),
                    d,
                ) == hidden_count_at_depth(self.files@.subrange(0, i as int), d) + if is_hidden_name(
                    self.files@[i as int].name@,
                ) && self.files@[i as int].depth as int == d + 1 {
                    1int
                } else {
                    0int
                } by {
                    lemma_hidden_count_at_depth_step(self.files@, d, i as int);
                }
            }
            let dep = self.files[i].depth;
            let hid = str_is_hidden(self.files[i].name.as_str());
            if hid && dep >= 1 {
                let idx = dep - 1;
                let old_v = r[idx];
                let new_v: u32 = if old_v < u32::MAX {
                    old_v + 1
                } else {
                    old_v
                };
                r.set(idx, new_v);
            }
            i += 1;
        }
        proof {
            lemma_subrange_all(self.files@);
        }
        r
    }

    /// A histogram of file sizes: index `b` counts the files whose recorded
    /// size lies in the half-open interval `[b * width, (b + 1) * width)`,
    /// where `width` is the byte span the `blocksize` choice selects. The
    /// array always reaches the bucket of the largest recorded size, so an
    /// empty file set still yields a single zero-count bucket. A file whose
    /// size could not be read is in no bucket.
    pub fn get_file_size_distribution(&self, blocksize: BlockSize) -> (r: Vec<usize>)
        requires
            blocksize matches BlockSize::Mb(x) ==> 1 <= x && (x as int) * 1000000
                <= usize::MAX as int,
        ensures
            r@.len() == max_size(self.files@) / block_width(blocksize) + 1,
            forall|b: int|
                0 <= b < r@.len() ==> (#[trigger] r@[b]) as int == count_in_bucket(
                    self.files@,
                    block_width(blocksize),
                    b,
                ),
    {
        let blk: usize = match blocksize {
            BlockSize::Kb100 => 100000,
            BlockSize::Kb500 => 500000,
            BlockSize::Mb(x) => x * 1000000,
        };
        let n = self.files.len();
        let mut biggest: usize = 0;
        let mut i: usize = 0;
        while i < n
            invariant
                i <= n,
                n == self.files.len(),
                biggest as int == max_size(self.files@.subrange(0, i as int)),
            decreases n - i,
        {
            proof {
                lemma_max_size_step(self.files@, i as int);
            }
            match self.files[i].size {
                Some(s) => {
                    if s > biggest {
                        biggest = s;
                    }
                },
                None => {},
            }
            i += 1;
        }
        proof {
            lemma_subrange_all(self.files@);
            lemma_div_is_ordered_by_denominator(biggest as int, 2, blk as int);
            lemma_div_is_ordered(biggest as int, usize::MAX as int, 2);
            lemma_div_decreases(usize::MAX as int, 2);
        }
        let mut r: Vec<usize> = vec![0usize; biggest / blk + 1];
        let mut j: usize = 0;
        while j < n
            invariant
                j <= n,
                n == self.files.len(),
                100000 <= blk,
                blk as int == block_width(blocksize),
                biggest as int == max_size(self.files@),
                r@.len() == max_size(self.files@) / block_width(blocksize) + 1,
                forall|b: int|
                    0 <= b < r@.len() ==> (#[trigger] r@[b]) as int == count_in_bucket(
                        self.files@.subrange(0, j as int),
                        block_width(blocksize),
                        b,
                    ),
            decreases n - j,
        {
            proof {
                lemma_max_size_ge(self.files@);
                assert forall|b: int| 0 <= b < r@.len() implies #[trigger] count_in_bucket(
                    self.files@.subrange(0, j as int + 1),
                    block_width(blocksize),
                    b,
                ) == count_in_bucket(self.files@.subrange(0, j as int), block_width(blocksize), b)
                    + if self.files@[j as int].size is Some && entry_size(self.files@[j as int])
                    / block_width(blocksize) == b {
                    1int
                } else {
                    0int
                } && count_in_bucket(self.files@.subrange(0, j as int), block_width(blocksize), b)
                    <= j by {
                    lemma_count_in_bucket_step(self.files@, block_width(blocksize), b, j as int);
                    lemma_count_in_bucket_le_len(
                        self.files@.subrange(0, j as int),
                        block_width(blocksize),
                        b,
                    );
                }
            }
            match self.files[j].size {
                Some(s) => {
                    proof {
                        lemma_div_is_ordered(s as int, max_size(self.files@), blk as int);
                        lemma_count_in_bucket_le_len(
                            self.files@.subrange(0, j as int),
                            block_width(blocksize),
                            (s as int) / (blk as int),
                        );
                    }
                    let idx = s / blk;
                    let old_v = r[idx];
                    r.set(idx, old_v + 1);
                },
                None => {},
            }
            j += 1;
        }
        proof {
            lemma_subrange_all(self.files@);
        }
        r
    }

    /// The total number of files found.
    pub fn get_num_files(&self) -> (r: usize)
        ensures
            r == self.files@.len(),
    {
        self.files.len()
    }

    /// The total number of sub-directories found.
    pub fn get_num_directories(&self) -> (r: usize)
        ensures
            r == self.directories@.len(),
    {
        self.directories.len()
    }

    /// The total number of symbolic links found.
    pub fn get_num_symlinks(&self) -> (r: usize)
        ensures
            r == self.symlinks@.len(),
    {
        self.symlinks.len()
    }
}

} // verus!
