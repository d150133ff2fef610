//! Plain data model for one traversal: entry kinds, entries, traversal
//! errors, histogram bucket widths, and the specification functions that the
//! statistics contracts are stated over.

use vstd::prelude::*;
use vstd::string::StrSliceExecFns;

verus! {

/// The kind of one visited filesystem object.
#[derive(Clone, Copy, PartialEq, Eq, Structural, Debug)]
pub enum EntryKind {
    Directory,
    File,
    Symlink,
}

/// One filesystem object visited during a traversal, reduced to plain values:
/// its kind, its base name, its full path, its depth below the root (a
/// direct child of the root has depth 0), and, for a regular file whose
/// metadata could be read, its size in bytes. `size` is `None` for non-files
/// and for files whose metadata read failed; such files are skipped by size
/// queries.
#[derive(Debug)]
pub struct Entry {
    pub kind: EntryKind,
    pub name: String,
    pub path: String,
    pub depth: usize,
    pub size: Option<usize>,
}

impl Clone for Entry {
    fn clone(&self) -> (r: Self)
        ensures
            r == *self,
    {
        Entry {
            kind: self.kind,
            name: self.name.clone(),
            path: self.path.clone(),
            depth: self.depth,
            size: self.size,
        }
    }
}

/// The width of one size-histogram bucket: 100 kilobytes, 500 kilobytes, or a
/// caller-chosen number of megabytes.
#[derive(Clone, Copy, Debug)]
pub enum BlockSize {
    Kb100,
    Kb500,
    Mb(usize),
}

/// One non-fatal traversal failure: the offending path if one is known, the
/// depth at which the failure occurred, and the underlying cause.
#[derive(Debug)]
pub struct Error {
    pub error: Option<std::io::Error>,
    pub path: Option<String>,
    pub depth: usize,
}

impl Error {
    pub fn new(path: Option<String>, depth: usize, error: Option<std::io::Error>) -> (r: Error)
        ensures
            r.path == path,
            r.depth == depth,
            r.error == error,
    {
        Error { path: path, depth: depth, error: error }
    }
}

// ---------------------------------------------------------------------------
// Specification model
// ---------------------------------------------------------------------------

/// The distinguished fatal error built when the root itself cannot be walked
/// as a directory: it names the root path, sits at depth 0, and carries no
/// underlying cause of its own.
pub open spec fn is_root_error(e: Error, root: Seq<char>) -> bool {
    &&& e.depth == 0
    &&& e.error is None
    &&& e.path matches Some(p) && p@ == root
}

pub open spec fn is_dir_entry(e: Entry) -> bool {
    e.kind == EntryKind::Directory
}

pub open spec fn is_file_entry(e: Entry) -> bool {
    e.kind == EntryKind::File
}

pub open spec fn is_symlink_entry(e: Entry) -> bool {
    e.kind == EntryKind::Symlink
}

/// An entry is hidden exactly when its base name begins with a dot.
pub open spec fn is_hidden_name(name: Seq<char>) -> bool {
    name.len() > 0 && name[0] == '.'
}

/// Exact-suffix match: `ext` is no longer than `name` and equals its tail.
pub open spec fn has_suffix(name: Seq<char>, ext: Seq<char>) -> bool {
    ext.len() <= name.len() && name.subrange(name.len() - ext.len(), name.len() as int) == ext
}

/// The bytes an entry contributes to a size query: its size if one was read,
/// 0 otherwise (an unreadable file is skipped, never a failure).
pub open spec fn entry_size(e: Entry) -> int {
    match e.size {
        Some(n) => n as int,
        None => 0,
    }
}

/// How many entries of `s` satisfy `p`.
pub open spec fn count_if(s: Seq<Entry>, p: spec_fn(Entry) -> bool) -> int
    decreases s.len(),
{
    if s.len() == 0 {
        0
    } else {
        count_if(s.drop_last(), p) + if p(s.last()) {
            1int
        } else {
            0int
        }
    }
}

/// The total bytes contributed by the entries of `s` that satisfy `p`.
pub open spec fn sum_if(s: Seq<Entry>, p: spec_fn(Entry) -> bool) -> int
    decreases s.len(),
{
    if s.len() == 0 {
        0
    } else {
        sum_if(s.drop_last(), p) + if p(s.last()) {
            entry_size(s.last())
        } else {
            0int
        }
    }
}

/// The total bytes contributed by all entries of `s`.
pub open spec fn sum_sizes(s: Seq<Entry>) -> int
    decreases s.len(),
{
    if s.len() == 0 {
        0
    } else {
        sum_sizes(s.drop_last()) + entry_size(s.last())
    }
}

/// The greatest depth among the entries of `s`; 0 when `s` is empty.
pub open spec fn max_depth(s: Seq<Entry>) -> int
    decreases s.len(),
{
    if s.len() == 0 {
        0
    } else {
        let m = max_depth(s.drop_last());
        if s.last().depth > m {
            s.last().depth as int
        } else {
            m
        }
    }
}

/// The greatest recorded size among the entries of `s`; 0 when none has one.
pub open spec fn max_size(s: Seq<Entry>) -> int
    decreases s.len(),
{
    if s.len() == 0 {
        0
    } else {
        let m = max_size(s.drop_last());
        if entry_size(s.last()) > m {
            entry_size(s.last())
        } else {
            m
        }
    }
}

/// The subsequence of `s` whose entries satisfy `p`, in order.
pub open spec fn filtered(s: Seq<Entry>, p: spec_fn(Entry) -> bool) -> Seq<Entry>
    decreases s.len(),
{
    if s.len() == 0 {
        Seq::<Entry>::empty()
    } else {
        let r = filtered(s.drop_last(), p);
        if p(s.last()) {
            r.push(s.last())
        } else {
            r
        }
    }
}

/// How many entries of `s` sit at depth `d + 1` (the depth level that index
/// `d` of a depth-distribution array stands for).
pub open spec fn count_at_depth(s: Seq<Entry>, d: int) -> int {
    count_if(s, |e: Entry| e.depth as int == d + 1)
}

/// The total bytes of the entries of `s` at depth `d + 1`.
pub open spec fn size_at_depth(s: Seq<Entry>, d: int) -> int {
    sum_if(s, |e: Entry| e.depth as int == d + 1)
}

/// How many hidden entries of `s` sit at depth `d + 1`.
pub open spec fn hidden_count_at_depth(s: Seq<Entry>, d: int) -> int {
    count_if(s, |e: Entry| is_hidden_name(e.name@) && e.depth as int == d + 1)
}

/// The total bytes of the hidden entries of `s` at depth `d + 1`.
pub open spec fn hidden_size_at_depth(s: Seq<Entry>, d: int) -> int {
    sum_if(s, |e: Entry| is_hidden_name(e.name@) && e.depth as int == d + 1)
}

/// How many entries of `s` have a recorded size that falls in the half-open
/// interval `[b * width, (b + 1) * width)` — equivalently, whose size divided
/// by `width` is `b`. An entry without a recorded size is in no bucket.
pub open spec fn count_in_bucket(s: Seq<Entry>, width: int, b: int) -> int {
    count_if(s, |e: Entry| e.size is Some && entry_size(e) / width == b)
}

/// The bucket width in bytes that a `BlockSize` choice selects.
pub open spec fn block_width(b: BlockSize) -> int {
    match b {
        BlockSize::Kb100 => 100000,
        BlockSize::Kb500 => 500000,
        BlockSize::Mb(x) => (x as int) * 1000000,
    }
}

/// `n` clamped to the greatest value a `usize` can hold. Within range the
/// clamp is the identity, so every contract stated through it is exact
/// whenever the true total fits the machine word.
pub open spec fn clamped_usize(n: int) -> int {
    if n <= usize::MAX as int {
        n
    } else {
        usize::MAX as int
    }
}

/// `n` clamped to the greatest value a `u32` can hold. Within range the
/// clamp is the identity, so every contract stated through it is exact
/// whenever the true count fits 32 bits.
pub open spec fn clamped_u32(n: int) -> int {
    if n <= u32::MAX as int {
        n
    } else {
        u32::MAX as int
    }
}

// ---------------------------------------------------------------------------
// Step lemmas: how the recursive model functions grow along a prefix walk.
// ---------------------------------------------------------------------------

pub proof fn lemma_count_step(s: Seq<Entry>, p: spec_fn(Entry) -> bool, i: int)
    requires
        0 <= i < s.len(),
    ensures
        count_if(s.subrange(0, i + 1), p) == count_if(s.subrange(0, i), p) + if p(s[i]) {
            1int
        } else {
            0int
        },
{
    let t = s.subrange(0, i + 1);
    assert(t.drop_last() =~= s.subrange(0, i));
    assert(t.last() == s[i]);
}

pub proof fn lemma_sum_step(s: Seq<Entry>, p: spec_fn(Entry) -> bool, i: int)
    requires
        0 <= i < s.len(),
    ensures
        sum_if(s.subrange(0, i + 1), p) == sum_if(s.subrange(0, i), p) + if p(s[i]) {
            entry_size(s[i])
        } else {
            0int
        },
{
    let t = s.subrange(0, i + 1);
    assert(t.drop_last() =~= s.subrange(0, i));
    assert(t.last() == s[i]);
}

pub proof fn lemma_sum_sizes_step(s: Seq<Entry>, i: int)
    requires
        0 <= i < s.len(),
    ensures
        sum_sizes(s.subrange(0, i + 1)) == sum_sizes(s.subrange(0, i)) + entry_size(s[i]),
{
    let t = s.subrange(0, i + 1);
    assert(t.drop_last() =~= s.subrange(0, i));
    assert(t.last() == s[i]);
}

pub proof fn lemma_max_depth_step(s: Seq<Entry>, i: int)
    requires
        0 <= i < s.len(),
    ensures
        max_depth(s.subrange(0, i + 1)) == if s[i].depth > max_depth(s.subrange(0, i)) {
            s[i].depth as int
        } else {
            max_depth(s.subrange(0, i))
        },
{
    let t = s.subrange(0, i + 1);
    assert(t.drop_last() =~= s.subrange(0, i));
    assert(t.last() == s[i]);
}

pub proof fn lemma_max_size_step(s: Seq<Entry>, i: int)
    requires
        0 <= i < s.len(),
    ensures
        max_size(s.subrange(0, i + 1)) == if entry_size(s[i]) > max_size(s.subrange(0, i)) {
            entry_size(s[i])
        } else {
            max_size(s.subrange(0, i))
        },
{
    let t = s.subrange(0, i + 1);
    assert(t.drop_last() =~= s.subrange(0, i));
    assert(t.last() == s[i]);
}

pub proof fn lemma_filtered_step(s: Seq<Entry>, p: spec_fn(Entry) -> bool, i: int)
    requires
        0 <= i < s.len(),
    ensures
        filtered(s.subrange(0, i + 1), p) == if p(s[i]) {
            filtered(s.subrange(0, i), p).push(s[i])
        } else {
            filtered(s.subrange(0, i), p)
        },
{
    let t = s.subrange(0, i + 1);
    assert(t.drop_last() =~= s.subrange(0, i));
    assert(t.last() == s[i]);
}

pub proof fn lemma_count_at_depth_step(s: Seq<Entry>, d: int, i: int)
    requires
        0 <= i < s.len(),
    ensures
        count_at_depth(s.subrange(0, i + 1), d) == count_at_depth(s.subrange(0, i), d) + if s[i].depth as int == d + 1 {
            1int
        } else {
            0int
        },
{
    lemma_count_step(s, |e: Entry| e.depth as int == d + 1, i);
}

pub proof fn lemma_size_at_depth_step(s: Seq<Entry>, d: int, i: int)
    requires
        0 <= i < s.len(),
    ensures
        size_at_depth(s.subrange(0, i + 1), d) == size_at_depth(s.subrange(0, i), d) + if s[i].depth as int == d + 1 {
            entry_size(s[i])
        } else {
            0int
        },
{
    lemma_sum_step(s, |e: Entry| e.depth as int == d + 1, i);
}

pub proof fn lemma_hidden_count_at_depth_step(s: Seq<Entry>, d: int, i: int)
    requires
        0 <= i < s.len(),
    ensures
        hidden_count_at_depth(s.subrange(0, i + 1), d) == hidden_count_at_depth(
            s.subrange(0, i),
            d,
        ) + if is_hidden_name(s[i].name@) && s[i].depth as int == d + 1 {
            1int
        } else {
            0int
        },
{
    lemma_count_step(s, |e: Entry| is_hidden_name(e.name@) && e.depth as int == d + 1, i);
}

pub proof fn lemma_hidden_size_at_depth_step(s: Seq<Entry>, d: int, i: int)
    requires
        0 <= i < s.len(),
    ensures
        hidden_size_at_depth(s.subrange(0, i + 1), d) == hidden_size_at_depth(s.subrange(0, i), d)
            + if is_hidden_name(s[i].name@) && s[i].depth as int == d + 1 {
            entry_size(s[i])
        } else {
            0int
        },
{
    lemma_sum_step(s, |e: Entry| is_hidden_name(e.name@) && e.depth as int == d + 1, i);
}

pub proof fn lemma_count_in_bucket_step(s: Seq<Entry>, width: int, b: int, i: int)
    requires
        0 <= i < s.len(),
    ensures
        count_in_bucket(s.subrange(0, i + 1), width, b) == count_in_bucket(
            s.subrange(0, i),
            width,
            b,
        ) + if s[i].size is Some && entry_size(s[i]) / width == b {
            1int
        } else {
            0int
        },
{
    lemma_count_step(s, |e: Entry| e.size is Some && entry_size(e) / width == b, i);
}

/// The per-depth counts never exceed the sequence's length.
pub proof fn lemma_count_at_depth_le_len(s: Seq<Entry>, d: int)
    ensures
        0 <= count_at_depth(s, d) <= s.len(),
{
    lemma_count_le_len(s, |e: Entry| e.depth as int == d + 1);
}

/// The per-depth sums are never negative.
pub proof fn lemma_size_at_depth_nonneg(s: Seq<Entry>, d: int)
    ensures
        0 <= size_at_depth(s, d),
{
    lemma_sum_if_nonneg(s, |e: Entry| e.depth as int == d + 1);
}

/// The per-depth hidden sums are never negative.
pub proof fn lemma_hidden_size_at_depth_nonneg(s: Seq<Entry>, d: int)
    ensures
        0 <= hidden_size_at_depth(s, d),
{
    lemma_sum_if_nonneg(s, |e: Entry| is_hidden_name(e.name@) && e.depth as int == d + 1);
}

/// The per-bucket counts never exceed the sequence's length.
pub proof fn lemma_count_in_bucket_le_len(s: Seq<Entry>, width: int, b: int)
    ensures
        0 <= count_in_bucket(s, width, b) <= s.len(),
{
    lemma_count_le_len(s, |e: Entry| e.size is Some && entry_size(e) / width == b);
}

/// A full prefix is the sequence itself.
pub proof fn lemma_subrange_all(s: Seq<Entry>)
    ensures
        s.subrange(0, s.len() as int) =~= s,
{
}

// ---------------------------------------------------------------------------
// Bounds on the model functions.
// ---------------------------------------------------------------------------

/// No filter keeps more entries than the sequence holds.
pub proof fn lemma_count_le_len(s: Seq<Entry>, p: spec_fn(Entry) -> bool)
    ensures
        0 <= count_if(s, p) <= s.len(),
    decreases s.len(),
{
    if s.len() > 0 {
        lemma_count_le_len(s.drop_last(), p);
    }
}

/// A sum of entry sizes is never negative.
pub proof fn lemma_sum_if_nonneg(s: Seq<Entry>, p: spec_fn(Entry) -> bool)
    ensures
        0 <= sum_if(s, p),
    decreases s.len(),
{
    if s.len() > 0 {
        lemma_sum_if_nonneg(s.drop_last(), p);
    }
}

/// The unfiltered sum of entry sizes is never negative either.
pub proof fn lemma_sum_sizes_nonneg(s: Seq<Entry>)
    ensures
        0 <= sum_sizes(s),
    decreases s.len(),
{
    if s.len() > 0 {
        lemma_sum_sizes_nonneg(s.drop_last());
    }
}

/// Every entry's depth is bounded by the sequence's greatest depth.
pub proof fn lemma_max_depth_ge(s: Seq<Entry>)
    ensures
        0 <= max_depth(s),
        forall|i: int| 0 <= i < s.len() ==> (#[trigger] s[i]).depth <= max_depth(s),
    decreases s.len(),
{
    if s.len() > 0 {
        lemma_max_depth_ge(s.drop_last());
        assert(forall|i: int| 0 <= i < s.len() - 1 ==> s[i] == s.drop_last()[i]);
    }
}

/// Every entry's recorded size is bounded by the sequence's greatest size.
pub proof fn lemma_max_size_ge(s: Seq<Entry>)
    ensures
        0 <= max_size(s),
        forall|i: int| 0 <= i < s.len() ==> entry_size(#[trigger] s[i]) <= max_size(s),
    decreases s.len(),
{
    if s.len() > 0 {
        lemma_max_size_ge(s.drop_last());
        assert(forall|i: int| 0 <= i < s.len() - 1 ==> s[i] == s.drop_last()[i]);
    }
}

// ---------------------------------------------------------------------------
// Executable string predicates, proved against the lexical definitions.
// ---------------------------------------------------------------------------

/// Whether `name` names a hidden object: its first character is a dot.
pub fn str_is_hidden(name: &str) -> (r: bool)
    ensures
        r == is_hidden_name(name@),
{
    if name.unicode_len() == 0 {
        return false;
    }
    name.get_char(0) == '.'
}

/// Whether `ext` is an exact suffix of `name`, character by character.
pub fn str_has_suffix(name: &str, ext: &str) -> (r: bool)
    ensures
        r == has_suffix(name@, ext@),
{
    let n = name.unicode_len();
    let m = ext.unicode_len();
    if m > n {
        return false;
    }
    let mut i: usize = 0;
    while i < m
        invariant
            i <= m,
            m <= n,
            n == name@.len(),
            m == ext@.len(),
            forall|j: int| 0 <= j < i ==> name@[n - m + j] == ext@[j],
        decreases m - i,
    {
        let a = name.get_char(n - m + i);
        let b = ext.get_char(i);
        if a != b {
            proof {
                let tail = name@.subrange(n - m, n as int);
                assert(tail[i as int] == name@[n - m + i]);
            }
            return false;
        }
        i += 1;
    }
    proof {
        assert(name@.subrange(n - m, n as int) =~= ext@);
    }
    true
}

} // verus!
