//! The library-wide laws: properties that relate several statistics of one
//! snapshot to each other, stated over the same specification model that the
//! query contracts use, and proved once and for all.

use vstd::prelude::*;

use vstd::arithmetic::div_mod::lemma_fundamental_div_mod;
use vstd::arithmetic::div_mod::lemma_fundamental_div_mod_converse_div;
use vstd::arithmetic::div_mod::lemma_mod_bound;

use crate::info::DirInfo;
use crate::model::Entry;
use crate::model::clamped_u32;
use crate::model::count_at_depth;
use crate::model::lemma_count_at_depth_le_len;
use crate::model::count_if;
use crate::model::entry_size;
use crate::model::filtered;
use crate::model::is_dir_entry;
use crate::model::is_file_entry;
use crate::model::is_hidden_name;
use crate::model::is_symlink_entry;
use crate::model::max_depth;
use crate::model::sum_if;
use crate::model::sum_sizes;

verus! {

/// Each entry is of exactly one kind, so the three kind filters of any entry
/// sequence together keep every entry exactly once.
pub proof fn lemma_kind_partition(s: Seq<Entry>)
    ensures
        filtered(s, |e: Entry| is_dir_entry(e)).len() + filtered(s, |e: Entry| is_file_entry(e)).len()
            + filtered(s, |e: Entry| is_symlink_entry(e)).len() == s.len(),
    decreases s.len(),
{
    if s.len() > 0 {
        lemma_kind_partition(s.drop_last());
    }
}

/// Law: no double counting, no silent loss — a snapshot's files,
/// directories and symbolic links together number exactly its classified
/// entries.
pub proof fn lemma_classification_partition(d: DirInfo)
    requires
        d.wf(),
    ensures
        d.files@.len() + d.directories@.len() + d.symlinks@.len() == d.all@.len(),
{
    lemma_kind_partition(d.all@);
}

/// Appending one entry to a sequence adds exactly its size to the total.
pub proof fn lemma_sum_sizes_push(s: Seq<Entry>, x: Entry)
    ensures
        sum_sizes(s.push(x)) == sum_sizes(s) + entry_size(x),
{
    assert(s.push(x).drop_last() =~= s);
}

/// Summing the sizes of the entries a filter keeps equals summing over the
/// whole sequence restricted to that filter.
pub proof fn lemma_sum_over_filtered(s: Seq<Entry>, p: spec_fn(Entry) -> bool)
    ensures
        sum_sizes(filtered(s, p)) == sum_if(s, p),
    decreases s.len(),
{
    if s.len() > 0 {
        lemma_sum_over_filtered(s.drop_last(), p);
        if p(s.last()) {
            lemma_sum_sizes_push(filtered(s.drop_last(), p), s.last());
        }
    }
}

/// Law: the total file size survives an independent recomputation — summing
/// the files subset of a snapshot gives the same bytes as a fresh pass over
/// the full entry sequence that only looks at files.
pub proof fn lemma_files_size_cross_check(d: DirInfo)
    requires
        d.wf(),
    ensures
        sum_sizes(d.files@) == sum_if(d.all@, |e: Entry| is_file_entry(e)),
{
    lemma_sum_over_filtered(d.all@, |e: Entry| is_file_entry(e));
}

/// A filter keeps as many entries as it counts.
pub proof fn lemma_count_is_filtered_len(s: Seq<Entry>, p: spec_fn(Entry) -> bool)
    ensures
        count_if(s, p) == filtered(s, p).len(),
    decreases s.len(),
{
    if s.len() > 0 {
        lemma_count_is_filtered_len(s.drop_last(), p);
    }
}

/// Law: for the hidden-file set of a snapshot — the subsequence of files
/// whose name begins with a dot — the hidden-file count is exactly that
/// set's cardinality, and the hidden-file size is exactly the sum of sizes
/// over that set.
pub proof fn lemma_hidden_files_law(d: DirInfo)
    ensures
        count_if(d.files@, |e: Entry| is_hidden_name(e.name@)) == filtered(
            d.files@,
            |e: Entry| is_hidden_name(e.name@),
        ).len(),
        sum_if(d.files@, |e: Entry| is_hidden_name(e.name@)) == sum_sizes(
            filtered(d.files@, |e: Entry| is_hidden_name(e.name@)),
        ),
{
    lemma_count_is_filtered_len(d.files@, |e: Entry| is_hidden_name(e.name@));
    lemma_sum_over_filtered(d.files@, |e: Entry| is_hidden_name(e.name@));
}

/// The running total of a depth distribution: the per-level counts for the
/// levels 1 up to `n` (that is, array indices 0 up to `n - 1`).
pub open spec fn depth_counts_sum(s: Seq<Entry>, n: int) -> int
    decreases n,
{
    if n <= 0 {
        0
    } else {
        depth_counts_sum(s, n - 1) + count_at_depth(s, n - 1)
    }
}

/// Appending one entry raises the per-level count of its own level by one.
pub proof fn lemma_count_at_depth_push(s: Seq<Entry>, x: Entry, d: int)
    ensures
        count_at_depth(s.push(x), d) == count_at_depth(s, d) + if x.depth as int == d + 1 {
            1int
        } else {
            0int
        },
{
    assert(s.push(x).drop_last() =~= s);
}

/// Appending one entry raises the running total by one exactly when the
/// entry's level lies within the summed range.
pub proof fn lemma_depth_counts_sum_push(s: Seq<Entry>, x: Entry, n: int)
    ensures
        depth_counts_sum(s.push(x), n) == depth_counts_sum(s, n) + if 1 <= x.depth as int <= n {
            1int
        } else {
            0int
        },
    decreases n,
{
    if n > 0 {
        lemma_depth_counts_sum_push(s, x, n - 1);
        lemma_count_at_depth_push(s, x, n - 1);
    }
}

/// No entry sits at a level above the sequence's deepest depth.
pub proof fn lemma_count_at_depth_zero_above(s: Seq<Entry>, d: int)
    requires
        max_depth(s) <= d,
    ensures
        count_at_depth(s, d) == 0,
    decreases s.len(),
{
    if s.len() > 0 {
        lemma_count_at_depth_zero_above(s.drop_last(), d);
        assert(s.drop_last().push(s.last()) =~= s);
        lemma_count_at_depth_push(s.drop_last(), s.last(), d);
    }
}

/// Extending the summed range past the deepest depth adds nothing.
pub proof fn lemma_depth_counts_sum_extend(s: Seq<Entry>, n1: int, n2: int)
    requires
        max_depth(s) <= n1 <= n2,
    ensures
        depth_counts_sum(s, n2) == depth_counts_sum(s, n1),
    decreases n2 - n1,
{
    if n1 < n2 {
        lemma_depth_counts_sum_extend(s, n1, n2 - 1);
        lemma_count_at_depth_zero_above(s, n2 - 1);
    }
}

/// Law: a depth distribution accounts for every entry — when every entry of
/// a kind lies strictly below the root, the per-level counts from depth 1 up
/// to that kind's own deepest depth add up to the total count of that kind.
/// (An entry sitting directly in the root, at depth 0, is excluded from the
/// distribution by design, so the law asks that none is.)
pub proof fn lemma_depth_distribution_total(s: Seq<Entry>)
    requires
        forall|i: int| 0 <= i < s.len() ==> 1 <= (#[trigger] s[i]).depth,
    ensures
        depth_counts_sum(s, max_depth(s)) == s.len(),
    decreases s.len(),
{
    if s.len() > 0 {
        let dl = s.drop_last();
        let x = s.last();
        assert(forall|i: int| 0 <= i < dl.len() ==> dl[i] == s[i]);
        lemma_depth_distribution_total(dl);
        assert(dl.push(x) =~= s);
        let m0 = max_depth(dl);
        let m = max_depth(s);
        lemma_depth_counts_sum_extend(dl, m0, m);
        lemma_depth_counts_sum_push(dl, x, m);
        assert(1 <= x.depth as int <= m);
    }
}

/// The total of a sequence of 32-bit counters.
pub open spec fn sum_u32(s: Seq<u32>) -> int
    decreases s.len(),
{
    if s.len() == 0 {
        0
    } else {
        sum_u32(s.drop_last()) + s.last()
    }
}

/// The running total of a depth-distribution array prefix equals the
/// running total of the per-level counts it stores, once each slot is known
/// to hold the exact count.
pub proof fn lemma_sum_u32_matches_depth_counts(s: Seq<Entry>, a: Seq<u32>, n: int)
    requires
        0 <= n <= a.len(),
        forall|d: int| 0 <= d < a.len() ==> (#[trigger] a[d]) as int == count_at_depth(s, d),
    ensures
        sum_u32(a.subrange(0, n)) == depth_counts_sum(s, n),
    decreases n,
{
    if n > 0 {
        lemma_sum_u32_matches_depth_counts(s, a, n - 1);
        let t = a.subrange(0, n);
        assert(t.drop_last() =~= a.subrange(0, n - 1));
        assert(t.last() == a[n - 1]);
    }
}

/// Law: a depth-distribution array accounts for every entry — for an array
/// shaped as the depth-distribution queries promise (one slot per level up
/// to the kind's deepest depth, each slot the clamped per-level count), if
/// every entry of the kind lies strictly below the root and the kind's
/// total count fits a 32-bit counter, the array's slots add up to exactly
/// that total count.
pub proof fn lemma_depth_array_sums_to_count(s: Seq<Entry>, a: Seq<u32>)
    requires
        s.len() <= u32::MAX as int,
        forall|i: int| 0 <= i < s.len() ==> 1 <= (#[trigger] s[i]).depth,
        a.len() == max_depth(s),
        forall|d: int|
            0 <= d < a.len() ==> (#[trigger] a[d]) as int == clamped_u32(count_at_depth(s, d)),
    ensures
        sum_u32(a) == s.len(),
{
    assert forall|d: int| 0 <= d < a.len() implies (#[trigger] a[d]) as int == count_at_depth(
        s,
        d,
    ) by {
        lemma_count_at_depth_le_len(s, d);
    }
    lemma_sum_u32_matches_depth_counts(s, a, a.len() as int);
    assert(a.subrange(0, a.len() as int) =~= a);
    lemma_depth_distribution_total(s);
}

/// Law: histogram buckets are half-open — a recorded size falls in bucket
/// `b` exactly when `b * width <= size < (b + 1) * width`. In particular a
/// file of exactly `width` bytes falls in bucket 1, not bucket 0.
pub proof fn lemma_bucket_half_open(size: int, width: int, b: int)
    requires
        0 <= size,
        1 <= width,
        0 <= b,
    ensures
        (size / width == b) <==> (b * width <= size < (b + 1) * width),
{
    if size / width == b {
        lemma_fundamental_div_mod(size, width);
        lemma_mod_bound(size, width);
        assert(size == width * b + (size % width));
        assert(b * width <= size < (b + 1) * width) by (nonlinear_arith)
            requires
                size == width * b + (size % width),
                0 <= size % width < width,
        {
        }
    }
    if b * width <= size < (b + 1) * width {
        assert(size == b * width + (size - b * width));
        assert(0 <= size - b * width < width) by (nonlinear_arith)
            requires
                b * width <= size < (b + 1) * width,
        {
        }
        lemma_fundamental_div_mod_converse_div(size, width, b, size - b * width);
    }
}

} // verus!
