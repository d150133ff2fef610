//! Directory-tree profiling: walk a subtree, classify every visited entry as a
//! directory, regular file, or symbolic link, and answer aggregate statistics
//! (totals, filtered totals, depth distributions, size histograms) over the
//! resulting immutable snapshot.

mod info;
mod laws;
mod model;
mod walker;

pub use info::DirInfo;
pub use laws::depth_counts_sum;
pub use laws::sum_u32;
pub use laws::lemma_bucket_half_open;
pub use laws::lemma_classification_partition;
pub use laws::lemma_depth_array_sums_to_count;
pub use laws::lemma_depth_distribution_total;
pub use laws::lemma_files_size_cross_check;
pub use laws::lemma_hidden_files_law;

pub use model::BlockSize;
pub use model::Entry;
pub use model::EntryKind;
pub use model::Error;
pub use model::clamped_u32;
pub use model::clamped_usize;
pub use model::block_width;
pub use model::count_at_depth;
pub use model::count_if;
pub use model::count_in_bucket;
pub use model::hidden_count_at_depth;
pub use model::hidden_size_at_depth;
pub use model::size_at_depth;
pub use model::str_has_suffix;
pub use model::str_is_hidden;
pub use model::entry_size;
pub use model::filtered;
pub use model::has_suffix;
pub use model::is_dir_entry;
pub use model::is_file_entry;
pub use model::is_hidden_name;
pub use model::is_symlink_entry;
pub use model::max_depth;
pub use model::max_size;
pub use model::sum_if;
pub use model::sum_sizes;
