use dirinfo::BlockSize;
use dirinfo::DirInfo;
use dirinfo::Entry;
use dirinfo::EntryKind;
use dirinfo::Error;

fn file(name: &str, depth: usize, size: usize) -> Entry {
    Entry {
        kind: EntryKind::File,
        name: name.to_string(),
        path: format!("root/{}", name),
        depth,
        size: Some(size),
    }
}

fn dir(name: &str, depth: usize) -> Entry {
    Entry {
        kind: EntryKind::Directory,
        name: name.to_string(),
        path: format!("root/{}", name),
        depth,
        size: None,
    }
}

fn link(name: &str, depth: usize) -> Entry {
    Entry {
        kind: EntryKind::Symlink,
        name: name.to_string(),
        path: format!("root/{}", name),
        depth,
        size: None,
    }
}

fn snap(entries: Vec<Entry>) -> DirInfo {
    DirInfo::from_entries("root".to_string(), entries, Vec::new())
}

#[test]
fn scenario_basic() {
    let d = snap(vec![
        file("a.txt", 0, 10),
        file(".b", 0, 5),
        dir("sub", 0),
        file("c.log", 1, 20),
    ]);
    assert_eq!(d.get_num_files(), 3);
    assert_eq!(d.get_files_size(), 35);
    assert_eq!(d.get_hidden_files_size(), 5);
    assert_eq!(d.get_num_hidden_files(), 1);
    assert_eq!(d.get_num_directories(), 1);
    assert_eq!(d.get_deepest_depth(), 1);
    assert_eq!(d.get_files_size_by_file_ext(".txt"), 10);
    assert_eq!(d.get_num_files_by_file_ext(".txt"), 1);
    assert_eq!(d.get_num_files_by_depth(), vec![1u32]);
}

#[test]
fn extension_suffix_match() {
    let d = snap(vec![file("archive.tar.gz", 0, 7)]);
    assert_eq!(d.get_files_size_by_file_ext(".gz"), 7);
    assert_eq!(d.get_num_files_by_file_ext(".gz"), 1);
    assert_eq!(d.get_files_size_by_file_ext(".tar.gz"), 7);
    assert_eq!(d.get_num_files_by_file_ext(".tar.gz"), 1);
    assert_eq!(d.get_files_size_by_file_ext(".tar"), 0);
    assert_eq!(d.get_num_files_by_file_ext(".tar"), 0);
}

#[test]
fn deepest_depth_root_only() {
    let d = snap(vec![file("a", 0, 1), file("b", 0, 2)]);
    assert_eq!(d.get_deepest_depth(), 0);
    assert_eq!(d.get_num_files_by_depth(), Vec::<u32>::new());
}

#[test]
fn deepest_depth_nested() {
    let d = snap(vec![dir("a", 0), dir("b", 1), file("file.txt", 2, 3)]);
    assert_eq!(d.get_deepest_depth(), 2);
}

#[test]
fn depth_distribution_sums() {
    let d = snap(vec![
        file("a", 1, 1),
        file("b", 1, 1),
        file("c", 2, 1),
        dir("x", 0),
        dir("y", 1),
        link("l", 1),
    ]);
    let files = d.get_num_files_by_depth();
    assert_eq!(files, vec![2u32, 1u32]);
    assert_eq!(files.len(), d.get_deepest_depth());
    assert_eq!(files.iter().sum::<u32>() as usize, d.get_num_files());
    assert_eq!(d.get_num_directories_by_depth(), vec![1u32]);
    assert_eq!(d.get_num_symlinks_by_depth(), vec![1u32]);
}

#[test]
fn histogram_half_open() {
    let d = snap(vec![file("exact", 0, 100_000), file("under", 0, 99_999)]);
    assert_eq!(d.get_file_size_distribution(BlockSize::Kb100), vec![1, 1]);
}

#[test]
fn histogram_widths() {
    let d = snap(vec![file("big", 0, 1_000_000)]);
    assert_eq!(d.get_file_size_distribution(BlockSize::Mb(1)), vec![0, 1]);
    assert_eq!(
        d.get_file_size_distribution(BlockSize::Kb500),
        vec![0, 0, 1]
    );
    assert_eq!(d.get_file_size_distribution(BlockSize::Mb(2)), vec![1]);
}

#[test]
fn histogram_empty_single_bucket() {
    let d = snap(Vec::new());
    assert_eq!(d.get_file_size_distribution(BlockSize::Kb100), vec![0]);
    assert_eq!(d.get_file_size_distribution(BlockSize::Mb(3)), vec![0]);
}

#[test]
fn partition_counts() {
    let d = snap(vec![
        file("a", 0, 1),
        dir("b", 0),
        link("c", 0),
        file("d", 1, 2),
        dir("e", 1),
    ]);
    let total = d.get_num_files() + d.get_num_directories() + d.get_num_symlinks();
    assert_eq!(total, d.all.len());
    assert_eq!(total, 5);
}

#[test]
fn hidden_set() {
    let d = snap(vec![
        file(".one", 0, 3),
        file("two", 0, 4),
        file(".three", 1, 5),
        dir(".git", 0),
        dir("src", 0),
    ]);
    assert_eq!(d.get_num_hidden_files(), 2);
    assert_eq!(d.get_hidden_files_size(), 8);
    assert_eq!(d.get_num_hidden_directories(), 1);
}

#[test]
fn sizes_by_depth() {
    let d = snap(vec![
        file(".a", 1, 5),
        file("b", 1, 10),
        file(".c", 2, 20),
        file("root_level", 0, 100),
    ]);
    assert_eq!(d.get_files_size_by_depth(), vec![15, 20]);
    assert_eq!(d.get_hidden_files_size_by_depth(), vec![5, 20]);
    assert_eq!(d.get_num_hidden_files_by_depth(), vec![1u32, 1u32]);
}

#[test]
fn unreadable_size_skipped() {
    let unreadable = Entry {
        kind: EntryKind::File,
        name: "gone".to_string(),
        path: "root/gone".to_string(),
        depth: 0,
        size: None,
    };
    let d = snap(vec![file("kept", 0, 10), unreadable]);
    assert_eq!(d.get_num_files(), 2);
    assert_eq!(d.get_files_size(), 10);
    assert_eq!(d.get_file_size_distribution(BlockSize::Kb100), vec![1]);
}

#[test]
fn errors_do_not_disturb_stats() {
    let entries = vec![file("a", 0, 10), dir("ok", 0), file("b", 1, 20)];
    let plain = DirInfo::from_entries("root".to_string(), entries, Vec::new());
    let entries_again = vec![file("a", 0, 10), dir("ok", 0), file("b", 1, 20)];
    let blocked = vec![Error::new(Some("root/blocked".to_string()), 0, None)];
    let with_err = DirInfo::from_entries("root".to_string(), entries_again, blocked);
    assert_eq!(with_err.errors.len(), 1);
    assert_eq!(with_err.get_num_files(), plain.get_num_files());
    assert_eq!(with_err.get_files_size(), plain.get_files_size());
    assert_eq!(with_err.get_num_directories(), plain.get_num_directories());
    assert_eq!(with_err.get_deepest_depth(), plain.get_deepest_depth());
}

#[test]
fn total_size_cross_check() {
    let d = DirInfo::new().pull("src").unwrap();
    let recomputed: usize = d
        .all
        .iter()
        .filter(|e| matches!(e.kind, EntryKind::File))
        .map(|e| e.size.unwrap_or(0))
        .sum();
    assert_eq!(d.get_files_size(), recomputed);
}

#[test]
fn rewalk_is_idempotent() {
    let a = DirInfo::new().pull("src").unwrap();
    let b = DirInfo::new().pull("src").unwrap();
    assert_eq!(a.get_num_files(), b.get_num_files());
    assert_eq!(a.get_num_directories(), b.get_num_directories());
    assert_eq!(a.get_num_symlinks(), b.get_num_symlinks());
    assert_eq!(a.get_files_size(), b.get_files_size());
    assert_eq!(a.get_hidden_files_size(), b.get_hidden_files_size());
    assert_eq!(a.get_num_hidden_files(), b.get_num_hidden_files());
    assert_eq!(a.get_deepest_depth(), b.get_deepest_depth());
    assert_eq!(a.get_num_files_by_depth(), b.get_num_files_by_depth());
    assert_eq!(a.get_files_size_by_depth(), b.get_files_size_by_depth());
    assert_eq!(
        a.get_file_size_distribution(BlockSize::Kb100),
        b.get_file_size_distribution(BlockSize::Kb100)
    );
}

#[test]
fn walked_counts_partition() {
    let d = DirInfo::new().pull("src").unwrap();
    assert_eq!(
        d.get_num_files() + d.get_num_directories() + d.get_num_symlinks(),
        d.all.len()
    );
    assert!(d.get_num_files() > 0);
}

#[test]
fn symlink_root_is_walked() {
    let d = DirInfo::new().pull("/bin").unwrap();
    assert!(d.get_num_files() > 0);
}

#[test]
fn fatal_missing_root() {
    assert!(DirInfo::new().pull("this_path_does_not_exist_anywhere").is_err());
}

#[test]
fn fatal_root_not_directory() {
    assert!(DirInfo::new().pull("Cargo.toml").is_err());
}

#[test]
fn empty_snapshot_stats() {
    let d = DirInfo::new();
    assert_eq!(d.get_num_files(), 0);
    assert_eq!(d.get_files_size(), 0);
    assert_eq!(d.get_deepest_depth(), 0);
    assert_eq!(d.get_num_files_by_depth(), Vec::<u32>::new());
    assert_eq!(d.get_files_size_by_depth(), Vec::<usize>::new());
}
