use dirinfo::BlockSize;
use dirinfo::DirInfo;

#[test]
fn filesizedistribydepth() {
    println!("{:#?}", DirInfo::new().pull(".").unwrap().get_files_size_by_depth());
}

#[test]
fn distribydepthfiles() {
    println!("{:#?}", DirInfo::new().pull(".").unwrap().get_num_files_by_depth());
}

#[test]
fn distribydepthdirectories() {
    println!("{:#?}", DirInfo::new().pull(".").unwrap().get_num_directories_by_depth());
}

#[test]
fn distribydepthsymlinks() {
    println!("{:#?}", DirInfo::new().pull(".").unwrap().get_num_symlinks_by_depth());
}

#[test]
fn getdeepest() {
    println!("{}", DirInfo::new().pull(".").unwrap().get_deepest_depth());
}

#[test]
fn distribution() {
    println!(
        "{:#?}",
        DirInfo::new()
            .pull(".")
            .unwrap()
            .get_file_size_distribution(BlockSize::Kb100)
    );
}

#[test]
fn splitfiles() {
    let d = DirInfo::new().pull("/etc").unwrap();
    println!("{:#?} ", d);
}

#[test]
fn hiddenfilesize() {
    println!("{}", DirInfo::new().pull("../..").unwrap().get_hidden_files_size());
}

#[test]
fn hiddenfilenum() {
    println!("{}", DirInfo::new().pull("../..").unwrap().get_num_hidden_files());
}

#[test]
fn filesizebyext() {
    println!(
        "{}",
        DirInfo::new()
            .pull("/etc")
            .unwrap()
            .get_files_size_by_file_ext(".conf")
    );
}

#[test]
fn dirinfonew() {
    println!("{:#?}", DirInfo::new().pull("../..").unwrap());
}

#[test]
fn filesize() {
    println!("{}", DirInfo::new().pull("../..").unwrap().get_files_size());
}
