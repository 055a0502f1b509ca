use random_pickfile::archive::{
    archive_prefix_for_file, compress_outcome, compression_for, extract_entry_path,
    join_components, should_compress, zip_entry_for, CompressMethod, ZipEntry,
};

fn parts(v: &[&str]) -> Vec<String> {
    v.iter().map(|s| s.to_string()).collect()
}

#[test]
fn compression_by_suffix() {
    assert_eq!(compression_for(".zip"), CompressMethod::Deflated);
    assert_eq!(compression_for(".bz2"), CompressMethod::Bzip2);
    assert_eq!(compression_for(".zst"), CompressMethod::Zstd);
    assert_eq!(compression_for(".7z"), CompressMethod::Deflated);
    assert_eq!(compression_for(""), CompressMethod::Deflated);
    assert_eq!(compression_for("bz2"), CompressMethod::Deflated);
}

#[test]
fn entries_relative_to_root() {
    let root = parts(&["/", "data", "set_#_1"]);
    match zip_entry_for(&parts(&["/", "data", "set_#_1", "a.jpg"]), &root, true, '/') {
        ZipEntry::File(n) => assert_eq!(n, "a.jpg"),
        _ => panic!("expected a file"),
    }
    match zip_entry_for(&parts(&["/", "data", "set_#_1", "sub", "b.jpg"]), &root, true, '/') {
        ZipEntry::File(n) => assert_eq!(n, "sub/b.jpg"),
        _ => panic!("expected a file"),
    }
    match zip_entry_for(&parts(&["/", "data", "set_#_1", "sub"]), &root, false, '/') {
        ZipEntry::Directory(n) => assert_eq!(n, "sub"),
        _ => panic!("expected a directory"),
    }
    assert!(matches!(zip_entry_for(&root, &root, false, '/'), ZipEntry::Skip));
}

#[test]
fn join_with_separator() {
    assert_eq!(join_components(&parts(&[]), '/'), "");
    assert_eq!(join_components(&parts(&["a"]), '/'), "a");
    assert_eq!(join_components(&parts(&["a", "b", "c"]), '\\'), "a\\b\\c");
}

#[test]
fn file_prefix_defaults_to_root() {
    assert_eq!(archive_prefix_for_file(Some("/data".to_string())), "/data");
    assert_eq!(archive_prefix_for_file(None), "/");
}

#[test]
fn extracted_names() {
    assert_eq!(extract_entry_path("a\\b\\", true), "ab");
    assert_eq!(extract_entry_path("a\\b.txt", false), "a\\b.txt");
    assert_eq!(extract_entry_path("dir/", true), "dir/");
}

#[test]
fn compress_reports() {
    let ok = compress_outcome(true, false, "/w/x_#_1.zip");
    assert_eq!(ok.message, "Successful compress zip -> /w/x_#_1.zip");
    assert!(ok.remove_source);
    let kept = compress_outcome(true, true, "/w/x_#_1.zip");
    assert!(!kept.remove_source);
    let failed = compress_outcome(false, false, "/w/x_#_1.zip");
    assert_eq!(failed.message, "Error compress zip -> /w/x_#_1.zip");
    assert!(!failed.remove_source);
    assert!(should_compress(true, false));
    assert!(!should_compress(true, true));
    assert!(!should_compress(false, false));
}
