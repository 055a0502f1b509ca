use random_pickfile::scan::{classify_entries, get_dir_file, EntryInfo};

fn entry(path: &str, name: Option<&str>, is_dir: bool) -> EntryInfo {
    EntryInfo { path: path.to_string(), name: name.map(|n| n.to_string()), is_dir }
}

fn listing() -> Vec<EntryInfo> {
    vec![
        entry("/w/a.jpg", Some("a.jpg"), false),
        entry("/w/b.png", Some("b.png"), false),
        entry("/w/notes.txt", Some("notes.txt"), false),
        entry("/w/2024pic_#_1", Some("2024pic_#_1"), true),
        entry("/w/album", Some("album"), true),
        entry("/w/c.png.jpg", Some("c.png.jpg"), false),
        entry("/w/d.jpg_#_", Some("d.jpg_#_"), false),
        entry("/w/odd", None, true),
    ]
}

fn types() -> Vec<String> {
    vec!["jpg".to_string(), "png".to_string()]
}

#[test]
fn classify_listing() {
    let res = classify_entries(&listing(), &types());
    assert_eq!(res.flag_dir_count, 2);
    let files: Vec<(usize, &str)> = res.files.iter().map(|f| (f.type_index, f.entry.path.as_str())).collect();
    // the first wanted type that occurs decides, not the first occurrence
    assert_eq!(
        files,
        vec![(0, "/w/a.jpg"), (1, "/w/b.png"), (0, "/w/c.png.jpg"), (0, "/w/d.jpg_#_")]
    );
    let dirs: Vec<&str> = res.dirs.iter().map(|d| d.path.as_str()).collect();
    assert_eq!(dirs, vec!["/w/2024pic_#_1", "/w/album", "/w/odd"]);
}

#[test]
fn classify_without_types() {
    let res = classify_entries(&listing(), &vec![]);
    assert_eq!(res.files.len(), 0);
    assert_eq!(res.dirs.len(), 3);
}

#[test]
fn get_dir_file_keeps_order_without_shuffle() {
    let res = get_dir_file(&listing(), &types(), false);
    let files: Vec<&str> = res.files.iter().map(|f| f.entry.path.as_str()).collect();
    assert_eq!(files, vec!["/w/a.jpg", "/w/b.png", "/w/c.png.jpg", "/w/d.jpg_#_"]);
}

#[test]
fn get_dir_file_shuffle_keeps_items() {
    for _ in 0..20 {
        let res = get_dir_file(&listing(), &types(), true);
        assert_eq!(res.flag_dir_count, 2);
        let mut files: Vec<(usize, String)> =
            res.files.iter().map(|f| (f.type_index, f.entry.path.clone())).collect();
        files.sort();
        assert_eq!(
            files,
            vec![
                (0, "/w/a.jpg".to_string()),
                (0, "/w/c.png.jpg".to_string()),
                (0, "/w/d.jpg_#_".to_string()),
                (1, "/w/b.png".to_string())
            ]
        );
        let mut dirs: Vec<String> = res.dirs.iter().map(|d| d.path.clone()).collect();
        dirs.sort();
        assert_eq!(dirs, vec!["/w/2024pic_#_1", "/w/album", "/w/odd"]);
    }
}
