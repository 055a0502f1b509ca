use random_pickfile::plan::DataError;
use random_pickfile::sequential::{
    drawn_target_path,
    folder_path, draw_file, sort_paths, drawn_name, needs_folder, plan_folders, DrawnFile,
};

#[test]
fn sort_pathsing() {
    let paths = vec![
        Some("/w/a.jpg".to_string()),
        None,
        Some("/w.png/readme".to_string()),
        Some("/w/b.txt".to_string()),
    ];
    let (files, others) = sort_paths(&paths, &vec!["jpg".to_string(), "png".to_string()]);
    let f: Vec<(usize, &str)> = files.iter().map(|x| (x.type_index, x.path.as_str())).collect();
    assert_eq!(f, vec![(0, "/w/a.jpg"), (1, "/w.png/readme")]);
    assert_eq!(others, vec!["/w/b.txt".to_string()]);
}

#[test]
fn folder_path_creation() {
    let listed = vec!["/w/x".to_string(), "/w/2024pics-1".to_string()];
    assert!(!needs_folder("/w/2024pics-1", &listed, '/'));
    assert!(needs_folder("/w/2024pics-2", &listed, '/'));
    assert_eq!(folder_path("/w", '/', "2024", "pics", 2), "/w/2024pics-2");
}

#[test]
fn sequential_names() {
    assert_eq!(drawn_name(3, true, "jpg", "/w/a.jpg", "/w", '/'), "3.jpg");
    assert_eq!(drawn_name(3, false, "jpg", "/w/a.jpg", "/w", '/'), "a.jpg");
    assert_eq!(drawn_name(1, false, "jpg", "/x/w/q/w/a.jpg", "/w", '/'), "q/w/a.jpg");
    assert_eq!(drawn_name(1, false, "jpg", "/other/a.jpg", "/w", '/'), "");
}

#[test]
fn sequential_draws() {
    let mut list: Vec<DrawnFile> = (0..6)
        .map(|k| DrawnFile { type_index: 0, path: format!("/w/{}.jpg", k) })
        .collect();
    let mut seen = vec![];
    while !list.is_empty() {
        let before = list.len();
        let f = draw_file(&mut list);
        assert_eq!(list.len(), before - 1);
        assert!(!list.iter().any(|x| x.path == f.path));
        seen.push(f.path);
    }
    seen.sort();
    let expected: Vec<String> = (0..6).map(|k| format!("/w/{}.jpg", k)).collect();
    assert_eq!(seen, expected);
}

#[test]
fn drawn_target_paths() {
    assert_eq!(drawn_target_path("/w/2024pics-1", '/', 2, true, "png", "/w/b.png", "/w"), "/w/2024pics-1/2.png");
    assert_eq!(drawn_target_path("/w/2024pics-1", '/', 2, false, "png", "/w/b.png", "/w"), "/w/2024pics-1/b.png");
}

#[test]
fn folders_compare_by_component() {
    let listed = vec!["a/b".to_string()];
    assert!(!needs_folder("a//b", &listed, '/'));
    assert!(!needs_folder("a/b/", &listed, '/'));
    assert!(!needs_folder("a/./b", &listed, '/'));
    assert!(needs_folder("/a/b", &listed, '/'));
    assert!(needs_folder("./a/b", &listed, '/'));
    assert!(needs_folder("a/bc", &listed, '/'));
    let trailing = vec!["a/b/".to_string()];
    assert!(!needs_folder("a//b", &trailing, '/'));
    // a workspace setting that ends in the separator
    let from_listing = vec!["/w/2024pics-1".to_string()];
    assert!(!needs_folder("/w//2024pics-1", &from_listing, '/'));
    // with the Windows separator both separators count
    let win = vec!["C:\\w\\x".to_string()];
    assert!(!needs_folder("C:\\w/x", &win, '\\'));
    assert!(!needs_folder("c:\\w\\x\\", &win, '\\'));
    // a prefix and the root are components of their own
    assert!(needs_folder("C:", &vec!["C:\\".to_string()], '\\'));
    let unc = vec!["\\\\server\\share\\a".to_string()];
    assert!(needs_folder("\\server\\share\\a", &unc, '\\'));
    assert!(!needs_folder("//server/share/a", &unc, '\\'));
}

fn jpgs(n: usize) -> Vec<DrawnFile> {
    (0..n).map(|k| DrawnFile { type_index: 0, path: format!("/w/{}.jpg", k) }).collect()
}

#[test]
fn folders_get_their_share_of_draws() {
    let types = vec!["jpg".to_string()];
    let plan = plan_folders(jpgs(5), 3, 2, "/w", '/', "fixed", "pics", true, &types).unwrap();
    assert!(!plan.stalls);
    let sizes: Vec<usize> = plan.folders.iter().map(|f| f.drawn.len()).collect();
    assert_eq!(sizes, vec![2, 2, 1]);
    for (q, f) in plan.folders.iter().enumerate() {
        assert_eq!(f.date, "fixed");
        assert_eq!(f.path, format!("/w/fixedpics-{}", q + 1));
        for (j, t) in f.targets.iter().enumerate() {
            assert_eq!(t, &format!("/w/fixedpics-{}/{}.jpg", q + 1, j + 1));
        }
    }
    let mut moved: Vec<String> = plan.folders.iter().flat_map(|f| f.drawn.iter().map(|d| d.path.clone())).collect();
    moved.sort();
    let mut expected: Vec<String> = jpgs(5).into_iter().map(|d| d.path).collect();
    expected.sort();
    assert_eq!(moved, expected);
}

#[test]
fn folders_keep_names_without_renaming() {
    let types = vec!["jpg".to_string()];
    let plan = plan_folders(jpgs(1), 1, 3, "/w", '/', "d", "n", false, &types).unwrap();
    assert_eq!(plan.folders[0].targets, vec!["/w/dn-1/0.jpg".to_string()]);
}

#[test]
fn a_folder_owed_files_when_none_are_left_stalls_the_run() {
    let types = vec!["jpg".to_string()];
    let plan = plan_folders(jpgs(3), 4, 2, "/w", '/', "x", "p", true, &types).unwrap();
    assert!(plan.stalls);
    let sizes: Vec<usize> = plan.folders.iter().map(|f| f.drawn.len()).collect();
    assert_eq!(sizes, vec![2, 1, 0]);
    let none = plan_folders(jpgs(2), 2, 0, "/w", '/', "x", "p", true, &types).unwrap();
    assert!(!none.stalls);
    assert_eq!(none.folders.len(), 2);
    assert!(none.folders.iter().all(|f| f.drawn.is_empty()));
}

#[test]
fn folder_dates_need_a_writable_pattern() {
    let types = vec!["jpg".to_string()];
    assert_eq!(plan_folders(jpgs(2), 1, 2, "/w", '/', "%Q", "p", true, &types).err(), Some(DataError::DateFormat));
    let empty = plan_folders(jpgs(2), 0, 2, "/w", '/', "%Q", "p", true, &types).unwrap();
    assert!(empty.folders.is_empty());
    assert!(!empty.stalls);
}
