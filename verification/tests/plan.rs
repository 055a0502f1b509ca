use random_pickfile::plan::{
    date_text, date_text_at, parse_file_types, batch_count, batch_range, make_dir_prefix, plan_batch, plan_batch_random,
    plan_run, Data, DataError, RunPlan,
};
use random_pickfile::scan::{EntryInfo, FileItem, ScanResult};
use random_pickfile::settings::{Settings, SettingsDir, SettingsFile, SettingsMain};

fn settings(pick: usize, is_rename: bool, is_compress: bool, filetypes: &str, date: &str) -> Settings {
    Settings {
        dir: SettingsDir {
            pick_count: pick,
            name: "pics".to_string(),
            date: date.to_string(),
            workspace: "/w".to_string(),
            is_compress,
            is_save_compress_dir: false,
            compress_level: 6,
            compress_permissions: 0o755,
            compress_method: ".zip".to_string(),
        },
        file: SettingsFile { is_rename, filetypes: filetypes.to_string() },
        main: SettingsMain { thread: 1, cpu_core: 4 },
    }
}

fn file(k: usize, path: &str, name: Option<&str>) -> FileItem {
    FileItem {
        type_index: k,
        entry: EntryInfo { path: path.to_string(), name: name.map(|n| n.to_string()), is_dir: false },
    }
}

fn data() -> Data {
    let scan = ScanResult {
        flag_dir_count: 2,
        files: vec![
            file(0, "/w/a.jpg", Some("a.jpg")),
            file(1, "/w/b.png", Some("b.png")),
            file(0, "/w/c.jpg", None),
            file(1, "/w/d.png", Some("d.png")),
            file(0, "/w/e.jpg", Some("e.jpg")),
        ],
        dirs: vec![],
    };
    Data::from_parts("/w/2024pics_#_".to_string(), '/', vec!["jpg".to_string(), "png".to_string()], scan)
}

#[test]
fn folder_counts() {
    assert_eq!(batch_count(0, 3), 0);
    assert_eq!(batch_count(1, 3), 1);
    assert_eq!(batch_count(9, 3), 3);
    assert_eq!(batch_count(10, 3), 4);
    assert_eq!(batch_range(0, 3, 10), (0, 3));
    assert_eq!(batch_range(3, 3, 10), (9, 10));
    assert_eq!(batch_range(2, 3, 9), (6, 9));
}

#[test]
fn folders_partition_the_files() {
    for count in 0..30usize {
        for pick in 1..7usize {
            let n = batch_count(count, pick);
            let mut next = 0;
            for i in 0..n {
                let (s, e) = batch_range(i, pick, count);
                assert_eq!(s, next);
                assert!(s < e && e - s <= pick);
                next = e;
            }
            assert_eq!(next, count);
        }
    }
}

#[test]
fn folder_prefix() {
    assert_eq!(make_dir_prefix("/w", '/', "2024", "pics"), "/w/2024pics_#_");
    assert_eq!(make_dir_prefix("C:\\w", '\\', "", "x"), "C:\\w\\x_#_");
}

#[test]
fn plan_of_a_folder() {
    let d = data();
    let s = settings(2, false, true, "[\"jpg\",\"png\"]", "%Y");
    let names = vec!["AAAAAAAAAAAA".to_string(), "BBBBBBBBBBBB".to_string()];
    let p = plan_batch(&d, &s, 1, &names);
    assert_eq!(p.index, 1);
    assert_eq!(p.src_dir, "/w/2024pics_#_2");
    assert_eq!(p.dst_dir, "/w/2024pics_#_4.zip");
    let moves: Vec<(&str, &str)> = p.moves.iter().map(|m| (m.from.as_str(), m.to.as_str())).collect();
    assert_eq!(
        moves,
        vec![("/w/c.jpg", "/w/2024pics_#_2/AAAAAAAAAAAAjpg"), ("/w/d.png", "/w/2024pics_#_2/d.png")]
    );
    assert!(!p.wait_before);
    assert!(p.signal_after);
    let last = plan_batch(&d, &s, 2, &vec!["CCCCCCCCCCCC".to_string()]);
    assert_eq!(last.moves.len(), 1);
    assert_eq!(last.moves[0].to, "/w/2024pics_#_3/e.jpg");
    assert!(last.wait_before);
}

#[test]
fn plan_with_renaming() {
    let d = data();
    let s = settings(5, true, false, "[\"jpg\",\"png\"]", "%Y");
    let p = plan_batch_random(&d, &s, 0);
    assert_eq!(p.moves.len(), 5);
    assert_eq!(p.dst_dir, "/w/2024pics_#_3.zip");
    for (m, ext) in p.moves.iter().zip(["jpg", "png", "jpg", "png", "jpg"]) {
        let name = m.to.strip_prefix("/w/2024pics_#_1/").unwrap();
        assert_eq!(name.chars().count(), 12 + ext.len());
        assert!(name.ends_with(ext));
    }
    assert!(!p.signal_after);
}

#[test]
fn run_plans() {
    let d = data();
    match plan_run(&d, &settings(2, false, true, "[]", "%Y")) {
        RunPlan::Batches(n) => assert_eq!(n, 3),
        _ => panic!("expected folders"),
    }
    let dirs = Data::from_parts(
        "/w/p_#_".to_string(),
        '/',
        vec![],
        ScanResult {
            flag_dir_count: 0,
            files: vec![],
            dirs: vec![
                EntryInfo { path: "/w/x".to_string(), name: Some("x".to_string()), is_dir: true },
                EntryInfo { path: "/w/y".to_string(), name: Some("y".to_string()), is_dir: true },
                EntryInfo { path: "/w/z".to_string(), name: Some("z".to_string()), is_dir: true },
            ],
        },
    );
    match plan_run(&dirs, &settings(2, false, true, "[]", "%Y")) {
        RunPlan::CompressDirs(jobs) => {
            assert_eq!(jobs.len(), 3);
            assert_eq!(jobs[2].src_dir, "/w/z");
            assert_eq!(jobs[2].dst_dir, "/w/z.zip");
            assert!(!jobs[0].wait_before && !jobs[1].wait_before && jobs[2].wait_before);
            assert!(jobs[0].signal_after);
        },
        _ => panic!("expected packing jobs"),
    }
    assert!(matches!(plan_run(&dirs, &settings(2, false, false, "[]", "%Y")), RunPlan::Nothing));
    let empty = Data::from_parts("p".to_string(), '/', vec![], ScanResult { flag_dir_count: 0, files: vec![], dirs: vec![] });
    assert!(matches!(plan_run(&empty, &settings(2, false, true, "[]", "%Y")), RunPlan::NoDirs));
}

#[test]
fn data_from_settings() {
    let entries = vec![
        EntryInfo { path: "/w/a.jpg".to_string(), name: Some("a.jpg".to_string()), is_dir: false },
        EntryInfo { path: "/w/b.txt".to_string(), name: Some("b.txt".to_string()), is_dir: false },
        EntryInfo { path: "/w/old_#_1".to_string(), name: Some("old_#_1".to_string()), is_dir: true },
    ];
    let d = Data::new(&settings(2, false, false, "[\"jpg\", \"p\\u006eg\"]", "fixed"), &entries);
    assert_eq!(d.file_type, vec!["jpg".to_string(), "png".to_string()]);
    let sep = std::path::MAIN_SEPARATOR;
    assert_eq!(d.dir_prefix, format!("/w{}fixedpics_#_", sep));
    assert_eq!(d.path_sep, sep);
    assert_eq!(d.suffix_flag_dir_count, 1);
    assert_eq!(d.file_count, 1);
    assert_eq!(d.file_list[0].entry.path, "/w/a.jpg");
    assert_eq!(d.dir_count, 1);
    assert_eq!(d.dir_list[0].path, "/w/old_#_1");
}

#[test]
fn data_rejects_bad_settings() {
    let entries = vec![];
    assert_eq!(
        Data::try_new(&settings(2, false, false, "jpg,png", "%Y"), &entries).err(),
        Some(DataError::FileTypes)
    );
    assert_eq!(
        Data::try_new(&settings(2, false, false, "[\"jpg\"]", "%Q"), &entries).err(),
        Some(DataError::DateFormat)
    );
    assert_eq!(
        Data::try_new(&settings(2, false, false, "jpg", "%#z"), &entries).err(),
        Some(DataError::DateFormat)
    );
    let d = Data::try_new(&settings(2, false, false, "[\"jpg\"]", "x"), &entries).unwrap();
    assert_eq!(d.file_type, vec!["jpg".to_string()]);
}

#[test]
fn every_file_moved_once() {
    let d = data();
    for pick in 1..7 {
        let s = settings(pick, false, false, "[]", "%Y");
        let n = batch_count(d.file_count, pick);
        let mut sources = vec![];
        for i in 0..n {
            let p = plan_batch_random(&d, &s, i);
            for m in &p.moves {
                sources.push(m.from.clone());
            }
        }
        let expected: Vec<String> = d.file_list.iter().map(|f| f.entry.path.clone()).collect();
        assert_eq!(sources, expected);
    }
}

#[test]
fn file_types_and_dates() {
    assert_eq!(parse_file_types("[\"a\",\"b\\\"c\"]"), Ok(vec!["a".to_string(), "b\"c".to_string()]));
    assert_eq!(parse_file_types("[]"), Ok(vec![]));
    assert_eq!(parse_file_types("[1]"), Err(DataError::FileTypes));
    let year = date_text("%Y").unwrap();
    assert_eq!(year.len(), 4);
    assert!(year.chars().all(|c| c.is_ascii_digit()));
    assert_eq!(date_text("fixed-%%").unwrap(), "fixed-%");
    assert_eq!(date_text("%Q"), Err(DataError::DateFormat));
}

#[test]
fn dates_written_at_an_instant() {
    assert_eq!(date_text_at("%Y-%m-%d %H:%M:%S", 0, 0, 3600).unwrap(), "1970-01-01 01:00:00");
    assert_eq!(date_text_at("%Y%m%d", 1_700_000_000, 0, 0).unwrap(), "20231114");
    assert_eq!(date_text_at("%Y%m%d", 1_700_000_000, 0, -86_399).unwrap(), "20231113");
    assert_eq!(date_text_at("no-date", 5, 7, 0).unwrap(), "no-date");
    assert_eq!(date_text_at("%Q", 0, 0, 0), Err(DataError::DateFormat));
    assert_eq!(date_text_at("%#z", 0, 0, 0), Err(DataError::DateFormat));
}
