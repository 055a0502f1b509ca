use random_pickfile::lock::{check_safety_lock, lock_path};

#[test]
fn no_lock_in_the_package_directory() {
    assert!(!check_safety_lock());
}

#[test]
fn lock_file_is_dot_lock_in_working_directory() {
    assert_eq!(lock_path(), "./.lock");
}
